use restore_engine::model::{
    Config, CustomPackages, Flag, FlagInfo, FlagValue, ManagerRequest, ManagerSpec, PackageList,
    PackageManagement, TomlConfig, TomlPackageManager,
};
use restore_engine::definitions::read_definitions;
use restore_engine::document::{
    decimal, find_field, path_to, path_to_item, read_text_list, Doc, Field, SchemaError, Shape,
};
use restore_engine::manifest::{convert, read_flag_value};

fn text(s: &str) -> Doc {
    Doc::Text(s.to_string())
}

fn list(items: Vec<Doc>) -> Doc {
    Doc::List { items, text: "[..]".to_string() }
}

fn table(fields: Vec<(&str, Doc)>) -> Doc {
    Doc::Table {
        fields: fields.into_iter().map(|(k, v)| Field { key: k.to_string(), value: v }).collect(),
        text: "{..}".to_string(),
    }
}

fn texts(items: &[&str]) -> Doc {
    list(items.iter().map(|s| text(s)).collect())
}

fn strings(items: &[&str]) -> Vec<String> {
    items.iter().map(|s| s.to_string()).collect()
}

fn wrong(at: &str, wanted: Shape) -> SchemaError {
    SchemaError::WrongShape { at: at.to_string(), wanted }
}

fn missing(at: &str, field: &str) -> SchemaError {
    SchemaError::MissingField { at: at.to_string(), field: field.to_string() }
}

fn manifest(management: Vec<(&str, Doc)>, packages: Vec<(&str, Doc)>) -> Doc {
    table(vec![("package_management", table(management)), ("custom_packages", table(packages))])
}

fn scripts() -> Vec<(&'static str, Doc)> {
    vec![("pre", texts(&[])), ("post", texts(&[]))]
}

#[test]
fn manifest_is_read_with_open_manager_keys() {
    let doc = manifest(
        vec![
            ("flatpak", table(vec![
                ("beta", Doc::Bool(true)),
                ("enabled", Doc::Bool(true)),
                ("level", Doc::Number("3".to_string())),
                ("remote", text("flathub")),
                ("extra", Doc::Null),
                ("mirrors", Doc::List { items: vec![text("a")], text: "[\"a\"]".to_string() }),
            ])),
            ("pre", texts(&["echo hi"])),
            ("apt", Doc::Bool(false)),
            ("post", texts(&["echo bye", "sync"])),
        ],
        vec![("pre", texts(&[])), ("apt", texts(&["curl", "git"])), ("post", texts(&["x"])), ("nix", texts(&[]))],
    );
    let expected = Config {
        package_management: PackageManagement {
            pre: strings(&["echo hi"]),
            post: strings(&["echo bye", "sync"]),
            managers: vec![
                ManagerRequest {
                    id: "flatpak".to_string(),
                    spec: ManagerSpec::Object {
                        enabled: true,
                        flags: vec![
                            Flag { name: "beta".to_string(), value: FlagValue::Bool(true) },
                            Flag { name: "level".to_string(), value: FlagValue::Number("3".to_string()) },
                            Flag { name: "remote".to_string(), value: FlagValue::Text("flathub".to_string()) },
                            Flag { name: "extra".to_string(), value: FlagValue::Null },
                            Flag { name: "mirrors".to_string(), value: FlagValue::Compound("[\"a\"]".to_string()) },
                        ],
                    },
                },
                ManagerRequest { id: "apt".to_string(), spec: ManagerSpec::Bool(false) },
            ],
        },
        custom_packages: CustomPackages {
            pre: vec![],
            post: strings(&["x"]),
            by_manager: vec![
                PackageList { manager: "apt".to_string(), packages: strings(&["curl", "git"]) },
                PackageList { manager: "nix".to_string(), packages: vec![] },
            ],
        },
    };
    assert_eq!(convert(&doc), Ok(expected));
}

#[test]
fn manifest_must_be_a_table() {
    assert_eq!(convert(&texts(&[])), Err(wrong("", Shape::Table)));
    assert_eq!(convert(&Doc::Null), Err(wrong("", Shape::Table)));
}

#[test]
fn manifest_is_closed_on_its_two_fields() {
    let doc = table(vec![
        ("package_management", table(scripts())),
        ("extras", Doc::Null),
        ("custom_packages", table(scripts())),
    ]);
    assert_eq!(
        convert(&doc),
        Err(SchemaError::UnknownField { at: String::new(), field: "extras".to_string() })
    );
}

#[test]
fn unknown_field_is_named_before_a_missing_one() {
    let doc = table(vec![("extras", Doc::Null)]);
    assert_eq!(
        convert(&doc),
        Err(SchemaError::UnknownField { at: String::new(), field: "extras".to_string() })
    );
}

#[test]
fn manifest_needs_both_parts() {
    assert_eq!(convert(&table(vec![])), Err(missing("", "package_management")));
    assert_eq!(
        convert(&table(vec![("package_management", table(scripts()))])),
        Err(missing("", "custom_packages"))
    );
    assert_eq!(
        convert(&table(vec![("custom_packages", table(scripts()))])),
        Err(missing("", "package_management"))
    );
}

#[test]
fn script_lists_are_required() {
    let doc = manifest(vec![("post", texts(&[]))], scripts());
    assert_eq!(convert(&doc), Err(missing("package_management", "pre")));
    let doc = manifest(vec![("pre", texts(&[]))], scripts());
    assert_eq!(convert(&doc), Err(missing("package_management", "post")));
    let doc = manifest(scripts(), vec![("pre", texts(&[]))]);
    assert_eq!(convert(&doc), Err(missing("custom_packages", "post")));
}

#[test]
fn script_lists_must_be_lists_of_strings() {
    let doc = manifest(vec![("pre", text("echo")), ("post", texts(&[]))], scripts());
    assert_eq!(convert(&doc), Err(wrong("package_management.pre", Shape::TextList)));
    let doc = manifest(
        vec![("pre", texts(&[])), ("post", list(vec![text("a"), Doc::Bool(true)]))],
        scripts(),
    );
    assert_eq!(convert(&doc), Err(wrong("package_management.post", Shape::TextList)));
}

#[test]
fn parts_must_be_tables() {
    let doc = table(vec![("package_management", texts(&[])), ("custom_packages", table(scripts()))]);
    assert_eq!(convert(&doc), Err(wrong("package_management", Shape::Table)));
    let doc = table(vec![("package_management", table(scripts())), ("custom_packages", Doc::Bool(true))]);
    assert_eq!(convert(&doc), Err(wrong("custom_packages", Shape::Table)));
}

#[test]
fn manager_request_is_a_boolean_or_a_table_with_enabled() {
    let mut fields = scripts();
    fields.push(("apt", text("yes")));
    assert_eq!(
        convert(&manifest(fields, scripts())),
        Err(wrong("package_management.apt", Shape::BoolOrTable))
    );
    let mut fields = scripts();
    fields.push(("apt", table(vec![("y", Doc::Bool(true))])));
    assert_eq!(
        convert(&manifest(fields, scripts())),
        Err(missing("package_management.apt", "enabled"))
    );
    let mut fields = scripts();
    fields.push(("apt", table(vec![("enabled", text("true"))])));
    assert_eq!(
        convert(&manifest(fields, scripts())),
        Err(wrong("package_management.apt.enabled", Shape::Bool))
    );
}

#[test]
fn first_bad_manager_in_document_order_is_named() {
    let mut fields = scripts();
    fields.push(("a", Doc::Bool(true)));
    fields.push(("b", Doc::Null));
    fields.push(("c", text("x")));
    assert_eq!(
        convert(&manifest(fields, scripts())),
        Err(wrong("package_management.b", Shape::BoolOrTable))
    );
}

#[test]
fn managers_part_is_read_before_packages_part() {
    let mut fields = scripts();
    fields.push(("apt", Doc::Null));
    let doc = manifest(fields, vec![("pre", Doc::Null)]);
    assert_eq!(convert(&doc), Err(wrong("package_management.apt", Shape::BoolOrTable)));
}

#[test]
fn package_lists_must_be_lists_of_strings() {
    let mut packages = scripts();
    packages.push(("apt", texts(&["curl"])));
    packages.push(("snap", list(vec![Doc::Number("1".to_string())])));
    assert_eq!(
        convert(&manifest(scripts(), packages)),
        Err(wrong("custom_packages.snap", Shape::TextList))
    );
}

fn definition(fields: Vec<(&str, Doc)>) -> Doc {
    let mut all = vec![
        ("id", text("apt")),
        ("check", text("apt -v")),
        ("bootstrap", text("")),
        ("enable", text("")),
        ("install", text("apt install {{package}}")),
    ];
    all.extend(fields);
    table(all)
}

fn without(field: &str) -> Doc {
    match definition(vec![]) {
        Doc::Table { fields, text } => {
            Doc::Table { fields: fields.into_iter().filter(|f| f.key != field).collect(), text }
        }
        other => other,
    }
}

fn catalog_doc(items: Vec<Doc>) -> Doc {
    table(vec![("title", text("managers")), ("package_manager", list(items))])
}

#[test]
fn definitions_are_read_in_document_order() {
    let doc = catalog_doc(vec![
        definition(vec![("comment", Doc::Bool(true))]),
        definition(vec![("others", table(vec![("beta", text("use beta")), ("y", text("yes"))]))]),
        definition(vec![("others", table(vec![]))]),
    ]);
    let plain = TomlPackageManager {
        id: "apt".to_string(),
        check: "apt -v".to_string(),
        bootstrap: String::new(),
        enable: String::new(),
        install: "apt install {{package}}".to_string(),
        others: None,
    };
    let mut flagged = plain.clone();
    flagged.others = Some(vec![
        FlagInfo { name: "beta".to_string(), description: "use beta".to_string() },
        FlagInfo { name: "y".to_string(), description: "yes".to_string() },
    ]);
    let mut listed = plain.clone();
    listed.others = Some(vec![]);
    assert_eq!(
        read_definitions(&doc),
        Ok(TomlConfig { package_manager: vec![plain, flagged, listed] })
    );
}

#[test]
fn empty_catalog_document() {
    assert_eq!(read_definitions(&catalog_doc(vec![])), Ok(TomlConfig { package_manager: vec![] }));
}

#[test]
fn catalog_document_must_hold_a_list_of_definitions() {
    assert_eq!(read_definitions(&Doc::Null), Err(wrong("", Shape::Table)));
    assert_eq!(read_definitions(&table(vec![])), Err(missing("", "package_manager")));
    assert_eq!(
        read_definitions(&table(vec![("package_manager", table(vec![]))])),
        Err(wrong("package_manager", Shape::List))
    );
    assert_eq!(
        read_definitions(&catalog_doc(vec![definition(vec![]), text("apt")])),
        Err(wrong("package_manager[1]", Shape::Table))
    );
}

#[test]
fn definition_fields_are_required_strings() {
    for (i, field) in ["id", "check", "bootstrap", "enable", "install"].iter().enumerate() {
        let mut items: Vec<Doc> = (0..i).map(|_| definition(vec![])).collect();
        items.push(without(field));
        assert_eq!(
            read_definitions(&catalog_doc(items)),
            Err(missing(&format!("package_manager[{}]", i), field))
        );
    }
    let doc = catalog_doc(vec![table(vec![("id", text("apt")), ("check", Doc::Bool(true))])]);
    assert_eq!(read_definitions(&doc), Err(wrong("package_manager[0].check", Shape::Text)));
    let doc = catalog_doc(vec![table(vec![("id", Doc::Date("2024-01-01".to_string()))])]);
    assert_eq!(read_definitions(&doc), Err(wrong("package_manager[0].id", Shape::Text)));
}

#[test]
fn listed_flags_must_be_a_table_of_strings() {
    let doc = catalog_doc(vec![definition(vec![("others", texts(&["beta"]))])]);
    assert_eq!(read_definitions(&doc), Err(wrong("package_manager[0].others", Shape::Table)));
    let doc = catalog_doc(vec![definition(vec![(
        "others",
        table(vec![("beta", text("b")), ("level", Doc::Number("1".to_string()))]),
    )])]);
    assert_eq!(read_definitions(&doc), Err(wrong("package_manager[0].others.level", Shape::Text)));
}

#[test]
fn messages_name_the_place() {
    assert_eq!(wrong("", Shape::Table).message(), "expected a table at the document");
    assert_eq!(
        wrong("package_management.pre", Shape::TextList).message(),
        "expected a list of strings at `package_management.pre`"
    );
    assert_eq!(wrong("a", Shape::List).message(), "expected a list at `a`");
    assert_eq!(wrong("a", Shape::Text).message(), "expected a string at `a`");
    assert_eq!(wrong("a", Shape::Bool).message(), "expected a boolean at `a`");
    assert_eq!(wrong("a", Shape::BoolOrTable).message(), "expected a boolean or a table at `a`");
    assert_eq!(missing("", "custom_packages").message(), "missing field `custom_packages` in the document");
    assert_eq!(
        missing("package_manager[12]", "id").message(),
        "missing field `id` in `package_manager[12]`"
    );
    assert_eq!(
        SchemaError::UnknownField { at: String::new(), field: "x".to_string() }.message(),
        "unknown field `x` in the document"
    );
}

#[test]
fn decimal_writes_numbers_without_leading_zeros() {
    assert_eq!(decimal(0), "0");
    assert_eq!(decimal(7), "7");
    assert_eq!(decimal(10), "10");
    assert_eq!(decimal(1234567890), "1234567890");
    assert_eq!(decimal(usize::MAX), usize::MAX.to_string());
}

#[test]
fn paths_join_keys_and_item_numbers() {
    assert_eq!(path_to("", "a"), "a");
    assert_eq!(path_to("a", "b"), "a.b");
    assert_eq!(path_to_item("list", 0), "list[0]");
    assert_eq!(path_to_item("a.b", 105), "a.b[105]");
}

#[test]
fn find_field_gives_first_field_or_length() {
    let fields = vec![
        Field { key: "a".to_string(), value: Doc::Null },
        Field { key: "b".to_string(), value: Doc::Null },
        Field { key: "a".to_string(), value: Doc::Bool(true) },
    ];
    assert_eq!(find_field(&fields, "a"), 0);
    assert_eq!(find_field(&fields, "b"), 1);
    assert_eq!(find_field(&fields, "c"), 3);
}

#[test]
fn text_list_is_all_or_nothing() {
    assert_eq!(read_text_list(&texts(&["a", "b"])), Some(strings(&["a", "b"])));
    assert_eq!(read_text_list(&texts(&[])), Some(vec![]));
    assert_eq!(read_text_list(&list(vec![text("a"), Doc::Null])), None);
    assert_eq!(read_text_list(&text("a")), None);
}

#[test]
fn flag_values_follow_the_kind_of_value() {
    assert_eq!(read_flag_value(&Doc::Null), FlagValue::Null);
    assert_eq!(read_flag_value(&Doc::Bool(true)), FlagValue::Bool(true));
    assert_eq!(read_flag_value(&Doc::Number("-2.5".to_string())), FlagValue::Number("-2.5".to_string()));
    assert_eq!(read_flag_value(&text("x")), FlagValue::Text("x".to_string()));
    assert_eq!(read_flag_value(&Doc::Date("1979-05-27".to_string())), FlagValue::Text("1979-05-27".to_string()));
    assert_eq!(
        read_flag_value(&Doc::List { items: vec![], text: "[]".to_string() }),
        FlagValue::Compound("[]".to_string())
    );
    assert_eq!(
        read_flag_value(&Doc::Table { fields: vec![], text: "{}".to_string() }),
        FlagValue::Compound("{}".to_string())
    );
}
