use restore_engine::catalog::{load_toml_defs, Catalog};
use restore_engine::model::{
    Config, CustomPackages, Flag, FlagInfo, FlagValue, ManagerRequest, ManagerSpec, PackageList,
    PackageManagement, TomlConfig, TomlPackageManager,
};
use restore_engine::report::{report, show, snapshot_entry};
use restore_engine::text::join;
use restore_engine::validate::{compare_and_report, find_violation, validate, Violation};

fn manager(id: &str, others: Option<Vec<&str>>) -> TomlPackageManager {
    TomlPackageManager {
        id: id.to_string(),
        check: format!("{} --version", id),
        bootstrap: format!("install-{}", id),
        enable: String::new(),
        install: format!("{} install {{{{package}}}}", id),
        others: others.map(|names| {
            names
                .into_iter()
                .map(|n| FlagInfo { name: n.to_string(), description: format!("about {}", n) })
                .collect()
        }),
    }
}

fn catalog() -> Catalog {
    load_toml_defs(TomlConfig {
        package_manager: vec![
            manager("apt", None),
            manager("flatpak", Some(vec!["beta", "channel"])),
            manager("snap", Some(vec![])),
        ],
    })
}

fn flag(name: &str, value: FlagValue) -> Flag {
    Flag { name: name.to_string(), value }
}

fn request(id: &str, spec: ManagerSpec) -> ManagerRequest {
    ManagerRequest { id: id.to_string(), spec }
}

fn config(managers: Vec<ManagerRequest>, lists: Vec<(&str, Vec<&str>)>) -> Config {
    Config {
        package_management: PackageManagement { pre: vec![], post: vec![], managers },
        custom_packages: CustomPackages {
            pre: vec![],
            post: vec![],
            by_manager: lists
                .into_iter()
                .map(|(m, p)| PackageList {
                    manager: m.to_string(),
                    packages: p.into_iter().map(|s| s.to_string()).collect(),
                })
                .collect(),
        },
    }
}

#[test]
fn undefined_manager_is_the_first_violation() {
    let cfg = config(
        vec![
            request("apt", ManagerSpec::Bool(true)),
            request("brew", ManagerSpec::Bool(true)),
            request("yum", ManagerSpec::Bool(false)),
        ],
        vec![("pip", vec!["x"])],
    );
    let found = find_violation(&cfg, &catalog());
    assert_eq!(found, Some(Violation::UnknownManager { id: "brew".to_string() }));
    assert_eq!(
        compare_and_report(&cfg, &catalog()),
        Err("Unknown manager 'brew' in JSON; not defined in Packages.toml".to_string())
    );
}

#[test]
fn earlier_flag_fault_wins_over_later_unknown_manager() {
    let cfg = config(
        vec![
            request(
                "flatpak",
                ManagerSpec::Object { enabled: true, flags: vec![flag("gamma", FlagValue::Null)] },
            ),
            request("brew", ManagerSpec::Bool(true)),
        ],
        vec![],
    );
    assert_eq!(
        validate(&cfg, &catalog()),
        Err(Violation::UnknownFlag { flag: "gamma".to_string(), manager: "flatpak".to_string() })
    );
}

#[test]
fn unknown_flag_message() {
    let v = Violation::UnknownFlag { flag: "gamma".to_string(), manager: "flatpak".to_string() };
    assert_eq!(
        v.message(),
        "Unknown flag 'gamma' for manager 'flatpak' in JSON; not defined in Packages.toml"
    );
}

#[test]
fn complex_flag_value_is_rejected() {
    let cfg = config(
        vec![request(
            "flatpak",
            ManagerSpec::Object {
                enabled: true,
                flags: vec![
                    flag("beta", FlagValue::Bool(true)),
                    flag("channel", FlagValue::Compound("[1,2]".to_string())),
                ],
            },
        )],
        vec![],
    );
    let expected = Violation::ComplexValue {
        flag: "channel".to_string(),
        manager: "flatpak".to_string(),
        value: "[1,2]".to_string(),
    };
    assert_eq!(find_violation(&cfg, &catalog()), Some(expected.clone()));
    assert_eq!(
        expected.message(),
        "Unsupported complex value for flag 'channel' on 'flatpak': [1,2]"
    );
}

#[test]
fn unknown_name_is_reported_before_complex_value_of_same_flag() {
    let cfg = config(
        vec![request(
            "flatpak",
            ManagerSpec::Object {
                enabled: true,
                flags: vec![flag("other", FlagValue::Compound("{}".to_string()))],
            },
        )],
        vec![],
    );
    assert_eq!(
        find_violation(&cfg, &catalog()),
        Some(Violation::UnknownFlag { flag: "other".to_string(), manager: "flatpak".to_string() })
    );
}

#[test]
fn manager_without_flag_list_accepts_no_flags() {
    let cfg = config(
        vec![request(
            "apt",
            ManagerSpec::Object {
                enabled: true,
                flags: vec![flag("y", FlagValue::Bool(true)), flag("q", FlagValue::Null)],
            },
        )],
        vec![],
    );
    let expected = Violation::FlagsNotSupported {
        manager: "apt".to_string(),
        flags: vec!["y".to_string(), "q".to_string()],
    };
    assert_eq!(find_violation(&cfg, &catalog()), Some(expected.clone()));
    assert_eq!(
        expected.message(),
        "Manager 'apt' does not support flags (TOML has no 'others'), but JSON provided: y, q"
    );
}

#[test]
fn manager_without_flag_list_accepts_object_without_flags() {
    let cfg = config(
        vec![request("apt", ManagerSpec::Object { enabled: true, flags: vec![] })],
        vec![],
    );
    assert_eq!(find_violation(&cfg, &catalog()), None);
}

#[test]
fn manager_with_empty_flag_list_rejects_any_flag() {
    let cfg = config(
        vec![request(
            "snap",
            ManagerSpec::Object { enabled: true, flags: vec![flag("classic", FlagValue::Bool(true))] },
        )],
        vec![],
    );
    assert_eq!(
        find_violation(&cfg, &catalog()),
        Some(Violation::UnknownFlag { flag: "classic".to_string(), manager: "snap".to_string() })
    );
}

#[test]
fn unknown_package_key_is_rejected_after_the_managers() {
    let cfg = config(
        vec![request("apt", ManagerSpec::Bool(true))],
        vec![("apt", vec!["curl"]), ("pip", vec!["x"]), ("gem", vec![])],
    );
    let expected = Violation::UnknownPackageKey { manager: "pip".to_string() };
    assert_eq!(find_violation(&cfg, &catalog()), Some(expected.clone()));
    assert_eq!(
        expected.message(),
        "Unknown custom_packages key 'pip' in JSON; must be defined in Packages.toml"
    );
}

#[test]
fn disabled_manager_is_validated_too() {
    let cfg = config(vec![request("brew", ManagerSpec::Bool(false))], vec![]);
    assert_eq!(
        find_violation(&cfg, &catalog()),
        Some(Violation::UnknownManager { id: "brew".to_string() })
    );
}

#[test]
fn empty_manifest_is_accepted() {
    let cfg = config(vec![], vec![]);
    assert_eq!(find_violation(&cfg, &catalog()), None);
    assert!(validate(&cfg, &catalog()).is_ok());
}

#[test]
fn valid_manifest_gives_the_report() {
    let cfg = config(
        vec![
            request("apt", ManagerSpec::Bool(true)),
            request(
                "flatpak",
                ManagerSpec::Object {
                    enabled: false,
                    flags: vec![
                        flag("beta", FlagValue::Bool(true)),
                        flag("channel", FlagValue::Text("stable".to_string())),
                    ],
                },
            ),
        ],
        vec![("apt", vec!["curl", "git"]), ("flatpak", vec![])],
    );
    let expected = [
        "Validation OK\n",
        "\n",
        "Defined package managers (TOML):\n",
        " - apt\n",
        "    check: apt --version\n",
        "    bootstrap: install-apt\n",
        "    install: apt install {{package}}\n",
        " - flatpak\n",
        "    check: flatpak --version\n",
        "    bootstrap: install-flatpak\n",
        "    install: flatpak install {{package}}\n",
        "    flags: beta, channel\n",
        " - snap\n",
        "    check: snap --version\n",
        "    bootstrap: install-snap\n",
        "    install: snap install {{package}}\n",
        "\n",
        "JSON snapshot (parsed):\n",
        " - apt (enabled: true)\n",
        " - flatpak (enabled: false)\n",
        "    flags: beta=true, channel=\"stable\"\n",
        "\n",
        "Custom packages by manager:\n",
        " - apt: curl, git\n",
        " - flatpak: (none)\n",
    ]
    .concat();
    assert_eq!(validate(&cfg, &catalog()), Ok(expected.to_string()));
    assert_eq!(compare_and_report(&cfg, &catalog()), Ok(expected.to_string()));
    assert_eq!(report(&cfg, &catalog()), expected);
}

#[test]
fn report_shows_enable_line_only_when_not_blank() {
    let mut with_enable = manager("nix", None);
    with_enable.enable = "nix-enable".to_string();
    with_enable.bootstrap = "  ".to_string();
    let catalog = load_toml_defs(TomlConfig { package_manager: vec![with_enable] });
    let text = report(&config(vec![], vec![]), &catalog);
    assert_eq!(
        text,
        "Validation OK\n\nDefined package managers (TOML):\n - nix\n    check: nix --version\n    enable: nix-enable\n    install: nix install {{package}}\n\nJSON snapshot (parsed):\n\nCustom packages by manager:\n"
    );
}

#[test]
fn flag_values_are_shown_as_json_writes_them() {
    assert_eq!(show(&FlagValue::Null), "null");
    assert_eq!(show(&FlagValue::Bool(false)), "false");
    assert_eq!(show(&FlagValue::Number("1.5".to_string())), "1.5");
    assert_eq!(show(&FlagValue::Text("stable".to_string())), "\"stable\"");
    assert_eq!(show(&FlagValue::Text("a\"b\\c\n".to_string())), "\"a\\\"b\\\\c\\n\"");
    assert_eq!(show(&FlagValue::Compound("{\"a\":1}".to_string())), "{\"a\":1}");
}

#[test]
fn snapshot_entry_joins_name_and_value() {
    assert_eq!(snapshot_entry("beta", "true"), "beta=true");
    assert_eq!(snapshot_entry("", ""), "=");
}

#[test]
fn join_puts_separator_between_parts() {
    assert_eq!(join(&vec![], ", "), "");
    assert_eq!(join(&vec!["a".to_string()], ", "), "a");
    assert_eq!(join(&vec!["a".to_string(), "b".to_string(), "".to_string()], ", "), "a, b, ");
}
