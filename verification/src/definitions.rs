//! Reading the manager definitions out of a catalog document.

use vstd::prelude::*;
use vstd::string::*;
use crate::document::{
    child_path, field_place, find_field, followed_by, item_path, lemma_followed_by_joined,
    lemma_followed_by_nothing, path_to, path_to_item, read_text_field, text_field, Doc, Field,
    SchemaError, SchemaErrorView, Shape,
};
use crate::model::{FlagInfo, FlagInfoView, TomlConfig, TomlPackageManager, TomlPackageManagerView};

verus! {

/// The flag under one field of the table at `at`: the key is the flag's
/// name, the value must be a string and is its description.
pub open spec fn flag_info_of(field: Field, at: Seq<char>) -> Result<
    Seq<FlagInfoView>,
    SchemaErrorView,
> {
    match field.value {
        Doc::Text(t) => Ok(seq![FlagInfoView { name: field.key@, description: t@ }]),
        _ => Err(
            SchemaErrorView::WrongShape { at: child_path(at, field.key@), wanted: Shape::Text },
        ),
    }
}

/// The flags that the fields of the table at `at` list, in the order of
/// the table; the first field whose value is no string gives the error.
pub open spec fn flag_infos_among(fields: Seq<Field>, at: Seq<char>) -> Result<
    Seq<FlagInfoView>,
    SchemaErrorView,
>
    decreases fields.len(),
{
    if fields.len() == 0 {
        Ok(Seq::empty())
    } else {
        match flag_info_of(fields[0], at) {
            Ok(first) => followed_by(first, flag_infos_among(fields.drop_first(), at)),
            Err(e) => Err(e),
        }
    }
}

/// The views of a list of listed flags.
pub open spec fn flag_info_views(v: Seq<FlagInfo>) -> Seq<FlagInfoView> {
    v.map_values(|f: FlagInfo| f@)
}

/// The flags that the fields of the table at `at` list.
pub fn read_flag_infos(fields: &Vec<Field>, at: &str) -> (r: Result<Vec<FlagInfo>, SchemaError>)
    ensures
        match r {
            Ok(v) => flag_infos_among(fields@, at@) == Ok::<_, SchemaErrorView>(
                flag_info_views(v@),
            ),
            Err(e) => flag_infos_among(fields@, at@) == Err::<Seq<FlagInfoView>, _>(e@),
        },
{
    let mut found: Vec<FlagInfo> = Vec::new();
    let mut i: usize = 0;
    proof {
        assert(fields@.skip(0) == fields@);
        assert(flag_info_views(found@) == Seq::<FlagInfoView>::empty());
        lemma_followed_by_nothing(flag_infos_among(fields@, at@));
    }
    while i < fields.len()
        invariant
            i <= fields.len(),
            flag_infos_among(fields@, at@) == followed_by(
                flag_info_views(found@),
                flag_infos_among(fields@.skip(i as int), at@),
            ),
        decreases fields.len() - i,
    {
        let ghost tail = fields@.skip(i as int);
        let ghost before = flag_info_views(found@);
        proof {
            assert(tail[0] == fields@[i as int]);
            assert(tail.drop_first() == fields@.skip(i + 1));
        }
        match &fields[i].value {
            Doc::Text(t) => {
                let info = FlagInfo { name: fields[i].key.clone(), description: t.clone() };
                found.push(info);
                proof {
                    assert(flag_info_views(found@) == before + seq![info@]);
                    lemma_followed_by_joined(
                        before,
                        seq![info@],
                        flag_infos_among(fields@.skip(i + 1), at@),
                    );
                }
            },
            _ => {
                return Err(
                    SchemaError::WrongShape {
                        at: path_to(at, fields[i].key.as_str()),
                        wanted: Shape::Text,
                    },
                );
            },
        }
        i += 1;
    }
    proof {
        assert(flag_info_views(found@) + Seq::<FlagInfoView>::empty() == flag_info_views(found@));
    }
    Ok(found)
}

/// The flags that a definition lists, from the field `others` of the
/// table at `at`: nothing where the field is not there; otherwise it must
/// be a table of strings.
pub open spec fn others_of(fields: Seq<Field>, at: Seq<char>) -> Result<
    Option<Seq<FlagInfoView>>,
    SchemaErrorView,
> {
    if field_place(fields, "others"@) >= fields.len() {
        Ok(None)
    } else {
        match fields[field_place(fields, "others"@)].value {
            Doc::Table { fields: listed, .. } => match flag_infos_among(
                listed@,
                child_path(at, "others"@),
            ) {
                Ok(infos) => Ok(Some(infos)),
                Err(e) => Err(e),
            },
            _ => Err(
                SchemaErrorView::WrongShape {
                    at: child_path(at, "others"@),
                    wanted: Shape::Table,
                },
            ),
        }
    }
}

/// The view of a list of listed flags that may be there.
pub open spec fn others_view(others: Option<Vec<FlagInfo>>) -> Option<Seq<FlagInfoView>> {
    match others {
        Some(v) => Some(flag_info_views(v@)),
        None => None,
    }
}

/// The flags that a definition lists, from the field `others`.
pub fn read_others(fields: &Vec<Field>, at: &str) -> (r: Result<Option<Vec<FlagInfo>>, SchemaError>)
    ensures
        match r {
            Ok(o) => others_of(fields@, at@) == Ok::<_, SchemaErrorView>(others_view(o)),
            Err(e) => others_of(fields@, at@) == Err::<Option<Seq<FlagInfoView>>, _>(e@),
        },
{
    let place = find_field(fields, "others");
    if place >= fields.len() {
        return Ok(None);
    }
    let path = path_to(at, "others");
    match &fields[place].value {
        Doc::Table { fields: listed, text: _ } => match read_flag_infos(listed, path.as_str()) {
            Ok(infos) => Ok(Some(infos)),
            Err(e) => Err(e),
        },
        _ => Err(SchemaError::WrongShape { at: path, wanted: Shape::Table }),
    }
}

/// The definition that the value at `at` holds: a table with the strings
/// `id`, `check`, `bootstrap`, `enable` and `install`, looked at in this
/// order, and the flags it may list under `others`. Other fields are
/// passed over.
pub open spec fn definition_in(doc: Doc, at: Seq<char>) -> Result<
    TomlPackageManagerView,
    SchemaErrorView,
> {
    match doc {
        Doc::Table { fields, .. } => match text_field(fields@, at, "id"@) {
            Err(e) => Err(e),
            Ok(id) => match text_field(fields@, at, "check"@) {
                Err(e) => Err(e),
                Ok(check) => match text_field(fields@, at, "bootstrap"@) {
                    Err(e) => Err(e),
                    Ok(bootstrap) => match text_field(fields@, at, "enable"@) {
                        Err(e) => Err(e),
                        Ok(enable) => match text_field(fields@, at, "install"@) {
                            Err(e) => Err(e),
                            Ok(install) => match others_of(fields@, at) {
                                Err(e) => Err(e),
                                Ok(others) => Ok(
                                    TomlPackageManagerView {
                                        id,
                                        check,
                                        bootstrap,
                                        enable,
                                        install,
                                        others,
                                    },
                                ),
                            },
                        },
                    },
                },
            },
        },
        _ => Err(SchemaErrorView::WrongShape { at, wanted: Shape::Table }),
    }
}

/// The definition that the value at `at` holds.
pub fn read_definition(doc: &Doc, at: &str) -> (r: Result<TomlPackageManager, SchemaError>)
    ensures
        match r {
            Ok(def) => definition_in(*doc, at@) == Ok::<_, SchemaErrorView>(def@),
            Err(e) => definition_in(*doc, at@) == Err::<TomlPackageManagerView, _>(e@),
        },
{
    match doc {
        Doc::Table { fields, text: _ } => {
            let id = match read_text_field(fields, at, "id") {
                Ok(v) => v,
                Err(e) => {
                    return Err(e);
                },
            };
            let check = match read_text_field(fields, at, "check") {
                Ok(v) => v,
                Err(e) => {
                    return Err(e);
                },
            };
            let bootstrap = match read_text_field(fields, at, "bootstrap") {
                Ok(v) => v,
                Err(e) => {
                    return Err(e);
                },
            };
            let enable = match read_text_field(fields, at, "enable") {
                Ok(v) => v,
                Err(e) => {
                    return Err(e);
                },
            };
            let install = match read_text_field(fields, at, "install") {
                Ok(v) => v,
                Err(e) => {
                    return Err(e);
                },
            };
            match read_others(fields, at) {
                Ok(others) => Ok(
                    TomlPackageManager { id, check, bootstrap, enable, install, others },
                ),
                Err(e) => Err(e),
            }
        },
        _ => Err(SchemaError::WrongShape { at: at.to_owned(), wanted: Shape::Table }),
    }
}

/// The definitions that the items of the list at `at` hold, the first of
/// them being item `from` of that list; the first item that holds none
/// gives the error.
pub open spec fn definitions_among(items: Seq<Doc>, at: Seq<char>, from: nat) -> Result<
    Seq<TomlPackageManagerView>,
    SchemaErrorView,
>
    decreases items.len(),
{
    if items.len() == 0 {
        Ok(Seq::empty())
    } else {
        match definition_in(items[0], item_path(at, from)) {
            Ok(first) => followed_by(
                seq![first],
                definitions_among(items.drop_first(), at, from + 1),
            ),
            Err(e) => Err(e),
        }
    }
}

/// The definitions that a catalog document holds. The document must be a
/// table whose field `package_manager` is a list of definitions.
pub open spec fn definitions_of(doc: Doc) -> Result<
    Seq<TomlPackageManagerView>,
    SchemaErrorView,
> {
    match doc {
        Doc::Table { fields, .. } => if field_place(fields@, "package_manager"@)
            >= fields@.len() {
            Err(SchemaErrorView::MissingField { at: Seq::empty(), field: "package_manager"@ })
        } else {
            match fields@[field_place(fields@, "package_manager"@)].value {
                Doc::List { items, .. } => definitions_among(items@, "package_manager"@, 0),
                _ => Err(
                    SchemaErrorView::WrongShape { at: "package_manager"@, wanted: Shape::List },
                ),
            }
        },
        _ => Err(SchemaErrorView::WrongShape { at: Seq::empty(), wanted: Shape::Table }),
    }
}

/// Reads the definitions that a catalog document holds, in the
/// document's order, or names the first place where the document is not
/// of a catalog's shape.
pub fn read_definitions(doc: &Doc) -> (r: Result<TomlConfig, SchemaError>)
    ensures
        match r {
            Ok(config) => definitions_of(*doc) == Ok::<_, SchemaErrorView>(config@),
            Err(e) => definitions_of(*doc) == Err::<Seq<TomlPackageManagerView>, _>(e@),
        },
{
    let fields = match doc {
        Doc::Table { fields, text: _ } => fields,
        _ => {
            return Err(SchemaError::WrongShape { at: String::new(), wanted: Shape::Table });
        },
    };
    let place = find_field(fields, "package_manager");
    if place >= fields.len() {
        return Err(
            SchemaError::MissingField {
                at: String::new(),
                field: String::from_str("package_manager"),
            },
        );
    }
    let items = match &fields[place].value {
        Doc::List { items, text: _ } => items,
        _ => {
            return Err(
                SchemaError::WrongShape {
                    at: String::from_str("package_manager"),
                    wanted: Shape::List,
                },
            );
        },
    };
    let ghost whole = definitions_among(items@, "package_manager"@, 0);
    let mut found: Vec<TomlPackageManager> = Vec::new();
    let mut i: usize = 0;
    proof {
        assert(items@.skip(0) == items@);
        assert(found@.map_values(|m: TomlPackageManager| m@) == Seq::<
            TomlPackageManagerView,
        >::empty());
        lemma_followed_by_nothing(whole);
    }
    while i < items.len()
        invariant
            i <= items.len(),
            whole == definitions_of(*doc),
            whole == followed_by(
                found@.map_values(|m: TomlPackageManager| m@),
                definitions_among(items@.skip(i as int), "package_manager"@, i as nat),
            ),
        decreases items.len() - i,
    {
        let ghost tail = items@.skip(i as int);
        let ghost before = found@.map_values(|m: TomlPackageManager| m@);
        proof {
            assert(tail[0] == items@[i as int]);
            assert(tail.drop_first() == items@.skip(i + 1));
        }
        let path = path_to_item("package_manager", i);
        match read_definition(&items[i], path.as_str()) {
            Err(e) => {
                return Err(e);
            },
            Ok(def) => {
                found.push(def);
                proof {
                    assert(found@.map_values(|m: TomlPackageManager| m@) == before + seq![def@]);
                    lemma_followed_by_joined(
                        before,
                        seq![def@],
                        definitions_among(items@.skip(i + 1), "package_manager"@, (i + 1) as nat),
                    );
                }
            },
        }
        i += 1;
    }
    proof {
        assert(found@.map_values(|m: TomlPackageManager| m@) + Seq::<
            TomlPackageManagerView,
        >::empty() == found@.map_values(|m: TomlPackageManager| m@));
    }
    Ok(TomlConfig { package_manager: found })
}

} // verus!
