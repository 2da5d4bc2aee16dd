//! Reading the manifest out of a document: the two parts, the script
//! lists, and under every other key a manager request or a package list.

use vstd::prelude::*;
use vstd::string::*;
use crate::document::{
    child_path, distinct_keys, field_place, fields_of, find_field, followed_by,
    lemma_followed_by_joined, lemma_followed_by_nothing, list_field, path_to, read_list_field,
    read_text_list, text_list, Doc, Field, SchemaError, SchemaErrorView, Shape,
};
use crate::model::{
    distinct, flag_views, list_managers, request_flag_names, request_ids, Config, ConfigView,
    CustomPackages, CustomPackagesView, Flag, FlagValue, FlagValueView, FlagView, ManagerRequest,
    ManagerRequestView, ManagerSpec, ManagerSpecView, PackageList, PackageListView,
    PackageManagement, PackageManagementView,
};

verus! {

/// The flag value that a document value stands for: a list or a table by
/// its text, a date by its text as a string.
pub open spec fn flag_value_of(doc: Doc) -> FlagValueView {
    match doc {
        Doc::Null => FlagValueView::Null,
        Doc::Bool(b) => FlagValueView::Bool(b),
        Doc::Number(t) => FlagValueView::Number(t@),
        Doc::Text(t) => FlagValueView::Text(t@),
        Doc::Date(t) => FlagValueView::Text(t@),
        Doc::List { text, .. } => FlagValueView::Compound(text@),
        Doc::Table { text, .. } => FlagValueView::Compound(text@),
    }
}

/// The flag value that a document value stands for.
pub fn read_flag_value(doc: &Doc) -> (v: FlagValue)
    ensures
        v@ == flag_value_of(*doc),
{
    match doc {
        Doc::Null => FlagValue::Null,
        Doc::Bool(b) => FlagValue::Bool(*b),
        Doc::Number(t) => FlagValue::Number(t.clone()),
        Doc::Text(t) => FlagValue::Text(t.clone()),
        Doc::Date(t) => FlagValue::Text(t.clone()),
        Doc::List { items: _, text } => FlagValue::Compound(text.clone()),
        Doc::Table { fields: _, text } => FlagValue::Compound(text.clone()),
    }
}

/// The flags among the fields of a manager request: every field but
/// `enabled`, in the order of the table.
pub open spec fn flags_among(fields: Seq<Field>) -> Seq<FlagView>
    decreases fields.len(),
{
    if fields.len() == 0 {
        Seq::empty()
    } else if fields.last().key@ == "enabled"@ {
        flags_among(fields.drop_last())
    } else {
        flags_among(fields.drop_last()).push(
            FlagView { name: fields.last().key@, value: flag_value_of(fields.last().value) },
        )
    }
}

/// The flags among the fields of a manager request.
pub fn read_flags(fields: &Vec<Field>) -> (flags: Vec<Flag>)
    ensures
        flag_views(flags@) == flags_among(fields@),
{
    let switch = String::from_str("enabled");
    let mut flags: Vec<Flag> = Vec::new();
    let mut i: usize = 0;
    proof {
        assert(flag_views(flags@) == Seq::<FlagView>::empty());
    }
    while i < fields.len()
        invariant
            i <= fields.len(),
            switch@ == "enabled"@,
            flag_views(flags@) == flags_among(fields@.take(i as int)),
        decreases fields.len() - i,
    {
        proof {
            assert(fields@.take(i + 1).drop_last() == fields@.take(i as int));
            assert(fields@.take(i + 1).last() == fields@[i as int]);
        }
        if fields[i].key != switch {
            let ghost before = flag_views(flags@);
            let flag = Flag { name: fields[i].key.clone(), value: read_flag_value(&fields[i].value) };
            flags.push(flag);
            proof {
                assert(flag_views(flags@) == before.push(flag@));
            }
        }
        i += 1;
    }
    proof {
        assert(fields@.take(fields.len() as int) == fields@);
    }
    flags
}

/// What a manifest asks of a manager, from the value under the manager's
/// key: a boolean is the bare switch; a table must have a boolean
/// `enabled`, and its other fields are the flags.
pub open spec fn manager_spec_of(doc: Doc, at: Seq<char>) -> Result<
    ManagerSpecView,
    SchemaErrorView,
> {
    match doc {
        Doc::Bool(b) => Ok(ManagerSpecView::Bool(b)),
        Doc::Table { fields, .. } => if field_place(fields@, "enabled"@) >= fields@.len() {
            Err(SchemaErrorView::MissingField { at, field: "enabled"@ })
        } else {
            match fields@[field_place(fields@, "enabled"@)].value {
                Doc::Bool(b) => Ok(
                    ManagerSpecView::Object { enabled: b, flags: flags_among(fields@) },
                ),
                _ => Err(
                    SchemaErrorView::WrongShape {
                        at: child_path(at, "enabled"@),
                        wanted: Shape::Bool,
                    },
                ),
            }
        },
        _ => Err(SchemaErrorView::WrongShape { at, wanted: Shape::BoolOrTable }),
    }
}

/// What a manifest asks of a manager, from the value under the manager's key.
pub fn read_manager_spec(doc: &Doc, at: &str) -> (r: Result<ManagerSpec, SchemaError>)
    ensures
        match r {
            Ok(spec) => manager_spec_of(*doc, at@) == Ok::<_, SchemaErrorView>(spec@),
            Err(e) => manager_spec_of(*doc, at@) == Err::<ManagerSpecView, _>(e@),
        },
{
    match doc {
        Doc::Bool(b) => Ok(ManagerSpec::Bool(*b)),
        Doc::Table { fields, text: _ } => {
            let place = find_field(fields, "enabled");
            if place >= fields.len() {
                return Err(
                    SchemaError::MissingField {
                        at: at.to_owned(),
                        field: String::from_str("enabled"),
                    },
                );
            }
            match &fields[place].value {
                Doc::Bool(b) => Ok(ManagerSpec::Object { enabled: *b, flags: read_flags(fields) }),
                _ => Err(
                    SchemaError::WrongShape { at: path_to(at, "enabled"), wanted: Shape::Bool },
                ),
            }
        },
        _ => Err(SchemaError::WrongShape { at: at.to_owned(), wanted: Shape::BoolOrTable }),
    }
}

/// Whether `key` is one of the two keys that hold scripts, not a manager.
pub open spec fn is_script_key(key: Seq<char>) -> bool {
    key == "pre"@ || key == "post"@
}

/// Whether `key` is one of the two keys that hold scripts.
pub fn script_key(key: &String) -> (r: bool)
    ensures
        r == is_script_key(key@),
{
    *key == String::from_str("pre") || *key == String::from_str("post")
}

/// The manager request under one field of the table at `at`; none for a
/// field that holds scripts.
pub open spec fn request_of(field: Field, at: Seq<char>) -> Result<
    Seq<ManagerRequestView>,
    SchemaErrorView,
> {
    if is_script_key(field.key@) {
        Ok(Seq::empty())
    } else {
        match manager_spec_of(field.value, child_path(at, field.key@)) {
            Ok(spec) => Ok(seq![ManagerRequestView { id: field.key@, spec }]),
            Err(e) => Err(e),
        }
    }
}

/// The manager requests among the fields of the table at `at`, in the
/// order of the table; the first field that is not of the shape of a
/// request gives the error.
pub open spec fn requests_among(fields: Seq<Field>, at: Seq<char>) -> Result<
    Seq<ManagerRequestView>,
    SchemaErrorView,
>
    decreases fields.len(),
{
    if fields.len() == 0 {
        Ok(Seq::empty())
    } else {
        match request_of(fields[0], at) {
            Ok(first) => followed_by(first, requests_among(fields.drop_first(), at)),
            Err(e) => Err(e),
        }
    }
}

/// The views of a list of manager requests.
pub open spec fn request_views(v: Seq<ManagerRequest>) -> Seq<ManagerRequestView> {
    v.map_values(|m: ManagerRequest| m@)
}

/// The manager requests among the fields of the table at `at`.
pub fn read_requests(fields: &Vec<Field>, at: &str) -> (r: Result<Vec<ManagerRequest>, SchemaError>)
    ensures
        match r {
            Ok(v) => requests_among(fields@, at@) == Ok::<_, SchemaErrorView>(request_views(v@)),
            Err(e) => requests_among(fields@, at@) == Err::<Seq<ManagerRequestView>, _>(e@),
        },
{
    let mut found: Vec<ManagerRequest> = Vec::new();
    let mut i: usize = 0;
    proof {
        assert(fields@.skip(0) == fields@);
        assert(request_views(found@) == Seq::<ManagerRequestView>::empty());
        lemma_followed_by_nothing(requests_among(fields@, at@));
    }
    while i < fields.len()
        invariant
            i <= fields.len(),
            requests_among(fields@, at@) == followed_by(
                request_views(found@),
                requests_among(fields@.skip(i as int), at@),
            ),
        decreases fields.len() - i,
    {
        let ghost tail = fields@.skip(i as int);
        let ghost before = request_views(found@);
        proof {
            assert(tail[0] == fields@[i as int]);
            assert(tail.drop_first() == fields@.skip(i + 1));
        }
        if !script_key(&fields[i].key) {
            let path = path_to(at, fields[i].key.as_str());
            match read_manager_spec(&fields[i].value, path.as_str()) {
                Err(e) => {
                    return Err(e);
                },
                Ok(spec) => {
                    let request = ManagerRequest { id: fields[i].key.clone(), spec };
                    found.push(request);
                    proof {
                        assert(request_views(found@) == before + seq![request@]);
                        lemma_followed_by_joined(
                            before,
                            seq![request@],
                            requests_among(fields@.skip(i + 1), at@),
                        );
                    }
                },
            }
        } else {
            proof {
                lemma_followed_by_joined(
                    before,
                    Seq::empty(),
                    requests_among(fields@.skip(i + 1), at@),
                );
                assert(before + Seq::<ManagerRequestView>::empty() == before);
            }
        }
        i += 1;
    }
    proof {
        assert(request_views(found@) + Seq::<ManagerRequestView>::empty() == request_views(
            found@,
        ));
    }
    Ok(found)
}

/// The package list under one field of the table at `at`; none for a
/// field that holds scripts.
pub open spec fn package_list_of(field: Field, at: Seq<char>) -> Result<
    Seq<PackageListView>,
    SchemaErrorView,
> {
    if is_script_key(field.key@) {
        Ok(Seq::empty())
    } else {
        match text_list(field.value) {
            Some(packages) => Ok(seq![PackageListView { manager: field.key@, packages }]),
            None => Err(
                SchemaErrorView::WrongShape {
                    at: child_path(at, field.key@),
                    wanted: Shape::TextList,
                },
            ),
        }
    }
}

/// The package lists among the fields of the table at `at`, in the order
/// of the table; the first field that is no list of strings gives the error.
pub open spec fn package_lists_among(fields: Seq<Field>, at: Seq<char>) -> Result<
    Seq<PackageListView>,
    SchemaErrorView,
>
    decreases fields.len(),
{
    if fields.len() == 0 {
        Ok(Seq::empty())
    } else {
        match package_list_of(fields[0], at) {
            Ok(first) => followed_by(first, package_lists_among(fields.drop_first(), at)),
            Err(e) => Err(e),
        }
    }
}

/// The views of a list of package lists.
pub open spec fn package_list_views(v: Seq<PackageList>) -> Seq<PackageListView> {
    v.map_values(|l: PackageList| l@)
}

/// The package lists among the fields of the table at `at`.
pub fn read_package_lists(fields: &Vec<Field>, at: &str) -> (r: Result<
    Vec<PackageList>,
    SchemaError,
>)
    ensures
        match r {
            Ok(v) => package_lists_among(fields@, at@) == Ok::<_, SchemaErrorView>(
                package_list_views(v@),
            ),
            Err(e) => package_lists_among(fields@, at@) == Err::<Seq<PackageListView>, _>(e@),
        },
{
    let mut found: Vec<PackageList> = Vec::new();
    let mut i: usize = 0;
    proof {
        assert(fields@.skip(0) == fields@);
        assert(package_list_views(found@) == Seq::<PackageListView>::empty());
        lemma_followed_by_nothing(package_lists_among(fields@, at@));
    }
    while i < fields.len()
        invariant
            i <= fields.len(),
            package_lists_among(fields@, at@) == followed_by(
                package_list_views(found@),
                package_lists_among(fields@.skip(i as int), at@),
            ),
        decreases fields.len() - i,
    {
        let ghost tail = fields@.skip(i as int);
        let ghost before = package_list_views(found@);
        proof {
            assert(tail[0] == fields@[i as int]);
            assert(tail.drop_first() == fields@.skip(i + 1));
        }
        if !script_key(&fields[i].key) {
            match read_text_list(&fields[i].value) {
                None => {
                    return Err(
                        SchemaError::WrongShape {
                            at: path_to(at, fields[i].key.as_str()),
                            wanted: Shape::TextList,
                        },
                    );
                },
                Some(packages) => {
                    let list = PackageList { manager: fields[i].key.clone(), packages };
                    found.push(list);
                    proof {
                        assert(package_list_views(found@) == before + seq![list@]);
                        lemma_followed_by_joined(
                            before,
                            seq![list@],
                            package_lists_among(fields@.skip(i + 1), at@),
                        );
                    }
                },
            }
        } else {
            proof {
                lemma_followed_by_joined(
                    before,
                    Seq::empty(),
                    package_lists_among(fields@.skip(i + 1), at@),
                );
                assert(before + Seq::<PackageListView>::empty() == before);
            }
        }
        i += 1;
    }
    proof {
        assert(package_list_views(found@) + Seq::<PackageListView>::empty()
            == package_list_views(found@));
    }
    Ok(found)
}

/// The managers part of a manifest, from the value at `at`: a table with
/// the script lists `pre` and `post`, every other field a manager
/// request. The lists are looked at first, then the requests in order.
pub open spec fn package_management_of(doc: Doc, at: Seq<char>) -> Result<
    PackageManagementView,
    SchemaErrorView,
> {
    match doc {
        Doc::Table { fields, .. } => match list_field(fields@, at, "pre"@) {
            Err(e) => Err(e),
            Ok(pre) => match list_field(fields@, at, "post"@) {
                Err(e) => Err(e),
                Ok(post) => match requests_among(fields@, at) {
                    Err(e) => Err(e),
                    Ok(managers) => Ok(PackageManagementView { pre, post, managers }),
                },
            },
        },
        _ => Err(SchemaErrorView::WrongShape { at, wanted: Shape::Table }),
    }
}

/// The managers part of a manifest, from the value at `at`.
pub fn read_package_management(doc: &Doc, at: &str) -> (r: Result<PackageManagement, SchemaError>)
    ensures
        match r {
            Ok(v) => package_management_of(*doc, at@) == Ok::<_, SchemaErrorView>(v@),
            Err(e) => package_management_of(*doc, at@) == Err::<PackageManagementView, _>(e@),
        },
{
    match doc {
        Doc::Table { fields, text: _ } => {
            let pre = match read_list_field(fields, at, "pre") {
                Ok(v) => v,
                Err(e) => {
                    return Err(e);
                },
            };
            let post = match read_list_field(fields, at, "post") {
                Ok(v) => v,
                Err(e) => {
                    return Err(e);
                },
            };
            match read_requests(fields, at) {
                Ok(managers) => Ok(PackageManagement { pre, post, managers }),
                Err(e) => Err(e),
            }
        },
        _ => Err(SchemaError::WrongShape { at: at.to_owned(), wanted: Shape::Table }),
    }
}

/// The packages part of a manifest, from the value at `at`: a table with
/// the lists `pre` and `post`, every other field the package list of a
/// manager.
pub open spec fn custom_packages_of(doc: Doc, at: Seq<char>) -> Result<
    CustomPackagesView,
    SchemaErrorView,
> {
    match doc {
        Doc::Table { fields, .. } => match list_field(fields@, at, "pre"@) {
            Err(e) => Err(e),
            Ok(pre) => match list_field(fields@, at, "post"@) {
                Err(e) => Err(e),
                Ok(post) => match package_lists_among(fields@, at) {
                    Err(e) => Err(e),
                    Ok(by_manager) => Ok(CustomPackagesView { pre, post, by_manager }),
                },
            },
        },
        _ => Err(SchemaErrorView::WrongShape { at, wanted: Shape::Table }),
    }
}

/// The packages part of a manifest, from the value at `at`.
pub fn read_custom_packages(doc: &Doc, at: &str) -> (r: Result<CustomPackages, SchemaError>)
    ensures
        match r {
            Ok(v) => custom_packages_of(*doc, at@) == Ok::<_, SchemaErrorView>(v@),
            Err(e) => custom_packages_of(*doc, at@) == Err::<CustomPackagesView, _>(e@),
        },
{
    match doc {
        Doc::Table { fields, text: _ } => {
            let pre = match read_list_field(fields, at, "pre") {
                Ok(v) => v,
                Err(e) => {
                    return Err(e);
                },
            };
            let post = match read_list_field(fields, at, "post") {
                Ok(v) => v,
                Err(e) => {
                    return Err(e);
                },
            };
            match read_package_lists(fields, at) {
                Ok(by_manager) => Ok(CustomPackages { pre, post, by_manager }),
                Err(e) => Err(e),
            }
        },
        _ => Err(SchemaError::WrongShape { at: at.to_owned(), wanted: Shape::Table }),
    }
}

/// Whether `key` is one of the two fields that a manifest has.
pub open spec fn is_manifest_key(key: Seq<char>) -> bool {
    key == "package_management"@ || key == "custom_packages"@
}

/// The place of the first field that a manifest may not have; the number
/// of fields where there is none.
pub open spec fn stray_place(fields: Seq<Field>) -> int
    decreases fields.len(),
{
    if fields.len() == 0 {
        0
    } else if !is_manifest_key(fields[0].key@) {
        0
    } else {
        1 + stray_place(fields.drop_first())
    }
}

/// The place of the first field that a manifest may not have, or the
/// number of fields.
pub fn find_stray(fields: &Vec<Field>) -> (place: usize)
    ensures
        place == stray_place(fields@),
        place <= fields.len(),
{
    let first = String::from_str("package_management");
    let second = String::from_str("custom_packages");
    let mut i: usize = 0;
    proof {
        assert(fields@.skip(0) == fields@);
    }
    while i < fields.len()
        invariant
            i <= fields.len(),
            first@ == "package_management"@,
            second@ == "custom_packages"@,
            stray_place(fields@) == i + stray_place(fields@.skip(i as int)),
        decreases fields.len() - i,
    {
        proof {
            assert(fields@.skip(i as int)[0] == fields@[i as int]);
            assert(fields@.skip(i as int).drop_first() == fields@.skip(i + 1));
        }
        if fields[i].key != first && fields[i].key != second {
            return i;
        }
        i += 1;
    }
    i
}

/// The manifest that a document holds. The document must be a table with
/// the two fields `package_management` and `custom_packages` and no
/// other. A field that may not be there is named first; then the two
/// parts are read, in this order.
pub open spec fn manifest_of(doc: Doc) -> Result<ConfigView, SchemaErrorView> {
    match doc {
        Doc::Table { fields, .. } => if stray_place(fields@) < fields@.len() {
            Err(
                SchemaErrorView::UnknownField {
                    at: Seq::empty(),
                    field: fields@[stray_place(fields@)].key@,
                },
            )
        } else if field_place(fields@, "package_management"@) >= fields@.len() {
            Err(SchemaErrorView::MissingField { at: Seq::empty(), field: "package_management"@ })
        } else if field_place(fields@, "custom_packages"@) >= fields@.len() {
            Err(SchemaErrorView::MissingField { at: Seq::empty(), field: "custom_packages"@ })
        } else {
            match package_management_of(
                fields@[field_place(fields@, "package_management"@)].value,
                "package_management"@,
            ) {
                Err(e) => Err(e),
                Ok(package_management) => match custom_packages_of(
                    fields@[field_place(fields@, "custom_packages"@)].value,
                    "custom_packages"@,
                ) {
                    Err(e) => Err(e),
                    Ok(custom_packages) => Ok(ConfigView { package_management, custom_packages }),
                },
            }
        },
        _ => Err(SchemaErrorView::WrongShape { at: Seq::empty(), wanted: Shape::Table }),
    }
}

/// Reads the manifest that a document holds, or names the first place
/// where the document is not of a manifest's shape.
pub fn convert(doc: &Doc) -> (r: Result<Config, SchemaError>)
    ensures
        match r {
            Ok(config) => manifest_of(*doc) == Ok::<_, SchemaErrorView>(config@),
            Err(e) => manifest_of(*doc) == Err::<ConfigView, _>(e@),
        },
{
    match doc {
        Doc::Table { fields, text: _ } => {
            let stray = find_stray(fields);
            if stray < fields.len() {
                return Err(
                    SchemaError::UnknownField {
                        at: String::new(),
                        field: fields[stray].key.clone(),
                    },
                );
            }
            let first = find_field(fields, "package_management");
            if first >= fields.len() {
                return Err(
                    SchemaError::MissingField {
                        at: String::new(),
                        field: String::from_str("package_management"),
                    },
                );
            }
            let second = find_field(fields, "custom_packages");
            if second >= fields.len() {
                return Err(
                    SchemaError::MissingField {
                        at: String::new(),
                        field: String::from_str("custom_packages"),
                    },
                );
            }
            let package_management = match read_package_management(
                &fields[first].value,
                "package_management",
            ) {
                Ok(v) => v,
                Err(e) => {
                    return Err(e);
                },
            };
            match read_custom_packages(&fields[second].value, "custom_packages") {
                Ok(custom_packages) => Ok(Config { package_management, custom_packages }),
                Err(e) => Err(e),
            }
        },
        _ => Err(SchemaError::WrongShape { at: String::new(), wanted: Shape::Table }),
    }
}

/// The manager requests of a table come from its fields: each has the key
/// of a field as its id and is what that field holds; and where no two
/// fields share a key, no two requests share an id.
pub proof fn lemma_requests_from_fields(fields: Seq<Field>, at: Seq<char>)
    requires
        requests_among(fields, at) is Ok,
    ensures
        forall|k: int|
            0 <= k < requests_among(fields, at)->Ok_0.len() ==> exists|i: int|
                0 <= i < fields.len() && request_of(#[trigger] fields[i], at) == Ok::<
                    _,
                    SchemaErrorView,
                >(seq![(#[trigger] requests_among(fields, at)->Ok_0[k])]),
        distinct_keys(fields) ==> distinct(request_ids(requests_among(fields, at)->Ok_0)),
    decreases fields.len(),
{
    let all = requests_among(fields, at)->Ok_0;
    if fields.len() > 0 {
        let rest = fields.drop_first();
        let first = request_of(fields[0], at)->Ok_0;
        let more = requests_among(rest, at)->Ok_0;
        lemma_requests_from_fields(rest, at);
        assert(all == first + more);
        assert forall|k: int| 0 <= k < all.len() implies exists|i: int|
            0 <= i < fields.len() && request_of(#[trigger] fields[i], at) == Ok::<
                _,
                SchemaErrorView,
            >(seq![(#[trigger] all[k])]) by {
            if k < first.len() {
                assert(first == seq![all[k]]);
                assert(request_of(fields[0], at) == Ok::<_, SchemaErrorView>(seq![all[k]]));
            } else {
                assert(all[k] == more[k - first.len()]);
                let i = choose|i: int|
                    0 <= i < rest.len() && request_of(#[trigger] rest[i], at) == Ok::<
                        _,
                        SchemaErrorView,
                    >(seq![more[k - first.len()]]);
                assert(fields[i + 1] == rest[i]);
            }
        }
        if distinct_keys(fields) {
            assert(distinct_keys(rest)) by {
                assert forall|i: int, j: int| 0 <= i < j < rest.len() implies rest[i].key@
                    != rest[j].key@ by {
                    assert(rest[i] == fields[i + 1]);
                    assert(rest[j] == fields[j + 1]);
                }
            }
            let ids = request_ids(all);
            assert forall|a: int, b: int| 0 <= a < b < ids.len() implies ids[a] != ids[b] by {
                if a < first.len() {
                    let i = choose|i: int|
                        0 <= i < rest.len() && request_of(#[trigger] rest[i], at) == Ok::<
                            _,
                            SchemaErrorView,
                        >(seq![more[b - first.len()]]);
                    assert(fields[i + 1] == rest[i]);
                    assert(all[b] == more[b - first.len()]);
                    assert(request_of(rest[i], at)->Ok_0[0] == all[b]);
                    assert(all[a] == first[0]);
                } else {
                    assert(all[a] == more[a - first.len()]);
                    assert(all[b] == more[b - first.len()]);
                    assert(request_ids(more)[a - first.len()] != request_ids(more)[b
                        - first.len()]);
                }
            }
        }
    }
}

/// The manager keys are open: in a table that is read without error, every
/// field that holds no scripts is a manager request, under whatever key.
pub proof fn lemma_every_key_is_a_request(fields: Seq<Field>, at: Seq<char>, i: int)
    requires
        requests_among(fields, at) is Ok,
        0 <= i < fields.len(),
        !is_script_key(fields[i].key@),
    ensures
        exists|k: int|
            0 <= k < requests_among(fields, at)->Ok_0.len() && (#[trigger] requests_among(
                fields,
                at,
            )->Ok_0[k]).id == fields[i].key@,
    decreases fields.len(),
{
    let all = requests_among(fields, at)->Ok_0;
    let rest = fields.drop_first();
    let first = request_of(fields[0], at)->Ok_0;
    let more = requests_among(rest, at)->Ok_0;
    assert(all == first + more);
    if i == 0 {
        assert(all[0].id == fields[0].key@);
    } else {
        assert(rest[i - 1] == fields[i]);
        lemma_every_key_is_a_request(rest, at, i - 1);
        let k = choose|k: int| 0 <= k < more.len() && (#[trigger] more[k]).id == fields[i].key@;
        assert(all[first.len() + k] == more[k]);
    }
}

/// The package lists of a table come from its fields: where no two fields
/// share a key, no two lists are for the same manager.
pub proof fn lemma_package_lists_from_fields(fields: Seq<Field>, at: Seq<char>)
    requires
        package_lists_among(fields, at) is Ok,
    ensures
        forall|k: int|
            0 <= k < package_lists_among(fields, at)->Ok_0.len() ==> exists|i: int|
                0 <= i < fields.len() && (#[trigger] fields[i]).key@ == (
                #[trigger] package_lists_among(fields, at)->Ok_0[k]).manager,
        distinct_keys(fields) ==> distinct(
            list_managers(package_lists_among(fields, at)->Ok_0),
        ),
    decreases fields.len(),
{
    let all = package_lists_among(fields, at)->Ok_0;
    if fields.len() > 0 {
        let rest = fields.drop_first();
        let first = package_list_of(fields[0], at)->Ok_0;
        let more = package_lists_among(rest, at)->Ok_0;
        lemma_package_lists_from_fields(rest, at);
        assert(all == first + more);
        assert forall|k: int| 0 <= k < all.len() implies exists|i: int|
            0 <= i < fields.len() && (#[trigger] fields[i]).key@ == (#[trigger] all[k]).manager by {
            if k < first.len() {
                assert(fields[0].key@ == all[k].manager);
            } else {
                assert(all[k] == more[k - first.len()]);
                let i = choose|i: int|
                    0 <= i < rest.len() && (#[trigger] rest[i]).key@ == more[k
                        - first.len()].manager;
                assert(fields[i + 1] == rest[i]);
            }
        }
        if distinct_keys(fields) {
            assert(distinct_keys(rest)) by {
                assert forall|i: int, j: int| 0 <= i < j < rest.len() implies rest[i].key@
                    != rest[j].key@ by {
                    assert(rest[i] == fields[i + 1]);
                    assert(rest[j] == fields[j + 1]);
                }
            }
            let managers = list_managers(all);
            assert forall|a: int, b: int| 0 <= a < b < managers.len() implies managers[a]
                != managers[b] by {
                if a < first.len() {
                    let i = choose|i: int|
                        0 <= i < rest.len() && (#[trigger] rest[i]).key@ == more[b
                            - first.len()].manager;
                    assert(fields[i + 1] == rest[i]);
                    assert(all[b] == more[b - first.len()]);
                    assert(all[a] == first[0]);
                } else {
                    assert(all[a] == more[a - first.len()]);
                    assert(all[b] == more[b - first.len()]);
                    assert(list_managers(more)[a - first.len()] != list_managers(more)[b
                        - first.len()]);
                }
            }
        }
    }
}

/// The flags of a table come from its fields: where no two fields share a
/// key, no two flags share a name.
pub proof fn lemma_flags_from_fields(fields: Seq<Field>)
    ensures
        forall|k: int|
            0 <= k < flags_among(fields).len() ==> exists|i: int|
                0 <= i < fields.len() && (#[trigger] fields[i]).key@ == (#[trigger] flags_among(
                    fields,
                )[k]).name,
        distinct_keys(fields) ==> distinct(flags_among(fields).map_values(|f: FlagView| f.name)),
    decreases fields.len(),
{
    let all = flags_among(fields);
    if fields.len() > 0 {
        let front = fields.drop_last();
        let before = flags_among(front);
        lemma_flags_from_fields(front);
        assert forall|k: int| 0 <= k < all.len() implies exists|i: int|
            0 <= i < fields.len() && (#[trigger] fields[i]).key@ == (#[trigger] all[k]).name by {
            if k < before.len() {
                assert(all[k] == before[k]);
                let i = choose|i: int|
                    0 <= i < front.len() && (#[trigger] front[i]).key@ == before[k].name;
                assert(fields[i] == front[i]);
            } else {
                assert(fields[fields.len() - 1].key@ == all[k].name);
            }
        }
        if distinct_keys(fields) {
            assert(distinct_keys(front)) by {
                assert forall|i: int, j: int| 0 <= i < j < front.len() implies front[i].key@
                    != front[j].key@ by {
                    assert(front[i] == fields[i]);
                    assert(front[j] == fields[j]);
                }
            }
            let names = all.map_values(|f: FlagView| f.name);
            let earlier = before.map_values(|f: FlagView| f.name);
            assert forall|a: int, b: int| 0 <= a < b < names.len() implies names[a]
                != names[b] by {
                assert(all[a] == before[a]);
                if b < before.len() {
                    assert(all[b] == before[b]);
                    assert(earlier[a] != earlier[b]);
                } else {
                    let i = choose|i: int|
                        0 <= i < front.len() && (#[trigger] front[i]).key@ == before[a].name;
                    assert(fields[i] == front[i]);
                    assert(all[b].name == fields[fields.len() - 1].key@);
                }
            }
        }
    }
}

/// The two parts of a manifest document, and each manager request in it
/// that is a table, have no key twice.
pub open spec fn keyed_once(doc: Doc) -> bool {
    let top = fields_of(doc);
    let managers = fields_of(top[field_place(top, "package_management"@)].value);
    let packages = fields_of(top[field_place(top, "custom_packages"@)].value);
    &&& distinct_keys(managers)
    &&& distinct_keys(packages)
    &&& forall|i: int| 0 <= i < managers.len() ==> distinct_keys(fields_of(managers[i].value))
}

/// A manifest read from a document that has no key twice has no key twice:
/// no manager is asked for twice, none has two package lists, and no
/// request names a flag twice. Its lists stand for maps.
pub proof fn lemma_manifest_keys_distinct(doc: Doc)
    requires
        manifest_of(doc) is Ok,
        keyed_once(doc),
    ensures
        manifest_of(doc)->Ok_0.keys_are_distinct(),
{
    let top = fields_of(doc);
    let managers = fields_of(top[field_place(top, "package_management"@)].value);
    let packages = fields_of(top[field_place(top, "custom_packages"@)].value);
    let config = manifest_of(doc)->Ok_0;
    let requests = config.package_management.managers;
    assert(requests_among(managers, "package_management"@) == Ok::<_, SchemaErrorView>(requests));
    assert(package_lists_among(packages, "custom_packages"@) == Ok::<_, SchemaErrorView>(
        config.custom_packages.by_manager,
    ));
    lemma_requests_from_fields(managers, "package_management"@);
    lemma_package_lists_from_fields(packages, "custom_packages"@);
    assert forall|k: int| 0 <= k < requests.len() implies distinct(
        request_flag_names(#[trigger] requests[k]),
    ) by {
        let i = choose|i: int|
            0 <= i < managers.len() && request_of(
                #[trigger] managers[i],
                "package_management"@,
            ) == Ok::<_, SchemaErrorView>(seq![requests[k]]);
        assert(request_of(managers[i], "package_management"@)->Ok_0[0] == requests[k]);
        lemma_flags_from_fields(fields_of(managers[i].value));
    }
}

} // verus!
