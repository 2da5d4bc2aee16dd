//! The report of a manifest that passed validation: what the catalog
//! defines, what the manifest asks for, and the packages per manager.

use vstd::prelude::*;
use vstd::string::*;
use crate::catalog::Catalog;
use crate::model::{
    flag_views, texts, Config, ConfigView, Flag, FlagInfo, FlagInfoView, FlagValue, FlagValueView,
    FlagView, ManagerRequest, ManagerRequestView, ManagerSpec, PackageList,
    PackageListView, TomlPackageManager, TomlPackageManagerView,
};
use crate::text::{
    join, joined, lemma_occurs_in_back, lemma_occurs_in_front, lemma_occurs_in_itself, occurs_in,
    trim, trim_of,
};

verus! {

/// The JSON string literal for `text`: quoted, with the escapes that JSON asks for.
pub uninterp spec fn json_string(text: Seq<char>) -> Seq<char>;

/// The `Display` of `serde_json::Value`, called on a string value: it writes
/// the value as compact JSON, which for a string is its JSON string
/// literal. The contract gives that text its name and claims no more.
#[verifier::external_body]
pub(crate) fn quote(text: &str) -> (r: String)
    ensures
        r@ == json_string(text@),
{
    serde_json::Value::String(text.to_owned()).to_string()
}

/// How a flag value is shown in the report: as JSON writes it.
pub open spec fn shown(value: FlagValueView) -> Seq<char> {
    match value {
        FlagValueView::Null => "null"@,
        FlagValueView::Bool(b) => if b { "true"@ } else { "false"@ },
        FlagValueView::Number(t) => t,
        FlagValueView::Text(t) => json_string(t),
        FlagValueView::Compound(t) => t,
    }
}

/// A flag and its value as the report shows them.
pub open spec fn flag_entry(name: Seq<char>, value: Seq<char>) -> Seq<char> {
    name + "="@ + value
}

/// The entries of a list of flags.
pub open spec fn flag_entries(flags: Seq<FlagView>) -> Seq<Seq<char>> {
    flags.map_values(|f: FlagView| flag_entry(f.name, shown(f.value)))
}

/// A line of the report: a label, a value and a line break.
pub open spec fn line(label: Seq<char>, value: Seq<char>) -> Seq<char> {
    label + value + "\n"@
}

/// A line that is only there where `present` holds.
pub open spec fn line_if(present: bool, label: Seq<char>, value: Seq<char>) -> Seq<char> {
    if present {
        line(label, value)
    } else {
        Seq::empty()
    }
}

/// The names of the flags that a definition lists.
pub open spec fn listed_names(others: Option<Seq<FlagInfoView>>) -> Seq<Seq<char>> {
    match others {
        Some(list) => list.map_values(|f: FlagInfoView| f.name),
        None => Seq::empty(),
    }
}

/// What the report says of one definition: the id, the check template, the
/// bootstrap and enable templates where they are not blank, the install
/// template, and the flags where some are listed.
pub open spec fn definition_block(def: TomlPackageManagerView) -> Seq<char> {
    line(" - "@, def.id) + line("    check: "@, def.check) + line_if(
        trim_of(def.bootstrap).len() > 0,
        "    bootstrap: "@,
        def.bootstrap,
    ) + line_if(trim_of(def.enable).len() > 0, "    enable: "@, def.enable) + line(
        "    install: "@,
        def.install,
    ) + line_if(
        listed_names(def.others).len() > 0,
        "    flags: "@,
        joined(listed_names(def.others), ", "@),
    )
}

/// The blocks of the definitions, one after another.
pub open spec fn definitions_section(defs: Seq<TomlPackageManagerView>) -> Seq<char>
    decreases defs.len(),
{
    if defs.len() == 0 {
        Seq::empty()
    } else {
        definitions_section(defs.drop_last()) + definition_block(defs.last())
    }
}

/// The words for a switch.
pub open spec fn switch_text(on: bool) -> Seq<char> {
    if on {
        "true"@
    } else {
        "false"@
    }
}

/// What the report says of one manager request: the id with its switch,
/// and the flags with their values where some are given.
pub open spec fn request_block(request: ManagerRequestView) -> Seq<char> {
    " - "@ + request.id + " (enabled: "@ + switch_text(request.spec.enabled()) + ")\n"@ + line_if(
        request.spec.flags().len() > 0,
        "    flags: "@,
        joined(flag_entries(request.spec.flags()), ", "@),
    )
}

/// The blocks of the manager requests, one after another.
pub open spec fn requests_section(requests: Seq<ManagerRequestView>) -> Seq<char>
    decreases requests.len(),
{
    if requests.len() == 0 {
        Seq::empty()
    } else {
        requests_section(requests.drop_last()) + request_block(requests.last())
    }
}

/// What the report says of one package list.
pub open spec fn list_block(list: PackageListView) -> Seq<char> {
    " - "@ + list.manager + ": "@ + (if list.packages.len() == 0 {
        "(none)"@
    } else {
        joined(list.packages, ", "@)
    }) + "\n"@
}

/// The blocks of the package lists, one after another.
pub open spec fn lists_section(lists: Seq<PackageListView>) -> Seq<char>
    decreases lists.len(),
{
    if lists.len() == 0 {
        Seq::empty()
    } else {
        lists_section(lists.drop_last()) + list_block(lists.last())
    }
}

/// The report on a manifest and a catalog.
pub open spec fn report_text(config: ConfigView, catalog: Seq<TomlPackageManagerView>) -> Seq<
    char,
> {
    "Validation OK\n\nDefined package managers (TOML):\n"@ + definitions_section(catalog)
        + "\nJSON snapshot (parsed):\n"@ + requests_section(config.package_management.managers)
        + "\nCustom packages by manager:\n"@ + lists_section(config.custom_packages.by_manager)
}

/// Shows a flag value as JSON writes it.
pub fn show(value: &FlagValue) -> (r: String)
    ensures
        r@ == shown(value@),
{
    match value {
        FlagValue::Null => String::from_str("null"),
        FlagValue::Bool(b) => if *b {
            String::from_str("true")
        } else {
            String::from_str("false")
        },
        FlagValue::Number(t) => t.clone(),
        FlagValue::Text(t) => quote(t.as_str()),
        FlagValue::Compound(t) => t.clone(),
    }
}

/// Writes a flag's name and its shown value as one entry.
pub fn snapshot_entry(name: &str, value: &str) -> (r: String)
    ensures
        r@ == flag_entry(name@, value@),
{
    let mut entry = name.to_owned();
    entry.append("=");
    entry.append(value);
    entry
}

/// Writes a line: the label, the value and a line break.
pub fn write_line(label: &str, value: &str) -> (r: String)
    ensures
        r@ == line(label@, value@),
{
    let mut out = label.to_owned();
    out.append(value);
    out.append("\n");
    out
}

/// Writes a line where `present` holds, and nothing where it does not.
pub fn write_line_if(present: bool, label: &str, value: &str) -> (r: String)
    ensures
        r@ == line_if(present, label@, value@),
{
    if present {
        write_line(label, value)
    } else {
        String::new()
    }
}

/// The names that a definition lists, in their order.
pub fn names_listed(others: &Option<Vec<FlagInfo>>) -> (names: Vec<String>)
    ensures
        texts(names@) == listed_names(
            match others {
                Some(v) => Some(v@.map_values(|f: FlagInfo| f@)),
                None => None,
            },
        ),
{
    let mut names: Vec<String> = Vec::new();
    match others {
        None => {
            proof {
                assert(texts(names@) == Seq::<Seq<char>>::empty());
            }
        },
        Some(list) => {
            let ghost all = list@.map_values(|f: FlagInfo| f@).map_values(
                |f: FlagInfoView| f.name,
            );
            let mut i: usize = 0;
            proof {
                assert(texts(names@) == all.take(0));
            }
            while i < list.len()
                invariant
                    i <= list.len(),
                    all == list@.map_values(|f: FlagInfo| f@).map_values(|f: FlagInfoView| f.name),
                    texts(names@) == all.take(i as int),
                decreases list.len() - i,
            {
                let ghost before = texts(names@);
                names.push(list[i].name.clone());
                proof {
                    assert(texts(names@) == before.push(list@[i as int].name@));
                    assert(all.take(i + 1) == all.take(i as int).push(all[i as int]));
                }
                i += 1;
            }
            proof {
                assert(all.take(list.len() as int) == all);
            }
        },
    }
    names
}

/// Writes the block of one definition.
pub fn write_definition(def: &TomlPackageManager) -> (out: String)
    ensures
        out@ == definition_block(def@),
{
    let mut out = write_line(" - ", def.id.as_str());
    let check = write_line("    check: ", def.check.as_str());
    out.append(check.as_str());
    let bootstrap = write_line_if(
        !trim(def.bootstrap.as_str()).is_empty(),
        "    bootstrap: ",
        def.bootstrap.as_str(),
    );
    out.append(bootstrap.as_str());
    let enable = write_line_if(
        !trim(def.enable.as_str()).is_empty(),
        "    enable: ",
        def.enable.as_str(),
    );
    out.append(enable.as_str());
    let install = write_line("    install: ", def.install.as_str());
    out.append(install.as_str());
    let names = names_listed(&def.others);
    let keys = join(&names, ", ");
    let flags = write_line_if(names.len() > 0, "    flags: ", keys.as_str());
    out.append(flags.as_str());
    out
}

/// The entries of the flags, in their order.
pub fn entries_of(flags: &Vec<Flag>) -> (entries: Vec<String>)
    ensures
        texts(entries@) == flag_entries(flag_views(flags@)),
{
    let mut entries: Vec<String> = Vec::new();
    let ghost all = flag_entries(flag_views(flags@));
    let mut i: usize = 0;
    proof {
        assert(texts(entries@) == all.take(0));
    }
    while i < flags.len()
        invariant
            i <= flags.len(),
            all == flag_entries(flag_views(flags@)),
            texts(entries@) == all.take(i as int),
        decreases flags.len() - i,
    {
        let ghost before = texts(entries@);
        let value = show(&flags[i].value);
        let entry = snapshot_entry(flags[i].name.as_str(), value.as_str());
        entries.push(entry);
        proof {
            assert(texts(entries@) == before.push(entry@));
            assert(all.take(i + 1) == all.take(i as int).push(all[i as int]));
        }
        i += 1;
    }
    proof {
        assert(all.take(flags.len() as int) == all);
    }
    entries
}

/// Writes the block of one manager request.
pub fn write_request(request: &ManagerRequest) -> (out: String)
    ensures
        out@ == request_block(request@),
{
    let mut out = String::from_str(" - ");
    out.append(request.id.as_str());
    out.append(" (enabled: ");
    match &request.spec {
        ManagerSpec::Bool(b) => {
            out.append(if *b { "true" } else { "false" });
            out.append(")\n");
            proof {
                assert(out@ + Seq::<char>::empty() == out@);
            }
        },
        ManagerSpec::Object { enabled, flags } => {
            out.append(if *enabled { "true" } else { "false" });
            out.append(")\n");
            let entries = entries_of(flags);
            let all = join(&entries, ", ");
            let shown = write_line_if(flags.len() > 0, "    flags: ", all.as_str());
            out.append(shown.as_str());
        },
    }
    out
}

/// Writes the block of one package list.
pub fn write_list(list: &PackageList) -> (out: String)
    ensures
        out@ == list_block(list@),
{
    let mut out = String::from_str(" - ");
    out.append(list.manager.as_str());
    out.append(": ");
    if list.packages.len() == 0 {
        out.append("(none)");
    } else {
        let all = join(&list.packages, ", ");
        out.append(all.as_str());
    }
    out.append("\n");
    out
}

/// Writes the report on a manifest and a catalog.
pub fn report(config: &Config, catalog: &Catalog) -> (out: String)
    ensures
        out@ == report_text(config@, catalog@),
{
    let mut out = String::from_str("Validation OK\n\nDefined package managers (TOML):\n");
    let mut section = String::new();
    let mut i: usize = 0;
    while i < catalog.len()
        invariant
            i <= catalog@.len(),
            section@ == definitions_section(catalog@.take(i as int)),
        decreases catalog@.len() - i,
    {
        if let Some(def) = catalog.get(i) {
            let block = write_definition(def);
            proof {
                assert(catalog@.take(i + 1).drop_last() == catalog@.take(i as int));
            }
            section.append(block.as_str());
        }
        i += 1;
    }
    proof {
        assert(catalog@.take(catalog@.len() as int) == catalog@);
    }
    out.append(section.as_str());
    out.append("\nJSON snapshot (parsed):\n");

    let requests = &config.package_management.managers;
    let ghost asked = config@.package_management.managers;
    let mut section = String::new();
    let mut i: usize = 0;
    while i < requests.len()
        invariant
            i <= requests.len(),
            requests == &config.package_management.managers,
            asked == config@.package_management.managers,
            section@ == requests_section(asked.take(i as int)),
        decreases requests.len() - i,
    {
        let block = write_request(&requests[i]);
        proof {
            assert(asked.take(i + 1).drop_last() == asked.take(i as int));
            assert(asked.take(i + 1).last() == requests@[i as int]@);
        }
        section.append(block.as_str());
        i += 1;
    }
    proof {
        assert(asked.take(requests.len() as int) == asked);
    }
    out.append(section.as_str());
    out.append("\nCustom packages by manager:\n");

    let lists = &config.custom_packages.by_manager;
    let ghost wanted = config@.custom_packages.by_manager;
    let mut section = String::new();
    let mut i: usize = 0;
    while i < lists.len()
        invariant
            i <= lists.len(),
            lists == &config.custom_packages.by_manager,
            wanted == config@.custom_packages.by_manager,
            section@ == lists_section(wanted.take(i as int)),
        decreases lists.len() - i,
    {
        let block = write_list(&lists[i]);
        proof {
            assert(wanted.take(i + 1).drop_last() == wanted.take(i as int));
            assert(wanted.take(i + 1).last() == lists@[i as int]@);
        }
        section.append(block.as_str());
        i += 1;
    }
    proof {
        assert(wanted.take(lists.len() as int) == wanted);
    }
    out.append(section.as_str());
    out
}

/// The section of the definitions holds the block of each of them.
pub proof fn lemma_section_holds_definition(defs: Seq<TomlPackageManagerView>, i: int)
    requires
        0 <= i < defs.len(),
    ensures
        occurs_in(definitions_section(defs), definition_block(defs[i])),
    decreases defs.len(),
{
    let front = defs.drop_last();
    let block = definition_block(defs.last());
    if i == defs.len() - 1 {
        lemma_occurs_in_itself(block);
        lemma_occurs_in_back(definitions_section(front), block, block);
    } else {
        assert(front[i] == defs[i]);
        lemma_section_holds_definition(front, i);
        lemma_occurs_in_front(definitions_section(front), block, definition_block(defs[i]));
    }
}

/// The section of the requests holds the block of each of them.
pub proof fn lemma_section_holds_request(requests: Seq<ManagerRequestView>, i: int)
    requires
        0 <= i < requests.len(),
    ensures
        occurs_in(requests_section(requests), request_block(requests[i])),
    decreases requests.len(),
{
    let front = requests.drop_last();
    let block = request_block(requests.last());
    if i == requests.len() - 1 {
        lemma_occurs_in_itself(block);
        lemma_occurs_in_back(requests_section(front), block, block);
    } else {
        assert(front[i] == requests[i]);
        lemma_section_holds_request(front, i);
        lemma_occurs_in_front(requests_section(front), block, request_block(requests[i]));
    }
}

/// The section of the package lists holds the block of each of them.
pub proof fn lemma_section_holds_list(lists: Seq<PackageListView>, i: int)
    requires
        0 <= i < lists.len(),
    ensures
        occurs_in(lists_section(lists), list_block(lists[i])),
    decreases lists.len(),
{
    let front = lists.drop_last();
    let block = list_block(lists.last());
    if i == lists.len() - 1 {
        lemma_occurs_in_itself(block);
        lemma_occurs_in_back(lists_section(front), block, block);
    } else {
        assert(front[i] == lists[i]);
        lemma_section_holds_list(front, i);
        lemma_occurs_in_front(lists_section(front), block, list_block(lists[i]));
    }
}

/// The report lists every manager of the catalog: the block of each
/// definition occurs in it.
pub proof fn lemma_report_lists_definition(
    config: ConfigView,
    catalog: Seq<TomlPackageManagerView>,
    i: int,
)
    requires
        0 <= i < catalog.len(),
    ensures
        occurs_in(report_text(config, catalog), definition_block(catalog[i])),
{
    let block = definition_block(catalog[i]);
    let a = "Validation OK\n\nDefined package managers (TOML):\n"@;
    let b = definitions_section(catalog);
    let c = "\nJSON snapshot (parsed):\n"@;
    let d = requests_section(config.package_management.managers);
    let e = "\nCustom packages by manager:\n"@;
    let f = lists_section(config.custom_packages.by_manager);
    lemma_section_holds_definition(catalog, i);
    lemma_occurs_in_back(a, b, block);
    lemma_occurs_in_front(a + b, c, block);
    lemma_occurs_in_front(a + b + c, d, block);
    lemma_occurs_in_front(a + b + c + d, e, block);
    lemma_occurs_in_front(a + b + c + d + e, f, block);
}

/// The report shows every request of the manifest, with its switch and the
/// flags it gives: the block of each request occurs in it.
pub proof fn lemma_report_lists_request(
    config: ConfigView,
    catalog: Seq<TomlPackageManagerView>,
    i: int,
)
    requires
        0 <= i < config.package_management.managers.len(),
    ensures
        occurs_in(
            report_text(config, catalog),
            request_block(config.package_management.managers[i]),
        ),
{
    let block = request_block(config.package_management.managers[i]);
    let a = "Validation OK\n\nDefined package managers (TOML):\n"@;
    let b = definitions_section(catalog);
    let c = "\nJSON snapshot (parsed):\n"@;
    let d = requests_section(config.package_management.managers);
    let e = "\nCustom packages by manager:\n"@;
    let f = lists_section(config.custom_packages.by_manager);
    lemma_section_holds_request(config.package_management.managers, i);
    lemma_occurs_in_back(a + b + c, d, block);
    lemma_occurs_in_front(a + b + c + d, e, block);
    lemma_occurs_in_front(a + b + c + d + e, f, block);
}

/// The report shows every package list of the manifest: the block of each
/// list occurs in it.
pub proof fn lemma_report_lists_packages(
    config: ConfigView,
    catalog: Seq<TomlPackageManagerView>,
    i: int,
)
    requires
        0 <= i < config.custom_packages.by_manager.len(),
    ensures
        occurs_in(report_text(config, catalog), list_block(config.custom_packages.by_manager[i])),
{
    let block = list_block(config.custom_packages.by_manager[i]);
    let a = "Validation OK\n\nDefined package managers (TOML):\n"@;
    let b = definitions_section(catalog);
    let c = "\nJSON snapshot (parsed):\n"@;
    let d = requests_section(config.package_management.managers);
    let e = "\nCustom packages by manager:\n"@;
    let f = lists_section(config.custom_packages.by_manager);
    lemma_section_holds_list(config.custom_packages.by_manager, i);
    lemma_occurs_in_back(a + b + c + d + e, f, block);
}

/// A request that gives flags has them in its block, each as its name, an
/// equals sign and its value as JSON writes it, with commas between.
pub proof fn lemma_block_holds_flags(request: ManagerRequestView)
    requires
        request.spec.flags().len() > 0,
    ensures
        occurs_in(request_block(request), joined(flag_entries(request.spec.flags()), ", "@)),
{
    let entries = joined(flag_entries(request.spec.flags()), ", "@);
    let head = " - "@ + request.id + " (enabled: "@ + switch_text(request.spec.enabled())
        + ")\n"@;
    lemma_occurs_in_itself(entries);
    lemma_occurs_in_back("    flags: "@, entries, entries);
    lemma_occurs_in_front("    flags: "@ + entries, "\n"@, entries);
    lemma_occurs_in_back(head, "    flags: "@ + entries + "\n"@, entries);
}

} // verus!
