//! Cross-validation of a manifest against a catalog. The managers are gone
//! through in the manifest's order, each one's flags in their order, then
//! the package lists; the first violation found is the one reported.

use vstd::prelude::*;
use vstd::string::*;
use crate::catalog::{definition_of, defines, lemma_first_place, Catalog};
use crate::model::{
    flag_views, Config, ConfigView, Flag, FlagInfo, FlagInfoView, FlagValue, FlagView,
    ManagerRequest, ManagerRequestView, ManagerSpec, ManagerSpecView, PackageListView,
    TomlPackageManagerView,
};
use crate::report::{report, report_text};
use crate::text::{join, joined};

verus! {

/// What a manifest can hold that the catalog does not allow.
#[derive(Clone, Debug, PartialEq, Eq)]
pub enum Violation {
    /// The manifest asks for a manager that the catalog does not define.
    UnknownManager { id: String },
    /// A flag that the manager's definition does not list.
    UnknownFlag { flag: String, manager: String },
    /// A flag whose value is an array or an object.
    ComplexValue { flag: String, manager: String, value: String },
    /// Flags for a manager whose definition lists none at all.
    FlagsNotSupported { manager: String, flags: Vec<String> },
    /// A package list for a manager that the catalog does not define.
    UnknownPackageKey { manager: String },
}

pub enum ViolationView {
    UnknownManager { id: Seq<char> },
    UnknownFlag { flag: Seq<char>, manager: Seq<char> },
    ComplexValue { flag: Seq<char>, manager: Seq<char>, value: Seq<char> },
    FlagsNotSupported { manager: Seq<char>, flags: Seq<Seq<char>> },
    UnknownPackageKey { manager: Seq<char> },
}

impl View for Violation {
    type V = ViolationView;

    open spec fn view(&self) -> ViolationView {
        match self {
            Violation::UnknownManager { id } => ViolationView::UnknownManager { id: id@ },
            Violation::UnknownFlag { flag, manager } => ViolationView::UnknownFlag {
                flag: flag@,
                manager: manager@,
            },
            Violation::ComplexValue { flag, manager, value } => ViolationView::ComplexValue {
                flag: flag@,
                manager: manager@,
                value: value@,
            },
            Violation::FlagsNotSupported { manager, flags } => ViolationView::FlagsNotSupported {
                manager: manager@,
                flags: flags@.map_values(|s: String| s@),
            },
            Violation::UnknownPackageKey { manager } => ViolationView::UnknownPackageKey {
                manager: manager@,
            },
        }
    }
}

/// The view of a violation that may be there.
pub open spec fn found_view(found: Option<Violation>) -> Option<ViolationView> {
    match found {
        Some(v) => Some(v@),
        None => None,
    }
}

impl ViolationView {
    /// The message that names the violation.
    pub open spec fn message(self) -> Seq<char> {
        match self {
            ViolationView::UnknownManager { id } => "Unknown manager '"@ + id
                + "' in JSON; not defined in Packages.toml"@,
            ViolationView::UnknownFlag { flag, manager } => "Unknown flag '"@ + flag
                + "' for manager '"@ + manager + "' in JSON; not defined in Packages.toml"@,
            ViolationView::ComplexValue { flag, manager, value } =>
                "Unsupported complex value for flag '"@ + flag + "' on '"@ + manager + "': "@
                    + value,
            ViolationView::FlagsNotSupported { manager, flags } => "Manager '"@ + manager
                + "' does not support flags (TOML has no 'others'), but JSON provided: "@ + joined(
                flags,
                ", "@,
            ),
            ViolationView::UnknownPackageKey { manager } => "Unknown custom_packages key '"@
                + manager + "' in JSON; must be defined in Packages.toml"@,
        }
    }
}

impl Violation {
    /// The message that names the violation.
    pub fn message(&self) -> (text: String)
        ensures
            text@ == self@.message(),
    {
        match self {
            Violation::UnknownManager { id } => {
                let mut text = String::from_str("Unknown manager '");
                text.append(id.as_str());
                text.append("' in JSON; not defined in Packages.toml");
                text
            },
            Violation::UnknownFlag { flag, manager } => {
                let mut text = String::from_str("Unknown flag '");
                text.append(flag.as_str());
                text.append("' for manager '");
                text.append(manager.as_str());
                text.append("' in JSON; not defined in Packages.toml");
                text
            },
            Violation::ComplexValue { flag, manager, value } => {
                let mut text = String::from_str("Unsupported complex value for flag '");
                text.append(flag.as_str());
                text.append("' on '");
                text.append(manager.as_str());
                text.append("': ");
                text.append(value.as_str());
                text
            },
            Violation::FlagsNotSupported { manager, flags } => {
                let mut text = String::from_str("Manager '");
                text.append(manager.as_str());
                text.append(
                    "' does not support flags (TOML has no 'others'), but JSON provided: ",
                );
                let names = join(flags, ", ");
                text.append(names.as_str());
                text
            },
            Violation::UnknownPackageKey { manager } => {
                let mut text = String::from_str("Unknown custom_packages key '");
                text.append(manager.as_str());
                text.append("' in JSON; must be defined in Packages.toml");
                text
            },
        }
    }
}

/// Whether `name` is one of the flags listed in `allowed`.
pub open spec fn allows(allowed: Seq<FlagInfoView>, name: Seq<char>) -> bool {
    exists|i: int| 0 <= i < allowed.len() && #[trigger] allowed[i].name == name
}

/// The names of a list of flags.
pub open spec fn flag_names(flags: Seq<FlagView>) -> Seq<Seq<char>> {
    flags.map_values(|f: FlagView| f.name)
}

/// What is wrong with one flag of the manager `manager`, which lists the
/// flags `allowed`: its name first, then its value.
pub open spec fn flag_fault(flag: FlagView, allowed: Seq<FlagInfoView>, manager: Seq<char>)
    -> Option<ViolationView> {
    if !allows(allowed, flag.name) {
        Some(ViolationView::UnknownFlag { flag: flag.name, manager })
    } else if !flag.value.is_scalar() {
        Some(
            ViolationView::ComplexValue { flag: flag.name, manager, value: flag.value.rendered() },
        )
    } else {
        None
    }
}

/// The first fault among `flags`, in their order.
pub open spec fn flags_fault(flags: Seq<FlagView>, allowed: Seq<FlagInfoView>, manager: Seq<char>)
    -> Option<ViolationView>
    decreases flags.len(),
{
    if flags.len() == 0 {
        None
    } else if flag_fault(flags[0], allowed, manager).is_some() {
        flag_fault(flags[0], allowed, manager)
    } else {
        flags_fault(flags.drop_first(), allowed, manager)
    }
}

/// What is wrong with one manager request: the manager is not defined, or
/// it lists no flags and is given some, or one of the flags is at fault.
pub open spec fn request_fault(
    request: ManagerRequestView,
    catalog: Seq<TomlPackageManagerView>,
) -> Option<ViolationView> {
    match definition_of(catalog, request.id) {
        None => Some(ViolationView::UnknownManager { id: request.id }),
        Some(def) => match request.spec {
            ManagerSpecView::Bool(_) => None,
            ManagerSpecView::Object { flags, .. } => match def.others {
                Some(allowed) => flags_fault(flags, allowed, request.id),
                None => if flags.len() > 0 {
                    Some(
                        ViolationView::FlagsNotSupported {
                            manager: request.id,
                            flags: flag_names(flags),
                        },
                    )
                } else {
                    None
                },
            },
        },
    }
}

/// The first fault among the manager requests, in their order.
pub open spec fn requests_fault(
    requests: Seq<ManagerRequestView>,
    catalog: Seq<TomlPackageManagerView>,
) -> Option<ViolationView>
    decreases requests.len(),
{
    if requests.len() == 0 {
        None
    } else if request_fault(requests[0], catalog).is_some() {
        request_fault(requests[0], catalog)
    } else {
        requests_fault(requests.drop_first(), catalog)
    }
}

/// The first package list whose manager the catalog does not define.
pub open spec fn lists_fault(
    lists: Seq<PackageListView>,
    catalog: Seq<TomlPackageManagerView>,
) -> Option<ViolationView>
    decreases lists.len(),
{
    if lists.len() == 0 {
        None
    } else if !defines(catalog, lists[0].manager) {
        Some(ViolationView::UnknownPackageKey { manager: lists[0].manager })
    } else {
        lists_fault(lists.drop_first(), catalog)
    }
}

/// The first violation of a manifest against a catalog: the manager
/// requests come before the package lists.
pub open spec fn first_violation(
    config: ConfigView,
    catalog: Seq<TomlPackageManagerView>,
) -> Option<ViolationView> {
    if requests_fault(config.package_management.managers, catalog).is_some() {
        requests_fault(config.package_management.managers, catalog)
    } else {
        lists_fault(config.custom_packages.by_manager, catalog)
    }
}

/// Whether `name` is listed in `allowed`.
pub fn is_allowed(allowed: &Vec<FlagInfo>, name: &String) -> (r: bool)
    ensures
        r == allows(allowed@.map_values(|f: FlagInfo| f@), name@),
{
    let ghost views = allowed@.map_values(|f: FlagInfo| f@);
    let mut i: usize = 0;
    while i < allowed.len()
        invariant
            i <= allowed.len(),
            views == allowed@.map_values(|f: FlagInfo| f@),
            forall|k: int| 0 <= k < i ==> (#[trigger] views[k]).name != name@,
        decreases allowed.len() - i,
    {
        if allowed[i].name == *name {
            proof {
                assert(views[i as int].name == name@);
            }
            return true;
        }
        i += 1;
    }
    false
}

/// The names of the flags, in their order.
pub fn names_of(flags: &Vec<Flag>) -> (names: Vec<String>)
    ensures
        names@.map_values(|s: String| s@) == flag_names(flag_views(flags@)),
{
    let mut names: Vec<String> = Vec::new();
    let mut i: usize = 0;
    while i < flags.len()
        invariant
            i <= flags.len(),
            names@.map_values(|s: String| s@) == flag_names(flag_views(flags@)).take(i as int),
        decreases flags.len() - i,
    {
        let ghost before = names@.map_values(|s: String| s@);
        names.push(flags[i].name.clone());
        proof {
            let all = flag_names(flag_views(flags@));
            assert(names@.map_values(|s: String| s@) == before.push(flags@[i as int].name@));
            assert(all.take(i + 1) == all.take(i as int).push(all[i as int]));
        }
        i += 1;
    }
    proof {
        let all = flag_names(flag_views(flags@));
        assert(all.take(flags.len() as int) == all);
    }
    names
}

/// The fault of one flag of the manager `manager`, if it has one.
pub fn check_flag(flag: &Flag, allowed: &Vec<FlagInfo>, manager: &String) -> (found: Option<
    Violation,
>)
    ensures
        found_view(found) == flag_fault(flag@, allowed@.map_values(|f: FlagInfo| f@), manager@),
{
    if !is_allowed(allowed, &flag.name) {
        return Some(Violation::UnknownFlag { flag: flag.name.clone(), manager: manager.clone() });
    }
    match &flag.value {
        FlagValue::Compound(text) => Some(
            Violation::ComplexValue {
                flag: flag.name.clone(),
                manager: manager.clone(),
                value: text.clone(),
            },
        ),
        _ => None,
    }
}

/// The first fault among the flags of the manager `manager`.
pub fn check_flags(flags: &Vec<Flag>, allowed: &Vec<FlagInfo>, manager: &String) -> (found:
    Option<Violation>)
    ensures
        found_view(found) == flags_fault(
            flag_views(flags@),
            allowed@.map_values(|f: FlagInfo| f@),
            manager@,
        ),
{
    let ghost views = flag_views(flags@);
    let ghost listed = allowed@.map_values(|f: FlagInfo| f@);
    let mut i: usize = 0;
    proof {
        assert(views.skip(0) == views);
    }
    while i < flags.len()
        invariant
            i <= flags.len(),
            views == flag_views(flags@),
            listed == allowed@.map_values(|f: FlagInfo| f@),
            flags_fault(views, listed, manager@) == flags_fault(
                views.skip(i as int),
                listed,
                manager@,
            ),
        decreases flags.len() - i,
    {
        proof {
            let tail = views.skip(i as int);
            assert(tail[0] == flags@[i as int]@);
            assert(tail.drop_first() == views.skip(i + 1));
        }
        let found = check_flag(&flags[i], allowed, manager);
        if found.is_some() {
            return found;
        }
        i += 1;
    }
    None
}

/// The fault of one manager request, if it has one.
pub fn check_request(request: &ManagerRequest, catalog: &Catalog) -> (found: Option<Violation>)
    ensures
        found_view(found) == request_fault(request@, catalog@),
{
    match catalog.find(&request.id) {
        None => Some(Violation::UnknownManager { id: request.id.clone() }),
        Some(def) => match &request.spec {
            ManagerSpec::Bool(_) => None,
            ManagerSpec::Object { enabled: _, flags } => match &def.others {
                Some(allowed) => check_flags(flags, allowed, &request.id),
                None => if flags.len() > 0 {
                    Some(
                        Violation::FlagsNotSupported {
                            manager: request.id.clone(),
                            flags: names_of(flags),
                        },
                    )
                } else {
                    None
                },
            },
        },
    }
}

/// The first violation of a manifest against a catalog, if there is one.
/// Nothing after it is looked at.
pub fn find_violation(config: &Config, catalog: &Catalog) -> (found: Option<Violation>)
    ensures
        found_view(found) == first_violation(config@, catalog@),
{
    let requests = &config.package_management.managers;
    let ghost views = config@.package_management.managers;
    let mut i: usize = 0;
    proof {
        assert(views.skip(0) == views);
    }
    while i < requests.len()
        invariant
            i <= requests.len(),
            requests == &config.package_management.managers,
            views == config@.package_management.managers,
            requests_fault(views, catalog@) == requests_fault(views.skip(i as int), catalog@),
        decreases requests.len() - i,
    {
        proof {
            let tail = views.skip(i as int);
            assert(tail[0] == requests@[i as int]@);
            assert(tail.drop_first() == views.skip(i + 1));
        }
        let found = check_request(&requests[i], catalog);
        if found.is_some() {
            return found;
        }
        i += 1;
    }
    let lists = &config.custom_packages.by_manager;
    let ghost keys = config@.custom_packages.by_manager;
    let mut j: usize = 0;
    proof {
        assert(keys.skip(0) == keys);
    }
    while j < lists.len()
        invariant
            j <= lists.len(),
            lists == &config.custom_packages.by_manager,
            keys == config@.custom_packages.by_manager,
            first_violation(config@, catalog@) == lists_fault(keys, catalog@),
            lists_fault(keys, catalog@) == lists_fault(keys.skip(j as int), catalog@),
        decreases lists.len() - j,
    {
        proof {
            let tail = keys.skip(j as int);
            assert(tail[0] == lists@[j as int]@);
            assert(tail.drop_first() == keys.skip(j + 1));
        }
        if !catalog.contains_key(&lists[j].manager) {
            let found = Violation::UnknownPackageKey { manager: lists[j].manager.clone() };
            proof {
                let tail = keys.skip(j as int);
                assert(tail[0].manager == lists@[j as int].manager@);
            }
            return Some(found);
        }
        j += 1;
    }
    None
}

/// Validates a manifest against a catalog. The first violation, if there is
/// one, is the error; otherwise the result is the report.
pub fn validate(config: &Config, catalog: &Catalog) -> (r: Result<String, Violation>)
    ensures
        match r {
            Ok(text) => first_violation(config@, catalog@).is_none() && text@ == report_text(
                config@,
                catalog@,
            ),
            Err(v) => first_violation(config@, catalog@) == Some(v@),
        },
{
    match find_violation(config, catalog) {
        Some(v) => Err(v),
        None => Ok(report(config, catalog)),
    }
}

/// Validates a manifest against a catalog and answers in words: the report,
/// or the message of the first violation.
pub fn compare_and_report(config: &Config, catalog: &Catalog) -> (r: Result<String, String>)
    ensures
        match r {
            Ok(text) => first_violation(config@, catalog@).is_none() && text@ == report_text(
                config@,
                catalog@,
            ),
            Err(text) => first_violation(config@, catalog@).is_some() && text@ == first_violation(
                config@,
                catalog@,
            ).unwrap().message(),
        },
{
    match validate(config, catalog) {
        Ok(text) => Ok(text),
        Err(v) => Err(v.message()),
    }
}

/// A request that the catalog allows: its manager is defined; where the
/// definition lists flags, each flag given is listed and has a scalar value;
/// where it lists none, no flag is given.
pub open spec fn request_allowed(
    request: ManagerRequestView,
    catalog: Seq<TomlPackageManagerView>,
) -> bool {
    &&& defines(catalog, request.id)
    &&& match request.spec {
        ManagerSpecView::Bool(_) => true,
        ManagerSpecView::Object { flags, .. } => match definition_of(
            catalog,
            request.id,
        ).unwrap().others {
            Some(allowed) => forall|k: int|
                0 <= k < flags.len() ==> allows(allowed, (#[trigger] flags[k]).name)
                    && flags[k].value.is_scalar(),
            None => flags.len() == 0,
        },
    }
}

/// A manifest that the catalog allows: every request is allowed, and every
/// package list is for a manager that the catalog defines.
pub open spec fn manifest_allowed(
    config: ConfigView,
    catalog: Seq<TomlPackageManagerView>,
) -> bool {
    &&& forall|i: int|
        0 <= i < config.package_management.managers.len() ==> request_allowed(
            #[trigger] config.package_management.managers[i],
            catalog,
        )
    &&& forall|j: int|
        0 <= j < config.custom_packages.by_manager.len() ==> defines(
            catalog,
            (#[trigger] config.custom_packages.by_manager[j]).manager,
        )
}

/// The flags have no fault exactly where each is listed and scalar.
pub proof fn lemma_flags_fault_none(
    flags: Seq<FlagView>,
    allowed: Seq<FlagInfoView>,
    manager: Seq<char>,
)
    ensures
        flags_fault(flags, allowed, manager).is_none() <==> (forall|k: int|
            0 <= k < flags.len() ==> allows(allowed, (#[trigger] flags[k]).name)
                && flags[k].value.is_scalar()),
    decreases flags.len(),
{
    if flags.len() > 0 {
        let rest = flags.drop_first();
        lemma_flags_fault_none(rest, allowed, manager);
        if flags_fault(flags, allowed, manager).is_none() {
            assert forall|k: int| 0 <= k < flags.len() implies allows(
                allowed,
                (#[trigger] flags[k]).name,
            ) && flags[k].value.is_scalar() by {
                if k > 0 {
                    assert(flags[k] == rest[k - 1]);
                }
            }
        } else if flag_fault(flags[0], allowed, manager).is_none() {
            let k = choose|k: int|
                0 <= k < rest.len() && !(allows(allowed, (#[trigger] rest[k]).name)
                    && rest[k].value.is_scalar());
            assert(flags[k + 1] == rest[k]);
        }
    }
}

/// A request has no fault exactly where the catalog allows it.
pub proof fn lemma_request_fault_none(
    request: ManagerRequestView,
    catalog: Seq<TomlPackageManagerView>,
)
    ensures
        request_fault(request, catalog).is_none() <==> request_allowed(request, catalog),
{
    lemma_first_place(catalog, request.id);
    if defines(catalog, request.id) {
        let def = definition_of(catalog, request.id).unwrap();
        match request.spec {
            ManagerSpecView::Bool(_) => {},
            ManagerSpecView::Object { flags, .. } => {
                if def.others.is_some() {
                    lemma_flags_fault_none(flags, def.others.unwrap(), request.id);
                }
            },
        }
    }
}

/// Fail-fast: the fault reported for a list of requests is that of the first
/// request that has one.
pub proof fn lemma_first_fault_wins(
    requests: Seq<ManagerRequestView>,
    catalog: Seq<TomlPackageManagerView>,
    i: int,
)
    requires
        0 <= i < requests.len(),
        request_fault(requests[i], catalog).is_some(),
        forall|j: int| 0 <= j < i ==> request_fault(#[trigger] requests[j], catalog).is_none(),
    ensures
        requests_fault(requests, catalog) == request_fault(requests[i], catalog),
    decreases requests.len(),
{
    if i > 0 {
        let rest = requests.drop_first();
        assert(rest[i - 1] == requests[i]);
        assert forall|j: int| 0 <= j < i - 1 implies request_fault(
            #[trigger] rest[j],
            catalog,
        ).is_none() by {
            assert(rest[j] == requests[j + 1]);
        }
        lemma_first_fault_wins(rest, catalog, i - 1);
    }
}

/// The requests have no fault exactly where each of them has none.
pub proof fn lemma_requests_fault_none(
    requests: Seq<ManagerRequestView>,
    catalog: Seq<TomlPackageManagerView>,
)
    ensures
        requests_fault(requests, catalog).is_none() <==> (forall|i: int|
            0 <= i < requests.len() ==> request_fault(#[trigger] requests[i], catalog).is_none()),
    decreases requests.len(),
{
    if requests.len() > 0 {
        let rest = requests.drop_first();
        lemma_requests_fault_none(rest, catalog);
        if requests_fault(requests, catalog).is_none() {
            assert forall|i: int| 0 <= i < requests.len() implies request_fault(
                #[trigger] requests[i],
                catalog,
            ).is_none() by {
                if i > 0 {
                    assert(requests[i] == rest[i - 1]);
                }
            }
        } else if request_fault(requests[0], catalog).is_none() {
            let i = choose|i: int|
                0 <= i < rest.len() && request_fault(#[trigger] rest[i], catalog).is_some();
            assert(requests[i + 1] == rest[i]);
        }
    }
}

/// The package lists have no fault exactly where the catalog defines the
/// manager of each.
pub proof fn lemma_lists_fault_none(
    lists: Seq<PackageListView>,
    catalog: Seq<TomlPackageManagerView>,
)
    ensures
        lists_fault(lists, catalog).is_none() <==> (forall|j: int|
            0 <= j < lists.len() ==> defines(catalog, (#[trigger] lists[j]).manager)),
    decreases lists.len(),
{
    if lists.len() > 0 {
        let rest = lists.drop_first();
        lemma_lists_fault_none(rest, catalog);
        if lists_fault(lists, catalog).is_none() {
            assert forall|j: int| 0 <= j < lists.len() implies defines(
                catalog,
                (#[trigger] lists[j]).manager,
            ) by {
                if j > 0 {
                    assert(lists[j] == rest[j - 1]);
                }
            }
        } else if defines(catalog, lists[0].manager) {
            let j = choose|j: int|
                0 <= j < rest.len() && !defines(catalog, (#[trigger] rest[j]).manager);
            assert(lists[j + 1] == rest[j]);
        }
    }
}

/// A manifest passes validation exactly where the catalog allows it.
pub proof fn lemma_accepted_iff_allowed(
    config: ConfigView,
    catalog: Seq<TomlPackageManagerView>,
)
    ensures
        first_violation(config, catalog).is_none() <==> manifest_allowed(config, catalog),
{
    let requests = config.package_management.managers;
    lemma_requests_fault_none(requests, catalog);
    lemma_lists_fault_none(config.custom_packages.by_manager, catalog);
    assert forall|i: int| 0 <= i < requests.len() implies (request_fault(
        #[trigger] requests[i],
        catalog,
    ).is_none() <==> request_allowed(requests[i], catalog)) by {
        lemma_request_fault_none(requests[i], catalog);
    }
}

/// A manifest that asks for a manager which the catalog does not define is
/// rejected; where no request before that one is at fault, the violation
/// reported is that unknown manager.
pub proof fn lemma_undefined_manager_rejected(
    config: ConfigView,
    catalog: Seq<TomlPackageManagerView>,
    i: int,
)
    requires
        0 <= i < config.package_management.managers.len(),
        !defines(catalog, config.package_management.managers[i].id),
    ensures
        first_violation(config, catalog).is_some(),
        (forall|j: int|
            0 <= j < i ==> request_fault(
                #[trigger] config.package_management.managers[j],
                catalog,
            ).is_none()) ==> first_violation(config, catalog) == Some(
            ViolationView::UnknownManager { id: config.package_management.managers[i].id },
        ),
{
    let requests = config.package_management.managers;
    lemma_first_place(catalog, requests[i].id);
    assert(request_fault(requests[i], catalog) == Some(
        ViolationView::UnknownManager { id: requests[i].id },
    ));
    lemma_requests_fault_none(requests, catalog);
    if forall|j: int| 0 <= j < i ==> request_fault(#[trigger] requests[j], catalog).is_none() {
        lemma_first_fault_wins(requests, catalog, i);
    }
}

} // verus!
