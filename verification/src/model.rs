//! The data of a run: the catalog of manager definitions and the manifest
//! that asks for managers, flags and packages. Each type has a view in which
//! strings are character sequences and lists are sequences.

use vstd::prelude::*;

verus! {

/// The character sequences of a list of strings.
pub open spec fn texts(v: Seq<String>) -> Seq<Seq<char>> {
    v.map_values(|s: String| s@)
}

/// The value that a manifest gives to a flag.
#[derive(Clone, Debug, PartialEq, Eq)]
pub enum FlagValue {
    Null,
    Bool(bool),
    /// A number, held as its canonical decimal text.
    Number(String),
    Text(String),
    /// An array or an object, held as its compact serialisation.
    Compound(String),
}

pub enum FlagValueView {
    Null,
    Bool(bool),
    Number(Seq<char>),
    Text(Seq<char>),
    Compound(Seq<char>),
}

impl View for FlagValue {
    type V = FlagValueView;

    open spec fn view(&self) -> FlagValueView {
        match self {
            FlagValue::Null => FlagValueView::Null,
            FlagValue::Bool(b) => FlagValueView::Bool(*b),
            FlagValue::Number(t) => FlagValueView::Number(t@),
            FlagValue::Text(t) => FlagValueView::Text(t@),
            FlagValue::Compound(t) => FlagValueView::Compound(t@),
        }
    }
}

impl FlagValueView {
    /// A string, a boolean, a number or null: the values a flag may have.
    pub open spec fn is_scalar(self) -> bool {
        !(self is Compound)
    }

    /// What a placeholder is replaced by: a string by itself, a boolean by
    /// `true` or `false`, a number by its decimal text, null by nothing, an
    /// array or object by its serialisation.
    pub open spec fn rendered(self) -> Seq<char> {
        match self {
            FlagValueView::Null => Seq::empty(),
            FlagValueView::Bool(b) => if b { "true"@ } else { "false"@ },
            FlagValueView::Number(t) => t,
            FlagValueView::Text(t) => t,
            FlagValueView::Compound(t) => t,
        }
    }
}

/// One flag of a manager request: its name and the value given to it.
#[derive(Clone, Debug, PartialEq, Eq)]
pub struct Flag {
    pub name: String,
    pub value: FlagValue,
}

pub struct FlagView {
    pub name: Seq<char>,
    pub value: FlagValueView,
}

impl View for Flag {
    type V = FlagView;

    open spec fn view(&self) -> FlagView {
        FlagView { name: self.name@, value: self.value@ }
    }
}

/// The views of a list of flags.
pub open spec fn flag_views(v: Seq<Flag>) -> Seq<FlagView> {
    v.map_values(|f: Flag| f@)
}

/// What a manifest asks of one manager: a bare switch, or a switch with flags.
#[derive(Clone, Debug, PartialEq, Eq)]
pub enum ManagerSpec {
    Bool(bool),
    Object { enabled: bool, flags: Vec<Flag> },
}

pub enum ManagerSpecView {
    Bool(bool),
    Object { enabled: bool, flags: Seq<FlagView> },
}

impl View for ManagerSpec {
    type V = ManagerSpecView;

    open spec fn view(&self) -> ManagerSpecView {
        match self {
            ManagerSpec::Bool(b) => ManagerSpecView::Bool(*b),
            ManagerSpec::Object { enabled, flags } => ManagerSpecView::Object {
                enabled: *enabled,
                flags: flag_views(flags@),
            },
        }
    }
}

impl ManagerSpecView {
    pub open spec fn enabled(self) -> bool {
        match self {
            ManagerSpecView::Bool(b) => b,
            ManagerSpecView::Object { enabled, .. } => enabled,
        }
    }

    /// The flags supplied; none for the bare form.
    pub open spec fn flags(self) -> Seq<FlagView> {
        match self {
            ManagerSpecView::Bool(_) => Seq::empty(),
            ManagerSpecView::Object { flags, .. } => flags,
        }
    }
}

/// Whether a manager request switches its manager on.
pub fn is_enabled(spec: &ManagerSpec) -> (r: bool)
    ensures
        r == spec@.enabled(),
{
    match spec {
        ManagerSpec::Bool(b) => *b,
        ManagerSpec::Object { enabled, .. } => *enabled,
    }
}

/// The flags that a manager request supplies; none for the bare form.
pub fn flags_of(spec: &ManagerSpec) -> (flags: &[Flag])
    ensures
        flag_views(flags@) == spec@.flags(),
{
    match spec {
        ManagerSpec::Bool(_) => {
            let none: &[Flag] = &[];
            proof {
                assert(flag_views(none@) == Seq::<FlagView>::empty());
            }
            none
        },
        ManagerSpec::Object { enabled: _, flags } => flags.as_slice(),
    }
}

/// One entry of the manifest's manager map.
#[derive(Clone, Debug, PartialEq, Eq)]
pub struct ManagerRequest {
    pub id: String,
    pub spec: ManagerSpec,
}

pub struct ManagerRequestView {
    pub id: Seq<char>,
    pub spec: ManagerSpecView,
}

impl View for ManagerRequest {
    type V = ManagerRequestView;

    open spec fn view(&self) -> ManagerRequestView {
        ManagerRequestView { id: self.id@, spec: self.spec@ }
    }
}

/// The scripts to run before and after, and the managers asked for, in the
/// order in which they are handled.
#[derive(Clone, Debug, PartialEq, Eq)]
pub struct PackageManagement {
    pub pre: Vec<String>,
    pub post: Vec<String>,
    pub managers: Vec<ManagerRequest>,
}

pub struct PackageManagementView {
    pub pre: Seq<Seq<char>>,
    pub post: Seq<Seq<char>>,
    pub managers: Seq<ManagerRequestView>,
}

impl View for PackageManagement {
    type V = PackageManagementView;

    open spec fn view(&self) -> PackageManagementView {
        PackageManagementView {
            pre: texts(self.pre@),
            post: texts(self.post@),
            managers: self.managers@.map_values(|m: ManagerRequest| m@),
        }
    }
}

/// The packages asked of one manager, in the order of installation.
#[derive(Clone, Debug, PartialEq, Eq)]
pub struct PackageList {
    pub manager: String,
    pub packages: Vec<String>,
}

pub struct PackageListView {
    pub manager: Seq<char>,
    pub packages: Seq<Seq<char>>,
}

impl View for PackageList {
    type V = PackageListView;

    open spec fn view(&self) -> PackageListView {
        PackageListView { manager: self.manager@, packages: texts(self.packages@) }
    }
}

/// The package lists of a manifest, one per manager.
#[derive(Clone, Debug, PartialEq, Eq)]
pub struct CustomPackages {
    pub pre: Vec<String>,
    pub post: Vec<String>,
    pub by_manager: Vec<PackageList>,
}

pub struct CustomPackagesView {
    pub pre: Seq<Seq<char>>,
    pub post: Seq<Seq<char>>,
    pub by_manager: Seq<PackageListView>,
}

impl View for CustomPackages {
    type V = CustomPackagesView;

    open spec fn view(&self) -> CustomPackagesView {
        CustomPackagesView {
            pre: texts(self.pre@),
            post: texts(self.post@),
            by_manager: self.by_manager@.map_values(|l: PackageList| l@),
        }
    }
}

/// A manifest.
#[derive(Clone, Debug, PartialEq, Eq)]
pub struct Config {
    pub package_management: PackageManagement,
    pub custom_packages: CustomPackages,
}

pub struct ConfigView {
    pub package_management: PackageManagementView,
    pub custom_packages: CustomPackagesView,
}

impl View for Config {
    type V = ConfigView;

    open spec fn view(&self) -> ConfigView {
        ConfigView {
            package_management: self.package_management@,
            custom_packages: self.custom_packages@,
        }
    }
}

/// A flag that a manager accepts, with its description.
#[derive(Clone, Debug, PartialEq, Eq)]
pub struct FlagInfo {
    pub name: String,
    pub description: String,
}

pub struct FlagInfoView {
    pub name: Seq<char>,
    pub description: Seq<char>,
}

impl View for FlagInfo {
    type V = FlagInfoView;

    open spec fn view(&self) -> FlagInfoView {
        FlagInfoView { name: self.name@, description: self.description@ }
    }
}

/// How one package manager is probed, enabled, bootstrapped and used.
#[derive(Clone, Debug, PartialEq, Eq)]
pub struct TomlPackageManager {
    pub id: String,
    pub check: String,
    pub bootstrap: String,
    pub enable: String,
    pub install: String,
    pub others: Option<Vec<FlagInfo>>,
}

pub struct TomlPackageManagerView {
    pub id: Seq<char>,
    pub check: Seq<char>,
    pub bootstrap: Seq<char>,
    pub enable: Seq<char>,
    pub install: Seq<char>,
    pub others: Option<Seq<FlagInfoView>>,
}

impl View for TomlPackageManager {
    type V = TomlPackageManagerView;

    open spec fn view(&self) -> TomlPackageManagerView {
        TomlPackageManagerView {
            id: self.id@,
            check: self.check@,
            bootstrap: self.bootstrap@,
            enable: self.enable@,
            install: self.install@,
            others: match self.others {
                Some(v) => Some(v@.map_values(|f: FlagInfo| f@)),
                None => None,
            },
        }
    }
}

/// The manager definitions of a catalog document, in the document's order.
#[derive(Clone, Debug, PartialEq, Eq)]
pub struct TomlConfig {
    pub package_manager: Vec<TomlPackageManager>,
}

impl View for TomlConfig {
    type V = Seq<TomlPackageManagerView>;

    open spec fn view(&self) -> Seq<TomlPackageManagerView> {
        self.package_manager@.map_values(|m: TomlPackageManager| m@)
    }
}

/// No two of `keys` are the same.
pub open spec fn distinct(keys: Seq<Seq<char>>) -> bool {
    forall|a: int, b: int| 0 <= a < b < keys.len() ==> keys[a] != keys[b]
}

/// The ids of the manager requests, in their order.
pub open spec fn request_ids(requests: Seq<ManagerRequestView>) -> Seq<Seq<char>> {
    requests.map_values(|m: ManagerRequestView| m.id)
}

/// The managers of the package lists, in their order.
pub open spec fn list_managers(lists: Seq<PackageListView>) -> Seq<Seq<char>> {
    lists.map_values(|l: PackageListView| l.manager)
}

/// The names of the flags of a request, in their order.
pub open spec fn request_flag_names(request: ManagerRequestView) -> Seq<Seq<char>> {
    request.spec.flags().map_values(|f: FlagView| f.name)
}

impl ConfigView {
    /// The lists of a manifest stand for maps: no manager is asked for
    /// twice, none has two package lists, and no request names a flag twice.
    pub open spec fn keys_are_distinct(self) -> bool {
        &&& distinct(request_ids(self.package_management.managers))
        &&& distinct(list_managers(self.custom_packages.by_manager))
        &&& forall|i: int|
            0 <= i < self.package_management.managers.len() ==> distinct(
                request_flag_names(#[trigger] self.package_management.managers[i]),
            )
    }
}

/// Whether no two of `keys` are the same.
pub fn all_distinct(keys: &Vec<String>) -> (r: bool)
    ensures
        r == distinct(texts(keys@)),
{
    let ghost all = texts(keys@);
    let mut b: usize = 0;
    while b < keys.len()
        invariant
            b <= keys.len(),
            all == texts(keys@),
            forall|x: int, y: int| 0 <= x < y < b ==> all[x] != all[y],
        decreases keys.len() - b,
    {
        let mut a: usize = 0;
        while a < b
            invariant
                a <= b < keys.len(),
                all == texts(keys@),
                forall|x: int| 0 <= x < a ==> all[x] != all[b as int],
            decreases b - a,
        {
            if keys[a] == keys[b] {
                proof {
                    assert(all[a as int] == all[b as int]);
                }
                return false;
            }
            a += 1;
        }
        b += 1;
    }
    true
}

/// Whether the lists of a manifest stand for maps: whether no key occurs
/// twice in any of them.
pub fn has_distinct_keys(config: &Config) -> (r: bool)
    ensures
        r == config@.keys_are_distinct(),
{
    let requests = &config.package_management.managers;
    let lists = &config.custom_packages.by_manager;
    let ghost asked = config@.package_management.managers;
    let ghost wanted = config@.custom_packages.by_manager;

    let mut ids: Vec<String> = Vec::new();
    let mut i: usize = 0;
    while i < requests.len()
        invariant
            i <= requests.len(),
            requests == &config.package_management.managers,
            asked == config@.package_management.managers,
            texts(ids@) == request_ids(asked).take(i as int),
            forall|k: int| 0 <= k < i ==> distinct(request_flag_names(#[trigger] asked[k])),
        decreases requests.len() - i,
    {
        let ghost before = texts(ids@);
        ids.push(requests[i].id.clone());
        proof {
            assert(texts(ids@) == before.push(requests@[i as int].id@));
            assert(request_ids(asked).take(i + 1) == request_ids(asked).take(i as int).push(
                request_ids(asked)[i as int],
            ));
        }
        match &requests[i].spec {
            ManagerSpec::Bool(_) => {},
            ManagerSpec::Object { enabled: _, flags } => {
                let mut names: Vec<String> = Vec::new();
                let ghost all = request_flag_names(asked[i as int]);
                let mut j: usize = 0;
                while j < flags.len()
                    invariant
                        j <= flags.len(),
                        all == flag_views(flags@).map_values(|f: FlagView| f.name),
                        texts(names@) == all.take(j as int),
                    decreases flags.len() - j,
                {
                    let ghost front = texts(names@);
                    names.push(flags[j].name.clone());
                    proof {
                        assert(texts(names@) == front.push(flags@[j as int].name@));
                        assert(all.take(j + 1) == all.take(j as int).push(all[j as int]));
                    }
                    j += 1;
                }
                proof {
                    assert(all.take(flags.len() as int) == all);
                }
                if !all_distinct(&names) {
                    return false;
                }
            },
        }
        i += 1;
    }
    proof {
        assert(request_ids(asked).take(requests.len() as int) == request_ids(asked));
    }
    if !all_distinct(&ids) {
        return false;
    }
    let mut managers: Vec<String> = Vec::new();
    let mut i: usize = 0;
    while i < lists.len()
        invariant
            i <= lists.len(),
            lists == &config.custom_packages.by_manager,
            wanted == config@.custom_packages.by_manager,
            texts(managers@) == list_managers(wanted).take(i as int),
        decreases lists.len() - i,
    {
        let ghost before = texts(managers@);
        managers.push(lists[i].manager.clone());
        proof {
            assert(texts(managers@) == before.push(lists@[i as int].manager@));
            assert(list_managers(wanted).take(i + 1) == list_managers(wanted).take(
                i as int,
            ).push(list_managers(wanted)[i as int]));
        }
        i += 1;
    }
    proof {
        assert(list_managers(wanted).take(lists.len() as int) == list_managers(wanted));
    }
    all_distinct(&managers)
}

} // verus!
