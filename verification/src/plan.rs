//! The plan of a run: every command that a manifest and a catalog can give
//! rise to, in order, each with the condition under which it is run. The
//! scripts to run before come first, then the steps of each manager in the
//! manifest's order, then the scripts to run after.

use vstd::prelude::*;
use vstd::string::*;
use crate::catalog::{definition_of, Catalog};
use crate::expand::{expand_with_flags, expansion, should_run_expanded, worth_running};
use crate::model::{
    flag_views, flags_of, is_enabled, texts, Config, ConfigView, Flag, FlagView, ManagerRequest,
    ManagerRequestView, PackageList, PackageListView, TomlPackageManager, TomlPackageManagerView,
};
use crate::text::{trim, trim_of};

verus! {

/// What a step of the plan is for.
#[derive(Clone, Copy, Debug, PartialEq, Eq)]
pub enum StepKind {
    /// A script to run before the managers.
    PreScript,
    /// The manager's check command: success means that the manager is there.
    Probe,
    /// The enable command as the catalog has it.
    RawEnable,
    /// The enable command with the flags filled in.
    FlaggedEnable,
    /// The bootstrap command.
    Bootstrap,
    /// The install command for one package.
    Install,
    /// A script to run after the managers.
    PostScript,
}

/// When a step is run, by what the last probe said.
#[derive(Clone, Copy, Debug, PartialEq, Eq)]
pub enum Guard {
    Always,
    WhenAbsent,
    WhenPresent,
}

/// One step of the plan: a command, trimmed and not empty, with its kind,
/// the place of the script or manager request it belongs to, and its guard.
#[derive(Clone, Debug, PartialEq, Eq)]
pub struct Step {
    pub kind: StepKind,
    pub entry: usize,
    pub command: String,
    pub guard: Guard,
}

pub struct StepView {
    pub kind: StepKind,
    pub entry: usize,
    pub command: Seq<char>,
    pub guard: Guard,
}

impl View for Step {
    type V = StepView;

    open spec fn view(&self) -> StepView {
        StepView { kind: self.kind, entry: self.entry, command: self.command@, guard: self.guard }
    }
}

/// The views of a list of steps.
pub open spec fn step_views(v: Seq<Step>) -> Seq<StepView> {
    v.map_values(|s: Step| s@)
}

/// The step for `command`, trimmed; no step where nothing is left of it.
pub open spec fn command_steps(kind: StepKind, entry: usize, command: Seq<char>, guard: Guard)
    -> Seq<StepView> {
    if trim_of(command).len() > 0 {
        seq![StepView { kind, entry, command: trim_of(command), guard }]
    } else {
        Seq::empty()
    }
}

/// The steps of a list of scripts: one for each script that is not blank.
pub open spec fn script_steps(scripts: Seq<Seq<char>>, kind: StepKind) -> Seq<StepView>
    decreases scripts.len(),
{
    if scripts.len() == 0 {
        Seq::empty()
    } else {
        script_steps(scripts.drop_last(), kind) + command_steps(
            kind,
            (scripts.len() - 1) as usize,
            scripts.last(),
            Guard::Always,
        )
    }
}

/// Whether a definition has a check command. Without one the manager counts
/// as present, and nothing is probed.
pub open spec fn is_probed(def: TomlPackageManagerView) -> bool {
    trim_of(def.check).len() > 0
}

/// The probe of a manager.
pub open spec fn probe_steps(def: TomlPackageManagerView, entry: usize) -> Seq<StepView> {
    command_steps(StepKind::Probe, entry, def.check, Guard::Always)
}

/// The enable command as it stands, for a manager that the probe found absent.
pub open spec fn raw_enable_steps(def: TomlPackageManagerView, entry: usize) -> Seq<StepView> {
    if is_probed(def) {
        command_steps(StepKind::RawEnable, entry, def.enable, Guard::WhenAbsent)
    } else {
        Seq::empty()
    }
}

/// The enable command with the flags filled in, where that changed it. It
/// is run whether the manager is there or not.
pub open spec fn flagged_enable_steps(
    def: TomlPackageManagerView,
    flags: Seq<FlagView>,
    entry: usize,
) -> Seq<StepView> {
    if worth_running(expansion(def.enable, flags, None), def.enable) {
        command_steps(
            StepKind::FlaggedEnable,
            entry,
            expansion(def.enable, flags, None),
            Guard::Always,
        )
    } else {
        Seq::empty()
    }
}

/// The bootstrap command to run: with the flags filled in where that
/// changed it, as it stands where it did not.
pub open spec fn bootstrap_command(def: TomlPackageManagerView, flags: Seq<FlagView>) -> Seq<
    char,
> {
    if worth_running(expansion(def.bootstrap, flags, None), def.bootstrap) {
        expansion(def.bootstrap, flags, None)
    } else {
        def.bootstrap
    }
}

/// The bootstrap step, for a manager that is still absent.
pub open spec fn bootstrap_steps(def: TomlPackageManagerView, flags: Seq<FlagView>, entry: usize)
    -> Seq<StepView> {
    if is_probed(def) && trim_of(def.bootstrap).len() > 0 {
        command_steps(
            StepKind::Bootstrap,
            entry,
            bootstrap_command(def, flags),
            Guard::WhenAbsent,
        )
    } else {
        Seq::empty()
    }
}

/// The guard of the install steps: the last probe must have found the
/// manager, where there is a probe.
pub open spec fn install_guard(def: TomlPackageManagerView) -> Guard {
    if is_probed(def) {
        Guard::WhenPresent
    } else {
        Guard::Always
    }
}

/// The install command for one package: the template with the flags and
/// the package filled in.
pub open spec fn install_command(
    def: TomlPackageManagerView,
    flags: Seq<FlagView>,
    package: Seq<char>,
) -> Seq<char> {
    expansion(def.install, flags, Some(("package"@, package)))
}

/// The install steps: one for each package, in the order of the list.
pub open spec fn install_steps(
    def: TomlPackageManagerView,
    flags: Seq<FlagView>,
    packages: Seq<Seq<char>>,
    entry: usize,
) -> Seq<StepView>
    decreases packages.len(),
{
    if packages.len() == 0 {
        Seq::empty()
    } else {
        install_steps(def, flags, packages.drop_last(), entry) + command_steps(
            StepKind::Install,
            entry,
            install_command(def, flags, packages.last()),
            install_guard(def),
        )
    }
}

/// The steps of a manager before its installs: probe; the enable command
/// as it stands if the manager is absent; the enable command with flags;
/// probe again; bootstrap if still absent; probe a last time.
pub open spec fn approach_steps(def: TomlPackageManagerView, flags: Seq<FlagView>, entry: usize)
    -> Seq<StepView> {
    probe_steps(def, entry) + raw_enable_steps(def, entry) + flagged_enable_steps(
        def,
        flags,
        entry,
    ) + probe_steps(def, entry) + bootstrap_steps(def, flags, entry) + probe_steps(def, entry)
}

/// The steps of one manager: the approach, then the installs, which are
/// run if the last probe found the manager.
pub open spec fn manager_steps(
    def: TomlPackageManagerView,
    flags: Seq<FlagView>,
    packages: Seq<Seq<char>>,
    entry: usize,
) -> Seq<StepView> {
    approach_steps(def, flags, entry) + install_steps(def, flags, packages, entry)
}

/// The place of the first list for the manager `id`; the length of `lists`
/// where there is none.
pub open spec fn list_place(lists: Seq<PackageListView>, id: Seq<char>) -> int
    decreases lists.len(),
{
    if lists.len() == 0 {
        0
    } else if lists[0].manager == id {
        0
    } else {
        1 + list_place(lists.drop_first(), id)
    }
}

/// The packages asked of the manager `id`: those of the first list for it,
/// none where there is no list.
pub open spec fn packages_of(lists: Seq<PackageListView>, id: Seq<char>) -> Seq<Seq<char>> {
    if 0 <= list_place(lists, id) < lists.len() {
        lists[list_place(lists, id)].packages
    } else {
        Seq::empty()
    }
}

/// The steps of one manager request: none where it is switched off or the
/// catalog does not define the manager.
pub open spec fn request_steps(
    request: ManagerRequestView,
    catalog: Seq<TomlPackageManagerView>,
    lists: Seq<PackageListView>,
    entry: usize,
) -> Seq<StepView> {
    if !request.spec.enabled() {
        Seq::empty()
    } else {
        match definition_of(catalog, request.id) {
            None => Seq::empty(),
            Some(def) => manager_steps(
                def,
                request.spec.flags(),
                packages_of(lists, request.id),
                entry,
            ),
        }
    }
}

/// The steps of the manager requests, in their order.
pub open spec fn requests_steps(
    requests: Seq<ManagerRequestView>,
    catalog: Seq<TomlPackageManagerView>,
    lists: Seq<PackageListView>,
) -> Seq<StepView>
    decreases requests.len(),
{
    if requests.len() == 0 {
        Seq::empty()
    } else {
        requests_steps(requests.drop_last(), catalog, lists) + request_steps(
            requests.last(),
            catalog,
            lists,
            (requests.len() - 1) as usize,
        )
    }
}

/// The plan of a manifest and a catalog.
pub open spec fn plan_steps(config: ConfigView, catalog: Seq<TomlPackageManagerView>) -> Seq<
    StepView,
> {
    script_steps(config.package_management.pre, StepKind::PreScript) + requests_steps(
        config.package_management.managers,
        catalog,
        config.custom_packages.by_manager,
    ) + script_steps(config.package_management.post, StepKind::PostScript)
}

/// Adds the steps of `piece` to the end of `steps`.
pub fn extend(steps: &mut Vec<Step>, piece: Vec<Step>)
    ensures
        step_views(final(steps)@) == step_views(old(steps)@) + step_views(piece@),
{
    let mut piece = piece;
    steps.append(&mut piece);
}

/// The step for `command`, trimmed; no step where nothing is left of it.
pub fn command_piece(kind: StepKind, entry: usize, command: &str, guard: Guard) -> (piece: Vec<
    Step,
>)
    ensures
        step_views(piece@) == command_steps(kind, entry, command@, guard),
{
    let mut piece: Vec<Step> = Vec::new();
    let trimmed = trim(command);
    if !trimmed.is_empty() {
        piece.push(Step { kind, entry, command: trimmed.to_owned(), guard });
        proof {
            assert(step_views(piece@) == seq![piece@[0]@]);
        }
    } else {
        proof {
            assert(step_views(piece@) == Seq::<StepView>::empty());
        }
    }
    piece
}

/// The steps of a list of scripts.
pub fn script_piece(scripts: &Vec<String>, kind: StepKind) -> (piece: Vec<Step>)
    ensures
        step_views(piece@) == script_steps(texts(scripts@), kind),
{
    let mut piece: Vec<Step> = Vec::new();
    let ghost all = texts(scripts@);
    let mut i: usize = 0;
    proof {
        assert(step_views(piece@) == Seq::<StepView>::empty());
    }
    while i < scripts.len()
        invariant
            i <= scripts.len(),
            all == texts(scripts@),
            step_views(piece@) == script_steps(all.take(i as int), kind),
        decreases scripts.len() - i,
    {
        proof {
            assert(all.take(i + 1).drop_last() == all.take(i as int));
            assert(all.take(i + 1).last() == scripts@[i as int]@);
        }
        let one = command_piece(kind, i, scripts[i].as_str(), Guard::Always);
        extend(&mut piece, one);
        i += 1;
    }
    proof {
        assert(all.take(scripts.len() as int) == all);
    }
    piece
}

/// The enable step with the flags filled in, where there is one.
pub fn flagged_enable_piece(def: &TomlPackageManager, flags: &[Flag], entry: usize) -> (piece:
    Vec<Step>)
    ensures
        step_views(piece@) == flagged_enable_steps(def@, flag_views(flags@), entry),
{
    let flagged = expand_with_flags(def.enable.as_str(), flags, None);
    if should_run_expanded(flagged.as_str(), def.enable.as_str()) {
        command_piece(StepKind::FlaggedEnable, entry, flagged.as_str(), Guard::Always)
    } else {
        let piece: Vec<Step> = Vec::new();
        proof {
            assert(step_views(piece@) == Seq::<StepView>::empty());
        }
        piece
    }
}

/// The bootstrap step, where there is one.
pub fn bootstrap_piece(def: &TomlPackageManager, flags: &[Flag], entry: usize) -> (piece: Vec<
    Step,
>)
    ensures
        step_views(piece@) == bootstrap_steps(def@, flag_views(flags@), entry),
{
    if !trim(def.check.as_str()).is_empty() && !trim(def.bootstrap.as_str()).is_empty() {
        let flagged = expand_with_flags(def.bootstrap.as_str(), flags, None);
        if should_run_expanded(flagged.as_str(), def.bootstrap.as_str()) {
            command_piece(StepKind::Bootstrap, entry, flagged.as_str(), Guard::WhenAbsent)
        } else {
            command_piece(StepKind::Bootstrap, entry, def.bootstrap.as_str(), Guard::WhenAbsent)
        }
    } else {
        let piece: Vec<Step> = Vec::new();
        proof {
            assert(step_views(piece@) == Seq::<StepView>::empty());
        }
        piece
    }
}

/// The install steps of a manager, one for each package.
pub fn install_piece(
    def: &TomlPackageManager,
    flags: &[Flag],
    packages: &Vec<String>,
    entry: usize,
) -> (piece: Vec<Step>)
    ensures
        step_views(piece@) == install_steps(def@, flag_views(flags@), texts(packages@), entry),
{
    let guard = if trim(def.check.as_str()).is_empty() {
        Guard::Always
    } else {
        Guard::WhenPresent
    };
    let mut piece: Vec<Step> = Vec::new();
    let ghost all = texts(packages@);
    let mut i: usize = 0;
    proof {
        assert(step_views(piece@) == Seq::<StepView>::empty());
    }
    while i < packages.len()
        invariant
            i <= packages.len(),
            all == texts(packages@),
            guard == install_guard(def@),
            step_views(piece@) == install_steps(def@, flag_views(flags@), all.take(i as int), entry),
        decreases packages.len() - i,
    {
        proof {
            assert(all.take(i + 1).drop_last() == all.take(i as int));
            assert(all.take(i + 1).last() == packages@[i as int]@);
        }
        let command = expand_with_flags(
            def.install.as_str(),
            flags,
            Some(("package", packages[i].as_str())),
        );
        let one = command_piece(StepKind::Install, entry, command.as_str(), guard);
        extend(&mut piece, one);
        i += 1;
    }
    proof {
        assert(all.take(packages.len() as int) == all);
    }
    piece
}

/// The steps of one manager.
pub fn manager_piece(
    def: &TomlPackageManager,
    flags: &[Flag],
    packages: &Vec<String>,
    entry: usize,
) -> (piece: Vec<Step>)
    ensures
        step_views(piece@) == manager_steps(def@, flag_views(flags@), texts(packages@), entry),
{
    let mut piece = command_piece(StepKind::Probe, entry, def.check.as_str(), Guard::Always);
    let raw = if trim(def.check.as_str()).is_empty() {
        let none: Vec<Step> = Vec::new();
        proof {
            assert(step_views(none@) == Seq::<StepView>::empty());
        }
        none
    } else {
        command_piece(StepKind::RawEnable, entry, def.enable.as_str(), Guard::WhenAbsent)
    };
    extend(&mut piece, raw);
    extend(&mut piece, flagged_enable_piece(def, flags, entry));
    extend(&mut piece, command_piece(StepKind::Probe, entry, def.check.as_str(), Guard::Always));
    extend(&mut piece, bootstrap_piece(def, flags, entry));
    extend(&mut piece, command_piece(StepKind::Probe, entry, def.check.as_str(), Guard::Always));
    extend(&mut piece, install_piece(def, flags, packages, entry));
    piece
}

/// The place of the first list for the manager `id`, or the length of `lists`.
pub fn find_list(lists: &Vec<PackageList>, id: &String) -> (place: usize)
    ensures
        place == list_place(lists@.map_values(|l: PackageList| l@), id@),
        place <= lists.len(),
{
    let ghost views = lists@.map_values(|l: PackageList| l@);
    let mut i: usize = 0;
    proof {
        assert(views.skip(0) == views);
    }
    while i < lists.len()
        invariant
            i <= lists.len(),
            views == lists@.map_values(|l: PackageList| l@),
            list_place(views, id@) == i + list_place(views.skip(i as int), id@),
        decreases lists.len() - i,
    {
        proof {
            let tail = views.skip(i as int);
            assert(tail[0] == lists@[i as int]@);
            assert(tail.drop_first() == views.skip(i + 1));
        }
        if lists[i].manager == *id {
            return i;
        }
        i += 1;
    }
    proof {
        assert(views.skip(i as int).len() == 0);
    }
    i
}

/// The steps of one manager request.
pub fn request_piece(
    request: &ManagerRequest,
    catalog: &Catalog,
    lists: &Vec<PackageList>,
    entry: usize,
) -> (piece: Vec<Step>)
    ensures
        step_views(piece@) == request_steps(
            request@,
            catalog@,
            lists@.map_values(|l: PackageList| l@),
            entry,
        ),
{
    let none: Vec<Step> = Vec::new();
    proof {
        assert(step_views(none@) == Seq::<StepView>::empty());
    }
    let no_packages: Vec<String> = Vec::new();
    proof {
        assert(texts(no_packages@) == Seq::<Seq<char>>::empty());
    }
    if !is_enabled(&request.spec) {
        return none;
    }
    let flags = flags_of(&request.spec);
    match catalog.find(&request.id) {
        None => none,
        Some(def) => {
            let place = find_list(lists, &request.id);
            let packages = if place < lists.len() {
                &lists[place].packages
            } else {
                &no_packages
            };
            manager_piece(def, flags, packages, entry)
        },
    }
}

/// Plans a run: the steps that the manifest and the catalog give rise to,
/// in the order in which they are gone through.
pub fn plan(config: &Config, catalog: &Catalog) -> (steps: Vec<Step>)
    ensures
        step_views(steps@) == plan_steps(config@, catalog@),
{
    let mut steps = script_piece(&config.package_management.pre, StepKind::PreScript);
    let requests = &config.package_management.managers;
    let lists = &config.custom_packages.by_manager;
    let ghost asked = config@.package_management.managers;
    let mut middle: Vec<Step> = Vec::new();
    let mut i: usize = 0;
    proof {
        assert(step_views(middle@) == Seq::<StepView>::empty());
    }
    while i < requests.len()
        invariant
            i <= requests.len(),
            requests == &config.package_management.managers,
            lists == &config.custom_packages.by_manager,
            asked == config@.package_management.managers,
            step_views(middle@) == requests_steps(
                asked.take(i as int),
                catalog@,
                config@.custom_packages.by_manager,
            ),
        decreases requests.len() - i,
    {
        proof {
            assert(asked.take(i + 1).drop_last() == asked.take(i as int));
            assert(asked.take(i + 1).last() == requests@[i as int]@);
        }
        let one = request_piece(&requests[i], catalog, lists, i);
        extend(&mut middle, one);
        i += 1;
    }
    proof {
        assert(asked.take(requests.len() as int) == asked);
    }
    extend(&mut steps, middle);
    extend(&mut steps, script_piece(&config.package_management.post, StepKind::PostScript));
    steps
}

/// The step before step `k` is the probe of the same entry.
pub open spec fn follows_probe(steps: Seq<StepView>, k: int) -> bool {
    &&& 0 < k < steps.len()
    &&& steps[k - 1].kind is Probe
    &&& steps[k - 1].guard is Always
    &&& steps[k - 1].entry == steps[k].entry
}

/// The step before step `k` is an install of the same entry, for a manager
/// that the last probe found.
pub open spec fn follows_install(steps: Seq<StepView>, k: int) -> bool {
    &&& 0 < k < steps.len()
    &&& steps[k - 1].kind is Install
    &&& steps[k - 1].guard is WhenPresent
    &&& steps[k - 1].entry == steps[k].entry
}

/// Step `k` is guarded as its kind asks: a probe, a script and the enable
/// command with flags are always run; the enable command as it stands and
/// the bootstrap command are run only for an absent manager, and directly
/// behind a probe of that manager; an install is run always, or for a
/// manager that is there, and then directly behind the probe or behind
/// another install of that manager.
pub open spec fn in_order(steps: Seq<StepView>, k: int) -> bool {
    match steps[k].kind {
        StepKind::RawEnable | StepKind::Bootstrap => steps[k].guard is WhenAbsent
            && follows_probe(steps, k),
        StepKind::Install => steps[k].guard is Always || (steps[k].guard is WhenPresent && (
            follows_probe(steps, k) || follows_install(steps, k))),
        _ => steps[k].guard is Always,
    }
}

/// Every step is guarded as its kind asks.
pub open spec fn orderly(steps: Seq<StepView>) -> bool {
    forall|k: int| 0 <= k < steps.len() ==> in_order(steps, k)
}

/// Two orderly lists of steps, one after the other, are orderly.
pub proof fn lemma_orderly_joined(a: Seq<StepView>, b: Seq<StepView>)
    requires
        orderly(a),
        orderly(b),
    ensures
        orderly(a + b),
{
    let all = a + b;
    assert forall|k: int| 0 <= k < all.len() implies in_order(all, k) by {
        if k < a.len() {
            assert(in_order(a, k));
            assert(all[k] == a[k]);
            if k > 0 {
                assert(all[k - 1] == a[k - 1]);
            }
        } else {
            let j = k - a.len();
            assert(in_order(b, j));
            assert(all[k] == b[j]);
            if j > 0 {
                assert(all[k - 1] == b[j - 1]);
            }
        }
    }
}

/// The steps of scripts are orderly.
pub proof fn lemma_scripts_orderly(scripts: Seq<Seq<char>>, kind: StepKind)
    requires
        kind is PreScript || kind is PostScript,
    ensures
        orderly(script_steps(scripts, kind)),
    decreases scripts.len(),
{
    if scripts.len() > 0 {
        lemma_scripts_orderly(scripts.drop_last(), kind);
        let one = command_steps(kind, (scripts.len() - 1) as usize, scripts.last(), Guard::Always);
        assert(orderly(one));
        lemma_orderly_joined(script_steps(scripts.drop_last(), kind), one);
    }
}

/// The steps of a manager before its installs are orderly.
pub proof fn lemma_approach_orderly(
    def: TomlPackageManagerView,
    flags: Seq<FlagView>,
    entry: usize,
)
    ensures
        orderly(approach_steps(def, flags, entry)),
{
    let probe = probe_steps(def, entry);
    let raw = raw_enable_steps(def, entry);
    let flagged = flagged_enable_steps(def, flags, entry);
    let boot = bootstrap_steps(def, flags, entry);
    let first = probe + raw;
    let second = flagged + probe + boot;
    assert(orderly(probe));
    assert(orderly(flagged));
    assert(orderly(first)) by {
        assert forall|k: int| 0 <= k < first.len() implies in_order(first, k) by {
            if raw.len() > 0 {
                assert(probe.len() == 1);
            }
        }
    }
    assert(orderly(second)) by {
        assert forall|k: int| 0 <= k < second.len() implies in_order(second, k) by {
            if boot.len() > 0 {
                assert(probe.len() == 1);
                assert(second[flagged.len() as int] == probe[0]);
            }
        }
    }
    lemma_orderly_joined(first, second);
    lemma_orderly_joined(first + second, probe);
    assert(approach_steps(def, flags, entry) == first + second + probe);
}

/// The steps of a manager end so that an install may follow: where the
/// manager is probed, the last step is its probe or one of its installs.
pub open spec fn ends_ready(steps: Seq<StepView>, entry: usize) -> bool {
    &&& steps.len() > 0
    &&& steps.last().entry == entry
    &&& (steps.last().kind is Probe && steps.last().guard is Always) || (steps.last().kind
        is Install && steps.last().guard is WhenPresent)
}

/// The steps of a manager are orderly.
pub proof fn lemma_manager_orderly(
    def: TomlPackageManagerView,
    flags: Seq<FlagView>,
    packages: Seq<Seq<char>>,
    entry: usize,
)
    ensures
        orderly(manager_steps(def, flags, packages, entry)),
        is_probed(def) ==> ends_ready(manager_steps(def, flags, packages, entry), entry),
    decreases packages.len(),
{
    let approach = approach_steps(def, flags, entry);
    let all = manager_steps(def, flags, packages, entry);
    lemma_approach_orderly(def, flags, entry);
    if packages.len() == 0 {
        assert(all == approach);
        if is_probed(def) {
            assert(approach.last() == probe_steps(def, entry)[0]);
        }
    } else {
        let before = manager_steps(def, flags, packages.drop_last(), entry);
        let one = command_steps(
            StepKind::Install,
            entry,
            install_command(def, flags, packages.last()),
            install_guard(def),
        );
        lemma_manager_orderly(def, flags, packages.drop_last(), entry);
        assert(all == before + one);
        assert forall|k: int| 0 <= k < all.len() implies in_order(all, k) by {
            if k < before.len() {
                assert(in_order(before, k));
                assert(all[k] == before[k]);
                if k > 0 {
                    assert(all[k - 1] == before[k - 1]);
                }
            } else {
                assert(all[k] == one[0]);
                if is_probed(def) {
                    assert(all[k - 1] == before.last());
                }
            }
        }
        if is_probed(def) {
            if one.len() > 0 {
                assert(all.last() == one[0]);
            } else {
                assert(all.last() == before.last());
            }
        }
    }
}

/// The steps of the manager requests are orderly.
pub proof fn lemma_requests_orderly(
    requests: Seq<ManagerRequestView>,
    catalog: Seq<TomlPackageManagerView>,
    lists: Seq<PackageListView>,
)
    ensures
        orderly(requests_steps(requests, catalog, lists)),
    decreases requests.len(),
{
    if requests.len() > 0 {
        let last = requests.last();
        let entry = (requests.len() - 1) as usize;
        lemma_requests_orderly(requests.drop_last(), catalog, lists);
        if last.spec.enabled() && definition_of(catalog, last.id).is_some() {
            lemma_manager_orderly(
                definition_of(catalog, last.id).unwrap(),
                last.spec.flags(),
                packages_of(lists, last.id),
                entry,
            );
        }
        lemma_orderly_joined(
            requests_steps(requests.drop_last(), catalog, lists),
            request_steps(last, catalog, lists, entry),
        );
    }
}

/// Every plan is orderly.
pub proof fn lemma_plan_orderly(config: ConfigView, catalog: Seq<TomlPackageManagerView>)
    ensures
        orderly(plan_steps(config, catalog)),
{
    let pre = script_steps(config.package_management.pre, StepKind::PreScript);
    let middle = requests_steps(
        config.package_management.managers,
        catalog,
        config.custom_packages.by_manager,
    );
    let post = script_steps(config.package_management.post, StepKind::PostScript);
    lemma_scripts_orderly(config.package_management.pre, StepKind::PreScript);
    lemma_requests_orderly(
        config.package_management.managers,
        catalog,
        config.custom_packages.by_manager,
    );
    lemma_scripts_orderly(config.package_management.post, StepKind::PostScript);
    lemma_orderly_joined(pre, middle);
    lemma_orderly_joined(pre + middle, post);
}

} // verus!
