//! Going through a plan. The one who runs the commands asks for the next
//! step, runs it and reports how it ended; what is run next depends only on
//! what the probes said.

use vstd::prelude::*;
use crate::catalog::{definition_of, Catalog};
use crate::model::{
    is_enabled, texts, Config, ConfigView, ManagerRequest, ManagerRequestView,
    TomlPackageManagerView,
};
use crate::plan::{
    follows_probe, in_order, is_probed, lemma_plan_orderly, plan, plan_steps, step_views, Guard,
    Step, StepKind, StepView,
};
use crate::text::trim;

verus! {

/// Whether a step with this guard is run when the last probe said `present`.
pub open spec fn admits(guard: Guard, present: bool) -> bool {
    match guard {
        Guard::Always => true,
        Guard::WhenAbsent => !present,
        Guard::WhenPresent => present,
    }
}

/// How step `k` ends when it is run. A step without a recorded outcome
/// counts as a success.
pub open spec fn outcome_at(outcomes: Seq<bool>, k: int) -> bool {
    if 0 <= k < outcomes.len() {
        outcomes[k]
    } else {
        true
    }
}

/// What the last probe before step `k` said; `true` where none was run.
pub open spec fn present_at(plan: Seq<StepView>, outcomes: Seq<bool>, k: int) -> bool
    decreases k,
{
    if k <= 0 {
        true
    } else if plan[k - 1].kind is Probe && admits(
        plan[k - 1].guard,
        present_at(plan, outcomes, k - 1),
    ) {
        outcome_at(outcomes, k - 1)
    } else {
        present_at(plan, outcomes, k - 1)
    }
}

/// Whether step `k` is run.
pub open spec fn runs(plan: Seq<StepView>, outcomes: Seq<bool>, k: int) -> bool {
    0 <= k < plan.len() && admits(plan[k].guard, present_at(plan, outcomes, k))
}

/// The places of the steps before `n` that are run, in order.
pub open spec fn trace(plan: Seq<StepView>, outcomes: Seq<bool>, n: nat) -> Seq<usize>
    decreases n,
{
    if n == 0 {
        Seq::empty()
    } else if runs(plan, outcomes, n - 1) {
        trace(plan, outcomes, (n - 1) as nat).push((n - 1) as usize)
    } else {
        trace(plan, outcomes, (n - 1) as nat)
    }
}

/// The first step from `from` on whose guard admits `present`; the length
/// of the plan where there is none.
pub open spec fn next_admitted(plan: Seq<StepView>, from: int, present: bool) -> int
    decreases plan.len() - from,
{
    if from < 0 || from >= plan.len() {
        plan.len() as int
    } else if admits(plan[from].guard, present) {
        from
    } else {
        next_admitted(plan, from + 1, present)
    }
}

/// Where a run stands: the step that was handed out last, or is to be looked
/// at next; what the last probe said; and whether the outcome of the step
/// handed out is awaited.
#[derive(Clone, Copy, Debug, PartialEq, Eq)]
pub struct Session {
    pub position: usize,
    pub present: bool,
    pub pending: bool,
}

impl Session {
    /// Where the session stands once the outcome of the step handed out has
    /// been taken in: behind that step.
    pub open spec fn settled_position(self, plan: Seq<StepView>) -> int {
        if self.pending && self.position < plan.len() {
            self.position + 1
        } else {
            self.position as int
        }
    }

    /// What the last probe said once the outcome of the step handed out has
    /// been taken in: the outcome, where that step is a probe.
    pub open spec fn settled_present(self, plan: Seq<StepView>, outcome: bool) -> bool {
        if self.pending && self.position < plan.len() && plan[self.position as int].kind
            is Probe {
            outcome
        } else {
            self.present
        }
    }

    /// The session at the start of a run.
    pub fn new() -> (s: Session)
        ensures
            s.position == 0,
            s.present,
            !s.pending,
    {
        Session { position: 0, present: true, pending: false }
    }

    /// Takes in the outcome of the step handed out, if one was, and hands
    /// out the next step to run: the place of the first step behind it that
    /// its guard admits. `None` means that the run is over. On a session
    /// that awaits no outcome, `outcome` counts for nothing. Each call
    /// moves on in the plan, so a run ends after as many calls as the plan
    /// has steps, and one more.
    pub fn step(&mut self, plan: &Vec<Step>, outcome: bool) -> (next: Option<usize>)
        ensures
            final(self).present == old(self).settled_present(step_views(plan@), outcome),
            final(self).position == next_admitted(
                step_views(plan@),
                old(self).settled_position(step_views(plan@)),
                final(self).present,
            ),
            final(self).pending == (final(self).position < plan.len()),
            final(self).position <= plan.len(),
            old(self).pending && old(self).position < plan.len() ==> final(self).position > old(
                self,
            ).position,
            next == if final(self).pending {
                Some(final(self).position)
            } else {
                None
            },
    {
        let ghost views = step_views(plan@);
        if self.pending && self.position < plan.len() {
            if let StepKind::Probe = plan[self.position].kind {
                self.present = outcome;
            }
            self.position = self.position + 1;
        }
        if self.position > plan.len() {
            self.position = plan.len();
        }
        let ghost start = self.position as int;
        let ghost said = self.present;
        while self.position < plan.len() && !guard_admits(
            plan[self.position].guard,
            self.present,
        )
            invariant
                start <= self.position <= plan.len(),
                views == step_views(plan@),
                self.present == said,
                next_admitted(views, start, self.present) == next_admitted(
                    views,
                    self.position as int,
                    self.present,
                ),
            decreases plan.len() - self.position,
        {
            self.position = self.position + 1;
        }
        self.pending = self.position < plan.len();
        if self.pending {
            Some(self.position)
        } else {
            None
        }
    }
}

/// Whether a step with this guard is run when the last probe said `present`.
pub fn guard_admits(guard: Guard, present: bool) -> (r: bool)
    ensures
        r == admits(guard, present),
{
    match guard {
        Guard::Always => true,
        Guard::WhenAbsent => !present,
        Guard::WhenPresent => present,
    }
}

/// Passing over the steps that are not admitted changes neither what the
/// last probe said nor what has been run, and ends at a step that is run or
/// at the end of the plan.
pub proof fn lemma_next_admitted(plan: Seq<StepView>, outcomes: Seq<bool>, from: int)
    requires
        0 <= from <= plan.len(),
    ensures
        ({
            let present = present_at(plan, outcomes, from);
            let n = next_admitted(plan, from, present);
            &&& from <= n <= plan.len()
            &&& present_at(plan, outcomes, n) == present
            &&& trace(plan, outcomes, n as nat) == trace(plan, outcomes, from as nat)
            &&& n < plan.len() ==> runs(plan, outcomes, n)
        }),
    decreases plan.len() - from,
{
    let present = present_at(plan, outcomes, from);
    if from < plan.len() && !admits(plan[from].guard, present) {
        assert(!runs(plan, outcomes, from));
        assert(present_at(plan, outcomes, from + 1) == present);
        assert(trace(plan, outcomes, (from + 1) as nat) == trace(plan, outcomes, from as nat));
        lemma_next_admitted(plan, outcomes, from + 1);
    }
}

/// The steps that are run before `n` have places below `n`, in rising order.
pub proof fn lemma_trace_within(plan: Seq<StepView>, outcomes: Seq<bool>, n: nat)
    requires
        n <= plan.len(),
        n <= usize::MAX,
    ensures
        forall|i: int|
            0 <= i < trace(plan, outcomes, n).len() ==> (#[trigger] trace(plan, outcomes, n)[i])
                < n,
        forall|i: int|
            0 <= i < trace(plan, outcomes, n).len() ==> runs(
                plan,
                outcomes,
                (#[trigger] trace(plan, outcomes, n)[i]) as int,
            ),
        forall|i: int, j: int|
            0 <= i < j < trace(plan, outcomes, n).len() ==> (#[trigger] trace(plan, outcomes, n)[i])
                < (#[trigger] trace(plan, outcomes, n)[j]),
    decreases n,
{
    if n > 0 {
        let before = trace(plan, outcomes, (n - 1) as nat);
        let all = trace(plan, outcomes, n);
        lemma_trace_within(plan, outcomes, (n - 1) as nat);
        assert forall|i: int| 0 <= i < all.len() implies (#[trigger] all[i]) < n && runs(
            plan,
            outcomes,
            all[i] as int,
        ) by {
            if i < before.len() {
                assert(all[i] == before[i]);
            } else {
                assert(all[i] == (n - 1) as usize);
            }
        }
        assert forall|i: int, j: int| 0 <= i < j < all.len() implies (#[trigger] all[i]) < (
        #[trigger] all[j]) by {
            if j < before.len() {
                assert(all[i] == before[i]);
                assert(all[j] == before[j]);
            } else {
                assert(all[i] == before[i]);
                assert(before[i] < n - 1);
            }
        }
    }
}

/// Goes through a plan with the outcomes given: `outcomes[k]` says how
/// step `k` ends if it is run, and a step beyond the list succeeds. The
/// result is the places of the steps that are run, in order.
pub fn replay(plan: &Vec<Step>, outcomes: &Vec<bool>) -> (ran: Vec<usize>)
    ensures
        ran@ == trace(step_views(plan@), outcomes@, plan.len() as nat),
        forall|i: int| 0 <= i < ran@.len() ==> (#[trigger] ran@[i]) < plan.len(),
{
    let ghost views = step_views(plan@);
    proof {
        lemma_trace_within(views, outcomes@, plan.len() as nat);
    }
    let mut session = Session::new();
    let mut ran: Vec<usize> = Vec::new();
    proof {
        lemma_next_admitted(views, outcomes@, 0);
    }
    let mut next = session.step(plan, true);
    while next.is_some()
        invariant
            views == step_views(plan@),
            session.position <= plan.len(),
            session.pending == next.is_some(),
            next == if session.pending {
                Some(session.position)
            } else {
                None
            },
            session.pending == (session.position < plan.len()),
            session.present == present_at(views, outcomes@, session.position as int),
            session.pending ==> runs(views, outcomes@, session.position as int),
            ran@ == trace(views, outcomes@, session.position as nat),
        decreases plan.len() - session.position + (if next.is_some() { 1int } else { 0int }),
    {
        let k = next.unwrap();
        ran.push(k);
        let outcome = if k < outcomes.len() {
            outcomes[k]
        } else {
            true
        };
        proof {
            assert(outcome == outcome_at(outcomes@, k as int));
            assert(views[k as int].kind == plan@[k as int].kind);
            assert(session.settled_present(views, outcome) == present_at(
                views,
                outcomes@,
                k + 1,
            ));
            assert(ran@ == trace(views, outcomes@, (k + 1) as nat));
            lemma_next_admitted(views, outcomes@, k + 1);
        }
        next = session.step(plan, outcome);
    }
    ran
}

/// Only the probes decide: two lists of outcomes that agree on how the
/// probes end have the same steps run, whatever the other commands do.
pub proof fn lemma_probes_decide(
    plan: Seq<StepView>,
    first: Seq<bool>,
    second: Seq<bool>,
    n: int,
)
    requires
        0 <= n <= plan.len(),
        forall|j: int|
            0 <= j < plan.len() && (#[trigger] plan[j]).kind is Probe ==> outcome_at(first, j)
                == outcome_at(second, j),
    ensures
        present_at(plan, first, n) == present_at(plan, second, n),
        n < plan.len() ==> runs(plan, first, n) == runs(plan, second, n),
        trace(plan, first, n as nat) == trace(plan, second, n as nat),
    decreases n,
{
    if n > 0 {
        lemma_probes_decide(plan, first, second, n - 1);
        assert(plan[n - 1].kind is Probe ==> outcome_at(first, n - 1) == outcome_at(
            second,
            n - 1,
        ));
    }
}

/// The enable command as it stands and the bootstrap command are run only
/// directly behind a probe of the same manager that failed.
pub proof fn lemma_enabled_only_when_absent(
    config: ConfigView,
    catalog: Seq<TomlPackageManagerView>,
    outcomes: Seq<bool>,
    k: int,
)
    requires
        runs(plan_steps(config, catalog), outcomes, k),
        plan_steps(config, catalog)[k].kind is RawEnable || plan_steps(config, catalog)[k].kind
            is Bootstrap,
    ensures
        follows_probe(plan_steps(config, catalog), k),
        runs(plan_steps(config, catalog), outcomes, k - 1),
        !outcome_at(outcomes, k - 1),
{
    let plan = plan_steps(config, catalog);
    lemma_plan_orderly(config, catalog);
    assert(in_order(plan, k));
}

/// A manager whose probes all say that it is there is neither enabled by
/// the command as it stands nor bootstrapped. The enable command with
/// flags may still be run for it.
pub proof fn lemma_present_manager_left_alone(
    config: ConfigView,
    catalog: Seq<TomlPackageManagerView>,
    outcomes: Seq<bool>,
    entry: usize,
)
    requires
        forall|j: int|
            0 <= j < plan_steps(config, catalog).len() && (#[trigger] plan_steps(
                config,
                catalog,
            )[j]).kind is Probe && plan_steps(config, catalog)[j].entry == entry ==> outcome_at(
                outcomes,
                j,
            ),
    ensures
        forall|k: int|
            runs(plan_steps(config, catalog), outcomes, k) && (#[trigger] plan_steps(
                config,
                catalog,
            )[k]).entry == entry ==> !(plan_steps(config, catalog)[k].kind is RawEnable) && !(
            plan_steps(config, catalog)[k].kind is Bootstrap),
{
    let plan = plan_steps(config, catalog);
    assert forall|k: int| runs(plan, outcomes, k) && (#[trigger] plan[k]).entry == entry implies !(
    plan[k].kind is RawEnable) && !(plan[k].kind is Bootstrap) by {
        if plan[k].kind is RawEnable || plan[k].kind is Bootstrap {
            lemma_enabled_only_when_absent(config, catalog, outcomes, k);
            assert(plan[k - 1].kind is Probe);
        }
    }
}

/// The enable command with flags is run whatever the probes said.
pub proof fn lemma_flagged_enable_runs(
    config: ConfigView,
    catalog: Seq<TomlPackageManagerView>,
    outcomes: Seq<bool>,
    k: int,
)
    requires
        0 <= k < plan_steps(config, catalog).len(),
        plan_steps(config, catalog)[k].kind is FlaggedEnable,
    ensures
        runs(plan_steps(config, catalog), outcomes, k),
{
    lemma_plan_orderly(config, catalog);
    assert(in_order(plan_steps(config, catalog), k));
}

/// Scripts and probes are run whatever came before: a command that fails
/// stops neither the scripts nor the probing of the managers.
pub proof fn lemma_scripts_and_probes_run(
    config: ConfigView,
    catalog: Seq<TomlPackageManagerView>,
    outcomes: Seq<bool>,
    k: int,
)
    requires
        0 <= k < plan_steps(config, catalog).len(),
        plan_steps(config, catalog)[k].kind is PreScript || plan_steps(config, catalog)[k].kind
            is PostScript || plan_steps(config, catalog)[k].kind is Probe,
    ensures
        runs(plan_steps(config, catalog), outcomes, k),
{
    lemma_plan_orderly(config, catalog);
    assert(in_order(plan_steps(config, catalog), k));
}

/// A manager whose probes all say that it is not there gets nothing
/// installed: none of its guarded install steps is run.
pub proof fn lemma_absent_manager_installs_nothing(
    config: ConfigView,
    catalog: Seq<TomlPackageManagerView>,
    outcomes: Seq<bool>,
    entry: usize,
    k: int,
)
    requires
        forall|j: int|
            0 <= j < plan_steps(config, catalog).len() && (#[trigger] plan_steps(
                config,
                catalog,
            )[j]).kind is Probe && plan_steps(config, catalog)[j].entry == entry ==> !outcome_at(
                outcomes,
                j,
            ),
        0 <= k < plan_steps(config, catalog).len(),
        plan_steps(config, catalog)[k].kind is Install,
        plan_steps(config, catalog)[k].guard is WhenPresent,
        plan_steps(config, catalog)[k].entry == entry,
    ensures
        !runs(plan_steps(config, catalog), outcomes, k),
    decreases k,
{
    let plan = plan_steps(config, catalog);
    lemma_plan_orderly(config, catalog);
    assert(in_order(plan, k));
    if follows_probe(plan, k) {
        assert(plan[k - 1].kind is Probe);
    } else {
        lemma_absent_manager_installs_nothing(config, catalog, outcomes, entry, k - 1);
    }
}

/// The install loop goes on: behind an install that was run, the next
/// install of the same manager is run too, however the first one ended.
pub proof fn lemma_installs_go_on(
    config: ConfigView,
    catalog: Seq<TomlPackageManagerView>,
    outcomes: Seq<bool>,
    k: int,
)
    requires
        0 <= k && k + 1 < plan_steps(config, catalog).len(),
        plan_steps(config, catalog)[k].kind is Install,
        plan_steps(config, catalog)[k + 1].kind is Install,
        plan_steps(config, catalog)[k].entry == plan_steps(config, catalog)[k + 1].entry,
        runs(plan_steps(config, catalog), outcomes, k),
    ensures
        runs(plan_steps(config, catalog), outcomes, k + 1),
{
    let plan = plan_steps(config, catalog);
    lemma_plan_orderly(config, catalog);
    assert(in_order(plan, k + 1));
    assert(in_order(plan, k));
}

/// The commands of the steps at the places `ran`, in that order.
pub open spec fn issued(plan: Seq<StepView>, ran: Seq<usize>) -> Seq<Seq<char>> {
    ran.map_values(|k: usize| plan[k as int].command)
}

/// The commands that a run of the manifest against the catalog issues, in
/// order, when step `k` of the plan ends as `outcomes[k]` says.
pub open spec fn commands_issued(
    config: ConfigView,
    catalog: Seq<TomlPackageManagerView>,
    outcomes: Seq<bool>,
) -> Seq<Seq<char>> {
    issued(
        plan_steps(config, catalog),
        trace(plan_steps(config, catalog), outcomes, plan_steps(config, catalog).len()),
    )
}

/// The commands that a run issues, in order: plans the run and goes through
/// the plan with the outcomes given.
pub fn commands_run(config: &Config, catalog: &Catalog, outcomes: &Vec<bool>) -> (out: Vec<
    String,
>)
    ensures
        texts(out@) == commands_issued(config@, catalog@, outcomes@),
{
    let steps = plan(config, catalog);
    let ran = replay(&steps, outcomes);
    let ghost views = step_views(steps@);
    let ghost all = issued(views, ran@);
    let mut out: Vec<String> = Vec::new();
    let mut i: usize = 0;
    proof {
        assert(texts(out@) == all.take(0));
    }
    while i < ran.len()
        invariant
            i <= ran.len(),
            views == step_views(steps@),
            all == issued(views, ran@),
            forall|j: int| 0 <= j < ran@.len() ==> (#[trigger] ran@[j]) < steps.len(),
            texts(out@) == all.take(i as int),
        decreases ran.len() - i,
    {
        let ghost before = texts(out@);
        let k = ran[i];
        out.push(steps[k].command.clone());
        proof {
            assert(texts(out@) == before.push(steps@[k as int].command@));
            assert(all.take(i + 1) == all.take(i as int).push(all[i as int]));
        }
        i += 1;
    }
    proof {
        assert(all.take(ran.len() as int) == all);
    }
    out
}

/// A run is reproducible: the same manifest and catalog, with probes that
/// end the same way, issue the same commands in the same order, however the
/// other commands end.
pub proof fn lemma_same_probes_same_commands(
    config: ConfigView,
    catalog: Seq<TomlPackageManagerView>,
    first: Seq<bool>,
    second: Seq<bool>,
)
    requires
        forall|j: int|
            0 <= j < plan_steps(config, catalog).len() && (#[trigger] plan_steps(
                config,
                catalog,
            )[j]).kind is Probe ==> outcome_at(first, j) == outcome_at(second, j),
    ensures
        commands_issued(config, catalog, first) == commands_issued(config, catalog, second),
{
    let plan = plan_steps(config, catalog);
    lemma_probes_decide(plan, first, second, plan.len() as int);
}

/// A manager whose probes all say that it is there has every one of its
/// install steps run, in the order of the plan.
pub proof fn lemma_present_manager_installs_all(
    config: ConfigView,
    catalog: Seq<TomlPackageManagerView>,
    outcomes: Seq<bool>,
    entry: usize,
    k: int,
)
    requires
        forall|j: int|
            0 <= j < plan_steps(config, catalog).len() && (#[trigger] plan_steps(
                config,
                catalog,
            )[j]).kind is Probe && plan_steps(config, catalog)[j].entry == entry ==> outcome_at(
                outcomes,
                j,
            ),
        0 <= k < plan_steps(config, catalog).len(),
        plan_steps(config, catalog)[k].kind is Install,
        plan_steps(config, catalog)[k].entry == entry,
    ensures
        runs(plan_steps(config, catalog), outcomes, k),
    decreases k,
{
    let plan = plan_steps(config, catalog);
    lemma_plan_orderly(config, catalog);
    assert(in_order(plan, k));
    if plan[k].guard is WhenPresent {
        if follows_probe(plan, k) {
            assert(plan[k - 1].kind is Probe);
        } else {
            lemma_present_manager_installs_all(config, catalog, outcomes, entry, k - 1);
        }
    }
}

/// Where a manager stands in its protocol.
#[derive(Clone, Copy, Debug, PartialEq, Eq)]
pub enum ManagerState {
    /// Switched off in the manifest: nothing is run for it.
    Disabled,
    /// The last probe found the manager; more probes follow.
    CheckedPresent,
    /// The last probe did not find the manager; more probes follow.
    CheckedAbsent,
    /// The manager is there and its packages have been gone through.
    Installed,
    /// Not defined in the catalog, or still absent after the last probe:
    /// no install is attempted.
    Skipped,
}

/// The state of a manager request once its probes have said `probes`, in
/// order: nothing before the first probe of a manager that is probed.
pub open spec fn state_after(
    request: ManagerRequestView,
    catalog: Seq<TomlPackageManagerView>,
    probes: Seq<bool>,
) -> Option<ManagerState> {
    if !request.spec.enabled() {
        Some(ManagerState::Disabled)
    } else if definition_of(catalog, request.id).is_none() {
        Some(ManagerState::Skipped)
    } else if !is_probed(definition_of(catalog, request.id).unwrap()) {
        Some(ManagerState::Installed)
    } else if probes.len() == 0 {
        None
    } else if probes.len() < 3 {
        Some(
            if probes.last() {
                ManagerState::CheckedPresent
            } else {
                ManagerState::CheckedAbsent
            },
        )
    } else if probes[2] {
        Some(ManagerState::Installed)
    } else {
        Some(ManagerState::Skipped)
    }
}

/// The state of a manager request once its probes have said `probes`.
pub fn manager_state(request: &ManagerRequest, catalog: &Catalog, probes: &Vec<bool>) -> (state:
    Option<ManagerState>)
    ensures
        state == state_after(request@, catalog@, probes@),
{
    if !is_enabled(&request.spec) {
        return Some(ManagerState::Disabled);
    }
    match catalog.find(&request.id) {
        None => Some(ManagerState::Skipped),
        Some(def) => {
            if trim(def.check.as_str()).is_empty() {
                Some(ManagerState::Installed)
            } else if probes.len() == 0 {
                None
            } else if probes.len() < 3 {
                if probes[probes.len() - 1] {
                    Some(ManagerState::CheckedPresent)
                } else {
                    Some(ManagerState::CheckedAbsent)
                }
            } else if probes[2] {
                Some(ManagerState::Installed)
            } else {
                Some(ManagerState::Skipped)
            }
        },
    }
}

} // verus!
