//! Run a service function's phase cycle, tearing down even when it fails.
//!
//! The cycle is a state machine: [`Cycle::next`] says what to do, the caller does it and reports
//! back with [`Cycle::record`] or [`Cycle::rested`], and [`Cycle::finish`] gives the report.
//!
//! Only the *requested* function's invocations run: one job commonly drives several components.
//! `Preset` runs before `Main`, each in rank order; the first failure ends both. `Reset` runs on
//! every path that was not blocked, success or failure, so that an actuation is never left
//! running. The one exception is a *successful* hold-until-stop actuation, whose teardown is
//! deferred to a later stop.
use vstd::prelude::*;
use crate::semantic::catalog::FixedFunction;
use crate::service::phase::{Invocation, Phase};
use crate::service::precondition::{blocks, PreconditionOutcome};
use crate::text::{copy_opt, copy_texts};

verus! {

/// What happened to the return-to-safe step.
#[derive(Debug, Clone, PartialEq, Eq)]
pub enum Teardown {
    /// The function defines no `Reset` phase: nothing to tear down.
    NotDefined,
    /// The `Reset` phase ran successfully.
    Ran,
    /// The `Reset` phase is deferred: a held actuation is still forced, awaiting an explicit stop.
    Deferred,
    /// The `Reset` phase failed: the ECU may still be actuating.
    Failed(String),
}

/// The view of a [`Teardown`].
#[verifier::ext_equal]
pub enum TeardownView {
    NotDefined,
    Ran,
    Deferred,
    Failed(Seq<char>),
}

impl View for Teardown {
    type V = TeardownView;

    open spec fn view(&self) -> TeardownView {
        match *self {
            Teardown::NotDefined => TeardownView::NotDefined,
            Teardown::Ran => TeardownView::Ran,
            Teardown::Deferred => TeardownView::Deferred,
            Teardown::Failed(e) => TeardownView::Failed(e@),
        }
    }
}

/// The wait after `Main` before tearing a function down.
#[derive(Debug, Clone, Copy, PartialEq, Eq, Structural)]
pub enum Hold {
    /// No wait: teardown runs immediately after `Main`.
    Immediate,
    /// Hold for this many milliseconds, then tear down.
    Timed(u64),
    /// Hold until an explicit stop; teardown is deferred.
    UntilStop,
}

/// The hold that a function's activation parameters ask for.
pub open spec fn hold_of(activation: Option<i64>, duration_ms: Option<i64>, has_reset: bool) -> Hold {
    if !has_reset {
        Hold::Immediate
    } else {
        match activation {
            Some(a) => if a > 0 {
                Hold::Timed(
                    match duration_ms {
                        Some(d) => if d > 0 {
                            d as u64
                        } else {
                            0
                        },
                        None => 0,
                    },
                )
            } else {
                Hold::UntilStop
            },
            None => Hold::UntilStop,
        }
    }
}

/// Derive the post-`Main` hold from a function's activation parameters.
///
/// A reset-bearing function with a positive activation holds for its duration; one without holds
/// until stopped, and so does one with no catalog row: a force that cannot be timed must be
/// stopped explicitly. A function with no `Reset` never holds.
pub fn hold_for(ff: Option<&FixedFunction>, has_reset: bool) -> (r: Hold)
    ensures
        r == (match ff {
            Some(f) => hold_of(f.activation, f.activation_duration_ms, has_reset),
            None => hold_of(None, None, has_reset),
        }),
{
    if !has_reset {
        return Hold::Immediate;
    }
    match ff {
        Some(f) => match f.activation {
            Some(a) => if a > 0 {
                let duration: u64 = match f.activation_duration_ms {
                    Some(d) => if d > 0 {
                        d as u64
                    } else {
                        0
                    },
                    None => 0,
                };
                Hold::Timed(duration)
            } else {
                Hold::UntilStop
            },
            None => Hold::UntilStop,
        },
        None => Hold::UntilStop,
    }
}

/// One executed phase-run's outcome.
#[derive(Debug, Clone, PartialEq, Eq)]
pub struct PhaseOutcome {
    /// Which phase this run belonged to.
    pub phase: Phase,
    /// The job this run sent.
    pub job: String,
    /// This run's rank within its phase.
    pub rank: Option<i64>,
    /// The argument buffer sent.
    pub args: String,
    /// The failure, when this run failed.
    pub error: Option<String>,
}

/// What a [`PhaseOutcome`] holds.
#[verifier::ext_equal]
pub struct PhaseOutcomeView {
    pub phase: Phase,
    pub job: Seq<char>,
    pub rank: Option<i64>,
    pub args: Seq<char>,
    pub error: Option<Seq<char>>,
}

impl View for PhaseOutcome {
    type V = PhaseOutcomeView;

    open spec fn view(&self) -> PhaseOutcomeView {
        PhaseOutcomeView {
            phase: self.phase,
            job: self.job@,
            rank: self.rank,
            args: self.args@,
            error: crate::text::opt_view(self.error),
        }
    }
}

/// The views of phase-runs.
pub open spec fn phases_view(v: Seq<PhaseOutcome>) -> Seq<PhaseOutcomeView> {
    Seq::new(v.len(), |i: int| v[i]@)
}

/// The record of one service-function execution.
#[derive(Debug, Clone, PartialEq, Eq)]
pub struct ServiceReport {
    /// The function's title, when known.
    pub title: Option<String>,
    /// Each phase-run that was attempted, in execution order.
    pub phases: Vec<PhaseOutcome>,
    /// What happened to the return-to-safe step.
    pub teardown: Teardown,
    /// True only when a job ran, none failed, and teardown did not fail.
    pub succeeded: bool,
    /// True when the component is still forced and an explicit stop is owed.
    pub held: bool,
    /// Each precondition's outcome, checked before anything was sent.
    pub preconditions: Vec<PreconditionOutcome>,
    /// True when a resolved precondition failed and the cycle was refused.
    pub blocked: bool,
}

/// What a [`ServiceReport`] holds.
#[verifier::ext_equal]
pub struct ReportView {
    pub title: Option<Seq<char>>,
    pub phases: Seq<PhaseOutcomeView>,
    pub teardown: TeardownView,
    pub succeeded: bool,
    pub held: bool,
    pub preconditions: Seq<crate::service::precondition::OutcomeView>,
    pub blocked: bool,
}

impl View for ServiceReport {
    type V = ReportView;

    open spec fn view(&self) -> ReportView {
        ReportView {
            title: crate::text::opt_view(self.title),
            phases: phases_view(self.phases@),
            teardown: self.teardown@,
            succeeded: self.succeeded,
            held: self.held,
            preconditions: crate::service::precondition::outcomes_view(self.preconditions@),
            blocked: self.blocked,
        }
    }
}

// ---------------------------------------------------------------------------
// The cycle
// ---------------------------------------------------------------------------

/// What to do next.
#[derive(Debug, Clone, PartialEq, Eq)]
pub enum Action {
    /// Run this job with this argument buffer, then [`Cycle::record`] how it went.
    Run { job: String, args: String },
    /// Wait this many milliseconds, then [`Cycle::rested`].
    Sleep(u64),
    /// Nothing is left to do: [`Cycle::finish`].
    Done,
}

/// The view of an [`Action`].
#[verifier::ext_equal]
pub enum ActionView {
    Run { job: Seq<char>, args: Seq<char> },
    Sleep(u64),
    Done,
}

impl View for Action {
    type V = ActionView;

    open spec fn view(&self) -> ActionView {
        match *self {
            Action::Run { job, args } => ActionView::Run { job: job@, args: args@ },
            Action::Sleep(ms) => ActionView::Sleep(ms),
            Action::Done => ActionView::Done,
        }
    }
}

/// The state of a cycle.
#[verifier::ext_equal]
pub struct CycleView {
    pub title: Option<Seq<char>>,
    /// The runs that actuate: `Preset`, then `Main`.
    pub actuations: Seq<crate::service::phase::InvocationView>,
    /// The runs that return to safe.
    pub resets: Seq<crate::service::phase::InvocationView>,
    pub hold: Hold,
    pub preconditions: Seq<crate::service::precondition::OutcomeView>,
    pub blocked: bool,
    /// How many actuating runs were made.
    pub acted: nat,
    /// Whether one of them failed.
    pub failed: bool,
    /// Whether the timed hold was waited out.
    pub slept: bool,
    /// How many resets were made.
    pub torn: nat,
    pub phases: Seq<PhaseOutcomeView>,
}

/// The invocations of one function and phase, in order.
pub open spec fn selected(
    invs: Seq<crate::service::phase::InvocationView>,
    function_id: i64,
    phase: Phase,
) -> Seq<crate::service::phase::InvocationView>
    decreases invs.len(),
{
    if invs.len() == 0 {
        Seq::<crate::service::phase::InvocationView>::empty()
    } else {
        let before = selected(invs.drop_last(), function_id, phase);
        if invs.last().function_id == function_id && invs.last().phase == phase {
            before.push(invs.last())
        } else {
            before
        }
    }
}

/// The first title among one function's invocations.
pub open spec fn title_among(
    invs: Seq<crate::service::phase::InvocationView>,
    function_id: i64,
) -> Option<Seq<char>>
    decreases invs.len(),
{
    if invs.len() == 0 {
        None
    } else if invs.last().function_id == function_id {
        crate::text::first_of(title_among(invs.drop_last(), function_id), invs.last().title)
    } else {
        title_among(invs.drop_last(), function_id)
    }
}

/// The cycle of a function before its first step.
pub open spec fn begun(
    invs: Seq<crate::service::phase::InvocationView>,
    function_id: i64,
    hold: Hold,
    preconditions: Seq<crate::service::precondition::OutcomeView>,
) -> CycleView {
    CycleView {
        title: title_among(invs, function_id),
        actuations: selected(invs, function_id, Phase::Preset) + selected(
            invs,
            function_id,
            Phase::Main,
        ),
        resets: selected(invs, function_id, Phase::Reset),
        hold,
        preconditions,
        blocked: crate::service::precondition::blocking(preconditions),
        acted: 0,
        failed: false,
        slept: false,
        torn: 0,
        phases: Seq::<PhaseOutcomeView>::empty(),
    }
}

/// The stop of a held function before its first step: the deferred teardown and nothing else.
pub open spec fn stopping(
    invs: Seq<crate::service::phase::InvocationView>,
    function_id: i64,
) -> CycleView {
    CycleView {
        title: title_among(invs, function_id),
        actuations: Seq::<crate::service::phase::InvocationView>::empty(),
        resets: selected(invs, function_id, Phase::Reset),
        hold: Hold::Immediate,
        preconditions: Seq::<crate::service::precondition::OutcomeView>::empty(),
        blocked: false,
        acted: 0,
        failed: false,
        slept: false,
        torn: 0,
        phases: Seq::<PhaseOutcomeView>::empty(),
    }
}

/// Whether an actuating run is due.
pub open spec fn acting(v: CycleView) -> bool {
    !v.blocked && !v.failed && v.acted < v.actuations.len()
}

/// Whether `Main` was run, and everything up to its end succeeded: there is something to hold.
pub open spec fn actuated(v: CycleView) -> bool {
    !v.blocked && !v.failed && v.acted == v.actuations.len() && v.acted > 0
        && v.actuations.last().phase == Phase::Main
}

/// Whether the actuation is held: it succeeded, and only an explicit stop ends it.
pub open spec fn holding(v: CycleView) -> bool {
    actuated(v) && v.hold == Hold::UntilStop
}

/// Whether a timed hold is still to be waited out.
pub open spec fn pausing(v: CycleView) -> bool {
    actuated(v) && v.hold is Timed && !v.slept
}

/// Whether a reset is due.
pub open spec fn tearing(v: CycleView) -> bool {
    !v.blocked && !acting(v) && !pausing(v) && !holding(v) && v.torn < v.resets.len()
}

/// The run that is due.
pub open spec fn due(v: CycleView) -> crate::service::phase::InvocationView {
    if acting(v) {
        v.actuations[v.acted as int]
    } else {
        v.resets[v.torn as int]
    }
}

/// What to do next.
pub open spec fn action_of(v: CycleView) -> ActionView {
    if acting(v) || tearing(v) {
        ActionView::Run { job: due(v).job, args: crate::service::phase::buffer_of(due(v)) }
    } else if pausing(v) {
        match v.hold {
            Hold::Timed(ms) => ActionView::Sleep(ms),
            _ => ActionView::Done,
        }
    } else {
        ActionView::Done
    }
}

/// How a run went.
pub open spec fn run_outcome(
    inv: crate::service::phase::InvocationView,
    error: Option<Seq<char>>,
) -> PhaseOutcomeView {
    PhaseOutcomeView {
        phase: inv.phase,
        job: inv.job,
        rank: inv.rank,
        args: crate::service::phase::buffer_of(inv),
        error,
    }
}

/// The cycle after the run that was due.
pub open spec fn recorded(v: CycleView, error: Option<Seq<char>>) -> CycleView {
    let phases = v.phases.push(run_outcome(due(v), error));
    if acting(v) {
        CycleView { acted: v.acted + 1, failed: error is Some, phases, ..v }
    } else {
        CycleView { torn: v.torn + 1, phases, ..v }
    }
}

/// The cycle after the wait that was due.
pub open spec fn after_rest(v: CycleView) -> CycleView {
    CycleView { slept: true, ..v }
}

/// The first failure among runs.
pub open spec fn first_error(phases: Seq<PhaseOutcomeView>) -> Option<Seq<char>>
    decreases phases.len(),
{
    if phases.len() == 0 {
        None
    } else {
        crate::text::first_of(first_error(phases.drop_last()), phases.last().error)
    }
}

/// What happened to the return-to-safe step.
pub open spec fn teardown_of(v: CycleView) -> TeardownView {
    if holding(v) {
        TeardownView::Deferred
    } else if v.blocked || v.resets.len() == 0 {
        TeardownView::NotDefined
    } else {
        match first_error(v.phases.skip(v.acted as int)) {
            Some(e) => TeardownView::Failed(e),
            None => TeardownView::Ran,
        }
    }
}

/// The report of a cycle. Nothing sent is no success, and neither is a component that could not be
/// returned to safe.
pub open spec fn report_of(v: CycleView) -> ReportView {
    ReportView {
        title: v.title,
        phases: v.phases,
        teardown: teardown_of(v),
        succeeded: v.phases.len() > 0 && !v.failed && !(teardown_of(v) is Failed),
        held: holding(v),
        preconditions: v.preconditions,
        blocked: v.blocked,
    }
}

/// What holds of every cycle, at every step.
pub open spec fn cycle_inv(v: CycleView) -> bool {
    &&& v.acted <= v.actuations.len()
    &&& v.torn <= v.resets.len()
    &&& v.phases.len() == v.acted + v.torn
    &&& v.blocked ==> v.acted == 0 && v.torn == 0
    &&& forall|k: int|
        0 <= k < v.acted ==> (#[trigger] v.phases[k]) == run_outcome(
            v.actuations[k],
            v.phases[k].error,
        )
    &&& forall|k: int|
        0 <= k < v.acted ==> ((#[trigger] v.phases[k]).error is Some <==> v.failed && k == v.acted
            - 1)
    &&& v.failed ==> v.acted > 0
    &&& forall|k: int|
        #![trigger v.resets[k]]
        0 <= k < v.torn ==> v.phases[v.acted + k] == run_outcome(
            v.resets[k],
            v.phases[v.acted + k].error,
        )
    &&& v.torn > 0 ==> !acting(v) && !pausing(v) && !holding(v)
}

/// How many steps are left at most.
pub open spec fn steps_left(v: CycleView) -> int {
    (v.actuations.len() - v.acted) + (v.resets.len() - v.torn) + if v.slept {
        0int
    } else {
        1
    }
}

/// Every step keeps what holds of every cycle, and brings it nearer to its end.
pub proof fn law_every_step_keeps_the_cycle(v: CycleView, error: Option<Seq<char>>)
    requires
        cycle_inv(v),
    ensures
        action_of(v) is Run ==> cycle_inv(recorded(v, error)) && 0 <= steps_left(recorded(v, error))
            < steps_left(v),
        action_of(v) is Sleep ==> cycle_inv(after_rest(v)) && 0 <= steps_left(after_rest(v))
            < steps_left(v),
{
    if action_of(v) is Run {
        let next = recorded(v, error);
        assert forall|k: int| 0 <= k < next.acted implies (#[trigger] next.phases[k])
            == run_outcome(next.actuations[k], next.phases[k].error) by {
            if k < v.phases.len() {
                assert(next.phases[k] == v.phases[k]);
            }
        }
        assert forall|k: int| 0 <= k < next.acted implies ((#[trigger] next.phases[k]).error is Some
            <==> next.failed && k == next.acted - 1) by {
            if k < v.phases.len() {
                assert(next.phases[k] == v.phases[k]);
            }
        }
        assert forall|k: int|
            #![trigger next.resets[k]]
            0 <= k < next.torn implies next.phases[next.acted + k] == run_outcome(
            next.resets[k],
            next.phases[next.acted + k].error,
        ) by {
            if next.acted + k < v.phases.len() {
                assert(next.phases[next.acted + k] == v.phases[v.acted + k]);
                assert(v.resets[k] == next.resets[k]);
            }
        }
    }
}

/// A cycle starts well, whatever invocations are at hand, and so does a stop.
pub proof fn law_a_cycle_starts_well(
    invs: Seq<crate::service::phase::InvocationView>,
    function_id: i64,
    hold: Hold,
    preconditions: Seq<crate::service::precondition::OutcomeView>,
)
    ensures
        cycle_inv(begun(invs, function_id, hold, preconditions)),
        cycle_inv(stopping(invs, function_id)),
{
}

proof fn lemma_selected(
    invs: Seq<crate::service::phase::InvocationView>,
    function_id: i64,
    phase: Phase,
)
    ensures
        forall|k: int|
            0 <= k < selected(invs, function_id, phase).len() ==> (#[trigger] selected(
                invs,
                function_id,
                phase,
            )[k]).function_id == function_id && selected(invs, function_id, phase)[k].phase == phase,
    decreases invs.len(),
{
    if invs.len() > 0 {
        lemma_selected(invs.drop_last(), function_id, phase);
    }
}

/// Only the requested function's invocations are ever run: what actuates is its `Preset` and then
/// its `Main` runs, and what returns to safe is its `Reset` runs.
pub proof fn law_only_the_requested_function_runs(
    invs: Seq<crate::service::phase::InvocationView>,
    function_id: i64,
    hold: Hold,
    preconditions: Seq<crate::service::precondition::OutcomeView>,
)
    ensures
        ({
            let v = begun(invs, function_id, hold, preconditions);
            let presets = selected(invs, function_id, Phase::Preset).len();
            &&& forall|k: int|
                0 <= k < v.actuations.len() ==> (#[trigger] v.actuations[k]).function_id
                    == function_id && v.actuations[k].phase == if k < presets {
                    Phase::Preset
                } else {
                    Phase::Main
                }
            &&& forall|k: int|
                0 <= k < v.resets.len() ==> (#[trigger] v.resets[k]).function_id == function_id
                    && v.resets[k].phase == Phase::Reset
        }),
{
    lemma_selected(invs, function_id, Phase::Preset);
    lemma_selected(invs, function_id, Phase::Main);
    lemma_selected(invs, function_id, Phase::Reset);
    let presets = selected(invs, function_id, Phase::Preset);
    let mains = selected(invs, function_id, Phase::Main);
    let v = begun(invs, function_id, hold, preconditions);
    assert forall|k: int| 0 <= k < v.actuations.len() implies (#[trigger] v.actuations[k]).function_id
        == function_id && v.actuations[k].phase == if k < presets.len() {
        Phase::Preset
    } else {
        Phase::Main
    } by {
        if k < presets.len() {
            assert(v.actuations[k] == presets[k]);
        } else {
            assert(v.actuations[k] == mains[k - presets.len()]);
        }
    }
}

/// A blocked cycle is over before it starts: nothing is sent, and its report says so.
pub proof fn law_a_blocked_cycle_sends_nothing(v: CycleView)
    requires
        cycle_inv(v),
        v.blocked,
    ensures
        action_of(v) is Done,
        report_of(v).blocked,
        report_of(v).phases.len() == 0,
        !report_of(v).succeeded,
        !report_of(v).held,
        report_of(v).teardown == TeardownView::NotDefined,
{
}

/// Once a run fails nothing actuates any more: every later run is a reset.
pub proof fn law_nothing_actuates_after_a_failure(v: CycleView)
    requires
        cycle_inv(v),
        v.failed,
    ensures
        !acting(v),
        action_of(v) is Run ==> due(v) == v.resets[v.torn as int],
        !(action_of(v) is Sleep),
{
}

/// When a cycle that was not blocked is over, either every reset was attempted, or `Main` was run,
/// succeeded and is held; and every actuating run was made unless one failed.
pub proof fn law_a_finished_cycle_was_torn_down_or_is_held(v: CycleView)
    requires
        cycle_inv(v),
        action_of(v) is Done,
        !v.blocked,
    ensures
        !holding(v) ==> v.torn == v.resets.len(),
        holding(v) ==> v.torn == 0 && !v.failed && v.acted == v.actuations.len()
            && v.actuations.last().phase == Phase::Main,
        !v.failed ==> v.acted == v.actuations.len(),
        report_of(v).held == holding(v),
        report_of(v).held ==> report_of(v).teardown == TeardownView::Deferred
            && report_of(v).succeeded,
{
}

proof fn lemma_first_error(phases: Seq<PhaseOutcomeView>)
    ensures
        first_error(phases) is None <==> forall|k: int|
            0 <= k < phases.len() ==> (#[trigger] phases[k]).error is None,
    decreases phases.len(),
{
    if phases.len() > 0 {
        lemma_first_error(phases.drop_last());
        let short = phases.drop_last();
        if first_error(phases) is None {
            assert forall|k: int| 0 <= k < phases.len() implies (#[trigger] phases[k]).error is None by {
                if k < short.len() {
                    assert(short[k] == phases[k]);
                }
            }
        }
        if forall|k: int| 0 <= k < phases.len() ==> (#[trigger] phases[k]).error is None {
            assert forall|k: int| 0 <= k < short.len() implies (#[trigger] short[k]).error is None by {
                assert(short[k] == phases[k]);
            }
            assert(phases[phases.len() - 1].error is None);
        }
    }
}

/// A finished cycle succeeded exactly when something was sent and none of the runs failed.
pub proof fn law_success_means_something_ran_and_nothing_failed(v: CycleView)
    requires
        cycle_inv(v),
        action_of(v) is Done,
    ensures
        report_of(v).succeeded <==> v.phases.len() > 0 && forall|k: int|
            0 <= k < v.phases.len() ==> (#[trigger] v.phases[k]).error is None,
{
    let resets = v.phases.skip(v.acted as int);
    lemma_first_error(resets);
    if report_of(v).succeeded {
        assert forall|k: int| 0 <= k < v.phases.len() implies (#[trigger] v.phases[k]).error is None by {
            if k >= v.acted {
                assert(resets[k - v.acted] == v.phases[k]);
                if v.resets.len() == 0 || holding(v) {
                    assert(v.torn == 0);
                }
            }
        }
    }
    if v.phases.len() > 0 && forall|k: int|
        0 <= k < v.phases.len() ==> (#[trigger] v.phases[k]).error is None {
        if v.failed {
            assert(v.phases[v.acted - 1].error is Some);
        }
        assert forall|k: int| 0 <= k < resets.len() implies (#[trigger] resets[k]).error is None by {
            assert(resets[k] == v.phases[k + v.acted]);
        }
    }
}

/// A stop never actuates: every run of it is one of the function's resets, and it is never held.
pub proof fn law_a_stop_never_actuates(
    invs: Seq<crate::service::phase::InvocationView>,
    function_id: i64,
    v: CycleView,
)
    requires
        cycle_inv(v),
        v.actuations == stopping(invs, function_id).actuations,
        v.hold == stopping(invs, function_id).hold,
    ensures
        !acting(v),
        !report_of(v).held,
        !(action_of(v) is Sleep),
        action_of(v) is Run ==> due(v) == v.resets[v.torn as int],
{
}

/// A copy of an invocation.
fn copy_invocation(inv: &Invocation) -> (r: Invocation)
    ensures
        r@ == inv@,
{
    Invocation {
        function_id: inv.function_id,
        title: copy_opt(&inv.title),
        phase: inv.phase,
        job: inv.job.clone(),
        rank: inv.rank,
        args: copy_texts(inv.args.as_slice()),
    }
}

/// Append the invocations of one function and phase.
fn select(invocations: &[Invocation], function_id: i64, phase: Phase, out: &mut Vec<Invocation>)
    ensures
        crate::service::phase::invocations_view(final(out)@)
            == crate::service::phase::invocations_view(old(out)@) + selected(
            crate::service::phase::invocations_view(invocations@),
            function_id,
            phase,
        ),
{
    let ghost start = crate::service::phase::invocations_view(out@);
    let ghost invs = crate::service::phase::invocations_view(invocations@);
    let mut i: usize = 0;
    assert(start + selected(invs.take(0), function_id, phase) =~= start);
    while i < invocations.len()
        invariant
            i <= invocations.len(),
            invs == crate::service::phase::invocations_view(invocations@),
            crate::service::phase::invocations_view(out@) == start + selected(
                invs.take(i as int),
                function_id,
                phase,
            ),
        decreases invocations.len() - i,
    {
        let inv = &invocations[i];
        let ghost before = crate::service::phase::invocations_view(out@);
        assert(invs.take(i + 1).drop_last() =~= invs.take(i as int));
        if inv.function_id == function_id && inv.phase == phase {
            out.push(copy_invocation(inv));
            assert(crate::service::phase::invocations_view(out@) =~= before.push(inv@));
            assert(before.push(inv@) =~= start + selected(
                invs.take(i as int),
                function_id,
                phase,
            ).push(inv@));
        }
        i = i + 1;
    }
    assert(invs.take(i as int) =~= invs);
}

/// The chosen function's title, ignoring every other function's.
pub fn chosen_title(function_id: i64, invocations: &[Invocation]) -> (r: Option<String>)
    ensures
        crate::text::opt_view(r) == title_among(
            crate::service::phase::invocations_view(invocations@),
            function_id,
        ),
{
    let ghost invs = crate::service::phase::invocations_view(invocations@);
    let mut title: Option<String> = None;
    let mut i: usize = 0;
    while i < invocations.len()
        invariant
            i <= invocations.len(),
            invs == crate::service::phase::invocations_view(invocations@),
            crate::text::opt_view(title) == title_among(invs.take(i as int), function_id),
        decreases invocations.len() - i,
    {
        assert(invs.take(i + 1).drop_last() =~= invs.take(i as int));
        if invocations[i].function_id == function_id && title.is_none() {
            title = copy_opt(&invocations[i].title);
        }
        i = i + 1;
    }
    assert(invs.take(i as int) =~= invs);
    title
}

/// What a cycle holds.
#[derive(Debug)]
struct CycleState {
    title: Option<String>,
    actuations: Vec<Invocation>,
    resets: Vec<Invocation>,
    hold: Hold,
    preconditions: Vec<PreconditionOutcome>,
    blocked: bool,
    acted: usize,
    failed: bool,
    slept: bool,
    torn: usize,
    phases: Vec<PhaseOutcome>,
}

impl View for CycleState {
    type V = CycleView;

    closed spec fn view(&self) -> CycleView {
        CycleView {
            title: crate::text::opt_view(self.title),
            actuations: crate::service::phase::invocations_view(self.actuations@),
            resets: crate::service::phase::invocations_view(self.resets@),
            hold: self.hold,
            preconditions: crate::service::precondition::outcomes_view(self.preconditions@),
            blocked: self.blocked,
            acted: self.acted as nat,
            failed: self.failed,
            slept: self.slept,
            torn: self.torn as nat,
            phases: phases_view(self.phases@),
        }
    }
}

impl CycleState {
    /// The state before anything of function `function_id` was run.
    fn run_service(
        function_id: i64,
        invocations: &[Invocation],
        hold: Hold,
        preconditions: Vec<PreconditionOutcome>,
    ) -> (r: CycleState)
        ensures
            r@ == begun(
                crate::service::phase::invocations_view(invocations@),
                function_id,
                hold,
                crate::service::precondition::outcomes_view(preconditions@),
            ),
            cycle_inv(r@),
    {
        let blocked = blocks(preconditions.as_slice());
        let mut actuations: Vec<Invocation> = Vec::new();
        let ghost nothing = crate::service::phase::invocations_view(actuations@);
        select(invocations, function_id, Phase::Preset, &mut actuations);
        select(invocations, function_id, Phase::Main, &mut actuations);
        let mut resets: Vec<Invocation> = Vec::new();
        select(invocations, function_id, Phase::Reset, &mut resets);
        let r = CycleState {
            title: chosen_title(function_id, invocations),
            actuations,
            resets,
            hold,
            preconditions,
            blocked,
            acted: 0,
            failed: false,
            slept: false,
            torn: 0,
            phases: Vec::new(),
        };
        proof {
            let v = begun(
                crate::service::phase::invocations_view(invocations@),
                function_id,
                hold,
                crate::service::precondition::outcomes_view(preconditions@),
            );
            assert(r@.actuations =~= v.actuations);
            assert(r@.resets =~= v.resets);
            assert(r@.phases =~= v.phases);
        }
        r
    }

    /// The state before the stop of function `function_id`.
    fn stop_service(function_id: i64, invocations: &[Invocation]) -> (r: CycleState)
        ensures
            r@ == stopping(crate::service::phase::invocations_view(invocations@), function_id),
            cycle_inv(r@),
    {
        let mut resets: Vec<Invocation> = Vec::new();
        select(invocations, function_id, Phase::Reset, &mut resets);
        let r = CycleState {
            title: chosen_title(function_id, invocations),
            actuations: Vec::new(),
            resets,
            hold: Hold::Immediate,
            preconditions: Vec::new(),
            blocked: false,
            acted: 0,
            failed: false,
            slept: false,
            torn: 0,
            phases: Vec::new(),
        };
        proof {
            let v = stopping(crate::service::phase::invocations_view(invocations@), function_id);
            assert(r@.actuations =~= v.actuations);
            assert(r@.resets =~= v.resets);
            assert(r@.preconditions =~= v.preconditions);
            assert(r@.phases =~= v.phases);
        }
        r
    }

    /// A state with nothing to run: it stands in while a step is taken.
    fn idle() -> (r: CycleState)
        ensures
            cycle_inv(r@),
    {
        CycleState::stop_service(0, &[])
    }

    /// Whether an actuating run is due.
    fn is_acting(&self) -> (r: bool)
        ensures
            r == acting(self@),
    {
        !self.blocked && !self.failed && self.acted < self.actuations.len()
    }

    /// Whether there is something to hold.
    fn is_actuated(&self) -> (r: bool)
        ensures
            r == actuated(self@),
    {
        let done = !self.blocked && !self.failed && self.acted == self.actuations.len()
            && self.acted > 0;
        if !done {
            return false;
        }
        let last = &self.actuations[self.acted - 1];
        assert(last@ == self@.actuations.last());
        last.phase == Phase::Main
    }

    /// Whether the actuation is held.
    fn is_holding(&self) -> (r: bool)
        ensures
            r == holding(self@),
    {
        self.hold == Hold::UntilStop && self.is_actuated()
    }

    /// What to do next.
    fn next(&self) -> (r: Action)
        requires
            cycle_inv(self@),
        ensures
            r@ == action_of(self@),
    {
        if self.blocked {
            return Action::Done;
        }
        if self.is_acting() {
            let inv = &self.actuations[self.acted];
            assert(inv@ == due(self@));
            return Action::Run { job: inv.job.clone(), args: inv.arg_buffer() };
        }
        if !self.slept && self.is_actuated() {
            if let Hold::Timed(ms) = self.hold {
                return Action::Sleep(ms);
            }
        }
        if !self.is_holding() && self.torn < self.resets.len() {
            let inv = &self.resets[self.torn];
            assert(inv@ == due(self@));
            return Action::Run { job: inv.job.clone(), args: inv.arg_buffer() };
        }
        Action::Done
    }

    /// Record how the run that was due went.
    fn record(&mut self, error: Option<String>)
        requires
            cycle_inv(old(self)@),
            action_of(old(self)@) is Run,
        ensures
            final(self)@ == recorded(old(self)@, crate::text::opt_view(error)),
            cycle_inv(final(self)@),
    {
        let ghost before = self@;
        let ghost view = crate::text::opt_view(error);
        proof {
            law_every_step_keeps_the_cycle(before, view);
        }
        let acting = self.is_acting();
        let failed = error.is_some();
        let outcome = {
            let inv = if acting {
                &self.actuations[self.acted]
            } else {
                &self.resets[self.torn]
            };
            assert(inv@ == due(before));
            PhaseOutcome {
                phase: inv.phase,
                job: inv.job.clone(),
                rank: inv.rank,
                args: inv.arg_buffer(),
                error,
            }
        };
        assert(outcome@ == run_outcome(due(before), view));
        let ghost made = outcome@;
        self.phases.push(outcome);
        assert(phases_view(self.phases@) =~= before.phases.push(made));
        if acting {
            assert(self.acted < self.actuations.len());
            self.acted = self.acted + 1;
            self.failed = failed;
        } else {
            assert(self.torn < self.resets.len());
            self.torn = self.torn + 1;
        }
    }

    /// The wait that was due is over.
    fn rested(&mut self)
        requires
            cycle_inv(old(self)@),
            action_of(old(self)@) is Sleep,
        ensures
            final(self)@ == after_rest(old(self)@),
            cycle_inv(final(self)@),
    {
        proof {
            law_every_step_keeps_the_cycle(self@, None);
        }
        self.slept = true;
    }

    /// What happened to the return-to-safe step.
    fn teardown(&self) -> (r: Teardown)
        requires
            cycle_inv(self@),
        ensures
            r@ == teardown_of(self@),
    {
        if self.is_holding() {
            return Teardown::Deferred;
        }
        if self.blocked || self.resets.len() == 0 {
            return Teardown::NotDefined;
        }
        let ghost resets = self@.phases.skip(self.acted as int);
        let mut first: Option<String> = None;
        let mut i: usize = self.acted;
        while i < self.phases.len()
            invariant
                self.acted <= i <= self.phases.len(),
                resets == self@.phases.skip(self.acted as int),
                crate::text::opt_view(first) == first_error(resets.take(i - self.acted)),
            decreases self.phases.len() - i,
        {
            assert(resets.take(i + 1 - self.acted).drop_last() =~= resets.take(i - self.acted));
            assert(resets.take(i + 1 - self.acted).last() == self.phases@[i as int]@);
            if first.is_none() {
                first = copy_opt(&self.phases[i].error);
            }
            i = i + 1;
        }
        assert(resets.take(i - self.acted) =~= resets);
        match first {
            Some(e) => Teardown::Failed(e),
            None => Teardown::Ran,
        }
    }

    /// The report of the cycle as it stands.
    fn finish(self) -> (r: ServiceReport)
        requires
            cycle_inv(self@),
        ensures
            r@ == report_of(self@),
    {
        let teardown = self.teardown();
        let held = self.is_holding();
        let torn_down = match &teardown {
            Teardown::Failed(_) => false,
            _ => true,
        };
        ServiceReport {
            title: self.title,
            succeeded: self.phases.len() > 0 && !self.failed && torn_down,
            held,
            phases: self.phases,
            teardown,
            preconditions: self.preconditions,
            blocked: self.blocked,
        }
    }
}

/// The running cycle of one service function.
#[derive(Debug)]
pub struct Cycle {
    state: CycleState,
}

impl View for Cycle {
    type V = CycleView;

    closed spec fn view(&self) -> CycleView {
        self.state@
    }
}

impl Cycle {
    /// What holds of every cycle, at every step.
    #[verifier::type_invariant]
    spec fn well_run(self) -> bool {
        cycle_inv(self@)
    }

    /// Begin function `function_id`'s cycle, given the outcomes of its preconditions.
    ///
    /// A *resolved* precondition failure refuses the whole cycle: nothing is sent, not even
    /// `Preset`. A check that could not be resolved is reported and the cycle proceeds.
    pub fn run_service(
        function_id: i64,
        invocations: &[Invocation],
        hold: Hold,
        preconditions: Vec<PreconditionOutcome>,
    ) -> (r: Cycle)
        ensures
            r@ == begun(
                crate::service::phase::invocations_view(invocations@),
                function_id,
                hold,
                crate::service::precondition::outcomes_view(preconditions@),
            ),
            cycle_inv(r@),
    {
        Cycle { state: CycleState::run_service(function_id, invocations, hold, preconditions) }
    }

    /// Begin the stop of function `function_id`: its deferred teardown, and nothing else.
    ///
    /// This runs neither `Preset` nor `Main`: a stop must never re-actuate.
    pub fn stop_service(function_id: i64, invocations: &[Invocation]) -> (r: Cycle)
        ensures
            r@ == stopping(crate::service::phase::invocations_view(invocations@), function_id),
            cycle_inv(r@),
    {
        Cycle { state: CycleState::stop_service(function_id, invocations) }
    }

    /// What to do next.
    pub fn next(&self) -> (r: Action)
        ensures
            r@ == action_of(self@),
    {
        proof {
            use_type_invariant(self);
        }
        self.state.next()
    }

    /// Record how the run that was due went.
    pub fn record(&mut self, error: Option<String>)
        requires
            action_of(old(self)@) is Run,
        ensures
            final(self)@ == recorded(old(self)@, crate::text::opt_view(error)),
            cycle_inv(final(self)@),
    {
        proof {
            use_type_invariant(&*self);
        }
        let mut state = CycleState::idle();
        std::mem::swap(&mut state, &mut self.state);
        state.record(error);
        self.state = state;
    }

    /// The wait that was due is over.
    pub fn rested(&mut self)
        requires
            action_of(old(self)@) is Sleep,
        ensures
            final(self)@ == after_rest(old(self)@),
            cycle_inv(final(self)@),
    {
        proof {
            use_type_invariant(&*self);
        }
        let mut state = CycleState::idle();
        std::mem::swap(&mut state, &mut self.state);
        state.rested();
        self.state = state;
    }

    /// The report of the cycle as it stands.
    pub fn finish(self) -> (r: ServiceReport)
        ensures
            r@ == report_of(self@),
    {
        proof {
            use_type_invariant(&self);
        }
        self.state.finish()
    }
}

// ---------------------------------------------------------------------------
// What a cycle amounts to
// ---------------------------------------------------------------------------

/// A cycle driven to its end, or as far as there are results: each run that is due is given the
/// next of these results, and each wait is waited out.
pub open spec fn driven(v: CycleView, errors: Seq<Option<Seq<char>>>) -> CycleView
    decreases
            errors.len(),
            if v.slept {
                0int
            } else {
                1
            },
{
    match action_of(v) {
        ActionView::Run { .. } => if errors.len() == 0 {
            v
        } else {
            driven(recorded(v, errors[0]), errors.skip(1))
        },
        ActionView::Sleep(_) => driven(after_rest(v), errors),
        ActionView::Done => v,
    }
}

/// Whether a run is that of an invocation, with this result.
pub open spec fn is_run_of(
    run: PhaseOutcomeView,
    inv: crate::service::phase::InvocationView,
    error: Option<Seq<char>>,
) -> bool {
    run.phase == inv.phase && run.job == inv.job && run.rank == inv.rank && run.args
        == crate::text::join(inv.args, seq![';']) && run.error == error
}

proof fn lemma_driven_actuations(v: CycleView, errors: Seq<Option<Seq<char>>>, m: nat)
    requires
        !v.blocked,
        !v.failed,
        v.acted == 0,
        v.phases.len() == 0,
        m <= v.actuations.len(),
        m <= errors.len(),
        forall|k: int| 0 <= k < m ==> (#[trigger] errors[k]) is None,
    ensures
        driven(v, errors) == driven(
            CycleView {
                acted: m,
                phases: Seq::new(m, |k: int| run_outcome(v.actuations[k], None)),
                ..v
            },
            errors.skip(m as int),
        ),
    decreases m,
{
    if m == 0 {
        assert(Seq::new(0, |k: int| run_outcome(v.actuations[k], None)) =~= v.phases);
        assert(errors.skip(0) =~= errors);
    } else {
        let n = (m - 1) as nat;
        lemma_driven_actuations(v, errors, n);
        let before = CycleView {
            acted: n,
            phases: Seq::new(n, |k: int| run_outcome(v.actuations[k], None)),
            ..v
        };
        let after = CycleView {
            acted: m,
            phases: Seq::new(m, |k: int| run_outcome(v.actuations[k], None)),
            ..v
        };
        assert(errors.skip(n as int)[0] == errors[n as int]);
        assert(errors.skip(n as int).skip(1) =~= errors.skip(m as int));
        assert(recorded(before, None).phases =~= after.phases);
        assert(recorded(before, None) =~= after);
        assert(action_of(before) is Run);
    }
}

proof fn lemma_driven_resets(v: CycleView, errors: Seq<Option<Seq<char>>>, m: nat)
    requires
        !v.blocked,
        !acting(v),
        !pausing(v),
        !holding(v),
        v.torn == 0,
        m <= v.resets.len(),
        m <= errors.len(),
    ensures
        driven(v, errors) == driven(
            CycleView {
                torn: m,
                phases: v.phases + Seq::new(m, |k: int| run_outcome(v.resets[k], errors[k])),
                ..v
            },
            errors.skip(m as int),
        ),
    decreases m,
{
    if m == 0 {
        assert(v.phases + Seq::new(0, |k: int| run_outcome(v.resets[k], errors[k])) =~= v.phases);
        assert(errors.skip(0) =~= errors);
    } else {
        let n = (m - 1) as nat;
        lemma_driven_resets(v, errors, n);
        let before = CycleView {
            torn: n,
            phases: v.phases + Seq::new(n, |k: int| run_outcome(v.resets[k], errors[k])),
            ..v
        };
        let after = CycleView {
            torn: m,
            phases: v.phases + Seq::new(m, |k: int| run_outcome(v.resets[k], errors[k])),
            ..v
        };
        assert(errors.skip(n as int)[0] == errors[n as int]);
        assert(errors.skip(n as int).skip(1) =~= errors.skip(m as int));
        assert(recorded(before, errors[n as int]).phases =~= after.phases);
        assert(recorded(before, errors[n as int]) =~= after);
        assert(action_of(before) is Run);
    }
}

proof fn lemma_driven(
    v: CycleView,
    errors: Seq<Option<Seq<char>>>,
    f: nat,
) -> (end: CycleView)
    requires
        !v.blocked,
        !v.failed,
        !v.slept,
        v.acted == 0,
        v.torn == 0,
        v.phases.len() == 0,
        f <= v.actuations.len(),
        forall|k: int| 0 <= k < f ==> (#[trigger] errors[k]) is None,
        f < v.actuations.len() ==> f < errors.len() && errors[f as int] is Some,
        errors.len() == (if f < v.actuations.len() {
            f + 1
        } else {
            v.actuations.len()
        }) + v.resets.len(),
    ensures
        end == driven(v, errors),
        end.blocked == v.blocked && end.title == v.title && end.preconditions == v.preconditions
            && end.actuations == v.actuations && end.resets == v.resets && end.hold == v.hold,
        end.failed == (f < v.actuations.len()),
        end.acted == (if f < v.actuations.len() {
            f + 1
        } else {
            v.actuations.len()
        }),
        end.torn == (if holding(end) {
            0
        } else {
            v.resets.len()
        }),
        action_of(end) is Done,
        end.phases.len() == end.acted + end.torn,
        forall|k: int|
            0 <= k < end.acted ==> #[trigger] end.phases[k] == run_outcome(
                v.actuations[k],
                errors[k],
            ),
        forall|k: int|
            end.acted <= k < end.acted + end.torn ==> #[trigger] end.phases[k] == run_outcome(
                v.resets[k - end.acted],
                errors[k],
            ),
{
    lemma_driven_actuations(v, errors, f);
    let after = CycleView {
        acted: f,
        phases: Seq::new(f, |k: int| run_outcome(v.actuations[k], None)),
        ..v
    };
    let rest = errors.skip(f as int);
    if f < v.actuations.len() {
        assert(rest[0] == errors[f as int]);
        let failed = recorded(after, errors[f as int]);
        let left = rest.skip(1);
        assert(driven(after, rest) == driven(failed, left));
        lemma_driven_resets(failed, left, v.resets.len());
        let end = CycleView {
            torn: v.resets.len(),
            phases: failed.phases + Seq::new(
                v.resets.len(),
                |k: int| run_outcome(v.resets[k], left[k]),
            ),
            ..failed
        };
        assert(driven(end, left.skip(v.resets.len() as int)) == end);
        assert forall|k: int|
            end.acted <= k < end.acted + end.torn implies #[trigger] end.phases[k] == run_outcome(
            v.resets[k - end.acted],
            errors[k],
        ) by {
            assert(left[k - end.acted] == errors[k]);
        }
        end
    } else if holding(after) {
        assert(driven(after, rest) == after);
        after
    } else {
        let rested = if pausing(after) {
            after_rest(after)
        } else {
            after
        };
        assert(driven(after, rest) == driven(rested, rest)) by {
            if pausing(after) {
                assert(action_of(after) is Sleep);
            }
        }
        lemma_driven_resets(rested, rest, v.resets.len());
        let end = CycleView {
            torn: v.resets.len(),
            phases: rested.phases + Seq::new(
                v.resets.len(),
                |k: int| run_outcome(v.resets[k], rest[k]),
            ),
            ..rested
        };
        assert(driven(end, rest.skip(v.resets.len() as int)) == end);
        assert forall|k: int|
            end.acted <= k < end.acted + end.torn implies #[trigger] end.phases[k] == run_outcome(
            v.resets[k - end.acted],
            errors[k],
        ) by {
            assert(rest[k - end.acted] == errors[k]);
        }
        end
    }
}

proof fn lemma_selected_is_filtered(
    invs: Seq<crate::service::phase::InvocationView>,
    function_id: i64,
    phase: Phase,
)
    ensures
        selected(invs, function_id, phase) == invs.filter(
            |inv: crate::service::phase::InvocationView|
                inv.function_id == function_id && inv.phase == phase,
        ),
    decreases invs.len(),
{
    reveal(Seq::filter);
    if invs.len() > 0 {
        lemma_selected_is_filtered(invs.drop_last(), function_id, phase);
    }
}

/// The invocations of one function and one phase, in the order they are given.
pub open spec fn of_function(
    invs: Seq<crate::service::phase::InvocationView>,
    function_id: i64,
    phase: Phase,
) -> Seq<crate::service::phase::InvocationView> {
    invs.filter(
        |inv: crate::service::phase::InvocationView|
            inv.function_id == function_id && inv.phase == phase,
    )
}

/// The run of a service function, from beginning to end, where nothing stands against it. Its
/// `Preset` invocations are run and then its `Main` ones, in order, up to the first that fails
/// (`f`, or all of them); then all its `Reset` ones, unless a `Main` that succeeded is to be held
/// until it is stopped. Every run is on record with its result. The run succeeded exactly where
/// something was run and nothing failed.
pub proof fn law_a_service_runs_and_is_torn_down(
    invs: Seq<crate::service::phase::InvocationView>,
    function_id: i64,
    hold: Hold,
    preconditions: Seq<crate::service::precondition::OutcomeView>,
    errors: Seq<Option<Seq<char>>>,
    f: nat,
)
    requires
        forall|i: int|
            0 <= i < preconditions.len() ==> (#[trigger] preconditions[i]).verdict
                != crate::service::precondition::Verdict::Failed,
        ({
            let runs = of_function(invs, function_id, Phase::Preset) + of_function(
                invs,
                function_id,
                Phase::Main,
            );
            let resets = of_function(invs, function_id, Phase::Reset);
            &&& f <= runs.len()
            &&& forall|k: int| 0 <= k < f ==> (#[trigger] errors[k]) is None
            &&& (f < runs.len() ==> f < errors.len() && errors[f as int] is Some)
            &&& errors.len() == (if f < runs.len() {
                f + 1
            } else {
                runs.len()
            }) + resets.len()
        }),
    ensures
        ({
            let mains = of_function(invs, function_id, Phase::Main);
            let runs = of_function(invs, function_id, Phase::Preset) + mains;
            let resets = of_function(invs, function_id, Phase::Reset);
            let n = if f < runs.len() {
                f + 1
            } else {
                runs.len()
            };
            let end = driven(begun(invs, function_id, hold, preconditions), errors);
            let report = report_of(end);
            let held = f == runs.len() && mains.len() > 0 && hold == Hold::UntilStop;
            &&& action_of(end) is Done
            &&& !report.blocked
            &&& report.preconditions == preconditions
            &&& report.held == held
            &&& report.phases.len() == n + (if held {
                0
            } else {
                resets.len()
            })
            &&& forall|k: int|
                0 <= k < report.phases.len() ==> is_run_of(
                    #[trigger] report.phases[k],
                    if k < n {
                        runs[k]
                    } else {
                        resets[k - n]
                    },
                    errors[k],
                )
            &&& (report.succeeded <==> report.phases.len() > 0 && forall|k: int|
                0 <= k < report.phases.len() ==> (#[trigger] report.phases[k]).error is None)
            &&& (held ==> report.teardown is Deferred)
            &&& (!held && resets.len() == 0 ==> report.teardown is NotDefined)
            &&& (!held && resets.len() > 0 ==> {
                &&& (report.teardown is Ran <==> forall|k: int|
                    n <= k < errors.len() ==> (#[trigger] errors[k]) is None)
                &&& (report.teardown is Failed <==> exists|k: int|
                    n <= k < errors.len() && (#[trigger] errors[k]) is Some)
                &&& (report.teardown matches TeardownView::Failed(e) ==> exists|k: int|
                    n <= k < errors.len() && #[trigger] errors[k] == Some(e) && forall|j: int|
                        n <= j < k ==> (#[trigger] errors[j]) is None)
            })
        }),
{
    lemma_selected_is_filtered(invs, function_id, Phase::Preset);
    lemma_selected_is_filtered(invs, function_id, Phase::Main);
    lemma_selected_is_filtered(invs, function_id, Phase::Reset);
    let mains = of_function(invs, function_id, Phase::Main);
    let presets = of_function(invs, function_id, Phase::Preset);
    let runs = presets + mains;
    let resets = of_function(invs, function_id, Phase::Reset);
    let v = begun(invs, function_id, hold, preconditions);
    assert(!v.blocked);
    assert(v.actuations == runs && v.resets == resets);
    let end = lemma_driven(v, errors, f);
    let n = end.acted;
    lemma_selected(invs, function_id, Phase::Main);
    lemma_selected(invs, function_id, Phase::Preset);
    if runs.len() > 0 {
        if mains.len() > 0 {
            assert(runs.last() == mains[mains.len() - 1]);
        } else {
            assert(runs.last() == presets[presets.len() - 1]);
        }
    }
    let tail = end.phases.skip(n as int);
    assert forall|k: int| 0 <= k < end.torn implies (#[trigger] tail[k]).error == errors[n + k] by {
        assert(tail[k] == end.phases[n + k]);
    }
    lemma_first_error(tail);
    lemma_first_error_is_first(tail);
    if !holding(end) && resets.len() > 0 {
        assert(tail.len() == resets.len());
        if first_error(tail) is None {
            assert forall|k: int| n <= k < errors.len() implies (#[trigger] errors[k]) is None by {
                assert(tail[k - n].error == errors[k]);
            }
        } else {
            let i = choose|i: int|
                0 <= i < tail.len() && (#[trigger] tail[i]).error == first_error(tail) && forall|
                    j: int,
                |
                    0 <= j < i ==> (#[trigger] tail[j]).error is None;
            assert(errors[n + i] == first_error(tail));
            assert forall|j: int| n <= j < n + i implies (#[trigger] errors[j]) is None by {
                assert(tail[j - n].error == errors[j]);
            }
        }
    }
    let report = report_of(end);
    if report.succeeded {
        assert forall|k: int| 0 <= k < report.phases.len() implies (
        #[trigger] report.phases[k]).error is None by {
            if k < n {
                assert(end.phases[k] == run_outcome(runs[k], errors[k]));
            } else {
                assert(tail[k - n] == end.phases[k]);
            }
        }
    } else if report.phases.len() > 0 {
        if end.failed {
            assert(end.phases[f as int].error is Some);
        } else {
            assert(report.teardown is Failed);
            let i = choose|i: int|
                0 <= i < tail.len() && (#[trigger] tail[i]).error == first_error(tail) && forall|
                    j: int,
                |
                    0 <= j < i ==> (#[trigger] tail[j]).error is None;
            assert(end.phases[n + i].error is Some);
        }
    }
}

proof fn lemma_first_error_is_first(phases: Seq<PhaseOutcomeView>)
    ensures
        first_error(phases) is Some ==> exists|k: int|
            0 <= k < phases.len() && (#[trigger] phases[k]).error == first_error(phases) && forall|
                j: int,
            |
                0 <= j < k ==> (#[trigger] phases[j]).error is None,
    decreases phases.len(),
{
    if phases.len() > 0 {
        let short = phases.drop_last();
        lemma_first_error_is_first(short);
        lemma_first_error(short);
        if first_error(short) is Some {
            let k = choose|k: int|
                0 <= k < short.len() && (#[trigger] short[k]).error == first_error(short)
                    && forall|j: int| 0 <= j < k ==> (#[trigger] short[j]).error is None;
            assert(phases[k] == short[k]);
            assert forall|j: int| 0 <= j < k implies (#[trigger] phases[j]).error is None by {
                assert(phases[j] == short[j]);
            }
        } else if phases.last().error is Some {
            assert forall|j: int| 0 <= j < phases.len() - 1 implies (#[trigger] phases[j]).error
                is None by {
                assert(phases[j] == short[j]);
            }
            assert(phases[phases.len() - 1] == phases.last());
        }
    }
}

/// What is sent is the job and the argument buffer of the invocation that is due; once `Main` has
/// succeeded a timed hold is waited out for its time, once, before the first `Reset` is sent.
pub proof fn law_a_timed_hold_is_waited_out_once(v: CycleView, ms: u64)
    requires
        cycle_inv(v),
        !v.blocked,
        !v.failed,
        v.acted == v.actuations.len(),
        v.acted > 0,
        v.actuations.last().phase == Phase::Main,
        v.hold == Hold::Timed(ms),
        v.resets.len() > 0,
        v.torn == 0,
        !v.slept,
    ensures
        action_of(v) == ActionView::Sleep(ms),
        action_of(after_rest(v)) == (ActionView::Run {
            job: v.resets[0].job,
            args: crate::text::join(v.resets[0].args, seq![';']),
        }),
{
}

/// A cycle that a failed condition stands against sends nothing at all: its report is blocked,
/// with every outcome, no run, no success, and nothing held.
pub proof fn law_a_failed_condition_refuses_the_run(
    invs: Seq<crate::service::phase::InvocationView>,
    function_id: i64,
    hold: Hold,
    preconditions: Seq<crate::service::precondition::OutcomeView>,
    errors: Seq<Option<Seq<char>>>,
    i: int,
)
    requires
        0 <= i < preconditions.len(),
        preconditions[i].verdict == crate::service::precondition::Verdict::Failed,
    ensures
        ({
            let v = begun(invs, function_id, hold, preconditions);
            let report = report_of(driven(v, errors));
            &&& action_of(v) is Done
            &&& report.blocked
            &&& report.phases.len() == 0
            &&& !report.succeeded
            &&& !report.held
            &&& report.preconditions == preconditions
            &&& report.teardown is NotDefined
        }),
{
}

/// A stop runs every `Reset` invocation of the function and nothing else, whatever each gives.
pub proof fn law_a_stop_runs_every_reset(
    invs: Seq<crate::service::phase::InvocationView>,
    function_id: i64,
    errors: Seq<Option<Seq<char>>>,
)
    requires
        errors.len() == of_function(invs, function_id, Phase::Reset).len(),
    ensures
        ({
            let resets = of_function(invs, function_id, Phase::Reset);
            let end = driven(stopping(invs, function_id), errors);
            let report = report_of(end);
            &&& action_of(end) is Done
            &&& !report.held && !report.blocked
            &&& report.phases.len() == resets.len()
            &&& forall|k: int|
                0 <= k < resets.len() ==> is_run_of(
                    #[trigger] report.phases[k],
                    resets[k],
                    errors[k],
                )
            &&& (report.succeeded <==> resets.len() > 0 && forall|k: int|
                0 <= k < errors.len() ==> (#[trigger] errors[k]) is None)
            &&& (resets.len() == 0 <==> report.teardown is NotDefined)
        }),
{
    lemma_selected_is_filtered(invs, function_id, Phase::Reset);
    let v = stopping(invs, function_id);
    let end = lemma_driven(v, errors, 0);
    let tail = end.phases.skip(0);
    assert(tail =~= end.phases);
    lemma_first_error(tail);
    lemma_first_error_is_first(tail);
    if first_error(tail) is None {
        assert forall|k: int| 0 <= k < errors.len() implies (#[trigger] errors[k]) is None by {
            assert(tail[k].error == errors[k]);
        }
    } else {
        let i = choose|i: int|
            0 <= i < tail.len() && (#[trigger] tail[i]).error == first_error(tail) && forall|j: int|
                0 <= j < i ==> (#[trigger] tail[j]).error is None;
        assert(errors[i] is Some);
    }
}

/// The title of a cycle is the first that an invocation of its function has.
pub proof fn law_a_cycle_has_the_first_title(
    invs: Seq<crate::service::phase::InvocationView>,
    function_id: i64,
    k: int,
)
    requires
        0 <= k <= invs.len(),
        forall|j: int|
            0 <= j < k ==> (#[trigger] invs[j]).function_id != function_id || invs[j].title is None,
        k < invs.len() ==> invs[k].function_id == function_id && invs[k].title is Some,
    ensures
        title_among(invs, function_id) == (if k < invs.len() {
            invs[k].title
        } else {
            None
        }),
    decreases invs.len(),
{
    if invs.len() > 0 {
        let short = invs.drop_last();
        assert forall|j: int| 0 <= j < k && j < short.len() implies (#[trigger] short[j]).function_id
            != function_id || short[j].title is None by {
            assert(short[j] == invs[j]);
        }
        if k < short.len() {
            assert(short[k] == invs[k]);
            law_a_cycle_has_the_first_title(short, function_id, k);
        } else {
            law_a_cycle_has_the_first_title(short, function_id, short.len() as int);
            if k == invs.len() {
                assert(invs[invs.len() - 1].function_id != function_id || invs[invs.len()
                    - 1].title is None);
            }
        }
    }
}

/// A function holds by its activation: not at all without a reset, for its duration in
/// milliseconds where the activation is positive, and until it is stopped in every other case.
pub proof fn law_a_hold_follows_the_activation(activation: i64, duration: i64)
    ensures
        hold_of(Some(activation), Some(duration), false) == Hold::Immediate,
        hold_of(None, None, false) == Hold::Immediate,
        activation > 0 && duration >= 0 ==> hold_of(Some(activation), Some(duration), true)
            == Hold::Timed(duration as u64),
        activation > 0 && duration < 0 ==> hold_of(Some(activation), Some(duration), true)
            == Hold::Timed(0),
        activation > 0 ==> hold_of(Some(activation), None, true) == Hold::Timed(0),
        activation <= 0 ==> hold_of(Some(activation), Some(duration), true) == Hold::UntilStop,
        hold_of(None, Some(duration), true) == Hold::UntilStop,
        hold_of(None, None, true) == Hold::UntilStop,
{
}

/// The model of a value says of each field what the field holds, and a list is modelled item by
/// item, in order.
pub proof fn law_a_model_shows_what_its_value_holds(
    phase_outcome: PhaseOutcome,
    service_report: ServiceReport,
    phases: Seq<PhaseOutcome>,
)
    ensures
        phase_outcome@.phase == phase_outcome.phase,
        phase_outcome@.job == phase_outcome.job@,
        phase_outcome@.rank == phase_outcome.rank,
        phase_outcome@.args == phase_outcome.args@,
        phase_outcome@.error == crate::text::opt_view(phase_outcome.error),
        service_report@.title == crate::text::opt_view(service_report.title),
        service_report@.phases == phases_view(service_report.phases@),
        service_report@.teardown == service_report.teardown@,
        service_report@.succeeded == service_report.succeeded,
        service_report@.held == service_report.held,
        service_report@.preconditions == crate::service::precondition::outcomes_view(
            service_report.preconditions@,
        ),
        service_report@.blocked == service_report.blocked,
        phases_view(phases).len() == phases.len(),
        forall|i: int| 0 <= i < phases.len() ==> #[trigger] phases_view(phases)[i] == phases[i]@,
{
}

} // verus!
