//! Group catalog rows into the ordered invocations of a service function.
//!
//! The catalog stores one row per positional argument, tagged with its actuation phase, job, and
//! rank. This module turns those rows into the ordered `Preset → Main → Reset` job-runs, each
//! carrying its own `;`-joined argument buffer.
use vstd::prelude::*;
use crate::semantic::catalog::JobParameterEntry;
use crate::text::{join_texts, prefer, same_text, trim_text};

verus! {

/// One step of an actuation's lifecycle, in execution order.
#[derive(Debug, Clone, Copy, PartialEq, Eq, PartialOrd, Ord, Structural)]
pub enum Phase {
    /// Prepares the ECU before the action.
    Preset,
    /// The action itself.
    Main,
    /// Teardown: the return-to-safe step, also run on failure.
    Reset,
}

/// The place of a phase in the lifecycle.
pub open spec fn phase_order(phase: Phase) -> int {
    match phase {
        Phase::Preset => 0,
        Phase::Main => 1,
        Phase::Reset => 2,
    }
}

/// The phase that a catalog text names. Anything unrecognised, and no text at all, is the action
/// itself: an unclassifiable step must still run.
pub open spec fn phase_named(text: Option<Seq<char>>) -> Phase {
    match text {
        Some(t) => if t == "Preset"@ {
            Phase::Preset
        } else if t == "Reset"@ {
            Phase::Reset
        } else {
            Phase::Main
        },
        None => Phase::Main,
    }
}

impl Phase {
    /// Classify the catalog's nullable phase text.
    pub fn from_catalog(text: Option<&str>) -> (r: Phase)
        ensures
            r == phase_named(
                match text {
                    Some(t) => Some(t@),
                    None => None,
                },
            ),
    {
        match text {
            Some(t) => if same_text(t, "Preset") {
                Phase::Preset
            } else if same_text(t, "Reset") {
                Phase::Reset
            } else {
                Phase::Main
            },
            None => Phase::Main,
        }
    }

    /// The place of this phase in the lifecycle.
    fn order(self) -> (r: u8)
        ensures
            r == phase_order(self),
    {
        match self {
            Phase::Preset => 0,
            Phase::Main => 1,
            Phase::Reset => 2,
        }
    }
}

/// One job-run within a function's phase cycle.
///
/// A phase can run several distinct jobs, and one job can repeat at different ranks, so an
/// invocation is scoped by function, phase, job and rank, and carries the argument values of that
/// one run.
#[derive(Debug, Clone, PartialEq, Eq)]
pub struct Invocation {
    /// The owning fixed function's catalog id.
    pub function_id: i64,
    /// The function's human title (English preferred), when the catalog has one.
    pub title: Option<String>,
    /// Which lifecycle step this is.
    pub phase: Phase,
    /// The job this run sends.
    pub job: String,
    /// This run's rank within its phase; `None` (unranked) sorts first.
    pub rank: Option<i64>,
    /// The positional argument values, in position order.
    pub args: Vec<String>,
}

/// What an [`Invocation`] holds.
#[verifier::ext_equal]
pub struct InvocationView {
    pub function_id: i64,
    pub title: Option<Seq<char>>,
    pub phase: Phase,
    pub job: Seq<char>,
    pub rank: Option<i64>,
    pub args: Seq<Seq<char>>,
}

impl View for Invocation {
    type V = InvocationView;

    open spec fn view(&self) -> InvocationView {
        InvocationView {
            function_id: self.function_id,
            title: crate::text::opt_view(self.title),
            phase: self.phase,
            job: self.job@,
            rank: self.rank,
            args: crate::text::text_views(self.args@),
        }
    }
}

/// The views of invocations.
pub open spec fn invocations_view(v: Seq<Invocation>) -> Seq<InvocationView> {
    Seq::new(v.len(), |i: int| v[i]@)
}

/// The argument buffer of an invocation: its values with `;` between them.
pub open spec fn buffer_of(i: InvocationView) -> Seq<char> {
    crate::text::join(i.args, seq![';'])
}

impl Invocation {
    /// The argument buffer: the positional values joined with `;`.
    pub fn arg_buffer(&self) -> (r: String)
        ensures
            r@ == buffer_of(self@),
    {
        join_texts(self.args.as_slice(), ';')
    }
}

// ---------------------------------------------------------------------------
// The order of rows
// ---------------------------------------------------------------------------

/// What a row contributes to the invocations.
#[verifier::ext_equal]
pub struct RowView {
    pub function_id: i64,
    pub title: Option<Seq<char>>,
    pub phase: Phase,
    pub rank: Option<i64>,
    pub position: i64,
    pub value: Seq<char>,
    pub job: Seq<char>,
}

/// The title of a row: English, else German, trimmed; an empty one counts as none.
pub open spec fn row_title(row: JobParameterEntry) -> Option<Seq<char>> {
    match crate::text::first_of(
        crate::text::opt_view(row.function_en),
        crate::text::opt_view(row.function_de),
    ) {
        Some(t) => if crate::text::trimmed(t).len() > 0 {
            Some(crate::text::trimmed(t))
        } else {
            None
        },
        None => None,
    }
}

/// What a row contributes. A row without a value contributes an *empty* argument: arguments are
/// positional, so dropping one would shift every later one.
pub open spec fn row_of(row: JobParameterEntry) -> RowView {
    RowView {
        function_id: row.function_id,
        title: row_title(row),
        phase: phase_named(crate::text::opt_view(row.phase)),
        rank: row.rank,
        position: row.position,
        value: match row.value {
            Some(v) => v@,
            None => Seq::<char>::empty(),
        },
        job: row.job@,
    }
}

/// The rows, as they contribute.
pub open spec fn rows_of(rows: Seq<JobParameterEntry>) -> Seq<RowView> {
    Seq::new(rows.len(), |i: int| row_of(rows[i]))
}

// ---------------------------------------------------------------------------
// Runs
// ---------------------------------------------------------------------------

/// What an invocation is scoped by: function, phase, rank and job.
#[verifier::ext_equal]
pub struct RunKey {
    pub function_id: i64,
    pub phase: Phase,
    pub rank: Option<i64>,
    pub job: Seq<char>,
}

/// The run that a row is an argument of.
pub open spec fn run_of(row: RowView) -> RunKey {
    RunKey { function_id: row.function_id, phase: row.phase, rank: row.rank, job: row.job }
}

/// The run that an invocation is.
pub open spec fn run_of_invocation(inv: InvocationView) -> RunKey {
    RunKey { function_id: inv.function_id, phase: inv.phase, rank: inv.rank, job: inv.job }
}

/// Whether rank `a` comes strictly before rank `b`: an unranked run before every ranked one.
pub open spec fn rank_before(a: Option<i64>, b: Option<i64>) -> bool {
    match (a, b) {
        (None, Some(_)) => true,
        (Some(x), Some(y)) => x < y,
        _ => false,
    }
}

/// Whether run `a` comes strictly before run `b`: by function, then phase, then rank.
pub open spec fn run_before(a: RunKey, b: RunKey) -> bool {
    if a.function_id != b.function_id {
        a.function_id < b.function_id
    } else if a.phase != b.phase {
        phase_order(a.phase) < phase_order(b.phase)
    } else {
        rank_before(a.rank, b.rank)
    }
}

/// The order of runs; runs that tie keep their order of arrival.
pub open spec fn run_order() -> spec_fn(RunKey, RunKey) -> bool {
    |a: RunKey, b: RunKey| run_before(a, b)
}

/// The order of arguments: by position; arguments that tie keep their order of arrival.
pub open spec fn argument_order() -> spec_fn(RowView, RowView) -> bool {
    |a: RowView, b: RowView| a.position < b.position
}

/// The runs of `rows`, each once, in order of first arrival.
pub open spec fn runs_in(rows: Seq<RowView>) -> Seq<RunKey>
    decreases rows.len(),
{
    if rows.len() == 0 {
        Seq::<RunKey>::empty()
    } else {
        let before = runs_in(rows.drop_last());
        if before.contains(run_of(rows.last())) {
            before
        } else {
            before.push(run_of(rows.last()))
        }
    }
}

/// The rows of one run, in order of arrival.
pub open spec fn rows_of_run(rows: Seq<RowView>, run: RunKey) -> Seq<RowView>
    decreases rows.len(),
{
    if rows.len() == 0 {
        rows
    } else {
        let before = rows_of_run(rows.drop_last(), run);
        if run_of(rows.last()) == run {
            before.push(rows.last())
        } else {
            before
        }
    }
}

/// The arguments of one run, in position order.
pub open spec fn arguments_of(rows: Seq<RowView>, run: RunKey) -> Seq<RowView> {
    crate::order::arranged(rows_of_run(rows, run), argument_order())
}

/// The values of rows, in order.
pub open spec fn all_values(rows: Seq<RowView>) -> Seq<Seq<char>> {
    Seq::new(rows.len(), |i: int| rows[i].value)
}

/// The first title that rows have.
pub open spec fn first_title(rows: Seq<RowView>) -> Option<Seq<char>>
    decreases rows.len(),
{
    if rows.len() == 0 {
        None
    } else {
        crate::text::first_of(first_title(rows.drop_last()), rows.last().title)
    }
}

/// The invocation of one run.
pub open spec fn invocation_of(rows: Seq<RowView>, run: RunKey) -> InvocationView {
    InvocationView {
        function_id: run.function_id,
        title: first_title(arguments_of(rows, run)),
        phase: run.phase,
        job: run.job,
        rank: run.rank,
        args: all_values(arguments_of(rows, run)),
    }
}

/// The runs of `rows` in execution order.
pub open spec fn ordered_runs(rows: Seq<RowView>) -> Seq<RunKey> {
    crate::order::arranged(runs_in(rows), run_order())
}

/// The invocations of rows: one per run, in execution order.
pub open spec fn grouped(rows: Seq<RowView>) -> Seq<InvocationView> {
    Seq::new(ordered_runs(rows).len(), |i: int| invocation_of(rows, ordered_runs(rows)[i]))
}

/// The invocations of catalog rows.
pub open spec fn invocations_of(rows: Seq<JobParameterEntry>) -> Seq<InvocationView> {
    grouped(rows_of(rows))
}

proof fn lemma_orders()
    ensures
        crate::order::weak_order(run_order()),
        crate::order::weak_order(argument_order()),
{
}

proof fn lemma_runs(rows: Seq<RowView>)
    ensures
        runs_in(rows).no_duplicates(),
        forall|run: RunKey| #[trigger]
            runs_in(rows).contains(run) <==> exists|k: int|
                0 <= k < rows.len() && run_of(#[trigger] rows[k]) == run,
    decreases rows.len(),
{
    if rows.len() > 0 {
        let short = rows.drop_last();
        let last = run_of(rows.last());
        lemma_runs(short);
        let before = runs_in(short);
        let after = runs_in(rows);
        assert forall|run: RunKey| #[trigger] after.contains(run) <==> exists|k: int|
            0 <= k < rows.len() && run_of(#[trigger] rows[k]) == run by {
            if after.contains(run) {
                let at = choose|at: int| 0 <= at < after.len() && after[at] == run;
                if at < before.len() {
                    assert(before[at] == run);
                    assert(before.contains(run));
                    let k = choose|k: int| 0 <= k < short.len() && run_of(#[trigger] short[k]) == run;
                    assert(rows[k] == short[k]);
                } else {
                    assert(run_of(rows[rows.len() - 1]) == run);
                }
            }
            if exists|k: int| 0 <= k < rows.len() && run_of(#[trigger] rows[k]) == run {
                let k = choose|k: int| 0 <= k < rows.len() && run_of(#[trigger] rows[k]) == run;
                if k < short.len() {
                    assert(run_of(short[k]) == run);
                    assert(before.contains(run));
                }
                if before.contains(run) {
                    let at = choose|at: int| 0 <= at < before.len() && before[at] == run;
                    assert(after[at] == run);
                } else {
                    assert(after[after.len() - 1] == run);
                }
            }
        }
        assert forall|i: int, j: int| 0 <= i < after.len() && 0 <= j < after.len() && i
            != j implies after[i] != after[j] by {
            if i < before.len() && j < before.len() {
                assert(before[i] != before[j]);
            } else if i < before.len() {
                assert(before.contains(before[i]));
            } else {
                assert(before.contains(before[j]));
            }
        }
    }
}

proof fn lemma_ordered_runs(rows: Seq<RowView>)
    ensures
        ordered_runs(rows).no_duplicates(),
        forall|run: RunKey| #[trigger]
            ordered_runs(rows).contains(run) <==> runs_in(rows).contains(run),
{
    broadcast use vstd::seq_lib::group_to_multiset_ensures;

    lemma_runs(rows);
    crate::order::law_an_arrangement_is_a_stable_permutation(runs_in(rows), run_order());
    runs_in(rows).lemma_multiset_has_no_duplicates();
    ordered_runs(rows).lemma_multiset_has_no_duplicates_conv();
    assert forall|run: RunKey| #[trigger] ordered_runs(rows).contains(run) <==> runs_in(
        rows,
    ).contains(run) by {
        assert(ordered_runs(rows).contains(run) <==> ordered_runs(rows).to_multiset().count(run)
            > 0);
        assert(runs_in(rows).contains(run) <==> runs_in(rows).to_multiset().count(run) > 0);
    }
}

/// There is one invocation per function, phase, job and rank: no two share all four, and every
/// row is an argument of one.
pub proof fn law_one_invocation_per_run(rows: Seq<RowView>)
    ensures
        forall|i: int, j: int|
            0 <= i < j < grouped(rows).len() ==> run_of_invocation(#[trigger] grouped(rows)[i])
                != run_of_invocation(#[trigger] grouped(rows)[j]),
        forall|k: int|
            0 <= k < rows.len() ==> exists|i: int|
                0 <= i < grouped(rows).len() && run_of_invocation(#[trigger] grouped(rows)[i])
                    == run_of(#[trigger] rows[k]),
{
    lemma_runs(rows);
    lemma_ordered_runs(rows);
    let runs = ordered_runs(rows);
    assert forall|i: int, j: int| 0 <= i < j < grouped(rows).len() implies run_of_invocation(
        #[trigger] grouped(rows)[i],
    ) != run_of_invocation(#[trigger] grouped(rows)[j]) by {
        assert(run_of_invocation(grouped(rows)[i]) =~= runs[i]);
        assert(run_of_invocation(grouped(rows)[j]) =~= runs[j]);
    }
    assert forall|k: int| 0 <= k < rows.len() implies exists|i: int|
        0 <= i < grouped(rows).len() && run_of_invocation(#[trigger] grouped(rows)[i]) == run_of(
            #[trigger] rows[k],
        ) by {
        assert(runs_in(rows).contains(run_of(rows[k])));
        assert(runs.contains(run_of(rows[k])));
        let i = choose|i: int| 0 <= i < runs.len() && runs[i] == run_of(rows[k]);
        assert(run_of_invocation(grouped(rows)[i]) =~= runs[i]);
    }
}

/// Invocations run function by function, within a function phase by phase, within a phase by rank
/// with unranked runs first, and within a rank by first arrival.
pub proof fn law_invocations_follow_the_lifecycle(rows: Seq<RowView>)
    ensures
        forall|i: int, j: int|
            0 <= i < j < grouped(rows).len() ==> {
                let a = run_of_invocation(#[trigger] grouped(rows)[i]);
                let b = run_of_invocation(#[trigger] grouped(rows)[j]);
                &&& !run_before(b, a)
                &&& run_before(a, b) || crate::order::arrives_ahead(runs_in(rows), a, b)
            },
{
    lemma_orders();
    let runs = ordered_runs(rows);
    crate::order::law_an_arrangement_is_a_stable_permutation(runs_in(rows), run_order());
    crate::order::law_an_arrangement_stands_in_order(runs_in(rows), run_order());
    assert forall|i: int, j: int| 0 <= i < j < grouped(rows).len() implies {
        let a = run_of_invocation(#[trigger] grouped(rows)[i]);
        let b = run_of_invocation(#[trigger] grouped(rows)[j]);
        &&& !run_before(b, a)
        &&& run_before(a, b) || crate::order::arrives_ahead(runs_in(rows), a, b)
    } by {
        assert(run_of_invocation(grouped(rows)[i]) =~= runs[i]);
        assert(run_of_invocation(grouped(rows)[j]) =~= runs[j]);
        assert(!run_order()(runs[j], runs[i]));
        assert(run_order()(runs[i], runs[j]) || crate::order::arrives_ahead(
            runs_in(rows),
            runs[i],
            runs[j],
        ));
    }
}

/// The arguments of runs, one run behind the other.
pub open spec fn arguments_of_all(rows: Seq<RowView>, runs: Seq<RunKey>) -> Seq<RowView>
    decreases runs.len(),
{
    if runs.len() == 0 {
        Seq::<RowView>::empty()
    } else {
        arguments_of_all(rows, runs.drop_last()) + arguments_of(rows, runs.last())
    }
}

/// The rows in execution order.
pub open spec fn executed(rows: Seq<RowView>) -> Seq<RowView> {
    arguments_of_all(rows, ordered_runs(rows))
}

/// The arguments of all invocations, in order.
pub open spec fn all_args(invs: Seq<InvocationView>) -> Seq<Seq<char>>
    decreases invs.len(),
{
    if invs.len() == 0 {
        Seq::<Seq<char>>::empty()
    } else {
        all_args(invs.drop_last()) + invs.last().args
    }
}

proof fn lemma_rows_of_run(rows: Seq<RowView>, run: RunKey)
    ensures
        forall|row: RowView| #[trigger]
            rows_of_run(rows, run).to_multiset().count(row) == if run_of(row) == run {
                rows.to_multiset().count(row)
            } else {
                0
            },
    decreases rows.len(),
{
    broadcast use vstd::seq_lib::group_to_multiset_ensures;

    if rows.len() > 0 {
        let short = rows.drop_last();
        lemma_rows_of_run(short, run);
        assert(short.push(rows.last()) =~= rows);
        assert(rows.to_multiset() =~= short.to_multiset().insert(rows.last()));
        let before = rows_of_run(short, run);
        if run_of(rows.last()) == run {
            assert(rows_of_run(rows, run).to_multiset() =~= before.to_multiset().insert(
                rows.last(),
            ));
        }
        assert forall|row: RowView| #[trigger] rows_of_run(rows, run).to_multiset().count(row)
            == if run_of(row) == run {
            rows.to_multiset().count(row)
        } else {
            0
        } by {
            assert(before.to_multiset().count(row) == if run_of(row) == run {
                short.to_multiset().count(row)
            } else {
                0
            });
        }
    } else {
        assert(rows.to_multiset() =~= vstd::multiset::Multiset::<RowView>::empty());
    }
}

proof fn lemma_arguments_of_all(rows: Seq<RowView>, runs: Seq<RunKey>)
    requires
        runs.no_duplicates(),
    ensures
        forall|row: RowView| #[trigger]
            arguments_of_all(rows, runs).to_multiset().count(row) == if runs.contains(
                run_of(row),
            ) {
                rows.to_multiset().count(row)
            } else {
                0
            },
    decreases runs.len(),
{
    broadcast use vstd::seq_lib::group_to_multiset_ensures;

    if runs.len() > 0 {
        let front = runs.drop_last();
        let last = runs.last();
        lemma_arguments_of_all(rows, front);
        lemma_rows_of_run(rows, last);
        crate::order::law_an_arrangement_is_a_stable_permutation(
            rows_of_run(rows, last),
            argument_order(),
        );
        let x = arguments_of_all(rows, front);
        let y = arguments_of(rows, last);
        vstd::seq_lib::lemma_multiset_commutative(x, y);
        assert forall|row: RowView| #[trigger] (x + y).to_multiset().count(row) == if runs.contains(
            run_of(row),
        ) {
            rows.to_multiset().count(row)
        } else {
            0
        } by {
            assert((x + y).to_multiset().count(row) == x.to_multiset().count(row)
                + y.to_multiset().count(row));
            let run = run_of(row);
            if front.contains(run) {
                let k = choose|k: int| 0 <= k < front.len() && front[k] == run;
                assert(runs[k] == run);
                assert(runs[runs.len() - 1] != run);
            } else if runs.contains(run) {
                let k = choose|k: int| 0 <= k < runs.len() && runs[k] == run;
                assert(k == runs.len() - 1) by {
                    if k < front.len() {
                        assert(front[k] == run);
                    }
                }
            } else {
                assert(runs[runs.len() - 1] != run);
            }
        }
    }
}

proof fn lemma_all_args(rows: Seq<RowView>, n: int)
    requires
        0 <= n <= grouped(rows).len(),
    ensures
        all_args(grouped(rows).take(n)) == all_values(
            arguments_of_all(rows, ordered_runs(rows).take(n)),
        ),
    decreases n,
{
    let invs = grouped(rows).take(n);
    let runs = ordered_runs(rows).take(n);
    if n == 0 {
        assert(all_args(invs) =~= all_values(arguments_of_all(rows, runs)));
    } else {
        lemma_all_args(rows, n - 1);
        assert(invs.drop_last() =~= grouped(rows).take(n - 1));
        assert(runs.drop_last() =~= ordered_runs(rows).take(n - 1));
        assert(all_args(invs) =~= all_values(arguments_of_all(rows, runs)));
    }
}

/// No argument is lost, invented or moved to another run: the invocations' arguments, one after
/// the other, are the values of the rows in execution order, which are all the rows; and no
/// invocation is without arguments.
pub proof fn law_every_row_is_one_argument(rows: Seq<RowView>)
    ensures
        all_args(grouped(rows)) == all_values(executed(rows)),
        executed(rows).to_multiset() == rows.to_multiset(),
        forall|i: int|
            0 <= i < grouped(rows).len() ==> (#[trigger] grouped(rows)[i]).args.len() > 0,
{
    broadcast use vstd::seq_lib::group_to_multiset_ensures;

    let runs = ordered_runs(rows);
    lemma_runs(rows);
    lemma_ordered_runs(rows);
    lemma_arguments_of_all(rows, runs);
    lemma_all_args(rows, runs.len() as int);
    assert(grouped(rows).take(runs.len() as int) =~= grouped(rows));
    assert(runs.take(runs.len() as int) =~= runs);
    assert forall|row: RowView| #[trigger] executed(rows).to_multiset().count(row)
        == rows.to_multiset().count(row) by {
        if rows.to_multiset().count(row) > 0 {
            assert(rows.contains(row));
            let k = choose|k: int| 0 <= k < rows.len() && rows[k] == row;
            assert(runs_in(rows).contains(run_of(rows[k])));
            assert(runs.contains(run_of(row)));
        }
    }
    assert(executed(rows).to_multiset() =~= rows.to_multiset());
    assert forall|i: int| 0 <= i < grouped(rows).len() implies (#[trigger] grouped(
        rows,
    )[i]).args.len() > 0 by {
        let run = runs[i];
        assert(runs.contains(run));
        assert(runs_in(rows).contains(run));
        let k = choose|k: int| 0 <= k < rows.len() && run_of(#[trigger] rows[k]) == run;
        lemma_rows_of_run(rows, run);
        assert(rows.contains(rows[k]));
        assert(rows_of_run(rows, run).to_multiset().count(rows[k]) > 0);
        assert(rows_of_run(rows, run).contains(rows[k]));
        crate::order::law_an_arrangement_is_a_stable_permutation(
            rows_of_run(rows, run),
            argument_order(),
        );
    }
}

/// Whether nothing is left to the order of arrival: rows of one function, phase and rank are of
/// one job, and stand at different positions.
pub open spec fn settled(rows: Seq<RowView>) -> bool {
    forall|i: int, j: int|
        0 <= i < j < rows.len() && (#[trigger] rows[i]).function_id == (
        #[trigger] rows[j]).function_id && rows[i].phase == rows[j].phase && rows[i].rank
            == rows[j].rank ==> rows[i].job == rows[j].job && rows[i].position != rows[j].position
}

proof fn lemma_rows_of_run_settled(rows: Seq<RowView>, run: RunKey)
    requires
        settled(rows),
    ensures
        crate::order::tie_free(rows_of_run(rows, run), argument_order()),
        forall|k: int|
            0 <= k < rows_of_run(rows, run).len() ==> exists|i: int|
                0 <= i < rows.len() && #[trigger] rows[i] == #[trigger] rows_of_run(rows, run)[k]
                    && run_of(rows[i]) == run,
    decreases rows.len(),
{
    if rows.len() > 0 {
        let short = rows.drop_last();
        assert forall|i: int, j: int|
            0 <= i < j < short.len() && (#[trigger] short[i]).function_id == (
            #[trigger] short[j]).function_id && short[i].phase == short[j].phase && short[i].rank
                == short[j].rank implies short[i].job == short[j].job && short[i].position
            != short[j].position by {
            assert(short[i] == rows[i] && short[j] == rows[j]);
        }
        lemma_rows_of_run_settled(short, run);
        let before = rows_of_run(short, run);
        let after = rows_of_run(rows, run);
        let n = rows.len() - 1;
        assert forall|k: int| 0 <= k < after.len() implies exists|i: int|
            0 <= i < rows.len() && #[trigger] rows[i] == #[trigger] after[k] && run_of(rows[i])
                == run by {
            if k < before.len() {
                assert(after[k] == before[k]);
                let i = choose|i: int|
                    0 <= i < short.len() && #[trigger] short[i] == before[k] && run_of(short[i])
                        == run;
                assert(rows[i] == after[k]);
            } else {
                assert(rows[n] == after[k]);
            }
        }
        assert forall|i: int, j: int| 0 <= i < j < after.len() implies argument_order()(
            #[trigger] after[i],
            #[trigger] after[j],
        ) || argument_order()(after[j], after[i]) by {
            assert(after[i] == before[i]);
            if j < before.len() {
                assert(after[j] == before[j]);
                assert(argument_order()(before[i], before[j]) || argument_order()(
                    before[j],
                    before[i],
                ));
            } else {
                let k = choose|k: int|
                    0 <= k < short.len() && #[trigger] short[k] == before[i] && run_of(short[k])
                        == run;
                assert(rows[k] == short[k] && rows[n] == after[j]);
                assert(rows[k].position != rows[n].position);
            }
        }
    }
}

proof fn lemma_runs_settled(rows: Seq<RowView>)
    requires
        settled(rows),
    ensures
        crate::order::tie_free(runs_in(rows), run_order()),
{
    lemma_runs(rows);
    let runs = runs_in(rows);
    assert forall|i: int, j: int| 0 <= i < j < runs.len() implies run_order()(
        #[trigger] runs[i],
        #[trigger] runs[j],
    ) || run_order()(runs[j], runs[i]) by {
        assert(runs.contains(runs[i]) && runs.contains(runs[j]));
        let a = choose|a: int| 0 <= a < rows.len() && run_of(#[trigger] rows[a]) == runs[i];
        let b = choose|b: int| 0 <= b < rows.len() && run_of(#[trigger] rows[b]) == runs[j];
        assert(runs[i] != runs[j]);
        if !run_before(runs[i], runs[j]) && !run_before(runs[j], runs[i]) {
            if a < b {
                assert(rows[a].job == rows[b].job);
            } else {
                assert(rows[b].job == rows[a].job);
            }
            assert(runs[i] =~= runs[j]);
        }
    }
}

/// Rows may come in any order: where nothing is left to the order of arrival, shuffled rows give
/// the same invocations.
pub proof fn law_shuffled_rows_give_the_same_invocations(rows: Seq<RowView>, shuffled: Seq<RowView>)
    requires
        settled(rows),
        shuffled.to_multiset() == rows.to_multiset(),
    ensures
        grouped(shuffled) == grouped(rows),
{
    broadcast use vstd::seq_lib::group_to_multiset_ensures;

    lemma_orders();
    lemma_runs(rows);
    lemma_runs(shuffled);
    lemma_runs_settled(rows);
    let (a, b) = (runs_in(rows), runs_in(shuffled));
    assert forall|row: RowView| #[trigger] rows.contains(row) <==> shuffled.contains(row) by {
        assert(rows.contains(row) <==> rows.to_multiset().count(row) > 0);
        assert(shuffled.contains(row) <==> shuffled.to_multiset().count(row) > 0);
    }
    assert forall|run: RunKey| #[trigger] a.contains(run) <==> b.contains(run) by {
        if a.contains(run) {
            let k = choose|k: int| 0 <= k < rows.len() && run_of(#[trigger] rows[k]) == run;
            assert(rows.contains(rows[k]));
            assert(shuffled.contains(rows[k]));
            let m = choose|m: int| 0 <= m < shuffled.len() && shuffled[m] == rows[k];
            assert(run_of(shuffled[m]) == run);
        }
        if b.contains(run) {
            let m = choose|m: int| 0 <= m < shuffled.len() && run_of(#[trigger] shuffled[m]) == run;
            assert(shuffled.contains(shuffled[m]));
            assert(rows.contains(shuffled[m]));
            let k = choose|k: int| 0 <= k < rows.len() && rows[k] == shuffled[m];
            assert(run_of(rows[k]) == run);
        }
    }
    a.lemma_multiset_has_no_duplicates();
    b.lemma_multiset_has_no_duplicates();
    assert forall|run: RunKey| #[trigger] a.to_multiset().count(run) == b.to_multiset().count(
        run,
    ) by {
        assert(a.contains(run) <==> a.to_multiset().count(run) > 0);
        assert(b.contains(run) <==> b.to_multiset().count(run) > 0);
        if a.contains(run) {
            assert(a.to_multiset().contains(run) && b.to_multiset().contains(run));
        }
    }
    assert(a.to_multiset() =~= b.to_multiset());
    crate::order::law_arrival_decides_ties_only(a, b, run_order());
    assert forall|run: RunKey| arguments_of(rows, run) == #[trigger] arguments_of(shuffled, run) by {
        lemma_rows_of_run(rows, run);
        lemma_rows_of_run(shuffled, run);
        lemma_rows_of_run_settled(rows, run);
        let (x, y) = (rows_of_run(rows, run), rows_of_run(shuffled, run));
        assert(x.to_multiset() =~= y.to_multiset());
        crate::order::law_arrival_decides_ties_only(x, y, argument_order());
    }
    assert(grouped(shuffled) =~= grouped(rows));
}

/// What a row's value contributes.
fn value_of(row: &JobParameterEntry) -> (r: String)
    ensures
        r@ == row_of(*row).value,
{
    match &row.value {
        Some(v) => v.clone(),
        None => {
            let empty = String::new();
            assert(empty@ =~= Seq::<char>::empty());
            empty
        },
    }
}

/// The title of a row.
fn title_of(row: &JobParameterEntry) -> (r: Option<String>)
    ensures
        crate::text::opt_view(r) == row_title(*row),
{
    match prefer(&row.function_en, &row.function_de) {
        Some(t) => {
            let trimmed = trim_text(t.as_str());
            if trimmed.as_str().is_empty() {
                None
            } else {
                Some(trimmed)
            }
        },
        None => None,
    }
}

/// The phase of a row.
fn phase_of(row: &JobParameterEntry) -> (r: Phase)
    ensures
        r == row_of(*row).phase,
{
    match &row.phase {
        Some(t) => Phase::from_catalog(Some(t.as_str())),
        None => Phase::from_catalog(None),
    }
}

/// Whether rank `a` comes strictly before rank `b`.
fn rank_precedes(a: Option<i64>, b: Option<i64>) -> (r: bool)
    ensures
        r == rank_before(a, b),
{
    match (a, b) {
        (None, Some(_)) => true,
        (Some(x), Some(y)) => x < y,
        _ => false,
    }
}

/// Whether the run of `a` comes strictly before that of `b`.
fn runs_before(a: &JobParameterEntry, b: &JobParameterEntry) -> (r: bool)
    ensures
        r == run_before(run_of(row_of(*a)), run_of(row_of(*b))),
{
    if a.function_id != b.function_id {
        return a.function_id < b.function_id;
    }
    let pa = phase_of(a);
    let pb = phase_of(b);
    if pa.order() != pb.order() {
        return pa.order() < pb.order();
    }
    rank_precedes(a.rank, b.rank)
}

/// Whether `a` and `b` are arguments of one run.
fn same_run(a: &JobParameterEntry, b: &JobParameterEntry) -> (r: bool)
    ensures
        r == (run_of(row_of(*a)) == run_of(row_of(*b))),
{
    let r = a.function_id == b.function_id && phase_of(a) == phase_of(b) && a.rank == b.rank
        && same_text(a.job.as_str(), b.job.as_str());
    assert(r ==> run_of(row_of(*a)) =~= run_of(row_of(*b)));
    r
}

/// The rows that indices name.
pub open spec fn picked(rows: Seq<RowView>, order: Seq<usize>) -> Seq<RowView> {
    Seq::new(order.len(), |k: int| rows[order[k] as int])
}

/// The runs of the rows that indices name.
pub open spec fn picked_runs(rows: Seq<RowView>, order: Seq<usize>) -> Seq<RunKey> {
    Seq::new(order.len(), |k: int| run_of(rows[order[k] as int]))
}

/// Whether every index names one of `n` rows.
pub open spec fn indices(order: Seq<usize>, n: nat) -> bool {
    forall|k: int| 0 <= k < order.len() ==> (#[trigger] order[k]) < n
}

/// The first row of each run, in order of arrival.
fn first_rows(rows: &[JobParameterEntry]) -> (r: Vec<usize>)
    ensures
        indices(r@, rows@.len()),
        picked_runs(rows_of(rows@), r@) == runs_in(rows_of(rows@)),
{
    let ghost all = rows_of(rows@);
    let mut firsts: Vec<usize> = Vec::new();
    let mut i: usize = 0;
    assert(picked_runs(all, firsts@) =~= runs_in(all.take(0)));
    while i < rows.len()
        invariant
            i <= rows.len(),
            all == rows_of(rows@),
            indices(firsts@, rows@.len()),
            picked_runs(all, firsts@) == runs_in(all.take(i as int)),
        decreases rows.len() - i,
    {
        let ghost before = picked_runs(all, firsts@);
        let ghost run = run_of(all[i as int]);
        let mut k: usize = 0;
        while k < firsts.len() && !same_run(&rows[firsts[k]], &rows[i])
            invariant
                k <= firsts.len(),
                i < rows.len(),
                all == rows_of(rows@),
                indices(firsts@, rows@.len()),
                before == picked_runs(all, firsts@),
                run == run_of(all[i as int]),
                forall|j: int| 0 <= j < k ==> #[trigger] before[j] != run,
            decreases firsts.len() - k,
        {
            assert(before[k as int] != run);
            k = k + 1;
        }
        assert(all.take(i + 1).drop_last() =~= all.take(i as int));
        assert(all.take(i + 1).last() == all[i as int]);
        if k == firsts.len() {
            assert(!before.contains(run));
            firsts.push(i);
            assert(picked_runs(all, firsts@) =~= before.push(run));
        } else {
            assert(before[k as int] == run);
        }
        i = i + 1;
    }
    assert(all.take(i as int) =~= all);
    firsts
}

/// The first row of each run, in execution order.
fn execution_order(rows: &[JobParameterEntry]) -> (r: Vec<usize>)
    ensures
        indices(r@, rows@.len()),
        picked_runs(rows_of(rows@), r@) == ordered_runs(rows_of(rows@)),
{
    let ghost all = rows_of(rows@);
    let firsts = first_rows(rows);
    let ghost runs = picked_runs(all, firsts@);
    let mut order: Vec<usize> = Vec::new();
    let mut i: usize = 0;
    assert(picked_runs(all, order@) =~= crate::order::arranged(runs.take(0), run_order()));
    while i < firsts.len()
        invariant
            i <= firsts.len(),
            all == rows_of(rows@),
            runs == picked_runs(all, firsts@),
            indices(firsts@, rows@.len()),
            indices(order@, rows@.len()),
            picked_runs(all, order@) == crate::order::arranged(runs.take(i as int), run_order()),
        decreases firsts.len() - i,
    {
        let at: usize = firsts[i];
        let ghost sorted = picked_runs(all, order@);
        let ghost run = runs[i as int];
        let mut p: usize = order.len();
        while p > 0 && runs_before(&rows[at], &rows[order[p - 1]])
            invariant
                p <= order.len(),
                at < rows.len(),
                all == rows_of(rows@),
                indices(order@, rows@.len()),
                sorted == picked_runs(all, order@),
                run == run_of(all[at as int]),
                forall|k: int| p <= k < sorted.len() ==> run_order()(run, #[trigger] sorted[k]),
            decreases p,
        {
            assert(run_order()(run, sorted[p - 1]));
            p = p - 1;
        }
        let ghost before = order@;
        order.insert(p, at);
        proof {
            crate::order::lemma_put_in_at(sorted, run, run_order(), p as int);
            assert(picked_runs(all, order@) =~= sorted.insert(p as int, run));
            assert(runs.take(i + 1).drop_last() =~= runs.take(i as int));
        }
        i = i + 1;
    }
    assert(runs.take(i as int) =~= runs);
    order
}

/// The rows of the run that the row at `first` is of, in position order.
fn run_rows(rows: &[JobParameterEntry], first: usize) -> (r: Vec<usize>)
    requires
        first < rows@.len(),
    ensures
        indices(r@, rows@.len()),
        picked(rows_of(rows@), r@) == arguments_of(
            rows_of(rows@),
            run_of(rows_of(rows@)[first as int]),
        ),
{
    let ghost all = rows_of(rows@);
    let ghost run = run_of(all[first as int]);
    let mut order: Vec<usize> = Vec::new();
    let mut i: usize = 0;
    assert(picked(all, order@) =~= arguments_of(all.take(0), run));
    while i < rows.len()
        invariant
            i <= rows.len(),
            first < rows.len(),
            all == rows_of(rows@),
            run == run_of(all[first as int]),
            indices(order@, rows@.len()),
            picked(all, order@) == arguments_of(all.take(i as int), run),
        decreases rows.len() - i,
    {
        let ghost sorted = picked(all, order@);
        let ghost row = all[i as int];
        assert(all.take(i + 1).drop_last() =~= all.take(i as int));
        assert(all.take(i + 1).last() == row);
        if same_run(&rows[i], &rows[first]) {
            let mut p: usize = order.len();
            while p > 0 && rows[i].position < rows[order[p - 1]].position
                invariant
                    p <= order.len(),
                    i < rows.len(),
                    all == rows_of(rows@),
                    indices(order@, rows@.len()),
                    sorted == picked(all, order@),
                    row == all[i as int],
                    forall|k: int|
                        p <= k < sorted.len() ==> argument_order()(row, #[trigger] sorted[k]),
                decreases p,
            {
                assert(argument_order()(row, sorted[p - 1]));
                p = p - 1;
            }
            order.insert(p, i);
            proof {
                crate::order::lemma_put_in_at(sorted, row, argument_order(), p as int);
                assert(picked(all, order@) =~= sorted.insert(p as int, row));
                let earlier = rows_of_run(all.take(i as int), run);
                assert(earlier.push(row).drop_last() =~= earlier);
            }
        }
        i = i + 1;
    }
    assert(all.take(i as int) =~= all);
    order
}

/// The invocation of the run that the row at `first` is of.
fn run_invocation(rows: &[JobParameterEntry], first: usize) -> (r: Invocation)
    requires
        first < rows@.len(),
    ensures
        r@ == invocation_of(rows_of(rows@), run_of(rows_of(rows@)[first as int])),
{
    let ghost all = rows_of(rows@);
    let order = run_rows(rows, first);
    let ghost own = picked(all, order@);
    let mut title: Option<String> = None;
    let mut args: Vec<String> = Vec::new();
    let mut i: usize = 0;
    assert(crate::text::text_views(args@) =~= all_values(own.take(0)));
    while i < order.len()
        invariant
            i <= order.len(),
            all == rows_of(rows@),
            indices(order@, rows@.len()),
            own == picked(all, order@),
            crate::text::opt_view(title) == first_title(own.take(i as int)),
            crate::text::text_views(args@) == all_values(own.take(i as int)),
        decreases order.len() - i,
    {
        let row = &rows[order[i]];
        let ghost before = crate::text::text_views(args@);
        assert(own.take(i + 1).drop_last() =~= own.take(i as int));
        assert(own.take(i + 1).last() == row_of(*row));
        args.push(value_of(row));
        assert(crate::text::text_views(args@) =~= before.push(row_of(*row).value));
        assert(all_values(own.take(i + 1)) =~= before.push(row_of(*row).value));
        if title.is_none() {
            title = title_of(row);
        }
        i = i + 1;
    }
    assert(own.take(i as int) =~= own);
    let row = &rows[first];
    Invocation {
        function_id: row.function_id,
        title,
        phase: phase_of(row),
        job: row.job.clone(),
        rank: row.rank,
        args,
    }
}

/// Group catalog rows into invocations, one per function, phase, job and rank.
///
/// A phase is an ordered list of jobs, so a phase that runs two jobs, or the same job at two
/// ranks, becomes two ordered invocations here rather than one coalesced buffer. Within a
/// function the order is phase, then rank (unranked first), then the job's first arrival; within
/// an invocation the arguments stand by position, then arrival. Rows may come in any order.
pub fn invocations(rows: &[JobParameterEntry]) -> (r: Vec<Invocation>)
    ensures
        invocations_view(r@) == invocations_of(rows@),
{
    let order = execution_order(rows);
    let ghost all = rows_of(rows@);
    let mut out: Vec<Invocation> = Vec::new();
    let mut i: usize = 0;
    while i < order.len()
        invariant
            i <= order.len(),
            all == rows_of(rows@),
            indices(order@, rows@.len()),
            picked_runs(all, order@) == ordered_runs(all),
            invocations_view(out@) == grouped(all).take(i as int),
        decreases order.len() - i,
    {
        let ghost before = invocations_view(out@);
        let inv = run_invocation(rows, order[i]);
        assert(ordered_runs(all)[i as int] == picked_runs(all, order@)[i as int]);
        let ghost done = inv@;
        out.push(inv);
        assert(invocations_view(out@) =~= before.push(done));
        assert(grouped(all).take(i + 1) =~= before.push(done));
        i = i + 1;
    }
    assert(grouped(all).take(i as int) =~= grouped(all));
    out
}

/// The distinct function ids present in `invocations`, ascending.
///
/// One job name commonly carries several functions, so a caller must choose which one to run;
/// this enumerates the choices on offer.
pub fn function_ids(invocations: &[Invocation]) -> (r: Vec<i64>)
    ensures
        forall|i: int, j: int| 0 <= i < j < r@.len() ==> r@[i] < r@[j],
        forall|id: i64| #[trigger]
            r@.contains(id) <==> exists|k: int|
                0 <= k < invocations@.len() && (#[trigger] invocations@[k]).function_id == id,
{
    let mut out: Vec<i64> = Vec::new();
    let mut i: usize = 0;
    while i < invocations.len()
        invariant
            i <= invocations.len(),
            forall|a: int, b: int| 0 <= a < b < out@.len() ==> out@[a] < out@[b],
            forall|id: i64| #[trigger]
                out@.contains(id) <==> exists|k: int|
                    0 <= k < i && (#[trigger] invocations@[k]).function_id == id,
        decreases invocations.len() - i,
    {
        let id: i64 = invocations[i].function_id;
        let mut p: usize = 0;
        while p < out.len() && out[p] < id
            invariant
                p <= out.len(),
                forall|k: int| 0 <= k < p ==> #[trigger] out@[k] < id,
            decreases out.len() - p,
        {
            p = p + 1;
        }
        let ghost before = out@;
        if p == out.len() || out[p] != id {
            out.insert(p, id);
            proof {
                assert(out@ == before.insert(p as int, id));
                assert forall|x: i64| #[trigger] out@.contains(x) <==> (before.contains(x) || x
                    == id) by {
                    if before.contains(x) {
                        let k = choose|k: int| 0 <= k < before.len() && before[k] == x;
                        if k < p {
                            assert(out@[k] == x);
                        } else {
                            assert(out@[k + 1] == x);
                        }
                    }
                    if x == id {
                        assert(out@[p as int] == x);
                    }
                    if out@.contains(x) {
                        let k = choose|k: int| 0 <= k < out@.len() && out@[k] == x;
                        if k < p {
                            assert(before[k] == x);
                        } else if k > p {
                            assert(before[k - 1] == x);
                        }
                    }
                }
            }
        } else {
            assert(before[p as int] == id);
            assert(before.contains(id));
        }
        assert forall|x: i64| #[trigger] out@.contains(x) <==> exists|k: int|
            0 <= k < i + 1 && (#[trigger] invocations@[k]).function_id == x by {
            if before.contains(x) {
                let k = choose|k: int|
                    0 <= k < i && (#[trigger] invocations@[k]).function_id == x;
                assert(invocations@[k].function_id == x);
            }
            if x == id {
                assert(invocations@[i as int].function_id == x);
            }
            if out@.contains(x) && !before.contains(x) {
                assert(x == id);
            }
            if exists|k: int| 0 <= k < i + 1 && (#[trigger] invocations@[k]).function_id == x {
                let k = choose|k: int|
                    0 <= k < i + 1 && (#[trigger] invocations@[k]).function_id == x;
                if k < i {
                    assert(invocations@[k].function_id == x);
                    assert(before.contains(x));
                }
            }
        }
        i = i + 1;
    }
    out
}

// ---------------------------------------------------------------------------
// What the grouping amounts to
// ---------------------------------------------------------------------------

/// A row stands for what its columns say: its function, rank, position and job as they are, its
/// value or an empty one, its phase by the name of it, with the action itself for anything but
/// `Preset` and `Reset`, and the English title where there is one, else the German.
pub proof fn law_a_row_is_what_its_columns_say(row: JobParameterEntry)
    ensures
        row_of(row).function_id == row.function_id,
        row_of(row).rank == row.rank,
        row_of(row).position == row.position,
        row_of(row).job == row.job@,
        row.value matches Some(v) ==> row_of(row).value == v@,
        row.value is None ==> row_of(row).value.len() == 0,
        row_of(row).phase == Phase::Preset <==> (row.phase matches Some(p) && p@ == "Preset"@),
        row_of(row).phase == Phase::Reset <==> (row.phase matches Some(p) && p@ == "Reset"@),
        row.function_en matches Some(t) ==> row_of(row).title == (if crate::text::trimmed(t@).len()
            > 0 {
            Some(crate::text::trimmed(t@))
        } else {
            None
        }),
        row.function_en is None ==> (row.function_de matches Some(t) ==> row_of(row).title == (
        if crate::text::trimmed(t@).len() > 0 {
            Some(crate::text::trimmed(t@))
        } else {
            None
        })),
        row.function_en is None && row.function_de is None ==> row_of(row).title is None,
{
    reveal_strlit("Preset");
    reveal_strlit("Reset");
    assert("Preset"@.len() != "Reset"@.len());
}

/// Whether rows are of one run.
pub open spec fn of_one_run(row: RowView, inv: InvocationView) -> bool {
    row.function_id == inv.function_id && row.phase == inv.phase && row.rank == inv.rank && row.job
        == inv.job
}

proof fn lemma_own_rows(rows: Seq<RowView>, inv: InvocationView)
    ensures
        rows_of_run(rows, run_of_invocation(inv)) == rows.filter(
            |row: RowView| of_one_run(row, inv),
        ),
    decreases rows.len(),
{
    reveal(Seq::filter);
    if rows.len() > 0 {
        lemma_own_rows(rows.drop_last(), inv);
        let last = rows.last();
        assert(run_of(last) == run_of_invocation(inv) <==> of_one_run(last, inv));
    }
}

proof fn lemma_arguments(rows: Seq<RowView>, run: RunKey)
    ensures
        arguments_of(rows, run).to_multiset() == rows_of_run(rows, run).to_multiset(),
        forall|a: int, b: int|
            0 <= a < b < arguments_of(rows, run).len() ==> (#[trigger] arguments_of(
                rows,
                run,
            )[a]).position <= (#[trigger] arguments_of(rows, run)[b]).position,
{
    lemma_orders();
    let own = arguments_of(rows, run);
    crate::order::law_an_arrangement_is_a_stable_permutation(
        rows_of_run(rows, run),
        argument_order(),
    );
    crate::order::law_an_arrangement_stands_in_order(rows_of_run(rows, run), argument_order());
    assert forall|a: int, b: int| 0 <= a < b < own.len() implies (#[trigger] own[a]).position <= (
    #[trigger] own[b]).position by {
        assert(!argument_order()(own[b], own[a]));
    }
}

/// The arguments of an invocation are the values of the rows of its function, phase, rank and job,
/// all of them and no others, from the lowest position to the highest.
pub proof fn law_an_invocation_takes_its_own_rows_by_position(rows: Seq<RowView>, i: int)
    requires
        0 <= i < grouped(rows).len(),
    ensures
        ({
            let inv = grouped(rows)[i];
            let own = arguments_of(rows, run_of_invocation(inv));
            &&& own.to_multiset() == rows.filter(
                |row: RowView| of_one_run(row, inv),
            ).to_multiset()
            &&& forall|a: int, b: int|
                0 <= a < b < own.len() ==> (#[trigger] own[a]).position <= (
                #[trigger] own[b]).position
            &&& inv.args.len() == own.len()
            &&& forall|k: int| 0 <= k < own.len() ==> #[trigger] inv.args[k] == own[k].value
        }),
{
    let inv = grouped(rows)[i];
    let run = run_of_invocation(inv);
    assert(run =~= ordered_runs(rows)[i]);
    lemma_own_rows(rows, inv);
    lemma_arguments(rows, run);
}

/// The title of an invocation is the first that its rows have.
pub proof fn law_an_invocation_has_the_first_title_of_its_rows(rows: Seq<RowView>, i: int)
    requires
        0 <= i < grouped(rows).len(),
    ensures
        ({
            let inv = grouped(rows)[i];
            let own = arguments_of(rows, run_of_invocation(inv));
            &&& (inv.title is None <==> forall|k: int|
                0 <= k < own.len() ==> (#[trigger] own[k]).title is None)
            &&& (inv.title is Some ==> exists|k: int|
                0 <= k < own.len() && (#[trigger] own[k]).title == inv.title && forall|j: int|
                    0 <= j < k ==> (#[trigger] own[j]).title is None)
        }),
{
    let inv = grouped(rows)[i];
    let run = run_of_invocation(inv);
    assert(run =~= ordered_runs(rows)[i]);
    lemma_first_title(arguments_of(rows, run));
}

proof fn lemma_first_title(rows: Seq<RowView>)
    ensures
        first_title(rows) is None <==> forall|k: int|
            0 <= k < rows.len() ==> (#[trigger] rows[k]).title is None,
        first_title(rows) is Some ==> exists|k: int|
            0 <= k < rows.len() && (#[trigger] rows[k]).title == first_title(rows) && forall|j: int|
                0 <= j < k ==> (#[trigger] rows[j]).title is None,
    decreases rows.len(),
{
    if rows.len() > 0 {
        let short = rows.drop_last();
        lemma_first_title(short);
        if first_title(short) is Some {
            let k = choose|k: int|
                0 <= k < short.len() && (#[trigger] short[k]).title == first_title(short)
                    && forall|j: int| 0 <= j < k ==> (#[trigger] short[j]).title is None;
            assert(rows[k] == short[k]);
            assert forall|j: int| 0 <= j < k implies (#[trigger] rows[j]).title is None by {
                assert(rows[j] == short[j]);
            }
        } else {
            assert forall|j: int| 0 <= j < rows.len() - 1 implies (#[trigger] rows[j]).title
                is None by {
                assert(rows[j] == short[j]);
            }
            assert(rows[rows.len() - 1] == rows.last());
        }
    }
}

/// Invocations ascend by function; within a function `Preset` comes first, then `Main`, then
/// `Reset`; within a phase unranked ones come first, and the ranks ascend.
pub proof fn law_invocations_ascend(rows: Seq<RowView>, i: int, j: int)
    requires
        0 <= i < j < grouped(rows).len(),
    ensures
        ({
            let a = grouped(rows)[i];
            let b = grouped(rows)[j];
            &&& a.function_id <= b.function_id
            &&& (a.function_id == b.function_id ==> {
                &&& (b.phase == Phase::Preset ==> a.phase == Phase::Preset)
                &&& (a.phase == Phase::Reset ==> b.phase == Phase::Reset)
                &&& (a.phase == b.phase ==> {
                    &&& (b.rank is None ==> a.rank is None)
                    &&& (a.rank is Some && b.rank is Some ==> a.rank->0 <= b.rank->0)
                })
            })
        }),
{
    law_invocations_follow_the_lifecycle(rows);
    let a = run_of_invocation(grouped(rows)[i]);
    let b = run_of_invocation(grouped(rows)[j]);
    assert(!run_before(b, a));
}

/// The buffer of an invocation is its arguments with a semicolon between neighbours: cut at the
/// semicolons it gives every argument back, in order.
pub proof fn law_a_buffer_holds_every_argument(inv: InvocationView)
    requires
        inv.args.len() > 0,
        forall|i: int| 0 <= i < inv.args.len() ==> !(#[trigger] inv.args[i]).contains(';'),
    ensures
        crate::text::split(buffer_of(inv), ';') == inv.args,
{
    crate::text::law_splitting_undoes_joining(inv.args, ';');
}

/// The model of a value says of each field what the field holds, and a list is modelled item by
/// item, in order.
pub proof fn law_a_model_shows_what_its_value_holds(
    invocation: Invocation,
    invocations: Seq<Invocation>,
)
    ensures
        invocation@.function_id == invocation.function_id,
        invocation@.title == crate::text::opt_view(invocation.title),
        invocation@.phase == invocation.phase,
        invocation@.job == invocation.job@,
        invocation@.rank == invocation.rank,
        invocation@.args == crate::text::text_views(invocation.args@),
        invocations_view(invocations).len() == invocations.len(),
        forall|i: int|
            0 <= i < invocations.len() ==> #[trigger] invocations_view(invocations)[i]
                == invocations[i]@,
{
}

} // verus!
