//! Runs batches: test executables that are ready to be started.
use crate::jobs::law_all_started;
use crate::jobs::law_started_at_most_all;
use crate::jobs::orderly;
use crate::jobs::report;
use crate::jobs::run;
use crate::jobs::told_to_stop;
use crate::jobs::JobEvent;
use crate::jobs::JobPhase;
use crate::model::TargetKind;
use crate::model::TestOptions;
use crate::process::displays_process;
use crate::process::process_display;
use crate::shell::actions_view;
use crate::shell::display_actions;
use crate::shell::displays_view;
use crate::shell::print_display;
use crate::shell::ShellAction;
use crate::shell::TestBatchDisplay;
use crate::shell::TestBatchDisplayView;
use cargo_util::ProcessBuilder;
use cargo_util::ProcessError;
use std::collections::VecDeque;
use vstd::prelude::*;

verus! {

/// How a batch is named in an error.
#[derive(Debug)]
pub struct TestBatchErrorDisplay {
    pub target_kind: TargetKind,
    pub target_name: String,
    pub pkg_name: String,
}

/// A test executable that is ready to be started.
#[derive(Debug)]
pub struct TestBatch {
    pub display: TestBatchDisplay,
    pub error_display: TestBatchErrorDisplay,
    pub cmd: ProcessBuilder,
}

/// A batch that failed, and how.
pub type Failure = (TestBatch, ProcessError);

/// How far a run in turn has come.
#[derive(Clone, Copy, Debug, PartialEq, Eq, Structural)]
pub enum TurnPhase {
    /// It has not begun.
    Idle,
    /// The first waiting batch is being announced.
    Announcing,
    /// The first waiting batch is running.
    Running,
    /// It is over.
    Returned,
}

/// Batches that run one after the other.
#[derive(Debug)]
pub struct SequentialRun {
    waiting: VecDeque<TestBatch>,
    errors: Vec<Failure>,
    phase: TurnPhase,
}

/// The state of a [`SequentialRun`].
pub struct SequentialRunView {
    /// The batches that have not run to their end; the first is the one to run.
    pub waiting: Seq<TestBatch>,
    /// Those that failed.
    pub errors: Seq<Failure>,
    pub phase: TurnPhase,
}

impl View for SequentialRun {
    type V = SequentialRunView;

    closed spec fn view(&self) -> SequentialRunView {
        SequentialRunView { waiting: self.waiting@, errors: self.errors@, phase: self.phase }
    }
}

/// What has happened in a run in turn.
#[derive(Debug)]
pub enum TurnEvent<E> {
    /// The run is to begin.
    Begin,
    /// The batch was announced, or could not be.
    Announced(Result<(), E>),
    /// The batch has run to its end.
    Ran(Result<(), ProcessError>),
}

/// What a run in turn is to have done.
#[derive(Debug)]
pub enum TurnAction<E> {
    /// Announce the first waiting batch.
    Announce(Vec<ShellAction>),
    /// Run the first waiting batch.
    Exec,
    /// The run is over: the batches that failed.
    Return(Result<Vec<Failure>, E>),
}

/// Batches that run side by side.
#[derive(Debug)]
pub struct ParallelRun {
    pub batches: Vec<TestBatch>,
    /// How the batches are announced, in order.
    pub exe_displays: Vec<TestBatchDisplay>,
    /// Start no more batches once one has failed.
    pub fail_fast: bool,
    /// The number of jobs. At most one more batch than that runs at a time.
    pub test_jobs: u32,
}

/// How a set of batches is run.
#[derive(Debug)]
pub enum BatchRun {
    Sequential(SequentialRun),
    Parallel(ParallelRun),
}

/// How the batches are announced.
pub open spec fn batch_displays(batches: Seq<TestBatch>) -> Seq<TestBatchDisplayView> {
    batches.map_values(|batch: TestBatch| batch.display@)
}

/// Batches run in turn where there is one job, else side by side.
pub fn run_test_batches(batches: Vec<TestBatch>, options: &TestOptions) -> (run: BatchRun)
    ensures
        match run {
            BatchRun::Sequential(run) => {
                &&& options.compile_opts.build_config.test_jobs == 1
                &&& run@ == nothing_run(batches@)
            },
            BatchRun::Parallel(run) => {
                &&& options.compile_opts.build_config.test_jobs != 1
                &&& run.batches == batches
                &&& displays_view(run.exe_displays@) == batch_displays(batches@)
                &&& run.fail_fast == !options.no_fail_fast
                &&& run.test_jobs == options.compile_opts.build_config.test_jobs
            },
        },
{
    let test_jobs: u32 = options.compile_opts.build_config.test_jobs;
    if test_jobs == 1 {
        BatchRun::Sequential(SequentialRun::new(batches))
    } else {
        let mut exe_displays: Vec<TestBatchDisplay> = Vec::new();
        let mut i: usize = 0;
        while i < batches.len()
            invariant
                i <= batches@.len(),
                exe_displays@.len() == i,
                forall|j: int|
                    0 <= j < i ==> (#[trigger] exe_displays@[j])@ == batches@[j].display@,
            decreases batches.len() - i,
        {
            exe_displays.push(batches[i].display.clone());
            i = i + 1;
        }
        assert(displays_view(exe_displays@) =~= batch_displays(batches@));
        BatchRun::Parallel(
            ParallelRun { batches, exe_displays, fail_fast: !options.no_fail_fast, test_jobs },
        )
    }
}

/// The state before anything has run.
pub open spec fn nothing_run(batches: Seq<TestBatch>) -> SequentialRunView {
    SequentialRunView { waiting: batches, errors: Seq::empty(), phase: TurnPhase::Idle }
}

/// The state after the first waiting batch has run to its end.
pub open spec fn finish(
    state: SequentialRunView,
    result: Result<(), ProcessError>,
) -> SequentialRunView {
    SequentialRunView {
        waiting: state.waiting.drop_first(),
        errors: match result {
            Ok(_) => state.errors,
            Err(e) => state.errors.push((state.waiting[0], e)),
        },
        ..state
    }
}

/// The event answers what the run has asked for.
pub open spec fn turn_fits<E>(state: SequentialRunView, event: TurnEvent<E>) -> bool {
    match event {
        TurnEvent::Begin => state.phase == TurnPhase::Idle,
        TurnEvent::Announced(_) => state.phase == TurnPhase::Announcing && state.waiting.len() > 0,
        TurnEvent::Ran(_) => state.phase == TurnPhase::Running && state.waiting.len() > 0,
    }
}

/// The batch is announced by its name where the shell is concise, by its command
/// line where it is verbose.
pub open spec fn announces(batch: TestBatch, actions: Seq<ShellAction>) -> bool {
    exists|cmd: String| #[trigger]
        displays_process(batch.cmd, cmd) && actions_view(actions) == running_actions(batch, cmd@)
}

/// The first waiting batch is announced, or the failures are told if none waits.
pub open spec fn next_turn<E>(
    state: SequentialRunView,
    next: SequentialRunView,
    action: TurnAction<E>,
) -> bool {
    if state.waiting.len() > 0 {
        &&& next == SequentialRunView { phase: TurnPhase::Announcing, ..state }
        &&& action matches TurnAction::Announce(actions)
        &&& announces(state.waiting[0], actions@)
    } else {
        &&& next == SequentialRunView {
            waiting: state.waiting,
            errors: Seq::empty(),
            phase: TurnPhase::Returned,
        }
        &&& action matches TurnAction::Return(Ok(errors))
        &&& errors@ == state.errors
    }
}

/// One step of a run in turn. A batch that cannot be announced ends the run with
/// that error: neither it nor a later one is run, and no failure is told.
pub open spec fn turn_step<E>(
    state: SequentialRunView,
    event: TurnEvent<E>,
    next: SequentialRunView,
    action: TurnAction<E>,
) -> bool {
    match event {
        TurnEvent::Begin => next_turn(state, next, action),
        TurnEvent::Announced(Err(e)) => {
            &&& next == SequentialRunView { phase: TurnPhase::Returned, ..state }
            &&& action == TurnAction::<E>::Return(Err(e))
        },
        TurnEvent::Announced(Ok(_)) => {
            &&& next == SequentialRunView { phase: TurnPhase::Running, ..state }
            &&& action == TurnAction::<E>::Exec
        },
        TurnEvent::Ran(result) => next_turn(finish(state, result), next, action),
    }
}

impl SequentialRun {
    /// Nothing has run yet.
    pub fn new(batches: Vec<TestBatch>) -> (run: SequentialRun)
        ensures
            run@ == nothing_run(batches@),
    {
        let ghost all = batches@;
        let mut batches = batches;
        let mut waiting: VecDeque<TestBatch> = VecDeque::new();
        while batches.len() > 0
            invariant
                all =~= batches@ + waiting@,
            decreases batches.len(),
        {
            if let Some(batch) = batches.pop() {
                waiting.push_front(batch);
            }
        }
        let run = SequentialRun { waiting, errors: Vec::new(), phase: TurnPhase::Idle };
        assert(run@.waiting =~= all);
        assert(run@.errors =~= Seq::empty());
        run
    }

    /// The batch to announce or to run, if one is left.
    pub fn next(&self) -> (batch: Option<&TestBatch>)
        ensures
            match batch {
                Some(batch) => self@.waiting.len() > 0 && *batch == self@.waiting[0],
                None => self@.waiting.len() == 0,
            },
    {
        if self.waiting.len() > 0 {
            Some(&self.waiting[0])
        } else {
            None
        }
    }

    /// Goes on with the next batch, or tells the failures.
    fn next_turn<E>(&mut self) -> (action: TurnAction<E>)
        ensures
            next_turn(old(self)@, final(self)@, action),
    {
        if self.waiting.len() > 0 {
            self.phase = TurnPhase::Announcing;
            TurnAction::Announce(print_batch(&self.waiting[0]))
        } else {
            self.phase = TurnPhase::Returned;
            let mut errors: Vec<Failure> = Vec::new();
            std::mem::swap(&mut errors, &mut self.errors);
            assert(self@.errors =~= Seq::empty());
            TurnAction::Return(Ok(errors))
        }
    }

    /// Runs the batches in turn: takes in what has happened, and says what is to be
    /// done.
    pub fn step<E>(&mut self, event: TurnEvent<E>) -> (action: TurnAction<E>)
        requires
            turn_fits(old(self)@, event),
        ensures
            turn_step(old(self)@, event, final(self)@, action),
    {
        match event {
            TurnEvent::Begin => self.next_turn(),
            TurnEvent::Announced(Err(e)) => {
                self.phase = TurnPhase::Returned;
                TurnAction::Return(Err(e))
            },
            TurnEvent::Announced(Ok(_)) => {
                self.phase = TurnPhase::Running;
                TurnAction::Exec
            },
            TurnEvent::Ran(result) => {
                if let Some(batch) = self.waiting.pop_front() {
                    if let Err(e) = result {
                        self.errors.push((batch, e));
                    }
                }
                assert(self@.waiting =~= old(self)@.waiting.drop_first());
                self.next_turn()
            },
        }
    }
}

/// How a batch that runs by itself is announced, given its command line.
pub open spec fn running_actions(batch: TestBatch, cmd: Seq<char>) -> Seq<
    crate::shell::ShellActionView,
> {
    display_actions(
        TestBatchDisplayView {
            exe_display: batch.display.exe_display@,
            cmd_display: Some(cmd),
        },
    )
}

/// Announces a batch that runs by itself: its name where the shell is concise,
/// the given command line where it is verbose.
pub fn print_running(batch: &TestBatch, cmd: String) -> (actions: Vec<ShellAction>)
    ensures
        actions_view(actions@) == running_actions(*batch, cmd@),
{
    let display = TestBatchDisplay {
        exe_display: batch.display.exe_display.clone(),
        cmd_display: Some(cmd),
    };
    print_display(&display)
}

/// Announces a batch that runs by itself, with its own command line.
pub fn print_batch(batch: &TestBatch) -> (actions: Vec<ShellAction>)
    ensures
        announces(*batch, actions@),
{
    let cmd = process_display(&batch.cmd);
    let ghost shown = cmd;
    let actions = print_running(batch, cmd);
    assert(displays_process(batch.cmd, shown));
    actions
}

/// The errors among the results, in order.
pub open spec fn errors_of<T>(results: Seq<Result<(), T>>) -> Seq<T>
    decreases results.len(),
{
    if results.len() == 0 {
        Seq::empty()
    } else {
        let before = errors_of(results.drop_last());
        match results.last() {
            Ok(_) => before,
            Err(e) => before.push(e),
        }
    }
}

/// The batches that failed, in the order in which they were started.
pub fn capture_errors(results: Vec<Result<(), Failure>>) -> (errors: Vec<Failure>)
    ensures
        errors@ == errors_of(results@),
{
    let ghost all = results@;
    let mut errors: Vec<Failure> = Vec::new();
    for result in iter: results
        invariant
            iter.seq() == all,
            errors@ == errors_of(all.take(iter.index())),
    {
        assert(all.take(iter.index() + 1).drop_last() =~= all.take(iter.index()));
        if let Err(error) = result {
            errors.push(error);
        }
    }
    assert(all.take(all.len() as int) =~= all);
    errors
}

/// Each result with the batch that it belongs to.
pub open spec fn paired(
    batches: Seq<TestBatch>,
    results: Seq<Result<(), ProcessError>>,
) -> Seq<Result<(), Failure>> {
    Seq::new(
        results.len(),
        |i: int|
            match results[i] {
                Ok(_) => Ok(()),
                Err(e) => Err((batches[i], e)),
            },
    )
}

/// What waits and what has failed in a run in turn after the given results.
pub open spec fn run_in_turn(
    batches: Seq<TestBatch>,
    results: Seq<Result<(), ProcessError>>,
) -> SequentialRunView
    decreases results.len(),
{
    if results.len() == 0 {
        nothing_run(batches)
    } else {
        finish(run_in_turn(batches, results.drop_last()), results.last())
    }
}

/// Where batches run in turn, each of them runs, whether others failed or not.
/// The failures are told in the order of the batches, as they are of batches that
/// run side by side and are all started.
pub proof fn law_all_run_in_turn(
    batches: Seq<TestBatch>,
    results: Seq<Result<(), ProcessError>>,
)
    requires
        results.len() <= batches.len(),
    ensures
        run_in_turn(batches, results).waiting == batches.skip(results.len() as int),
        run_in_turn(batches, results).errors == errors_of(paired(batches, results)),
    decreases results.len(),
{
    if results.len() > 0 {
        let past = results.drop_last();
        law_all_run_in_turn(batches, past);
        assert(paired(batches, results).drop_last() =~= paired(batches, past));
        assert(batches.skip(past.len() as int)[0] == batches[past.len() as int]);
        assert(batches.skip(past.len() as int).drop_first() =~= batches.skip(
            results.len() as int,
        ));
    } else {
        assert(batches.skip(0) =~= batches);
    }
}

/// A run in turn, step by step: what each batch's announcement came to in the
/// state and what was to be done, and what its execution came to.
pub open spec fn is_turn_run<E>(
    batches: Seq<TestBatch>,
    results: Seq<Result<(), ProcessError>>,
    turns: Seq<(SequentialRunView, TurnAction<E>)>,
    execs: Seq<(SequentialRunView, TurnAction<E>)>,
) -> bool {
    &&& turns.len() == results.len() + 1
    &&& execs.len() == results.len()
    &&& turn_step(nothing_run(batches), TurnEvent::<E>::Begin, turns[0].0, turns[0].1)
    &&& forall|k: int|
        #![trigger results[k]]
        0 <= k < results.len() ==> {
            &&& turn_step(
                turns[k].0,
                TurnEvent::<E>::Announced(Ok(())),
                execs[k].0,
                execs[k].1,
            )
            &&& turn_step(
                execs[k].0,
                TurnEvent::<E>::Ran(results[k]),
                turns[k + 1].0,
                turns[k + 1].1,
            )
        }
}

/// What waits and what has failed when the announcement of a batch is asked for.
proof fn lemma_turn<E>(
    batches: Seq<TestBatch>,
    results: Seq<Result<(), ProcessError>>,
    turns: Seq<(SequentialRunView, TurnAction<E>)>,
    execs: Seq<(SequentialRunView, TurnAction<E>)>,
    k: int,
)
    requires
        is_turn_run(batches, results, turns, execs),
        0 <= k <= results.len() <= batches.len(),
    ensures
        exists|before: SequentialRunView|
            {
                &&& before.waiting == batches.skip(k)
                &&& before.errors == errors_of(paired(batches, results.take(k)))
                &&& #[trigger] next_turn(before, turns[k].0, turns[k].1)
            },
    decreases k,
{
    law_all_run_in_turn(batches, results.take(k));
    if k == 0 {
        assert(results.take(0) =~= Seq::empty());
        assert(next_turn(nothing_run(batches), turns[0].0, turns[0].1));
    } else {
        lemma_turn(batches, results, turns, execs, k - 1);
        law_all_run_in_turn(batches, results.take(k - 1));
        assert(results.take(k).drop_last() =~= results.take(k - 1));
        assert(results.take(k).last() == results[k - 1]);
        assert(next_turn(finish(execs[k - 1].0, results[k - 1]), turns[k].0, turns[k].1));
    }
}

/// Batches in turn are each announced and then run, in order, whether others
/// failed or not; after the last one the failures are told, in the order of the
/// batches.
pub proof fn law_turns<E>(
    batches: Seq<TestBatch>,
    results: Seq<Result<(), ProcessError>>,
    turns: Seq<(SequentialRunView, TurnAction<E>)>,
    execs: Seq<(SequentialRunView, TurnAction<E>)>,
)
    requires
        is_turn_run(batches, results, turns, execs),
        results.len() <= batches.len(),
    ensures
        forall|k: int|
            0 <= k < turns.len() && k < batches.len() ==> ((
            #[trigger] turns[k]).1 matches TurnAction::Announce(actions) && announces(
                batches[k],
                actions@,
            )),
        forall|k: int|
            0 <= k < execs.len() ==> (#[trigger] execs[k]).1 is Exec && execs[k].0.waiting
                == batches.skip(k),
        results.len() == batches.len() ==> (turns.last().1 matches TurnAction::Return(Ok(errors))
            && errors@ == errors_of(paired(batches, results))),
{
    assert forall|k: int| 0 <= k < turns.len() && k < batches.len() implies ((
    #[trigger] turns[k]).1 matches TurnAction::Announce(actions) && announces(
        batches[k],
        actions@,
    )) by {
        lemma_turn(batches, results, turns, execs, k);
        assert(batches.skip(k)[0] == batches[k]);
    }
    assert forall|k: int| 0 <= k < execs.len() implies (#[trigger] execs[k]).1 is Exec
        && execs[k].0.waiting == batches.skip(k) by {
        lemma_turn(batches, results, turns, execs, k);
        let result = results[k];
    }
    lemma_turn(batches, results, turns, execs, results.len() as int);
    assert(results.take(results.len() as int) =~= results);
}

/// A batch that cannot be announced ends the run with that error. Only the batches
/// before it have been run, none of their failures is told, and nothing follows.
pub proof fn law_unannounced_batch_ends_the_run<E>(
    batches: Seq<TestBatch>,
    results: Seq<Result<(), ProcessError>>,
    turns: Seq<(SequentialRunView, TurnAction<E>)>,
    execs: Seq<(SequentialRunView, TurnAction<E>)>,
    error: E,
    next: SequentialRunView,
    action: TurnAction<E>,
)
    requires
        is_turn_run(batches, results, turns, execs),
        results.len() < batches.len(),
        turn_step(turns.last().0, TurnEvent::Announced(Err(error)), next, action),
    ensures
        action == TurnAction::<E>::Return(Err(error)),
        forall|event: TurnEvent<E>| !#[trigger] turn_fits(next, event),
        next.waiting == batches.skip(results.len() as int),
        forall|k: int|
            0 <= k < execs.len() ==> (#[trigger] execs[k]).1 is Exec && execs[k].0.waiting
                == batches.skip(k),
{
    law_turns(batches, results, turns, execs);
    lemma_turn(batches, results, turns, execs, results.len() as int);
}

/// No errors are told exactly where every result is a success.
pub proof fn law_no_errors_without_failures<T>(results: Seq<Result<(), T>>)
    ensures
        errors_of(results).len() == 0 <==> forall|i: int|
            0 <= i < results.len() ==> #[trigger] results[i] is Ok,
    decreases results.len(),
{
    if results.len() > 0 {
        let past = results.drop_last();
        law_no_errors_without_failures(past);
        assert(results[results.len() - 1] == results.last());
        if errors_of(results).len() == 0 {
            assert forall|i: int| 0 <= i < results.len() implies #[trigger] results[i] is Ok by {
                if i < past.len() {
                    assert(past[i] is Ok);
                }
            }
        }
        if forall|i: int| 0 <= i < results.len() ==> #[trigger] results[i] is Ok {
            assert forall|i: int| 0 <= i < past.len() implies #[trigger] past[i] is Ok by {
                assert(results[i] is Ok);
            }
        }
    }
}

/// Where all batches have run in turn, no errors are told exactly where every
/// batch succeeded.
pub proof fn law_errors_in_turn(batches: Seq<TestBatch>, results: Seq<Result<(), ProcessError>>)
    requires
        results.len() == batches.len(),
    ensures
        run_in_turn(batches, results).errors.len() == 0 <==> forall|i: int|
            0 <= i < results.len() ==> #[trigger] results[i] is Ok,
{
    law_all_run_in_turn(batches, results);
    let pairs = paired(batches, results);
    law_no_errors_without_failures(pairs);
    if forall|i: int| 0 <= i < pairs.len() ==> #[trigger] pairs[i] is Ok {
        assert forall|i: int| 0 <= i < results.len() implies #[trigger] results[i] is Ok by {
            assert(pairs[i] is Ok);
        }
    }
}

/// The results are those of the executables that the loop has started, and each
/// report that has come in is that of one of them.
pub open spec fn reports_match<T>(
    started: int,
    events: Seq<JobEvent>,
    fail_fast: bool,
    results: Seq<Result<(), T>>,
) -> bool {
    &&& results.len() == started
    &&& forall|k: int|
        0 <= k < events.len() ==> ((#[trigger] events[k]) matches JobEvent::Received(done)
            ==> exists|i: int|
            0 <= i < results.len() && done == report((#[trigger] results[i]) is Err, fail_fast))
}

/// A run side by side that is cut short was to fail fast, and has a failure among
/// its results.
pub proof fn law_cut_short_by_a_failure<T>(
    total: usize,
    test_jobs: u32,
    events: Seq<JobEvent>,
    fail_fast: bool,
    results: Seq<Result<(), T>>,
)
    requires
        orderly(total, test_jobs, events),
        run(total, test_jobs, events).phase == JobPhase::Joining,
        reports_match(
            run(total, test_jobs, events).started as int,
            events,
            fail_fast,
            results,
        ),
        run(total, test_jobs, events).started < total,
    ensures
        fail_fast,
        exists|i: int| 0 <= i < results.len() && (#[trigger] results[i]) is Err,
        errors_of(results).len() > 0,
{
    if !told_to_stop(events) {
        law_all_started(total, test_jobs, events);
    }
    let k = choose|k: int| 0 <= k < events.len() && events[k] == JobEvent::Received(None);
    assert(events[k] == JobEvent::Received(None));
    let i = choose|i: int|
        0 <= i < results.len() && None::<()> == report((#[trigger] results[i]) is Err, fail_fast);
    assert(results[i] is Err);
    law_no_errors_without_failures(results);
}

/// Where batches run side by side, no errors are told exactly where every batch
/// was started and succeeded.
pub proof fn law_errors_side_by_side<T>(
    total: usize,
    test_jobs: u32,
    events: Seq<JobEvent>,
    fail_fast: bool,
    results: Seq<Result<(), T>>,
)
    requires
        orderly(total, test_jobs, events),
        run(total, test_jobs, events).phase == JobPhase::Joining,
        reports_match(
            run(total, test_jobs, events).started as int,
            events,
            fail_fast,
            results,
        ),
    ensures
        errors_of(results).len() == 0 <==> results.len() == total && forall|i: int|
            0 <= i < results.len() ==> #[trigger] results[i] is Ok,
{
    law_no_errors_without_failures(results);
    law_started_at_most_all(total, test_jobs, events);
    if run(total, test_jobs, events).started < total {
        law_cut_short_by_a_failure(total, test_jobs, events, fail_fast, results);
    }
}

/// The errors are what running the batches tells, where the process of each batch
/// ends with the given result if it is run.
pub open spec fn is_batches_run(
    batches: Seq<TestBatch>,
    outcomes: Seq<Result<(), ProcessError>>,
    options: TestOptions,
    errors: Seq<Failure>,
) -> bool {
    let test_jobs = options.compile_opts.build_config.test_jobs;
    &&& outcomes.len() == batches.len()
    &&& batches.len() <= usize::MAX
    &&& if test_jobs == 1 {
        errors == run_in_turn(batches, outcomes).errors
    } else {
        exists|events: Seq<JobEvent>| #[trigger]
            is_parallel_run(batches, outcomes, test_jobs, options.no_fail_fast, events, errors)
    }
}

/// The batches have been run side by side in this course of events, and the errors
/// are those of the ones that were started.
pub open spec fn is_parallel_run(
    batches: Seq<TestBatch>,
    outcomes: Seq<Result<(), ProcessError>>,
    test_jobs: u32,
    no_fail_fast: bool,
    events: Seq<JobEvent>,
    errors: Seq<Failure>,
) -> bool {
    let total = batches.len() as usize;
    let started = run(total, test_jobs, events).started as int;
    let results = paired(batches, outcomes.take(started));
    &&& orderly(total, test_jobs, events)
    &&& run(total, test_jobs, events).phase == JobPhase::Joining
    &&& reports_match(started, events, !no_fail_fast, results)
    &&& errors == errors_of(results)
}

/// Whether running batches tells of a failure depends on how their processes end
/// alone: it does not where, and only where, each of them succeeds. Neither the
/// number of jobs nor failing fast changes that.
pub proof fn law_outcomes_decide(
    batches: Seq<TestBatch>,
    outcomes: Seq<Result<(), ProcessError>>,
    options: TestOptions,
    errors: Seq<Failure>,
)
    requires
        is_batches_run(batches, outcomes, options, errors),
    ensures
        errors.len() == 0 <==> forall|i: int|
            0 <= i < outcomes.len() ==> #[trigger] outcomes[i] is Ok,
{
    let test_jobs = options.compile_opts.build_config.test_jobs;
    if test_jobs == 1 {
        law_errors_in_turn(batches, outcomes);
    } else {
        let fail_fast = !options.no_fail_fast;
        let events = choose|events: Seq<JobEvent>| #[trigger]
            is_parallel_run(batches, outcomes, test_jobs, options.no_fail_fast, events, errors);
        let total = batches.len() as usize;
        let started = run(total, test_jobs, events).started as int;
        let results = paired(batches, outcomes.take(started));
        law_started_at_most_all(total, test_jobs, events);
        law_no_errors_without_failures(results);
        law_errors_side_by_side(total, test_jobs, events, fail_fast, results);
        if errors.len() == 0 {
            assert forall|i: int| 0 <= i < outcomes.len() implies #[trigger] outcomes[i] is Ok by {
                assert(results[i] is Ok);
                assert(outcomes.take(started)[i] == outcomes[i]);
            }
        }
        if forall|i: int| 0 <= i < outcomes.len() ==> #[trigger] outcomes[i] is Ok {
            assert forall|i: int| 0 <= i < results.len() implies #[trigger] results[i] is Ok by {
                assert(outcomes.take(started)[i] == outcomes[i]);
            }
        }
    }
}

/// Batches run in turn on one job, and side by side on any other number; all of
/// them, in the order given, and with what was asked for of failures.
pub proof fn law_how_batches_are_run(
    batches: Vec<TestBatch>,
    options: TestOptions,
    planned: BatchRun,
)
    requires
        call_ensures(run_test_batches, (batches, &options), planned),
    ensures
        planned is Sequential <==> options.compile_opts.build_config.test_jobs == 1,
        planned matches BatchRun::Sequential(turns) ==> turns@.waiting == batches@
            && turns@.errors.len() == 0 && turns@.phase is Idle,
        planned matches BatchRun::Parallel(side) ==> {
            &&& side.batches == batches
            &&& side.exe_displays@.len() == batches@.len()
            &&& side.fail_fast != options.no_fail_fast
            &&& side.test_jobs == options.compile_opts.build_config.test_jobs
        },
{
    if let BatchRun::Parallel(side) = planned {
        assert(displays_view(side.exe_displays@).len() == batch_displays(batches@).len());
    }
}

/// Batches that run side by side are announced under their own names and command
/// lines, in the order given.
pub proof fn law_batches_are_announced_under_their_names(
    batches: Vec<TestBatch>,
    options: TestOptions,
    side: ParallelRun,
    i: int,
)
    requires
        call_ensures(run_test_batches, (batches, &options), BatchRun::Parallel(side)),
        0 <= i < batches@.len(),
    ensures
        side.exe_displays@[i].exe_display@ == batches@[i].display.exe_display@,
        match (batches@[i].display.cmd_display, side.exe_displays@[i].cmd_display) {
            (Some(cmd), Some(shown)) => shown@ == cmd@,
            (None, None) => true,
            _ => false,
        },
{
    assert(displays_view(side.exe_displays@).len() == batch_displays(batches@).len());
    assert(displays_view(side.exe_displays@)[i] == side.exe_displays@[i]@);
    assert(batch_displays(batches@)[i] == batches@[i].display@);
    assert(side.exe_displays@[i]@.exe_display == batches@[i].display@.exe_display);
    assert(side.exe_displays@[i]@.cmd_display == batches@[i].display@.cmd_display);
}

/// A batch in turn is announced by its whole name to a concise shell, and by the
/// command line of its own process to a verbose one.
pub proof fn law_batch_in_turn_is_announced(batch: TestBatch, actions: Vec<ShellAction>)
    requires
        call_ensures(print_batch, (&batch,), actions),
    ensures
        actions@.len() == 2,
        actions@[0] matches ShellAction::Concise(status, name) && status@ == "Running"@ && name@
            == batch.display.exe_display@,
        actions@[1] matches ShellAction::Verbose(status, shown) && status@ == "Running"@ && exists|
            cmd: String,
        | #[trigger]
            displays_process(batch.cmd, cmd) && cmd@ == shown@,
{
    lemma_announces(batch, actions@);
}

proof fn lemma_announces(batch: TestBatch, actions: Seq<ShellAction>)
    requires
        announces(batch, actions),
    ensures
        actions.len() == 2,
        actions[0] matches ShellAction::Concise(status, name) && status@ == "Running"@ && name@
            == batch.display.exe_display@,
        actions[1] matches ShellAction::Verbose(status, shown) && status@ == "Running"@ && exists|
            cmd: String,
        | #[trigger]
            displays_process(batch.cmd, cmd) && cmd@ == shown@,
{
    let cmd = choose|cmd: String| #[trigger]
        displays_process(batch.cmd, cmd) && actions_view(actions) == running_actions(batch, cmd@);
    assert(actions_view(actions).len() == running_actions(batch, cmd@).len());
    assert(actions_view(actions)[0] == actions[0]@);
    assert(actions_view(actions)[1] == actions[1]@);
}

/// A given command line is shown whole, behind the name of the batch.
pub proof fn law_given_command_is_shown(
    batch: TestBatch,
    cmd: String,
    actions: Vec<ShellAction>,
)
    requires
        call_ensures(print_running, (&batch, cmd), actions),
    ensures
        actions@.len() == 2,
        actions@[0] matches ShellAction::Concise(status, name) && status@ == "Running"@ && name@
            == batch.display.exe_display@,
        actions@[1] matches ShellAction::Verbose(status, shown) && status@ == "Running"@ && shown@
            == cmd@,
{
    assert(actions_view(actions@).len() == running_actions(batch, cmd@).len());
    assert(actions_view(actions@)[0] == actions@[0]@);
    assert(actions_view(actions@)[1] == actions@[1]@);
}

/// One step of a run in turn. Whenever a batch is to be announced, it is the first
/// one that waits. A batch that was announced is run. One that has run waits no more,
/// and is among the failures, behind those before it, exactly if it failed. When none
/// waits, all failures are told.
pub proof fn law_one_turn<E>(
    state: SequentialRunView,
    event: TurnEvent<E>,
    next: SequentialRunView,
    action: TurnAction<E>,
)
    requires
        turn_fits(state, event),
        turn_step(state, event, next, action),
    ensures
        action matches TurnAction::Announce(actions) ==> {
            &&& next.phase is Announcing
            &&& next.waiting.len() > 0
            &&& actions@.len() == 2
            &&& actions@[0] matches ShellAction::Concise(status, name) && status@ == "Running"@
                && name@ == next.waiting[0].display.exe_display@
            &&& actions@[1] matches ShellAction::Verbose(status, shown) && status@ == "Running"@
                && exists|cmd: String| #[trigger]
                displays_process(next.waiting[0].cmd, cmd) && cmd@ == shown@
        },
        event is Begin ==> next.waiting == state.waiting && (action is Announce
            <==> state.waiting.len() > 0),
        event matches TurnEvent::Announced(Ok(_)) ==> action is Exec && next.waiting
            == state.waiting && next.errors == state.errors,
        event matches TurnEvent::Announced(Err(e)) ==> action == TurnAction::<E>::Return(Err(e)),
        event is Ran ==> next.waiting == state.waiting.drop_first() && (action is Announce
            <==> state.waiting.len() > 1),
        event matches TurnEvent::Ran(result) ==> ({
            let errors = match action {
                TurnAction::Return(Ok(errors)) => errors@,
                _ => next.errors,
            };
            match result {
                Ok(_) => errors == state.errors,
                Err(e) => errors.len() == state.errors.len() + 1 && state.errors.is_prefix_of(
                    errors,
                ) && errors.last() == (state.waiting[0], e),
            }
        }),
        event is Begin || event is Ran ==> (next.waiting.len() == 0 <==> action is Return),
        action is Return <==> next.phase is Returned,
{
    if let TurnAction::Announce(actions) = action {
        lemma_announces(next.waiting[0], actions@);
    }
}

/// Where the errors among the results stand.
proof fn lemma_error_positions<T>(results: Seq<Result<(), T>>) -> (at: Seq<int>)
    ensures
        at.len() == errors_of(results).len(),
        forall|j: int|
            0 <= j < at.len() ==> 0 <= #[trigger] at[j] < results.len() && results[at[j]] == Err::<
                (),
                T,
            >(errors_of(results)[j]),
        forall|j: int, k: int|
            #![trigger at[j], at[k]]
            0 <= j < k < at.len() ==> at[j] < at[k],
        forall|i: int|
            0 <= i < results.len() && (#[trigger] results[i]) is Err ==> at.contains(i),
    decreases results.len(),
{
    if results.len() == 0 {
        Seq::empty()
    } else {
        let last = results.len() - 1;
        let past = results.drop_last();
        let before = lemma_error_positions(past);
        let at = match results.last() {
            Ok(_) => before,
            Err(_) => before.push(last),
        };
        assert forall|j: int| 0 <= j < at.len() implies 0 <= #[trigger] at[j] < results.len()
            && results[at[j]] == Err::<(), T>(errors_of(results)[j]) by {
            if j < before.len() {
                assert(at[j] == before[j]);
                assert(past[before[j]] == results[before[j]]);
            }
        }
        assert forall|j: int, k: int|
            #![trigger at[j], at[k]]
            0 <= j < k < at.len() implies at[j] < at[k] by {
            assert(at[j] == before[j]);
            if k < before.len() {
                assert(at[k] == before[k]);
            }
        }
        assert forall|i: int| 0 <= i < results.len() && (
        #[trigger] results[i]) is Err implies at.contains(i) by {
            if i < last {
                assert(past[i] == results[i]);
                let j = choose|j: int| 0 <= j < before.len() && before[j] == i;
                assert(at[j] == i);
            } else {
                assert(at[at.len() - 1] == i);
            }
        }
        at
    }
}

/// The failures that are told are those among the results, each of them once and in
/// their order: there is a place for each, ever later ones, and no failure has none.
pub proof fn law_every_failure_is_told(
    results: Vec<Result<(), Failure>>,
    errors: Vec<Failure>,
) -> (at: Seq<int>)
    requires
        call_ensures(capture_errors, (results,), errors),
    ensures
        at.len() == errors@.len(),
        forall|j: int|
            0 <= j < at.len() ==> 0 <= #[trigger] at[j] < results@.len() && results@[at[j]]
                == Err::<(), Failure>(errors@[j]),
        forall|j: int, k: int|
            #![trigger at[j], at[k]]
            0 <= j < k < at.len() ==> at[j] < at[k],
        forall|i: int|
            0 <= i < results@.len() && (#[trigger] results@[i]) is Err ==> at.contains(i),
{
    lemma_error_positions(results@)
}

/// The failures that a run in turn tells are those of its batches, each with its own
/// batch and error, once and in the order of the batches.
pub proof fn law_every_failure_in_turn_is_told<E>(
    batches: Seq<TestBatch>,
    results: Seq<Result<(), ProcessError>>,
    turns: Seq<(SequentialRunView, TurnAction<E>)>,
    execs: Seq<(SequentialRunView, TurnAction<E>)>,
    errors: Vec<Failure>,
) -> (at: Seq<int>)
    requires
        is_turn_run(batches, results, turns, execs),
        results.len() == batches.len(),
        turns.last().1 == TurnAction::<E>::Return(Ok(errors)),
    ensures
        at.len() == errors@.len(),
        forall|j: int|
            0 <= j < at.len() ==> 0 <= #[trigger] at[j] < batches.len() && errors@[j].0
                == batches[at[j]] && results[at[j]] == Err::<(), ProcessError>(errors@[j].1),
        forall|j: int, k: int|
            #![trigger at[j], at[k]]
            0 <= j < k < at.len() ==> at[j] < at[k],
        forall|i: int|
            0 <= i < results.len() && (#[trigger] results[i]) is Err ==> at.contains(i),
{
    law_turns(batches, results, turns, execs);
    let pairs = paired(batches, results);
    let at = lemma_error_positions(pairs);
    assert forall|j: int| 0 <= j < at.len() implies 0 <= #[trigger] at[j] < batches.len()
        && errors@[j].0 == batches[at[j]] && results[at[j]] == Err::<(), ProcessError>(
        errors@[j].1,
    ) by {
        assert(pairs[at[j]] == Err::<(), Failure>(errors@[j]));
    }
    assert forall|i: int| 0 <= i < results.len() && (
    #[trigger] results[i]) is Err implies at.contains(i) by {
        assert(pairs[i] is Err);
    }
    at
}

/// Whatever comes in answer to what a run in turn asks for is taken; a run that is
/// over takes nothing more.
pub proof fn law_turn_answers_are_taken<E>(
    state: SequentialRunView,
    event: TurnEvent<E>,
    next: SequentialRunView,
    action: TurnAction<E>,
    announced: Result<(), E>,
    ran: Result<(), ProcessError>,
)
    requires
        turn_fits(state, event),
        turn_step(state, event, next, action),
    ensures
        turn_fits(nothing_run(state.waiting), TurnEvent::<E>::Begin),
        action is Announce ==> turn_fits(next, TurnEvent::Announced(announced)),
        action is Exec ==> turn_fits(next, TurnEvent::<E>::Ran(ran)),
        action is Return ==> forall|other: TurnEvent<E>| !#[trigger] turn_fits(next, other),
{
}

} // verus!
