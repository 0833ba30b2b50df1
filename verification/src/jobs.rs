//! Starts test executables side by side, at most one more at a time than there are
//! jobs.
//!
//! Each executable reports when it is through, and each report lets another one
//! start. As many reports as there are jobs are taken to be there from the
//! beginning, ahead of all others.
use vstd::prelude::*;
use vstd::string::StringExecFns;

verus! {

/// The report of an executable that is through: that another one may start, or
/// `None`, that no more should.
pub open spec fn report(has_error: bool, fail_fast: bool) -> Option<()> {
    if has_error && fail_fast {
        None
    } else {
        Some(())
    }
}

/// The report to send for an executable that is through.
pub fn done_report(has_error: bool, fail_fast: bool) -> (done: Option<()>)
    ensures
        done == report(has_error, fail_fast),
{
    if has_error && fail_fast {
        None
    } else {
        Some(())
    }
}

/// What is written for a line that comes after the printer has stopped.
pub fn out_of_order(line: &str) -> (notice: String)
    ensures
        notice@ == "out-of-order: "@ + line@,
{
    "out-of-order: ".to_owned().concat(line)
}

/// What is to be done next.
#[derive(Clone, Copy, Debug, PartialEq, Eq, Structural)]
pub enum JobAction {
    /// Start the executable at that position.
    Start(usize),
    /// Wait for a report.
    Receive,
    /// Start no more, and wait for those that were started.
    Join,
}

/// What has been asked for and not been answered yet.
#[derive(Clone, Copy, Debug, PartialEq, Eq, Structural)]
pub enum JobPhase {
    Starting,
    Receiving,
    Joining,
}

/// Decides when the next executable starts.
#[derive(Clone, Copy, Debug, PartialEq, Eq, Structural)]
pub struct JobLoop {
    /// The number of executables.
    pub total: usize,
    /// How many of them have been started, or have been asked to be.
    pub started: usize,
    /// How many of the reports that were there from the beginning are left.
    pub permits: u32,
    pub phase: JobPhase,
}

/// What happens in answer to a [`JobAction`].
pub enum JobEvent {
    /// The executable has been started.
    Started,
    /// A report has come in.
    Received(Option<()>),
}

/// The event answers what was asked for.
pub open spec fn expected(state: JobLoop, event: JobEvent) -> bool {
    match event {
        JobEvent::Started => state.phase == JobPhase::Starting,
        JobEvent::Received(_) => state.phase == JobPhase::Receiving,
    }
}

/// The next executable is started, if there is one left.
pub open spec fn proceed(state: JobLoop) -> (JobLoop, JobAction) {
    if state.started < state.total {
        (
            JobLoop {
                started: (state.started + 1) as usize,
                phase: JobPhase::Starting,
                ..state
            },
            JobAction::Start(state.started),
        )
    } else {
        (JobLoop { phase: JobPhase::Joining, ..state }, JobAction::Join)
    }
}

/// The state at the start, and the first thing to do.
pub open spec fn begin(total: usize, test_jobs: u32) -> (JobLoop, JobAction) {
    proceed(JobLoop { total, started: 0, permits: test_jobs, phase: JobPhase::Joining })
}

/// The state after an event, and the next thing to do.
pub open spec fn step(state: JobLoop, event: JobEvent) -> (JobLoop, JobAction) {
    match event {
        JobEvent::Started => if state.permits > 0 {
            proceed(JobLoop { permits: (state.permits - 1) as u32, ..state })
        } else {
            (JobLoop { phase: JobPhase::Receiving, ..state }, JobAction::Receive)
        },
        JobEvent::Received(Some(_)) => proceed(state),
        JobEvent::Received(None) => (
            JobLoop { phase: JobPhase::Joining, ..state },
            JobAction::Join,
        ),
    }
}

/// Begins to start that many executables.
pub fn run_tests_loop(total: usize, test_jobs: u32) -> (result: (JobLoop, JobAction))
    ensures
        result == begin(total, test_jobs),
{
    let mut jobs = JobLoop { total, started: 0, permits: test_jobs, phase: JobPhase::Joining };
    let action = jobs.proceed();
    (jobs, action)
}

impl JobLoop {
    /// Starts the next executable, if there is one left.
    fn proceed(&mut self) -> (action: JobAction)
        ensures
            (*final(self), action) == proceed(*old(self)),
    {
        if self.started < self.total {
            let next: usize = self.started;
            self.started = next + 1;
            self.phase = JobPhase::Starting;
            JobAction::Start(next)
        } else {
            self.phase = JobPhase::Joining;
            JobAction::Join
        }
    }

    /// The executable that was to start has been started.
    pub fn started(&mut self) -> (action: JobAction)
        requires
            expected(*old(self), JobEvent::Started),
        ensures
            (*final(self), action) == step(*old(self), JobEvent::Started),
    {
        if self.permits > 0 {
            self.permits = self.permits - 1;
            self.proceed()
        } else {
            self.phase = JobPhase::Receiving;
            JobAction::Receive
        }
    }

    /// A report has come in.
    pub fn received(&mut self, done: Option<()>) -> (action: JobAction)
        requires
            expected(*old(self), JobEvent::Received(done)),
        ensures
            (*final(self), action) == step(*old(self), JobEvent::Received(done)),
    {
        match done {
            Some(_) => self.proceed(),
            None => {
                self.phase = JobPhase::Joining;
                JobAction::Join
            },
        }
    }
}

/// The state after a sequence of events.
pub open spec fn run(total: usize, test_jobs: u32, events: Seq<JobEvent>) -> JobLoop
    decreases events.len(),
{
    if events.len() == 0 {
        begin(total, test_jobs).0
    } else {
        step(run(total, test_jobs, events.drop_last()), events.last()).0
    }
}

/// Each event answers what was asked for.
pub open spec fn orderly(total: usize, test_jobs: u32, events: Seq<JobEvent>) -> bool
    decreases events.len(),
{
    events.len() > 0 ==> {
        &&& orderly(total, test_jobs, events.drop_last())
        &&& expected(run(total, test_jobs, events.drop_last()), events.last())
    }
}

/// How many reports have come in.
pub open spec fn reports(events: Seq<JobEvent>) -> nat
    decreases events.len(),
{
    if events.len() == 0 {
        0
    } else {
        reports(events.drop_last()) + if events.last() is Received {
            1nat
        } else {
            0
        }
    }
}

/// A report has come in that no more should start.
pub open spec fn told_to_stop(events: Seq<JobEvent>) -> bool {
    events.contains(JobEvent::Received(None))
}

/// The smaller of two numbers.
pub open spec fn min(a: int, b: int) -> int {
    if a <= b {
        a
    } else {
        b
    }
}

proof fn lemma_run(total: usize, test_jobs: u32, events: Seq<JobEvent>)
    requires
        orderly(total, test_jobs, events),
    ensures
        ({
            let state = run(total, test_jobs, events);
            let used = test_jobs - state.permits + reports(events);
            &&& state.total == total
            &&& state.permits <= test_jobs
            &&& state.started <= total
            &&& reports(events) > 0 ==> state.permits == 0
            &&& match state.phase {
                JobPhase::Starting => !told_to_stop(events) && state.started == used + 1,
                JobPhase::Receiving => {
                    &&& !told_to_stop(events)
                    &&& state.permits == 0
                    &&& state.started == used + 1
                },
                JobPhase::Joining => state.started == used && (!told_to_stop(events)
                    ==> state.started == total),
            }
        }),
    decreases events.len(),
{
    if events.len() > 0 {
        let past = events.drop_last();
        lemma_run(total, test_jobs, past);
        assert(past.push(events.last()) =~= events);
        if told_to_stop(events) && !told_to_stop(past) {
            let k = choose|k: int|
                0 <= k < events.len() && events[k] == JobEvent::Received(None);
            if k < past.len() {
                assert(past[k] == JobEvent::Received(None));
            }
        }
        if events.last() == JobEvent::Received(None) {
            assert(events[events.len() - 1] == JobEvent::Received(None));
        }
    }
}

/// At no time are more than one over the number of jobs started and not yet
/// reported to be through.
pub proof fn law_bounded_parallelism(total: usize, test_jobs: u32, events: Seq<JobEvent>)
    requires
        orderly(total, test_jobs, events),
    ensures
        run(total, test_jobs, events).started - reports(events) <= test_jobs + 1,
{
    lemma_run(total, test_jobs, events);
}

/// No more are started than there are.
pub proof fn law_started_at_most_all(total: usize, test_jobs: u32, events: Seq<JobEvent>)
    requires
        orderly(total, test_jobs, events),
    ensures
        run(total, test_jobs, events).started <= total,
{
    lemma_run(total, test_jobs, events);
}

/// While the loop waits for a report it has started exactly one over the number
/// of jobs and of the reports so far: no job is left idle.
pub proof fn law_no_idle_jobs(total: usize, test_jobs: u32, events: Seq<JobEvent>)
    requires
        orderly(total, test_jobs, events),
        run(total, test_jobs, events).phase == JobPhase::Receiving,
    ensures
        run(total, test_jobs, events).started == test_jobs + reports(events) + 1,
{
    lemma_run(total, test_jobs, events);
}

/// Unless it is told to stop, the loop starts all executables.
pub proof fn law_all_started(total: usize, test_jobs: u32, events: Seq<JobEvent>)
    requires
        orderly(total, test_jobs, events),
        run(total, test_jobs, events).phase == JobPhase::Joining,
        !told_to_stop(events),
    ensures
        run(total, test_jobs, events).started == total,
{
    lemma_run(total, test_jobs, events);
}

/// Where failures are not to stop the run, all executables are started, whatever
/// comes of them.
pub proof fn law_all_started_without_fail_fast(
    total: usize,
    test_jobs: u32,
    events: Seq<JobEvent>,
    failed: Seq<bool>,
)
    requires
        orderly(total, test_jobs, events),
        run(total, test_jobs, events).phase == JobPhase::Joining,
        failed.len() == events.len(),
        forall|k: int|
            0 <= k < events.len() ==> ((#[trigger] events[k]) matches JobEvent::Received(done)
                ==> done == report(failed[k], false)),
    ensures
        run(total, test_jobs, events).started == total,
{
    lemma_run(total, test_jobs, events);
    if told_to_stop(events) {
        let k = choose|k: int| 0 <= k < events.len() && events[k] == JobEvent::Received(None);
        assert(events[k] == JobEvent::Received(report(failed[k], false)));
    }
}

/// A failure does not keep back the executables that the jobs can take at once:
/// when the loop is through, it has started one more than there are jobs, or all
/// executables if there are not so many.
pub proof fn law_jobs_are_filled_before_a_stop(
    total: usize,
    test_jobs: u32,
    events: Seq<JobEvent>,
)
    requires
        orderly(total, test_jobs, events),
        run(total, test_jobs, events).phase == JobPhase::Joining,
    ensures
        run(total, test_jobs, events).started >= min(total as int, test_jobs + 1),
{
    lemma_run(total, test_jobs, events);
    lemma_stop_is_reported(events);
}

proof fn lemma_stop_is_reported(events: Seq<JobEvent>)
    ensures
        told_to_stop(events) ==> reports(events) > 0,
    decreases events.len(),
{
    if events.len() > 0 {
        lemma_stop_is_reported(events.drop_last());
        if told_to_stop(events) && !(events.last() is Received) {
            let k = choose|k: int|
                0 <= k < events.len() && events[k] == JobEvent::Received(None);
            assert(events.drop_last()[k] == JobEvent::Received(None));
        }
    }
}

/// Each executable is started once, in order: what is asked to start is always
/// the first one that has not been started.
pub proof fn law_started_in_order(
    total: usize,
    test_jobs: u32,
    events: Seq<JobEvent>,
    event: JobEvent,
)
    requires
        orderly(total, test_jobs, events.push(event)),
    ensures
        ({
            let state = run(total, test_jobs, events);
            let next = run(total, test_jobs, events.push(event));
            match step(state, event).1 {
                JobAction::Start(i) => i == state.started && next.started == i + 1 && i < total,
                _ => next.started == state.started,
            }
        }),
{
    assert(events.push(event).drop_last() =~= events);
    lemma_run(total, test_jobs, events);
}

/// An executable asks for a stop if, and only if, it failed and failures are to
/// stop the run.
pub proof fn law_who_asks_for_a_stop(has_error: bool, fail_fast: bool, done: Option<()>)
    requires
        call_ensures(done_report, (has_error, fail_fast), done),
    ensures
        done is None <==> has_error && fail_fast,
{
}

/// A late line is marked, and keeps its whole text.
pub proof fn law_late_line_keeps_its_text(line: &str, notice: String)
    requires
        call_ensures(out_of_order, (line,), notice),
    ensures
        "out-of-order: "@.is_prefix_of(notice@),
        notice@.skip("out-of-order: "@.len() as int) == line@,
{
    assert(notice@.skip("out-of-order: "@.len() as int) =~= line@);
}

/// The first executable starts at once, whatever the number of jobs; without one
/// there is nothing to wait for.
pub proof fn law_the_first_starts_at_once(
    total: usize,
    test_jobs: u32,
    result: (JobLoop, JobAction),
)
    requires
        call_ensures(run_tests_loop, (total, test_jobs), result),
    ensures
        total > 0 ==> result.1 == JobAction::Start(0) && result.0.started == 1 && result.0.phase
            == JobPhase::Starting,
        total == 0 ==> result.1 == JobAction::Join && result.0.started == 0 && result.0.phase
            == JobPhase::Joining,
        result.0.total == total,
        result.0 == run(total, test_jobs, Seq::empty()),
{
}

/// What is asked for is what the loop then waits to hear of.
pub proof fn law_action_fits_phase(state: JobLoop, event: JobEvent)
    requires
        expected(state, event),
        state.started <= state.total,
    ensures
        ({
            let (next, action) = step(state, event);
            match next.phase {
                JobPhase::Starting => action is Start,
                JobPhase::Receiving => action is Receive,
                JobPhase::Joining => action is Join,
            }
        }),
{
}

/// A report that another executable may start has the next one started, as long
/// as one is left.
pub proof fn law_report_starts_the_next(total: usize, test_jobs: u32, events: Seq<JobEvent>)
    requires
        orderly(total, test_jobs, events),
        run(total, test_jobs, events).phase == JobPhase::Receiving,
    ensures
        ({
            let state = run(total, test_jobs, events);
            let (next, action) = step(state, JobEvent::Received(Some(())));
            if state.started < total {
                action == JobAction::Start(state.started) && next.started == state.started + 1
            } else {
                action == JobAction::Join && next.started == state.started
            }
        }),
{
    lemma_run(total, test_jobs, events);
}

/// Once a report asks for a stop nothing more is started: the loop is through with
/// that report.
pub proof fn law_stop_starts_no_more(
    total: usize,
    test_jobs: u32,
    events: Seq<JobEvent>,
    k: int,
)
    requires
        orderly(total, test_jobs, events),
        0 <= k < events.len(),
        events[k] == JobEvent::Received(None),
    ensures
        k == events.len() - 1,
        run(total, test_jobs, events).phase == JobPhase::Joining,
        run(total, test_jobs, events).started == run(total, test_jobs, events.take(k)).started,
        step(run(total, test_jobs, events.take(k)), events[k]).1 == JobAction::Join,
    decreases events.len(),
{
    let past = events.drop_last();
    if k < past.len() {
        assert(past[k] == JobEvent::Received(None));
        law_stop_starts_no_more(total, test_jobs, past, k);
    } else {
        assert(events.take(k) =~= past);
    }
}

/// Each executable over the number of jobs is waited for: when the loop is
/// through, as many reports have come in as executables were started over the
/// number of jobs.
pub proof fn law_reports_waited_for(total: usize, test_jobs: u32, events: Seq<JobEvent>)
    requires
        orderly(total, test_jobs, events),
        run(total, test_jobs, events).phase == JobPhase::Joining,
    ensures
        run(total, test_jobs, events).started <= test_jobs ==> reports(events) == 0,
        run(total, test_jobs, events).started > test_jobs ==> reports(events) == run(
            total,
            test_jobs,
            events,
        ).started - test_jobs,
{
    lemma_run(total, test_jobs, events);
}

/// Whatever comes in answer to what was asked for is taken.
pub proof fn law_answers_are_taken(state: JobLoop, event: JobEvent, done: Option<()>)
    requires
        expected(state, event),
    ensures
        step(state, event).1 is Start ==> expected(step(state, event).0, JobEvent::Started),
        step(state, event).1 is Receive ==> expected(
            step(state, event).0,
            JobEvent::Received(done),
        ),
{
}

} // verus!
