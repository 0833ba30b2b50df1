//! Test runs and benchmark runs as a whole.
//!
//! A run is a function from its state and what has happened to its next state
//! and what is to be done: compile, run the test executables, run the doctests,
//! and return.
use crate::batch::is_batches_run;
use crate::batch::law_outcomes_decide;
use crate::batch::Failure;
use crate::batch::TestBatch;
use crate::compile::at_place;
use crate::compile::compile_tests;
use crate::compile::law_sorting_keeps_all;
use crate::compile::sorted_compilation;
use crate::model::CargoTestError;
use crate::model::Compilation;
use crate::model::Test;
use crate::model::TestOptions;
use crate::stage::causes_of;
use cargo_util::ProcessError;
use vstd::pervasive::unreached;
use vstd::prelude::*;

verus! {

/// How far a run has come.
#[derive(Debug)]
pub enum RunState {
    /// It has not begun.
    Idle,
    Compiling,
    /// The test executables of the compilation are running.
    UnitTests { compilation: Compilation },
    /// The doctests of the compilation are running; this is what came of the test
    /// executables.
    DocTests { compilation: Compilation, test: Test, errors: Vec<ProcessError> },
    /// It is over.
    Returned,
}

/// What a stage of the run came to: what was tested, and how it failed.
pub type Outcome = (Test, Vec<ProcessError>);

/// What has happened.
#[derive(Debug)]
pub enum RunEvent<E> {
    /// The run is to begin.
    Begin,
    Compiled(Result<Compilation, E>),
    UnitTests(Result<Outcome, E>),
    DocTests(Result<Outcome, E>),
}

/// What a run is to have done.
#[derive(Debug)]
pub enum RunAction<'a, E> {
    Compile,
    /// Run the test executables of the compilation in the state, with these
    /// arguments.
    RunUnitTests { args: Vec<&'a str> },
    /// Run the doctests of the compilation in the state, with these arguments.
    RunDocTests { args: Vec<&'a str> },
    /// The run is over: `None` if no test failed.
    Return(Result<Option<CargoTestError>, E>),
}

/// The compilation whose tests are running.
pub open spec fn compilation_of(state: RunState) -> Option<Compilation> {
    match state {
        RunState::UnitTests { compilation } => Some(compilation),
        RunState::DocTests { compilation, test, errors } => Some(compilation),
        _ => None,
    }
}

impl RunState {
    /// The compilation whose tests are running.
    pub fn compilation(&self) -> (compilation: Option<&Compilation>)
        ensures
            match compilation {
                Some(compilation) => compilation_of(*self) == Some(*compilation),
                None => compilation_of(*self) is None,
            },
    {
        match self {
            RunState::UnitTests { compilation } => Some(compilation),
            RunState::DocTests { compilation, .. } => Some(compilation),
            _ => None,
        }
    }
}

/// The event answers what the run has asked for.
pub open spec fn fits<E>(state: RunState, event: RunEvent<E>) -> bool {
    match event {
        RunEvent::Begin => state is Idle,
        RunEvent::Compiled(_) => state is Compiling,
        RunEvent::UnitTests(_) => state is UnitTests,
        RunEvent::DocTests(_) => state is DocTests,
    }
}

/// The contents of the arguments.
pub open spec fn args_view(args: Seq<&str>) -> Seq<Seq<char>> {
    args.map_values(|arg: &str| arg@)
}

/// What a run comes to: an error that ended it, or the failed tests.
pub type Verdict<E> = Result<Option<(Test, Seq<ProcessError>)>, E>;

/// The verdict on failures: they make an error, unless there are none.
pub open spec fn verdict_on<E>(test: Test, errors: Seq<ProcessError>) -> Verdict<E> {
    if errors.len() == 0 {
        Ok(None)
    } else {
        Ok(Some((test, errors)))
    }
}

/// The contents of what a run returns.
pub open spec fn verdict_view<E>(returned: Result<Option<CargoTestError>, E>) -> Verdict<E> {
    match returned {
        Ok(Some(error)) => Ok(Some((error.test, error.causes@))),
        Ok(None) => Ok(None),
        Err(e) => Err(e),
    }
}

/// The run ends with the verdict.
pub open spec fn gives<E>(verdict: Verdict<E>, result: (RunState, RunAction<E>)) -> bool {
    &&& result.0 is Returned
    &&& result.1 matches RunAction::Return(returned)
    &&& verdict_view(returned) == verdict
}

/// The test executables of what was compiled are run, in order, unless the run
/// was only to compile.
pub open spec fn after_compiling<E>(
    options: TestOptions,
    args: Seq<Seq<char>>,
    compiled: Compilation,
    result: (RunState, RunAction<E>),
) -> bool {
    if options.no_run {
        gives(Ok(None), result)
    } else {
        &&& result.0 matches RunState::UnitTests { compilation }
        &&& sorted_compilation(compiled, compilation)
        &&& result.1 matches RunAction::RunUnitTests { args: passed }
        &&& args_view(passed@) == args
    }
}

/// One step of a test run.
pub open spec fn tests_step<E>(
    options: TestOptions,
    test_args: Seq<&str>,
    state: RunState,
    event: RunEvent<E>,
    result: (RunState, RunAction<E>),
) -> bool {
    match event {
        RunEvent::Begin => result.0 is Compiling && result.1 is Compile,
        RunEvent::Compiled(Err(e)) => gives(Err(e), result),
        RunEvent::Compiled(Ok(compiled)) => after_compiling(
            options,
            args_view(test_args),
            compiled,
            result,
        ),
        RunEvent::UnitTests(Err(e)) => gives(Err(e), result),
        RunEvent::UnitTests(Ok((test, errors))) => if errors@.len() > 0 && !options.no_fail_fast {
            gives(Ok(Some((test, errors@))), result)
        } else {
            &&& result.0 == RunState::DocTests {
                compilation: state->UnitTests_compilation,
                test,
                errors,
            }
            &&& result.1 matches RunAction::RunDocTests { args: passed }
            &&& args_view(passed@) == args_view(test_args)
        },
        RunEvent::DocTests(Err(e)) => gives(Err(e), result),
        RunEvent::DocTests(Ok((doctest, docerrors))) => gives(
            verdict_on(
                if docerrors@.len() == 0 {
                    state->test
                } else {
                    doctest
                },
                state->errors@ + docerrors@,
            ),
            result,
        ),
    }
}

/// The error for the failures, unless there are none.
fn judge(test: Test, errors: Vec<ProcessError>) -> (error: Option<CargoTestError>)
    ensures
        match error {
            Some(error) => errors@.len() > 0 && error.wf() && error.test == test && error.causes
                == errors,
            None => errors@.len() == 0,
        },
{
    if errors.is_empty() {
        None
    } else {
        Some(CargoTestError::new(test, errors))
    }
}

/// The arguments, in a list of their own.
fn copy_args<'a>(args: &[&'a str]) -> (copy: Vec<&'a str>)
    ensures
        copy@ == args@,
{
    let mut copy: Vec<&'a str> = Vec::new();
    let mut i: usize = 0;
    while i < args.len()
        invariant
            i <= args@.len(),
            copy@ == args@.take(i as int),
        decreases args.len() - i,
    {
        copy.push(args[i]);
        assert(args@.take(i + 1) =~= args@.take(i as int).push(args@[i as int]));
        i = i + 1;
    }
    assert(args@.take(i as int) =~= args@);
    copy
}

/// Runs the tests: from where the run is and what has happened, to where it is
/// then and what is to be done.
pub fn run_tests<'a, E>(
    options: &TestOptions,
    test_args: &[&'a str],
    state: RunState,
    event: RunEvent<E>,
) -> (result: (RunState, RunAction<'a, E>))
    requires
        fits(state, event),
    ensures
        tests_step(*options, test_args@, state, event, result),
{
    match event {
        RunEvent::Begin => (RunState::Compiling, RunAction::Compile),
        RunEvent::Compiled(Err(e)) => (RunState::Returned, RunAction::Return(Err(e))),
        RunEvent::Compiled(Ok(compilation)) => {
            let compilation = compile_tests(compilation);
            if options.no_run {
                (RunState::Returned, RunAction::Return(Ok(None)))
            } else {
                let args = copy_args(test_args);
                (RunState::UnitTests { compilation }, RunAction::RunUnitTests { args })
            }
        },
        RunEvent::UnitTests(Err(e)) => (RunState::Returned, RunAction::Return(Err(e))),
        RunEvent::UnitTests(Ok((test, errors))) => {
            // If we have an error and want to fail fast, end the run.
            if !errors.is_empty() && !options.no_fail_fast {
                (
                    RunState::Returned,
                    RunAction::Return(Ok(Some(CargoTestError::new(test, errors)))),
                )
            } else {
                match state {
                    RunState::UnitTests { compilation } => {
                        let args = copy_args(test_args);
                        (
                            RunState::DocTests { compilation, test, errors },
                            RunAction::RunDocTests { args },
                        )
                    },
                    _ => unreached(),
                }
            }
        },
        RunEvent::DocTests(Err(e)) => (RunState::Returned, RunAction::Return(Err(e))),
        RunEvent::DocTests(Ok((doctest, docerrors))) => match state {
            RunState::DocTests { compilation: _, test, mut errors } => {
                let test = if docerrors.is_empty() {
                    test
                } else {
                    doctest
                };
                let mut docerrors = docerrors;
                errors.append(&mut docerrors);
                (RunState::Returned, RunAction::Return(Ok(judge(test, errors))))
            },
            _ => unreached(),
        },
    }
}

/// One step of a benchmark run.
pub open spec fn benches_step<E>(
    options: TestOptions,
    args: Seq<&str>,
    state: RunState,
    event: RunEvent<E>,
    result: (RunState, RunAction<E>),
) -> bool {
    match event {
        RunEvent::Begin => result.0 is Compiling && result.1 is Compile,
        RunEvent::Compiled(Err(e)) => gives(Err(e), result),
        RunEvent::Compiled(Ok(compiled)) => after_compiling(
            options,
            args_view(args).push("--bench"@),
            compiled,
            result,
        ),
        RunEvent::UnitTests(Err(e)) => gives(Err(e), result),
        RunEvent::UnitTests(Ok((test, errors))) => gives(verdict_on(test, errors@), result),
        RunEvent::DocTests(_) => true,
    }
}

/// Runs the benchmarks: as [`run_tests`] does, but with an argument that selects
/// them, and without doctests.
pub fn run_benches<'a, E>(
    options: &TestOptions,
    args: &[&'a str],
    state: RunState,
    event: RunEvent<E>,
) -> (result: (RunState, RunAction<'a, E>))
    requires
        fits(state, event),
        !(event is DocTests),
    ensures
        benches_step(*options, args@, state, event, result),
{
    match event {
        RunEvent::Begin => (RunState::Compiling, RunAction::Compile),
        RunEvent::Compiled(Err(e)) => (RunState::Returned, RunAction::Return(Err(e))),
        RunEvent::Compiled(Ok(compilation)) => {
            let compilation = compile_tests(compilation);
            if options.no_run {
                (RunState::Returned, RunAction::Return(Ok(None)))
            } else {
                let mut passed = copy_args(args);
                passed.push("--bench");
                assert(args_view(passed@) =~= args_view(args@).push("--bench"@));
                (RunState::UnitTests { compilation }, RunAction::RunUnitTests { args: passed })
            }
        },
        RunEvent::UnitTests(Err(e)) => (RunState::Returned, RunAction::Return(Err(e))),
        RunEvent::UnitTests(Ok((test, errors))) => (
            RunState::Returned,
            RunAction::Return(Ok(judge(test, errors))),
        ),
        RunEvent::DocTests(_) => unreached(),
    }
}

/// What a test run comes to, from what came of its parts.
pub open spec fn tests_verdict<E>(
    options: TestOptions,
    compiled: Result<Compilation, E>,
    unit_tests: Result<Outcome, E>,
    doc_tests: Result<Outcome, E>,
) -> Verdict<E> {
    match (compiled, unit_tests, doc_tests) {
        (Err(e), _, _) => Err(e),
        (Ok(_), _, _) if options.no_run => Ok(None),
        (_, Err(e), _) => Err(e),
        (_, Ok((test, errors)), _) if errors@.len() > 0 && !options.no_fail_fast => Ok(
            Some((test, errors@)),
        ),
        (_, _, Err(e)) => Err(e),
        (_, Ok((test, errors)), Ok((doctest, docerrors))) => verdict_on(
            if docerrors@.len() == 0 {
                test
            } else {
                doctest
            },
            errors@ + docerrors@,
        ),
    }
}

/// The results of the steps of a run, in order; the last one ends the run.
pub open spec fn is_tests_run<E>(
    options: TestOptions,
    test_args: Seq<&str>,
    compiled: Result<Compilation, E>,
    unit_tests: Result<Outcome, E>,
    doc_tests: Result<Outcome, E>,
    steps: Seq<(RunState, RunAction<E>)>,
) -> bool {
    &&& steps.len() > 0
    &&& tests_step(options, test_args, RunState::Idle, RunEvent::<E>::Begin, steps[0])
    &&& forall|i: int|
        #![trigger steps[i]]
        0 <= i < steps.len() ==> (steps[i].1 is Return <==> i == steps.len() - 1)
    &&& forall|i: int|
        #![trigger steps[i]]
        0 < i < steps.len() ==> tests_step(
            options,
            test_args,
            steps[i - 1].0,
            match steps[i - 1].1 {
                RunAction::Compile => RunEvent::Compiled(compiled),
                RunAction::RunUnitTests { args } => RunEvent::UnitTests(unit_tests),
                _ => RunEvent::DocTests(doc_tests),
            },
            steps[i],
        )
}

/// A test run comes to its verdict in at most four steps. An error in one of its
/// parts is returned; a run that is only to compile runs no tests; every failure
/// is told, those of the test executables before those of the doctests; and the
/// run succeeds only if nothing failed.
pub proof fn law_tests_verdict<E>(
    options: TestOptions,
    test_args: Seq<&str>,
    compiled: Result<Compilation, E>,
    unit_tests: Result<Outcome, E>,
    doc_tests: Result<Outcome, E>,
    steps: Seq<(RunState, RunAction<E>)>,
)
    requires
        is_tests_run(options, test_args, compiled, unit_tests, doc_tests, steps),
    ensures
        steps.len() <= 4,
        gives(tests_verdict(options, compiled, unit_tests, doc_tests), steps.last()),
{
    assert(steps[0].1 is Compile);
    let one = steps[1];
    if !(one.1 is Return) {
        let two = steps[2];
        if !(two.1 is Return) {
            let three = steps[3];
        }
    }
}

/// The doctests run if, and only if, the test executables were run and either
/// none of them failed or the run was to go on after failures.
pub proof fn law_when_doctests_run<E>(
    options: TestOptions,
    test_args: Seq<&str>,
    compiled: Result<Compilation, E>,
    unit_tests: Result<Outcome, E>,
    doc_tests: Result<Outcome, E>,
    steps: Seq<(RunState, RunAction<E>)>,
)
    requires
        is_tests_run(options, test_args, compiled, unit_tests, doc_tests, steps),
    ensures
        (exists|i: int| 0 <= i < steps.len() && (#[trigger] steps[i]).1 is RunDocTests) <==> {
            &&& compiled is Ok
            &&& !options.no_run
            &&& unit_tests matches Ok((_, errors))
            &&& errors@.len() == 0 || options.no_fail_fast
        },
{
    law_tests_verdict(options, test_args, compiled, unit_tests, doc_tests, steps);
    assert(steps[0].1 is Compile);
    let one = steps[1];
    if !(one.1 is Return) {
        let two = steps[2];
        if !(two.1 is Return) {
            assert(steps[2].1 is RunDocTests);
        }
    }
}

/// The doctests run with the arguments of the user, as the test executables do,
/// and on the same compilation, with the executables sorted.
pub proof fn law_doctests_get_what_the_tests_got<E>(
    options: TestOptions,
    test_args: Seq<&str>,
    compiled: Result<Compilation, E>,
    unit_tests: Result<Outcome, E>,
    doc_tests: Result<Outcome, E>,
    steps: Seq<(RunState, RunAction<E>)>,
    i: int,
)
    requires
        is_tests_run(options, test_args, compiled, unit_tests, doc_tests, steps),
        0 <= i < steps.len(),
        steps[i].1 is RunDocTests,
    ensures
        i > 0,
        steps[i - 1].1 matches RunAction::RunUnitTests { args } && args_view(args@) == args_view(
            test_args,
        ),
        steps[i].1 matches RunAction::RunDocTests { args } && args_view(args@) == args_view(
            test_args,
        ),
        compilation_of(steps[i].0) is Some,
        compilation_of(steps[i].0) == compilation_of(steps[i - 1].0),
        compiled matches Ok(compiled) && sorted_compilation(
            compiled,
            compilation_of(steps[i].0)->0,
        ),
{
    law_tests_verdict(options, test_args, compiled, unit_tests, doc_tests, steps);
    assert(steps[0].1 is Compile);
    let one = steps[1];
    if !(one.1 is Return) {
        let two = steps[2];
    }
}

/// The stage came to its end, and nothing failed.
pub open spec fn all_passed<E>(stage: Result<Outcome, E>) -> bool {
    stage matches Ok((test, errors)) && errors@.len() == 0
}

/// A run succeeds if, and only if, it could be compiled and either was only to
/// be compiled or had all its tests and doctests run without a failure.
pub proof fn law_when_a_run_succeeds<E>(
    options: TestOptions,
    test_args: Seq<&str>,
    compiled: Result<Compilation, E>,
    unit_tests: Result<Outcome, E>,
    doc_tests: Result<Outcome, E>,
    steps: Seq<(RunState, RunAction<E>)>,
)
    requires
        is_tests_run(options, test_args, compiled, unit_tests, doc_tests, steps),
    ensures
        gives(Ok(None), steps.last()) <==> compiled is Ok && (options.no_run || all_passed(
            unit_tests,
        ) && all_passed(doc_tests)),
{
    law_tests_verdict(options, test_args, compiled, unit_tests, doc_tests, steps);
}

/// What the stage came to, where the process of each of its batches ends with the
/// given result if it is run, and where the stage is not ended by an error.
pub open spec fn comes_from<E>(
    stage: Result<Outcome, E>,
    batches: Seq<TestBatch>,
    outcomes: Seq<Result<(), ProcessError>>,
    options: TestOptions,
) -> bool {
    stage matches Ok((test, causes)) ==> exists|errors: Seq<Failure>|
        #![trigger causes_of(errors)]
        is_batches_run(batches, outcomes, options, errors) && causes@ == causes_of(errors)
}

/// The stage is not ended by an error, and each process succeeds.
pub open spec fn all_succeed<E>(
    stage: Result<Outcome, E>,
    outcomes: Seq<Result<(), ProcessError>>,
) -> bool {
    stage is Ok && forall|i: int| 0 <= i < outcomes.len() ==> #[trigger] outcomes[i] is Ok
}

proof fn lemma_passed<E>(
    stage: Result<Outcome, E>,
    batches: Seq<TestBatch>,
    outcomes: Seq<Result<(), ProcessError>>,
    options: TestOptions,
)
    requires
        comes_from(stage, batches, outcomes, options),
    ensures
        all_passed(stage) <==> all_succeed(stage, outcomes),
{
    if let Ok((test, causes)) = stage {
        let errors = choose|errors: Seq<Failure>|
            #![trigger causes_of(errors)]
            is_batches_run(batches, outcomes, options, errors) && causes@ == causes_of(errors);
        law_outcomes_decide(batches, outcomes, options, errors);
        assert(causes@.len() == errors.len());
    }
}

/// A run that is not only to compile succeeds if, and only if, it could be
/// compiled, no stage is ended by an error, and the process of every test
/// executable and of every doctest succeeds, whether the run gets to it or not.
pub proof fn law_processes_decide<E>(
    options: TestOptions,
    test_args: Seq<&str>,
    compiled: Result<Compilation, E>,
    tests: Seq<TestBatch>,
    test_outcomes: Seq<Result<(), ProcessError>>,
    docs: Seq<TestBatch>,
    doc_outcomes: Seq<Result<(), ProcessError>>,
    unit_tests: Result<Outcome, E>,
    doc_tests: Result<Outcome, E>,
    steps: Seq<(RunState, RunAction<E>)>,
)
    requires
        is_tests_run(options, test_args, compiled, unit_tests, doc_tests, steps),
        comes_from(unit_tests, tests, test_outcomes, options),
        comes_from(doc_tests, docs, doc_outcomes, options),
        !options.no_run,
    ensures
        gives(Ok(None), steps.last()) <==> compiled is Ok && all_succeed(unit_tests, test_outcomes)
            && all_succeed(doc_tests, doc_outcomes),
{
    law_when_a_run_succeeds(options, test_args, compiled, unit_tests, doc_tests, steps);
    lemma_passed(unit_tests, tests, test_outcomes, options);
    lemma_passed(doc_tests, docs, doc_outcomes, options);
}

/// Whether a run goes on after failures does not change whether it succeeds. Two
/// runs on the same processes, which may start different ones of them and come to
/// different failures, succeed both or neither, provided that errors other than
/// failures end the stages of both or of neither.
pub proof fn law_fail_fast_does_not_decide<E>(
    options: TestOptions,
    no_fail_fast: bool,
    test_args: Seq<&str>,
    compiled: Result<Compilation, E>,
    tests: Seq<TestBatch>,
    test_outcomes: Seq<Result<(), ProcessError>>,
    docs: Seq<TestBatch>,
    doc_outcomes: Seq<Result<(), ProcessError>>,
    unit_tests: Result<Outcome, E>,
    doc_tests: Result<Outcome, E>,
    steps: Seq<(RunState, RunAction<E>)>,
    other_unit_tests: Result<Outcome, E>,
    other_doc_tests: Result<Outcome, E>,
    other_steps: Seq<(RunState, RunAction<E>)>,
)
    requires
        is_tests_run(options, test_args, compiled, unit_tests, doc_tests, steps),
        comes_from(unit_tests, tests, test_outcomes, options),
        comes_from(doc_tests, docs, doc_outcomes, options),
        is_tests_run(
            (TestOptions { no_fail_fast, ..options }),
            test_args,
            compiled,
            other_unit_tests,
            other_doc_tests,
            other_steps,
        ),
        comes_from(
            other_unit_tests,
            tests,
            test_outcomes,
            (TestOptions { no_fail_fast, ..options }),
        ),
        comes_from(
            other_doc_tests,
            docs,
            doc_outcomes,
            (TestOptions { no_fail_fast, ..options }),
        ),
        unit_tests is Ok <==> other_unit_tests is Ok,
        doc_tests is Ok <==> other_doc_tests is Ok,
    ensures
        gives(Ok(None), steps.last()) <==> gives(Ok(None), other_steps.last()),
{
    let other = TestOptions { no_fail_fast, ..options };
    law_when_a_run_succeeds(options, test_args, compiled, unit_tests, doc_tests, steps);
    law_when_a_run_succeeds(
        other,
        test_args,
        compiled,
        other_unit_tests,
        other_doc_tests,
        other_steps,
    );
    lemma_passed(unit_tests, tests, test_outcomes, options);
    lemma_passed(doc_tests, docs, doc_outcomes, options);
    lemma_passed(other_unit_tests, tests, test_outcomes, other);
    lemma_passed(other_doc_tests, docs, doc_outcomes, other);
}

/// The stage came to its end with failures.
pub open spec fn has_failures<E>(stage: Result<Outcome, E>) -> bool {
    stage matches Ok((test, errors)) && errors@.len() > 0
}

/// A run in which a test executable or a doctest failed does not succeed.
pub proof fn law_failures_fail_the_run<E>(
    options: TestOptions,
    test_args: Seq<&str>,
    compiled: Result<Compilation, E>,
    unit_tests: Result<Outcome, E>,
    doc_tests: Result<Outcome, E>,
    steps: Seq<(RunState, RunAction<E>)>,
)
    requires
        is_tests_run(options, test_args, compiled, unit_tests, doc_tests, steps),
        !options.no_run,
        has_failures(unit_tests) || has_failures(doc_tests),
    ensures
        !gives(Ok(None), steps.last()),
{
    law_tests_verdict(options, test_args, compiled, unit_tests, doc_tests, steps);
}

/// What a benchmark run comes to, from what came of its parts.
pub open spec fn benches_verdict<E>(
    options: TestOptions,
    compiled: Result<Compilation, E>,
    unit_tests: Result<Outcome, E>,
) -> Verdict<E> {
    match (compiled, unit_tests) {
        (Err(e), _) => Err(e),
        (Ok(_), _) if options.no_run => Ok(None),
        (_, Err(e)) => Err(e),
        (_, Ok((test, errors))) => verdict_on(test, errors@),
    }
}

/// A benchmark run comes to its verdict in at most three steps, and runs no
/// doctests. It succeeds if, and only if, it could be compiled and either was only
/// to be compiled or had all its benchmarks run without a failure.
pub proof fn law_benches_verdict<E>(
    options: TestOptions,
    args: Seq<&str>,
    compiled: Result<Compilation, E>,
    unit_tests: Result<Outcome, E>,
    begun: (RunState, RunAction<E>),
    built: (RunState, RunAction<E>),
    ran: (RunState, RunAction<E>),
)
    requires
        benches_step(options, args, RunState::Idle, RunEvent::<E>::Begin, begun),
        benches_step(options, args, begun.0, RunEvent::Compiled(compiled), built),
        built.1 is RunUnitTests ==> benches_step(
            options,
            args,
            built.0,
            RunEvent::UnitTests(unit_tests),
            ran,
        ),
    ensures
        begun.1 is Compile,
        built.1 is RunUnitTests || built.1 is Return,
        gives(
            benches_verdict(options, compiled, unit_tests),
            if built.1 is RunUnitTests {
                ran
            } else {
                built
            },
        ),
        benches_verdict(options, compiled, unit_tests) == Ok::<
            Option<(Test, Seq<ProcessError>)>,
            E,
        >(None) <==> compiled is Ok && (options.no_run || all_passed(unit_tests)),
{
}

/// A benchmark run that is not only to compile succeeds if, and only if, it could
/// be compiled, its stage is not ended by an error, and the process of every
/// benchmark succeeds, whether the run gets to it or not.
pub proof fn law_benchmark_processes_decide<E>(
    options: TestOptions,
    compiled: Result<Compilation, E>,
    benches: Seq<TestBatch>,
    outcomes: Seq<Result<(), ProcessError>>,
    unit_tests: Result<Outcome, E>,
)
    requires
        comes_from(unit_tests, benches, outcomes, options),
        !options.no_run,
    ensures
        benches_verdict(options, compiled, unit_tests) == Ok::<
            Option<(Test, Seq<ProcessError>)>,
            E,
        >(None) <==> compiled is Ok && all_succeed(unit_tests, outcomes),
{
    lemma_passed(unit_tests, benches, outcomes, options);
}

/// A test run compiles before it does anything else.
pub proof fn law_test_run_begins_with_compiling<'a, E>(
    options: TestOptions,
    test_args: &[&'a str],
    state: RunState,
    result: (RunState, RunAction<'a, E>),
)
    requires
        call_ensures(run_tests::<E>, (&options, test_args, state, RunEvent::<E>::Begin), result),
    ensures
        result.0 is Compiling,
        result.1 is Compile,
{
}

/// What was compiled is run, unless the run was only to compile: the test
/// executables in ascending order, none left out or added, and with exactly the
/// arguments of the user.
pub proof fn law_test_run_goes_on_from_compiling<'a, E>(
    options: TestOptions,
    test_args: &[&'a str],
    state: RunState,
    compiled: Compilation,
    result: (RunState, RunAction<'a, E>),
)
    requires
        call_ensures(
            run_tests::<E>,
            (&options, test_args, state, RunEvent::<E>::Compiled(Ok(compiled))),
            result,
        ),
    ensures
        options.no_run ==> result.0 is Returned && result.1 == RunAction::<E>::Return(Ok(None)),
        !options.no_run ==> {
            &&& result.0 matches RunState::UnitTests { compilation } && puts_tests_in_order(
                compiled,
                compilation,
            )
            &&& result.1 matches RunAction::RunUnitTests { args } && args@.len()
                == test_args@.len() && forall|i: int|
                0 <= i < test_args@.len() ==> (#[trigger] args@[i])@ == test_args@[i]@
        },
{
    if !options.no_run {
        let args = result.1->RunUnitTests_args;
        lemma_args(args@, args_view(test_args@));
        let compilation = result.0->UnitTests_compilation;
        lemma_in_order(compiled, compilation);
    }
}

/// An error in compiling, in running the test executables or in running the
/// doctests is what the run ends with.
pub proof fn law_test_run_returns_errors<'a, E>(
    options: TestOptions,
    test_args: &[&'a str],
    state: RunState,
    error: E,
    event: RunEvent<E>,
    result: (RunState, RunAction<'a, E>),
)
    requires
        call_ensures(run_tests::<E>, (&options, test_args, state, event), result),
        event == RunEvent::<E>::Compiled(Err(error)) || event == RunEvent::<E>::UnitTests(
            Err(error),
        ) || event == RunEvent::<E>::DocTests(Err(error)),
    ensures
        result.0 is Returned,
        result.1 matches RunAction::Return(Err(told)) && told == error,
{
}

/// Failures end a run that fails fast, with the test that the test executables came
/// to and with each of their failures. Otherwise the doctests of the same
/// compilation are run, with exactly the arguments of the user, and what came of the
/// test executables is kept.
pub proof fn law_test_run_goes_on_from_the_tests<'a, E>(
    options: TestOptions,
    test_args: &[&'a str],
    compilation: Compilation,
    test: Test,
    errors: Vec<ProcessError>,
    result: (RunState, RunAction<'a, E>),
)
    requires
        call_ensures(
            run_tests::<E>,
            (
                &options,
                test_args,
                RunState::UnitTests { compilation },
                RunEvent::<E>::UnitTests(Ok((test, errors))),
            ),
            result,
        ),
    ensures
        errors@.len() > 0 && !options.no_fail_fast ==> {
            &&& result.0 is Returned
            &&& result.1 matches RunAction::Return(Ok(Some(error))) && error.test == test
                && error.causes@ == errors@
        },
        errors@.len() == 0 || options.no_fail_fast ==> {
            &&& result.0 == RunState::DocTests { compilation, test, errors }
            &&& result.1 matches RunAction::RunDocTests { args } && args@.len()
                == test_args@.len() && forall|i: int|
                0 <= i < test_args@.len() ==> (#[trigger] args@[i])@ == test_args@[i]@
        },
{
    if errors@.len() == 0 || options.no_fail_fast {
        let args = result.1->RunDocTests_args;
        lemma_args(args@, args_view(test_args@));
    }
}

/// After the doctests the run is over. It succeeds if neither they nor the test
/// executables failed; else it tells all failures, those of the test executables
/// first, and the test that failed: the doctests if one of them did, else what the
/// test executables came to.
pub proof fn law_test_run_ends_with_the_doctests<'a, E>(
    options: TestOptions,
    test_args: &[&'a str],
    compilation: Compilation,
    test: Test,
    errors: Vec<ProcessError>,
    doctest: Test,
    docerrors: Vec<ProcessError>,
    result: (RunState, RunAction<'a, E>),
)
    requires
        call_ensures(
            run_tests::<E>,
            (
                &options,
                test_args,
                RunState::DocTests { compilation, test, errors },
                RunEvent::<E>::DocTests(Ok((doctest, docerrors))),
            ),
            result,
        ),
    ensures
        result.0 is Returned,
        errors@.len() == 0 && docerrors@.len() == 0 ==> result.1 == RunAction::<E>::Return(
            Ok(None),
        ),
        errors@.len() > 0 || docerrors@.len() > 0 ==> (result.1 matches RunAction::Return(
            Ok(Some(error)),
        ) && {
            &&& docerrors@.len() == 0 ==> error.test == test
            &&& docerrors@.len() > 0 ==> error.test == doctest
            &&& error.causes@.len() == errors@.len() + docerrors@.len()
            &&& errors@.is_prefix_of(error.causes@)
            &&& error.causes@.skip(errors@.len() as int) == docerrors@
        }),
{
    if errors@.len() > 0 || docerrors@.len() > 0 {
        let error = result.1->0->Ok_0->0;
        assert(error.causes@ == errors@ + docerrors@);
        assert(error.causes@.skip(errors@.len() as int) =~= docerrors@);
    }
}

/// Where a run ends in failures and no doctest failed, it names what the test
/// executables came to: if they came to one target, the run names that target,
/// whether it fails fast or not.
pub proof fn law_failed_target_is_named<E>(
    options: TestOptions,
    test_args: Seq<&str>,
    compiled: Result<Compilation, E>,
    test: Test,
    errors: Vec<ProcessError>,
    doc_tests: Result<Outcome, E>,
    steps: Seq<(RunState, RunAction<E>)>,
    error: CargoTestError,
)
    requires
        is_tests_run(options, test_args, compiled, Ok((test, errors)), doc_tests, steps),
        steps.last().1 == RunAction::<E>::Return(Ok(Some(error))),
        doc_tests matches Ok((_, docerrors)) && docerrors@.len() == 0,
    ensures
        error.test == test,
        error.causes@ == errors@,
{
    law_tests_verdict(options, test_args, compiled, Ok((test, errors)), doc_tests, steps);
    let docerrors = doc_tests->Ok_0.1;
    assert(errors@ + docerrors@ =~= errors@);
    lemma_verdict_steps(options, test_args, compiled, Ok((test, errors)), doc_tests, steps);
}

/// A failed doctest is named, unless the run ended before the doctests; and what
/// failed before it is told too.
pub proof fn law_failed_doctest_is_named<E>(
    options: TestOptions,
    test_args: Seq<&str>,
    compiled: Compilation,
    test: Test,
    errors: Vec<ProcessError>,
    doctest: Test,
    docerrors: Vec<ProcessError>,
    steps: Seq<(RunState, RunAction<E>)>,
)
    requires
        is_tests_run(
            options,
            test_args,
            Ok(compiled),
            Ok((test, errors)),
            Ok((doctest, docerrors)),
            steps,
        ),
        !options.no_run,
        docerrors@.len() > 0,
        errors@.len() == 0 || options.no_fail_fast,
    ensures
        steps.last().1 matches RunAction::Return(Ok(Some(error))) && error.test == doctest
            && error.causes@.len() == errors@.len() + docerrors@.len() && errors@.is_prefix_of(
            error.causes@,
        ) && error.causes@.skip(errors@.len() as int) == docerrors@,
{
    law_tests_verdict(
        options,
        test_args,
        Ok(compiled),
        Ok((test, errors)),
        Ok((doctest, docerrors)),
        steps,
    );
    lemma_verdict_steps(
        options,
        test_args,
        Ok(compiled),
        Ok((test, errors)),
        Ok((doctest, docerrors)),
        steps,
    );
    let error = steps.last().1->0->Ok_0->0;
    assert(error.causes@.skip(errors@.len() as int) =~= docerrors@);
}

/// What a run of tests ends with, read off its last step.
proof fn lemma_verdict_steps<E>(
    options: TestOptions,
    test_args: Seq<&str>,
    compiled: Result<Compilation, E>,
    unit_tests: Result<Outcome, E>,
    doc_tests: Result<Outcome, E>,
    steps: Seq<(RunState, RunAction<E>)>,
)
    requires
        is_tests_run(options, test_args, compiled, unit_tests, doc_tests, steps),
    ensures
        steps.last().1 is Return,
        verdict_view(steps.last().1->0) == tests_verdict(options, compiled, unit_tests, doc_tests),
{
    law_tests_verdict(options, test_args, compiled, unit_tests, doc_tests, steps);
}

/// The arguments have the given contents, one by one.
proof fn lemma_args(args: Seq<&str>, contents: Seq<Seq<char>>)
    requires
        args_view(args) == contents,
    ensures
        args.len() == contents.len(),
        forall|i: int| 0 <= i < args.len() ==> (#[trigger] args[i])@ == contents[i],
{
    assert(args_view(args).len() == args.len());
    assert forall|i: int| 0 <= i < args.len() implies (#[trigger] args[i])@ == contents[i] by {
        assert(args_view(args)[i] == args[i]@);
    }
}

/// The second compilation is the first one with its test executables in ascending
/// order: none is left out or added, and all else is the same.
pub open spec fn puts_tests_in_order(compiled: Compilation, sorted: Compilation) -> bool {
    &&& forall|i: int, j: int|
        #![trigger sorted.tests@[i], sorted.tests@[j]]
        0 <= i < j < sorted.tests@.len() ==> sorted.tests@[i].order <= sorted.tests@[j].order
    &&& sorted.tests@.to_multiset() == compiled.tests@.to_multiset()
    &&& forall|place: u64| #[trigger]
        at_place(sorted.tests@, place) == at_place(compiled.tests@, place)
    &&& sorted.to_doc_test == compiled.to_doc_test
    &&& sorted.host == compiled.host
    &&& sorted.deps_output == compiled.deps_output
    &&& sorted.native_dirs == compiled.native_dirs
    &&& sorted.target_runners == compiled.target_runners
}

proof fn lemma_in_order(compiled: Compilation, sorted: Compilation)
    requires
        sorted_compilation(compiled, sorted),
    ensures
        puts_tests_in_order(compiled, sorted),
{
    law_sorting_keeps_all(compiled.tests@, sorted.tests@);
}

/// A benchmark run compiles before it does anything else.
pub proof fn law_benchmark_run_begins_with_compiling<'a, E>(
    options: TestOptions,
    args: &[&'a str],
    state: RunState,
    result: (RunState, RunAction<'a, E>),
)
    requires
        call_ensures(run_benches::<E>, (&options, args, state, RunEvent::<E>::Begin), result),
    ensures
        result.0 is Compiling,
        result.1 is Compile,
{
}

/// What was compiled is run, unless the run was only to compile. Whatever the user
/// gave, nothing included, the executables get one argument more: those of the user
/// come first, as they are, and `--bench` comes last.
pub proof fn law_benchmark_run_selects_benchmarks<'a, E>(
    options: TestOptions,
    args: &[&'a str],
    state: RunState,
    compiled: Compilation,
    result: (RunState, RunAction<'a, E>),
)
    requires
        call_ensures(
            run_benches::<E>,
            (&options, args, state, RunEvent::<E>::Compiled(Ok(compiled))),
            result,
        ),
    ensures
        options.no_run ==> result.0 is Returned && result.1 == RunAction::<E>::Return(Ok(None)),
        !options.no_run ==> {
            &&& result.0 matches RunState::UnitTests { compilation } && puts_tests_in_order(
                compiled,
                compilation,
            )
            &&& result.1 matches RunAction::RunUnitTests { args: passed } && passed@.len()
                == args@.len() + 1 && passed@.last()@ == "--bench"@ && forall|i: int|
                0 <= i < args@.len() ==> (#[trigger] passed@[i])@ == args@[i]@
        },
{
    if !options.no_run {
        let passed = result.1->RunUnitTests_args;
        lemma_args(passed@, args_view(args@).push("--bench"@));
        lemma_in_order(compiled, result.0->UnitTests_compilation);
    }
}

/// A benchmark run ends with its executables: doctests are never asked for. It
/// succeeds if nothing failed; else it names what the executables came to, and tells
/// each failure.
pub proof fn law_benchmark_run_ends_with_the_executables<'a, E>(
    options: TestOptions,
    args: &[&'a str],
    state: RunState,
    test: Test,
    errors: Vec<ProcessError>,
    result: (RunState, RunAction<'a, E>),
)
    requires
        call_ensures(
            run_benches::<E>,
            (&options, args, state, RunEvent::<E>::UnitTests(Ok((test, errors)))),
            result,
        ),
    ensures
        result.0 is Returned,
        errors@.len() == 0 ==> result.1 == RunAction::<E>::Return(Ok(None)),
        errors@.len() > 0 ==> (result.1 matches RunAction::Return(Ok(Some(error))) && error.test
            == test && error.causes@ == errors@),
{
}

/// An error in compiling or in running the executables is what a benchmark run ends
/// with.
pub proof fn law_benchmark_run_returns_errors<'a, E>(
    options: TestOptions,
    args: &[&'a str],
    state: RunState,
    error: E,
    event: RunEvent<E>,
    result: (RunState, RunAction<'a, E>),
)
    requires
        call_ensures(run_benches::<E>, (&options, args, state, event), result),
        event == RunEvent::<E>::Compiled(Err(error)) || event == RunEvent::<E>::UnitTests(
            Err(error),
        ),
    ensures
        result.0 is Returned,
        result.1 matches RunAction::Return(Err(told)) && told == error,
{
}

/// The compilation whose tests are running is at hand, while the test executables
/// run and while the doctests do.
pub proof fn law_compilation_is_at_hand(state: RunState, found: Option<&Compilation>)
    requires
        call_ensures(RunState::compilation, (&state,), found),
    ensures
        state matches RunState::UnitTests { compilation } ==> (found matches Some(at_hand)
            && *at_hand == compilation),
        state matches RunState::DocTests { compilation, .. } ==> (found matches Some(at_hand)
            && *at_hand == compilation),
        state is Idle || state is Compiling || state is Returned ==> found is None,
{
}

/// Whatever comes in answer to what a test run asks for is taken.
pub proof fn law_test_run_answers_are_taken<'a, E>(
    options: TestOptions,
    test_args: &[&'a str],
    state: RunState,
    event: RunEvent<E>,
    result: (RunState, RunAction<'a, E>),
    compiled: Result<Compilation, E>,
    stage: Result<Outcome, E>,
)
    requires
        call_ensures(run_tests::<E>, (&options, test_args, state, event), result),
        fits(state, event),
    ensures
        fits(RunState::Idle, RunEvent::<E>::Begin),
        result.1 is Compile ==> fits(result.0, RunEvent::Compiled(compiled)),
        result.1 is RunUnitTests ==> fits(result.0, RunEvent::UnitTests(stage)),
        result.1 is RunDocTests ==> fits(result.0, RunEvent::DocTests(stage)),
{
}

/// Whatever comes in answer to what a benchmark run asks for is taken; and doctests
/// are never asked for.
pub proof fn law_benchmark_run_answers_are_taken<'a, E>(
    options: TestOptions,
    args: &[&'a str],
    state: RunState,
    event: RunEvent<E>,
    result: (RunState, RunAction<'a, E>),
    compiled: Result<Compilation, E>,
    stage: Result<Outcome, E>,
)
    requires
        call_ensures(run_benches::<E>, (&options, args, state, event), result),
        fits(state, event),
        !(event is DocTests),
    ensures
        result.1 is Compile ==> fits(result.0, RunEvent::Compiled(compiled)),
        result.1 is RunUnitTests ==> fits(result.0, RunEvent::UnitTests(stage)),
        !(result.1 is RunDocTests),
{
}

} // verus!
