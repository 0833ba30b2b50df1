use cargo_test::compile::compile_tests;
use cargo_test::lookup::{DirSet, KindMap};
use cargo_test::model::{
    BuildConfig, CargoTestError, Compilation, CompileKind, CompileOptions, Package, Target,
    TargetKind, Test, TestOptions, Unit, UnitOutput,
};
use cargo_test::run::{run_benches, run_tests, RunAction, RunEvent, RunState};
use cargo_util::ProcessError;
use std::path::PathBuf;

fn options(no_run: bool, no_fail_fast: bool) -> TestOptions {
    TestOptions {
        compile_opts: CompileOptions {
            build_config: BuildConfig { test_jobs: 1 },
        },
        no_run,
        no_fail_fast,
    }
}

fn output(name: &str, order: u64) -> UnitOutput {
    UnitOutput {
        unit: Unit {
            pkg: Package {
                name: "pkg".to_string(),
                root: PathBuf::from("/ws/pkg"),
            },
            target: Target {
                kind: TargetKind::Lib,
                name: name.to_string(),
                crate_name: name.to_string(),
                src_path: None,
                harness: true,
            },
            kind: CompileKind::Host,
        },
        path: PathBuf::from(name),
        script_meta: None,
        order,
    }
}

fn compilation(orders: &[(&str, u64)]) -> Compilation {
    let mut native_dirs = DirSet::new();
    native_dirs.insert(PathBuf::from("/native"));
    Compilation {
        tests: orders.iter().map(|(name, order)| output(name, *order)).collect(),
        to_doc_test: vec![],
        host: "host".to_string(),
        deps_output: KindMap::new(),
        native_dirs,
        target_runners: KindMap::new(),
    }
}

fn names(compilation: &Compilation) -> Vec<String> {
    compilation
        .tests
        .iter()
        .map(|test| test.unit.target.name.clone())
        .collect()
}

fn errors(messages: &[&str]) -> Vec<ProcessError> {
    messages
        .iter()
        .map(|m| ProcessError::new_raw(m, Some(1), "failed", None, None))
        .collect()
}

/// What a run returns: the test, and the causes.
fn verdict(
    returned: Result<Option<CargoTestError>, String>,
) -> Result<Option<(Test, Vec<String>)>, String> {
    match returned {
        Ok(Some(e)) => Ok(Some((
            e.test,
            e.causes.iter().map(|c| c.desc.clone()).collect(),
        ))),
        Ok(None) => Ok(None),
        Err(e) => Err(e),
    }
}

type Part = Result<(Test, Vec<ProcessError>), String>;

/// Runs the tests on what comes of their parts; the steps by name, and the verdict.
fn tests(
    options: &TestOptions,
    compiled: Result<Compilation, String>,
    unit_tests: Part,
    doc_tests: Part,
) -> (Vec<&'static str>, Result<Option<(Test, Vec<String>)>, String>) {
    let mut steps = Vec::new();
    let mut compiled = Some(compiled);
    let mut unit_tests = Some(unit_tests);
    let mut doc_tests = Some(doc_tests);
    let (mut state, mut action) = run_tests(options, &["x", "y"], RunState::Idle, RunEvent::Begin);
    loop {
        let event = match action {
            RunAction::Compile => {
                steps.push("compile");
                RunEvent::Compiled(compiled.take().unwrap())
            }
            RunAction::RunUnitTests { args } => {
                assert_eq!(args, vec!["x", "y"]);
                assert_eq!(names(state.compilation().unwrap()), vec!["a", "b"]);
                steps.push("unit");
                RunEvent::UnitTests(unit_tests.take().unwrap())
            }
            RunAction::RunDocTests { args } => {
                assert_eq!(args, vec!["x", "y"]);
                assert_eq!(names(state.compilation().unwrap()), vec!["a", "b"]);
                steps.push("doc");
                RunEvent::DocTests(doc_tests.take().unwrap())
            }
            RunAction::Return(returned) => {
                assert!(state.compilation().is_none());
                return (steps, verdict(returned));
            }
        };
        (state, action) = run_tests(options, &["x", "y"], state, event);
    }
}

fn two() -> Result<Compilation, String> {
    Ok(compilation(&[("b", 2), ("a", 1)]))
}

#[test]
fn a_run_without_failures_succeeds() {
    for no_fail_fast in [false, true] {
        let (steps, verdict) = tests(
            &options(false, no_fail_fast),
            two(),
            Ok((Test::Multiple, vec![])),
            Ok((Test::Doc, vec![])),
        );
        assert_eq!(steps, vec!["compile", "unit", "doc"]);
        assert_eq!(verdict, Ok(None));
    }
}

#[test]
fn a_run_that_only_compiles_runs_nothing() {
    let (steps, verdict) = tests(
        &options(true, false),
        two(),
        Err("not run".to_string()),
        Err("not run".to_string()),
    );
    assert_eq!(steps, vec!["compile"]);
    assert_eq!(verdict, Ok(None));
}

#[test]
fn a_failure_ends_a_run_that_fails_fast() {
    let (steps, verdict) = tests(
        &options(false, false),
        two(),
        Ok((Test::Multiple, errors(&["1", "2"]))),
        Err("not run".to_string()),
    );
    assert_eq!(steps, vec!["compile", "unit"]);
    let causes = vec!["1 (failed)".to_string(), "2 (failed)".to_string()];
    assert_eq!(verdict, Ok(Some((Test::Multiple, causes))));
}

#[test]
fn failures_add_up_where_the_run_goes_on() {
    let (steps, verdict) = tests(
        &options(false, true),
        two(),
        Ok((Test::Multiple, errors(&["1", "2"]))),
        Ok((Test::Doc, errors(&["3"]))),
    );
    assert_eq!(steps, vec!["compile", "unit", "doc"]);
    let causes = vec![
        "1 (failed)".to_string(),
        "2 (failed)".to_string(),
        "3 (failed)".to_string(),
    ];
    assert_eq!(verdict, Ok(Some((Test::Doc, causes))));
}

#[test]
fn the_test_executables_are_told_where_no_doctest_failed() {
    let (_, verdict) = tests(
        &options(false, true),
        two(),
        Ok((Test::Multiple, errors(&["1", "2"]))),
        Ok((Test::Doc, vec![])),
    );
    let causes = vec!["1 (failed)".to_string(), "2 (failed)".to_string()];
    assert_eq!(verdict, Ok(Some((Test::Multiple, causes))));
}

#[test]
fn a_failed_doctest_fails_the_run() {
    for no_fail_fast in [false, true] {
        let (_, verdict) = tests(
            &options(false, no_fail_fast),
            two(),
            Ok((Test::Multiple, vec![])),
            Ok((Test::Doc, errors(&["3"]))),
        );
        assert_eq!(
            verdict,
            Ok(Some((Test::Doc, vec!["3 (failed)".to_string()])))
        );
    }
}

#[test]
fn errors_of_the_parts_are_returned() {
    let ok = || Ok((Test::Multiple, vec![]));
    let o = options(false, true);
    let (steps, verdict) = tests(&o, Err("compile".to_string()), ok(), ok());
    assert_eq!((steps, verdict), (vec!["compile"], Err("compile".to_string())));
    let (steps, verdict) = tests(&o, two(), Err("unit".to_string()), ok());
    assert_eq!(
        (steps, verdict),
        (vec!["compile", "unit"], Err("unit".to_string()))
    );
    let (steps, verdict) = tests(&o, two(), ok(), Err("doc".to_string()));
    assert_eq!(
        (steps, verdict),
        (vec!["compile", "unit", "doc"], Err("doc".to_string()))
    );
}

/// Runs benchmarks on what comes of their parts.
fn benches(
    options: &TestOptions,
    compiled: Result<Compilation, String>,
    unit_tests: Part,
) -> (Vec<&'static str>, Result<Option<(Test, Vec<String>)>, String>) {
    let mut steps = Vec::new();
    let begin = RunEvent::<String>::Begin;
    let (state, action) = run_benches(options, &["x"], RunState::Idle, begin);
    assert!(matches!(action, RunAction::Compile));
    steps.push("compile");
    let (state, action) = run_benches(options, &["x"], state, RunEvent::Compiled(compiled));
    let args = match action {
        RunAction::RunUnitTests { args } => args,
        RunAction::Return(returned) => return (steps, verdict(returned)),
        _ => panic!("no other action"),
    };
    assert_eq!(args, vec!["x", "--bench"]);
    assert_eq!(names(state.compilation().unwrap()), vec!["a", "b"]);
    steps.push("unit");
    let (state, action) = run_benches(options, &["x"], state, RunEvent::UnitTests(unit_tests));
    assert!(matches!(state, RunState::Returned));
    match action {
        RunAction::Return(returned) => (steps, verdict(returned)),
        _ => panic!("no other action"),
    }
}

#[test]
fn benchmarks_run_without_doctests() {
    let (steps, verdict) = benches(&options(false, false), two(), Ok((Test::Multiple, vec![])));
    assert_eq!((steps, verdict), (vec!["compile", "unit"], Ok(None)));
    for no_fail_fast in [false, true] {
        let failed = Ok((Test::Multiple, errors(&["1", "2"])));
        let (steps, verdict) = benches(&options(false, no_fail_fast), two(), failed);
        assert_eq!(steps, vec!["compile", "unit"]);
        let causes = vec!["1 (failed)".to_string(), "2 (failed)".to_string()];
        assert_eq!(verdict, Ok(Some((Test::Multiple, causes))));
    }
}

#[test]
fn benchmarks_can_be_compiled_only() {
    let (steps, verdict) = benches(&options(true, false), two(), Err("not run".to_string()));
    assert_eq!((steps, verdict), (vec!["compile"], Ok(None)));
}

#[test]
fn errors_of_benchmarks_are_returned() {
    let o = options(false, false);
    let (_, verdict) = benches(&o, Err("compile".to_string()), Ok((Test::Multiple, vec![])));
    assert_eq!(verdict, Err("compile".to_string()));
    let (_, verdict) = benches(&o, two(), Err("unit".to_string()));
    assert_eq!(verdict, Err("unit".to_string()));
}

#[test]
fn tests_are_sorted() {
    let sorted = compile_tests(compilation(&[
        ("d", 4),
        ("b1", 2),
        ("a", 1),
        ("b2", 2),
        ("c", 3),
        ("b3", 2),
    ]));
    assert_eq!(names(&sorted), vec!["a", "b1", "b2", "b3", "c", "d"]);
    assert_eq!(sorted.host, "host");
    assert_eq!(*sorted.native_dirs.dirs(), vec![PathBuf::from("/native")]);
    assert!(compile_tests(compilation(&[])).tests.is_empty());
}

#[test]
fn whether_a_run_fails_fast_does_not_change_whether_it_succeeds() {
    for unit_failures in [&[][..], &["1"]] {
        for doc_failures in [&[][..], &["2"]] {
            let mut outcomes = Vec::new();
            for no_fail_fast in [false, true] {
                let (_, verdict) = tests(
                    &options(false, no_fail_fast),
                    two(),
                    Ok((Test::Multiple, errors(unit_failures))),
                    Ok((Test::Doc, errors(doc_failures))),
                );
                outcomes.push(verdict == Ok(None));
            }
            let succeeds = unit_failures.is_empty() && doc_failures.is_empty();
            assert_eq!(outcomes, vec![succeeds, succeeds]);
        }
    }
}
