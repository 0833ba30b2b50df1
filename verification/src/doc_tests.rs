//! The tests in the documentation of the compiled targets.
use crate::batch::Failure;
use crate::batch::TestBatch;
use crate::batch::TestBatchErrorDisplay;
use crate::model::Compilation;
use crate::model::CompileKind;
use crate::model::CompileKindView;
use crate::model::Config;
use crate::model::Doctest;
use crate::model::Test;
use crate::model::Unit;
use crate::path::os_text;
use crate::path::path_bytes;
use crate::path::push_os;
use crate::process::appended;
use crate::process::displays_process;
use crate::process::process_args;
use crate::process::process_cwd;
use crate::process::process_display;
use crate::process::process_env;
use crate::process::process_jobserver;
use crate::process::process_program;
use crate::process::process_shows_env;
use crate::process::push_path;
use crate::process::push_text;
use crate::process::same_process;
use crate::process::set_cwd;
use crate::shell::ShellAction;
use crate::shell::ShellActionView;
use crate::shell::TestBatchDisplay;
use crate::shell::Verbosity;
use crate::stage::answers;
use crate::stage::breaks_off;
use crate::stage::causes_of;
use crate::stage::contains_arg;
use crate::stage::goes_on;
use crate::stage::has_arg;
use crate::stage::into_causes;
use crate::stage::texts;
use crate::stage::Preparation;
use crate::stage::Stage;
use crate::stage::StageAction;
use crate::stage::StageEvent;
use crate::unit_tests::wants_color;
use cargo_util::ProcessBuilder;
use std::path::PathBuf;
use vstd::pervasive::unreached;
use vstd::prelude::*;
use vstd::string::to_string_from_display_ensures;
use vstd::utf8::encode_utf8;
use vstd::utf8::encode_utf8_valid_utf8;

verus! {

/// The doctests of a unit run: those of other platforms than the host only if
/// that was asked for.
pub open spec fn runs_doctest(config: Config, host: Seq<char>, kind: CompileKind) -> bool {
    config.doctest_xcompile || match kind {
        CompileKind::Host => true,
        CompileKind::Target(target) => target.short_name@ == host,
    }
}

/// Tells whether the doctests of a unit run.
pub fn should_run_doctest(config: &Config, host: &String, kind: &CompileKind) -> (run: bool)
    ensures
        run == runs_doctest(*config, host@, *kind),
{
    if config.doctest_xcompile {
        true
    } else {
        match kind {
            CompileKind::Host => true,
            CompileKind::Target(target) => target.short_name == *host,
        }
    }
}

/// A string as an argument.
pub open spec fn text(arg: Seq<char>) -> Seq<u8> {
    encode_utf8(arg)
}

/// Each of the values, with the flag in front of it.
pub open spec fn flagged(flag: Seq<u8>, values: Seq<Seq<u8>>) -> Seq<Seq<u8>>
    decreases values.len(),
{
    if values.len() == 0 {
        Seq::empty()
    } else {
        flagged(flag, values.drop_last()) + seq![flag, values.last()]
    }
}

/// Arguments that are paths.
pub open spec fn paths(values: Seq<PathBuf>) -> Seq<Seq<u8>> {
    values.map_values(|value: PathBuf| path_bytes(value))
}

/// Arguments that are strings.
pub open spec fn strings(values: Seq<String>) -> Seq<Seq<u8>> {
    values.map_values(|value: String| encode_utf8(value@))
}

/// What is tested, and the colours.
pub open spec fn crate_args(config: Config, test_args: Seq<&str>, unit: Unit) -> Seq<Seq<u8>> {
    seq![text("--crate-name"@), text(unit.target.crate_name@), text("--test"@)] + if wants_color(
        config,
        test_args,
    ) {
        seq![text("--color=always"@)]
    } else {
        seq![]
    }
}

/// Where the source is.
pub open spec fn source_args(config: Config, doctest: Doctest) -> Seq<Seq<u8>> {
    if config.doctest_in_workspace {
        seq![
            path_bytes(doctest.path_args.arg),
            text("-Z"@),
            text("unstable-options"@),
            text("--test-run-directory"@),
            path_bytes(doctest.unit.pkg.root),
        ]
    } else {
        seq![path_bytes(doctest.unit.target.src_path->0)]
    }
}

/// The platform that is compiled for.
pub open spec fn platform_args(kind: CompileKind) -> Seq<Seq<u8>> {
    match kind {
        CompileKind::Host => seq![],
        CompileKind::Target(target) => seq![text("--target"@), text(target.rustc_target@)],
    }
}

/// The program that runs the executables.
pub open spec fn runner_args(compilation: Compilation, kind: CompileKind) -> Seq<Seq<u8>> {
    if compilation.target_runners@.contains_key(kind@) {
        let runner = compilation.target_runners@[kind@];
        seq![text("--runtool"@), path_bytes(runner.program)] + flagged(
            text("--runtool-arg"@),
            strings(runner.args@),
        )
    } else {
        seq![]
    }
}

/// The linker.
pub open spec fn linker_args(linker: Option<PathBuf>) -> Seq<Seq<u8>> {
    match linker {
        Some(linker) => seq![text("-C"@), text("linker="@) + path_bytes(linker)],
        None => seq![],
    }
}

/// What doctests of other platforms need.
pub open spec fn cross_args(
    config: Config,
    compilation: Compilation,
    doctest: Doctest,
) -> Seq<Seq<u8>> {
    if config.doctest_xcompile {
        platform_args(doctest.unit.kind) + seq![
            text("-Zunstable-options"@),
            text("--enable-per-target-ignores"@),
        ] + runner_args(compilation, doctest.unit.kind) + linker_args(doctest.linker)
    } else {
        seq![]
    }
}

/// A directory with dependencies.
pub open spec fn dependency_args(dir: PathBuf) -> Seq<Seq<u8>> {
    seq![text("-L"@), text("dependency="@) + path_bytes(dir)]
}

/// Where libraries are found: dependencies of the unit and of the host, and
/// native libraries.
pub open spec fn library_args(compilation: Compilation, kind: CompileKind) -> Seq<Seq<u8>> {
    dependency_args(compilation.deps_output@[kind@]) + dependency_args(
        compilation.deps_output@[CompileKindView::Host],
    ) + flagged(text("-L"@), paths(compilation.native_dirs@))
}

/// What is passed on to the tests.
pub open spec fn passed_args(config: Config, test_args: Seq<&str>) -> Seq<Seq<u8>> {
    flagged(text("--test-args"@), texts(test_args)) + if config.verbosity == Verbosity::Quiet {
        seq![text("--test-args"@), text("--quiet"@)]
    } else {
        seq![]
    }
}

/// The arguments that the unit itself asks for.
pub open spec fn own_args(doctest: Doctest) -> Seq<Seq<u8>> {
    paths(doctest.args@) + if doctest.unstable_opts {
        seq![text("-Zunstable-options"@)]
    } else {
        seq![]
    }
}

/// The arguments of the process that tests the documentation of a unit.
pub open spec fn doc_test_args(
    config: Config,
    test_args: Seq<&str>,
    compilation: Compilation,
    doctest: Doctest,
) -> Seq<Seq<u8>> {
    crate_args(config, test_args, doctest.unit) + source_args(config, doctest) + cross_args(
        config,
        compilation,
        doctest,
    ) + library_args(compilation, doctest.unit.kind) + passed_args(config, test_args) + own_args(
        doctest,
    )
}

/// The source is known where it is asked for, and so are the directories of the
/// dependencies.
pub open spec fn has_doc_paths(
    config: Config,
    compilation: Compilation,
    doctest: Doctest,
) -> bool {
    &&& config.doctest_in_workspace || doctest.unit.target.src_path is Some
    &&& compilation.deps_output@.contains_key(doctest.unit.kind@)
    &&& compilation.deps_output@.contains_key(CompileKindView::Host)
}

/// The batch tests the documentation in the given process.
pub open spec fn is_doc_batch(
    config: Config,
    test_args: Seq<&str>,
    compilation: Compilation,
    doctest: Doctest,
    cmd: ProcessBuilder,
    batch: TestBatch,
) -> bool {
    let unit = doctest.unit;
    &&& process_args(batch.cmd) == process_args(cmd) + doc_test_args(
        config,
        test_args,
        compilation,
        doctest,
    )
    &&& process_cwd(batch.cmd) == if config.doctest_in_workspace {
        Some(path_bytes(doctest.path_args.cwd))
    } else {
        process_cwd(cmd)
    }
    &&& same_process(cmd, batch.cmd)
    &&& displays_process(batch.cmd, batch.display.exe_display)
    &&& batch.display.cmd_display is None
    &&& batch.error_display.target_kind == unit.target.kind
    &&& batch.error_display.target_name == unit.target.name
    &&& batch.error_display.pkg_name == unit.pkg.name
}

/// Puts a string and a value that begins with another one behind the arguments.
fn push_prefixed(cmd: &mut ProcessBuilder, flag: &str, prefix: &str, path: &PathBuf)
    ensures
        appended(
            *old(cmd),
            *final(cmd),
            seq![text(flag@), text(prefix@) + path_bytes(*path)],
        ),
{
    proof {
        encode_utf8_valid_utf8(prefix@);
    }
    push_text(cmd, flag);
    let mut arg = os_text(prefix);
    push_os(&mut arg, path);
    push_path(cmd, &arg);
    assert(process_args(*cmd) =~= process_args(*old(cmd)) + seq![
        text(flag@),
        text(prefix@) + path_bytes(*path),
    ]);
}

/// Puts paths behind the arguments.
fn push_paths(cmd: &mut ProcessBuilder, values: &Vec<PathBuf>)
    ensures
        appended(*old(cmd), *final(cmd), paths(values@)),
{
    let ghost all = paths(values@);
    let mut i: usize = 0;
    assert(process_args(*cmd) =~= process_args(*old(cmd)) + all.take(0));
    while i < values.len()
        invariant
            i <= values@.len(),
            all == paths(values@),
            appended(*old(cmd), *cmd, all.take(i as int)),
        decreases values.len() - i,
    {
        push_path(cmd, &values[i]);
        assert(process_args(*cmd) =~= process_args(*old(cmd)) + all.take(i + 1));
        i = i + 1;
    }
    assert(all.take(i as int) =~= all);
}

/// One more value with the flag in front of it.
proof fn lemma_flagged_step(flag: Seq<u8>, values: Seq<Seq<u8>>, i: int)
    requires
        0 <= i < values.len(),
    ensures
        flagged(flag, values.take(i + 1)) == flagged(flag, values.take(i)) + seq![
            flag,
            values[i],
        ],
{
    assert(values.take(i + 1).drop_last() =~= values.take(i));
}

/// Puts paths behind the arguments, each with the flag in front of it.
fn push_flagged_paths(cmd: &mut ProcessBuilder, flag: &str, values: &Vec<PathBuf>)
    ensures
        appended(*old(cmd), *final(cmd), flagged(text(flag@), paths(values@))),
{
    let ghost all = paths(values@);
    let ghost front = text(flag@);
    let mut i: usize = 0;
    assert(process_args(*cmd) =~= process_args(*old(cmd)) + flagged(front, all.take(0)));
    while i < values.len()
        invariant
            i <= values@.len(),
            all == paths(values@),
            front == text(flag@),
            appended(*old(cmd), *cmd, flagged(front, all.take(i as int))),
        decreases values.len() - i,
    {
        push_text(cmd, flag);
        push_path(cmd, &values[i]);
        proof {
            lemma_flagged_step(front, all, i as int);
        }
        assert(process_args(*cmd) =~= process_args(*old(cmd)) + flagged(front, all.take(i + 1)));
        i = i + 1;
    }
    assert(all.take(i as int) =~= all);
}

/// Puts strings behind the arguments, each with the flag in front of it.
fn push_flagged_strings(cmd: &mut ProcessBuilder, flag: &str, values: &Vec<String>)
    ensures
        appended(*old(cmd), *final(cmd), flagged(text(flag@), strings(values@))),
{
    let ghost all = strings(values@);
    let ghost front = text(flag@);
    let mut i: usize = 0;
    assert(process_args(*cmd) =~= process_args(*old(cmd)) + flagged(front, all.take(0)));
    while i < values.len()
        invariant
            i <= values@.len(),
            all == strings(values@),
            front == text(flag@),
            appended(*old(cmd), *cmd, flagged(front, all.take(i as int))),
        decreases values.len() - i,
    {
        push_text(cmd, flag);
        push_text(cmd, values[i].as_str());
        proof {
            lemma_flagged_step(front, all, i as int);
        }
        assert(process_args(*cmd) =~= process_args(*old(cmd)) + flagged(front, all.take(i + 1)));
        i = i + 1;
    }
    assert(all.take(i as int) =~= all);
}

/// Puts the arguments of the user behind those of a process, each with the flag
/// in front of it.
fn push_flagged_args(cmd: &mut ProcessBuilder, flag: &str, values: &[&str])
    ensures
        appended(*old(cmd), *final(cmd), flagged(text(flag@), texts(values@))),
{
    let ghost all = texts(values@);
    let ghost front = text(flag@);
    let mut i: usize = 0;
    assert(process_args(*cmd) =~= process_args(*old(cmd)) + flagged(front, all.take(0)));
    while i < values.len()
        invariant
            i <= values@.len(),
            all == texts(values@),
            front == text(flag@),
            appended(*old(cmd), *cmd, flagged(front, all.take(i as int))),
        decreases values.len() - i,
    {
        push_text(cmd, flag);
        push_text(cmd, values[i]);
        proof {
            lemma_flagged_step(front, all, i as int);
        }
        assert(process_args(*cmd) =~= process_args(*old(cmd)) + flagged(front, all.take(i + 1)));
        i = i + 1;
    }
    assert(all.take(i as int) =~= all);
}

fn push_crate_args(cmd: &mut ProcessBuilder, config: &Config, test_args: &[&str], unit: &Unit)
    ensures
        appended(*old(cmd), *final(cmd), crate_args(*config, test_args@, *unit)),
{
    push_text(cmd, "--crate-name");
    push_text(cmd, unit.target.crate_name.as_str());
    push_text(cmd, "--test");
    if !contains_arg(test_args, "--color=never") && config.err_supports_color {
        push_text(cmd, "--color=always");
    }
    assert(process_args(*cmd) =~= process_args(*old(cmd)) + crate_args(
        *config,
        test_args@,
        *unit,
    ));
}

fn push_source_args(cmd: &mut ProcessBuilder, config: &Config, doctest: &Doctest)
    requires
        config.doctest_in_workspace || doctest.unit.target.src_path is Some,
    ensures
        appended(*old(cmd), *final(cmd), source_args(*config, *doctest)),
{
    if config.doctest_in_workspace {
        push_path(cmd, &doctest.path_args.arg);
        push_text(cmd, "-Z");
        push_text(cmd, "unstable-options");
        push_text(cmd, "--test-run-directory");
        push_path(cmd, &doctest.unit.pkg.root);
    } else if let Some(src_path) = &doctest.unit.target.src_path {
        push_path(cmd, src_path);
    }
    assert(process_args(*cmd) =~= process_args(*old(cmd)) + source_args(*config, *doctest));
}

fn push_runner_args(cmd: &mut ProcessBuilder, compilation: &Compilation, kind: &CompileKind)
    ensures
        appended(*old(cmd), *final(cmd), runner_args(*compilation, *kind)),
{
    if let Some(runner) = compilation.target_runners.get(kind) {
        push_text(cmd, "--runtool");
        push_path(cmd, &runner.program);
        push_flagged_strings(cmd, "--runtool-arg", &runner.args);
    }
    assert(process_args(*cmd) =~= process_args(*old(cmd)) + runner_args(*compilation, *kind));
}

fn push_cross_args(
    cmd: &mut ProcessBuilder,
    config: &Config,
    compilation: &Compilation,
    doctest: &Doctest,
)
    ensures
        appended(*old(cmd), *final(cmd), cross_args(*config, *compilation, *doctest)),
{
    if config.doctest_xcompile {
        if let CompileKind::Target(target) = &doctest.unit.kind {
            push_text(cmd, "--target");
            push_text(cmd, target.rustc_target.as_str());
        }
        push_text(cmd, "-Zunstable-options");
        push_text(cmd, "--enable-per-target-ignores");
        push_runner_args(cmd, compilation, &doctest.unit.kind);
        if let Some(linker) = &doctest.linker {
            push_prefixed(cmd, "-C", "linker=", linker);
        }
    }
    assert(process_args(*cmd) =~= process_args(*old(cmd)) + cross_args(
        *config,
        *compilation,
        *doctest,
    ));
}

fn push_library_args(cmd: &mut ProcessBuilder, compilation: &Compilation, kind: &CompileKind)
    requires
        compilation.deps_output@.contains_key(kind@),
        compilation.deps_output@.contains_key(CompileKindView::Host),
    ensures
        appended(*old(cmd), *final(cmd), library_args(*compilation, *kind)),
{
    if let Some(dir) = compilation.deps_output.get(kind) {
        push_prefixed(cmd, "-L", "dependency=", dir);
    }
    if let Some(dir) = compilation.deps_output.get(&CompileKind::Host) {
        push_prefixed(cmd, "-L", "dependency=", dir);
    }
    push_flagged_paths(cmd, "-L", compilation.native_dirs.dirs());
    assert(process_args(*cmd) =~= process_args(*old(cmd)) + library_args(*compilation, *kind));
}

fn push_passed_args(cmd: &mut ProcessBuilder, config: &Config, test_args: &[&str])
    ensures
        appended(*old(cmd), *final(cmd), passed_args(*config, test_args@)),
{
    push_flagged_args(cmd, "--test-args", test_args);
    if config.verbosity == Verbosity::Quiet {
        push_text(cmd, "--test-args");
        push_text(cmd, "--quiet");
    }
    assert(process_args(*cmd) =~= process_args(*old(cmd)) + passed_args(*config, test_args@));
}

fn push_own_args(cmd: &mut ProcessBuilder, doctest: &Doctest)
    ensures
        appended(*old(cmd), *final(cmd), own_args(*doctest)),
{
    push_paths(cmd, &doctest.args);
    if doctest.unstable_opts {
        push_text(cmd, "-Zunstable-options");
    }
    assert(process_args(*cmd) =~= process_args(*old(cmd)) + own_args(*doctest));
}

/// Makes a batch of the doctests of a unit.
pub fn doc_test_batch(
    config: &Config,
    test_args: &[&str],
    compilation: &Compilation,
    doctest: &Doctest,
    cmd: ProcessBuilder,
) -> (batch: TestBatch)
    requires
        has_doc_paths(*config, *compilation, *doctest),
    ensures
        is_doc_batch(*config, test_args@, *compilation, *doctest, cmd, batch),
{
    let ghost before = cmd;
    let mut cmd = cmd;
    push_crate_args(&mut cmd, config, test_args, &doctest.unit);
    push_source_args(&mut cmd, config, doctest);
    if config.doctest_in_workspace {
        set_cwd(&mut cmd, &doctest.path_args.cwd);
    }
    push_cross_args(&mut cmd, config, compilation, doctest);
    push_library_args(&mut cmd, compilation, &doctest.unit.kind);
    push_passed_args(&mut cmd, config, test_args);
    push_own_args(&mut cmd, doctest);
    assert(process_args(cmd) =~= process_args(before) + doc_test_args(
        *config,
        test_args@,
        *compilation,
        *doctest,
    ));
    let exe_display = process_display(&cmd);
    TestBatch {
        display: TestBatchDisplay { exe_display, cmd_display: None },
        error_display: TestBatchErrorDisplay {
            target_kind: doctest.unit.target.kind,
            target_name: doctest.unit.target.name.clone(),
            pkg_name: doctest.unit.pkg.name.clone(),
        },
        cmd,
    }
}

/// The first doctest to run from the given position on; it is announced by the
/// name of its target.
pub open spec fn next_doctest(config: Config, compilation: Compilation, from: int) -> Option<
    Preparation,
>
    decreases compilation.to_doc_test@.len() - from,
{
    if from >= compilation.to_doc_test@.len() {
        None
    } else {
        let unit = compilation.to_doc_test@[from].unit;
        if runs_doctest(config, compilation.host@, unit.kind) {
            Some((from, Some(ShellActionView::Status("Doc-tests"@, unit.target.name@))))
        } else {
            next_doctest(config, compilation, from + 1)
        }
    }
}

/// The stage can take the event: it has asked for it, and for a process that was
/// made the paths are known.
pub open spec fn doc_stage_ok<E>(
    config: Config,
    compilation: Compilation,
    stage: Stage,
    event: StageEvent<E>,
) -> bool {
    &&& answers(stage, event)
    &&& stage matches Stage::Preparing { batches, index } ==> index
        < compilation.to_doc_test@.len()
    &&& event matches StageEvent::Process(Ok(_)) ==> has_doc_paths(
        config,
        compilation,
        compilation.to_doc_test@[stage->index as int],
    )
}

/// One step of the stage: the batches are made of the doctests in turn, without
/// those that do not run, and then run. An error ends the stage at once.
pub open spec fn doc_step<E>(
    config: Config,
    test_args: Seq<&str>,
    compilation: Compilation,
    stage: Stage,
    event: StageEvent<E>,
    result: (Stage, StageAction<E>),
) -> bool {
    match event {
        StageEvent::Begin => goes_on(Seq::empty(), next_doctest(config, compilation, 0), result),
        StageEvent::Process(Err(e)) => breaks_off(e, result),
        StageEvent::Process(Ok(cmd)) => exists|batch: TestBatch|
            {
                &&& #[trigger] is_doc_batch(
                    config,
                    test_args,
                    compilation,
                    compilation.to_doc_test@[stage->index as int],
                    cmd,
                    batch,
                )
                &&& goes_on(
                    stage->batches@.push(batch),
                    next_doctest(config, compilation, stage->index + 1),
                    result,
                )
            },
        StageEvent::Ran(Err(e)) => breaks_off(e, result),
        StageEvent::Ran(Ok(errors)) => {
            &&& result.0 is Returned
            &&& result.1 matches StageAction::Return(Ok(outcome))
            &&& outcome.0 == Test::Doc
            &&& outcome.1@ == causes_of(errors@)
        },
    }
}

/// Goes on with the next doctest to run, or runs the batches.
fn prepare_next<E>(
    config: &Config,
    compilation: &Compilation,
    batches: Vec<TestBatch>,
    from: usize,
) -> (result: (Stage, StageAction<E>))
    requires
        from <= compilation.to_doc_test@.len(),
    ensures
        goes_on(batches@, next_doctest(*config, *compilation, from as int), result),
{
    let mut index: usize = from;
    while index < compilation.to_doc_test.len()
        invariant
            index <= compilation.to_doc_test@.len(),
            next_doctest(*config, *compilation, from as int) == next_doctest(
                *config,
                *compilation,
                index as int,
            ),
        decreases compilation.to_doc_test.len() - index,
    {
        let unit = &compilation.to_doc_test[index].unit;
        if should_run_doctest(config, &compilation.host, &unit.kind) {
            let announce = ShellAction::Status("Doc-tests".to_owned(), unit.target.name.clone());
            return (
                Stage::Preparing { batches, index },
                StageAction::Prepare { index, announce: Some(announce) },
            );
        }
        index = index + 1;
    }
    (Stage::Running, StageAction::Run(batches))
}

/// Runs the doctests: from where the stage is and what has happened, to where it
/// is then and what is to be done.
pub fn run_doc_tests<E>(
    config: &Config,
    test_args: &[&str],
    compilation: &Compilation,
    stage: Stage,
    event: StageEvent<E>,
) -> (result: (Stage, StageAction<E>))
    requires
        doc_stage_ok(*config, *compilation, stage, event),
    ensures
        doc_step(*config, test_args@, *compilation, stage, event, result),
{
    match event {
        StageEvent::Begin => {
            let batches: Vec<TestBatch> = Vec::new();
            assert(batches@ =~= Seq::empty());
            prepare_next(config, compilation, batches, 0)
        },
        StageEvent::Process(Err(e)) | StageEvent::Ran(Err(e)) => (
            Stage::Returned,
            StageAction::Return(Err(e)),
        ),
        StageEvent::Process(Ok(cmd)) => match stage {
            Stage::Preparing { mut batches, index } => {
                let doctest = &compilation.to_doc_test[index];
                let batch = doc_test_batch(config, test_args, compilation, doctest, cmd);
                batches.push(batch);
                assert(index < compilation.to_doc_test.len());
                prepare_next(config, compilation, batches, index + 1)
            },
            _ => unreached(),
        },
        StageEvent::Ran(Ok(errors)) => (
            Stage::Returned,
            StageAction::Return(Ok((Test::Doc, into_causes(errors)))),
        ),
    }
}

/// The positions, from the given one on, of the doctests that run.
pub open spec fn doctests_from(config: Config, compilation: Compilation, from: int) -> Seq<int>
    decreases compilation.to_doc_test@.len() - from,
{
    if from >= compilation.to_doc_test@.len() {
        Seq::empty()
    } else {
        let rest = doctests_from(config, compilation, from + 1);
        if runs_doctest(config, compilation.host@, compilation.to_doc_test@[from].unit.kind) {
            seq![from] + rest
        } else {
            rest
        }
    }
}

/// Where doctests of other platforms run too, all doctests run.
pub proof fn law_all_platforms_run(config: Config, compilation: Compilation, from: int)
    requires
        config.doctest_xcompile,
        0 <= from <= compilation.to_doc_test@.len(),
    ensures
        doctests_from(config, compilation, from) == Seq::new(
            (compilation.to_doc_test@.len() - from) as nat,
            |i: int| from + i,
        ),
    decreases compilation.to_doc_test@.len() - from,
{
    let all = Seq::new(
        (compilation.to_doc_test@.len() - from) as nat,
        |i: int| from + i,
    );
    if from < compilation.to_doc_test@.len() {
        law_all_platforms_run(config, compilation, from + 1);
        assert(doctests_from(config, compilation, from) =~= all);
    } else {
        assert(all =~= Seq::empty());
    }
}

/// A doctest runs if, and only if, its platform does; each one that runs does so
/// once, in order.
pub proof fn law_selected_doctests(config: Config, compilation: Compilation, from: int)
    requires
        0 <= from,
    ensures
        ({
            let positions = doctests_from(config, compilation, from);
            &&& forall|i: int| #[trigger]
                positions.contains(i) <==> from <= i < compilation.to_doc_test@.len()
                    && runs_doctest(
                    config,
                    compilation.host@,
                    compilation.to_doc_test@[i].unit.kind,
                )
            &&& forall|a: int, b: int|
                #![trigger positions[a], positions[b]]
                0 <= a < b < positions.len() ==> positions[a] < positions[b]
        }),
    decreases compilation.to_doc_test@.len() - from,
{
    let positions = doctests_from(config, compilation, from);
    if from < compilation.to_doc_test@.len() {
        law_selected_doctests(config, compilation, from + 1);
        let rest = doctests_from(config, compilation, from + 1);
        if runs_doctest(config, compilation.host@, compilation.to_doc_test@[from].unit.kind) {
            assert(positions[0] == from);
            assert forall|i: int| #[trigger] positions.contains(i) <==> i == from
                || rest.contains(i) by {
                if rest.contains(i) {
                    let k = choose|k: int| 0 <= k < rest.len() && rest[k] == i;
                    assert(positions[k + 1] == i);
                }
                if positions.contains(i) && i != from {
                    let k = choose|k: int| 0 <= k < positions.len() && positions[k] == i;
                    assert(rest[k - 1] == i);
                }
            }
            assert forall|a: int, b: int|
                #![trigger positions[a], positions[b]]
                0 <= a < b < positions.len() implies positions[a] < positions[b] by {
                assert(positions[b] == rest[b - 1]);
                assert(rest.contains(rest[b - 1]));
                if a > 0 {
                    assert(positions[a] == rest[a - 1]);
                }
            }
        } else {
            assert forall|i: int| #[trigger] positions.contains(i) <==> rest.contains(i) by {}
        }
    }
}

/// A user who does not want colours gets the arguments of a terminal that cannot
/// show them.
pub proof fn law_color_never_stands(
    config: Config,
    test_args: Seq<&str>,
    compilation: Compilation,
    doctest: Doctest,
)
    requires
        has_arg(test_args, "--color=never"@),
    ensures
        doc_test_args(config, test_args, compilation, doctest) == doc_test_args(
            (Config { err_supports_color: false, ..config }),
            test_args,
            compilation,
            doctest,
        ),
{
}

/// The batches run the doctests at these positions in the given processes, in
/// order.
pub open spec fn docs_prepared(
    config: Config,
    test_args: Seq<&str>,
    compilation: Compilation,
    positions: Seq<int>,
    cmds: Seq<ProcessBuilder>,
    batches: Seq<TestBatch>,
) -> bool {
    &&& batches.len() == cmds.len()
    &&& forall|i: int|
        0 <= i < batches.len() ==> is_doc_batch(
            config,
            test_args,
            compilation,
            compilation.to_doc_test@[positions[i]],
            cmds[i],
            #[trigger] batches[i],
        )
}

/// The results of the steps of a stage that is given these processes.
pub open spec fn is_doc_stage<E>(
    config: Config,
    test_args: Seq<&str>,
    compilation: Compilation,
    cmds: Seq<ProcessBuilder>,
    steps: Seq<(Stage, StageAction<E>)>,
) -> bool {
    &&& steps.len() == cmds.len() + 1
    &&& doc_step(config, test_args, compilation, Stage::Idle, StageEvent::<E>::Begin, steps[0])
    &&& forall|i: int|
        #![trigger cmds[i]]
        0 <= i < cmds.len() ==> doc_step(
            config,
            test_args,
            compilation,
            steps[i].0,
            StageEvent::<E>::Process(Ok(cmds[i])),
            steps[i + 1],
        )
}

/// A process is asked for each doctest that runs, in turn, and for no other.
/// Once each has one, all are run: one batch for each, in order.
pub proof fn law_every_selected_doctest_is_run<E>(
    config: Config,
    test_args: Seq<&str>,
    compilation: Compilation,
    cmds: Seq<ProcessBuilder>,
    steps: Seq<(Stage, StageAction<E>)>,
)
    requires
        is_doc_stage(config, test_args, compilation, cmds, steps),
        cmds.len() <= doctests_from(config, compilation, 0).len(),
    ensures
        ({
            let positions = doctests_from(config, compilation, 0);
            if cmds.len() < positions.len() {
                steps.last().1 matches StageAction::Prepare { index, .. } && index
                    == positions[cmds.len() as int]
            } else {
                steps.last().1 matches StageAction::Run(batches) && docs_prepared(
                    config,
                    test_args,
                    compilation,
                    positions,
                    cmds,
                    batches@,
                )
            }
        }),
{
    let positions = doctests_from(config, compilation, 0);
    let (batches, from) = lemma_docs_prepared(config, test_args, compilation, cmds, steps);
    lemma_next_doctest(config, compilation, from);
    let left = positions.skip(cmds.len() as int);
    if cmds.len() < positions.len() {
        assert(left[0] == positions[cmds.len() as int]);
        let (index, announce) = next_doctest(config, compilation, from)->0;
        assert((seq![index] + doctests_from(config, compilation, index + 1))[0] == index);
    } else {
        assert(left.len() == 0);
        assert(next_doctest(config, compilation, from) is None);
    }
}

/// An error for a doctest, in being announced or in getting its process, ends the
/// stage with that error. Until then no batch has been run, and no doctest after it
/// has been announced.
pub proof fn law_error_runs_no_doctest<E>(
    config: Config,
    test_args: Seq<&str>,
    compilation: Compilation,
    cmds: Seq<ProcessBuilder>,
    steps: Seq<(Stage, StageAction<E>)>,
    error: E,
    result: (Stage, StageAction<E>),
)
    requires
        is_doc_stage(config, test_args, compilation, cmds, steps),
        cmds.len() < doctests_from(config, compilation, 0).len(),
        doc_step(
            config,
            test_args,
            compilation,
            steps.last().0,
            StageEvent::Process(Err(error)),
            result,
        ),
    ensures
        breaks_off(error, result),
        forall|k: int|
            0 <= k < steps.len() ==> ((#[trigger] steps[k]).1 matches StageAction::Prepare {
                index,
                ..
            } && index == doctests_from(config, compilation, 0)[k]),
{
    assert forall|k: int| 0 <= k < steps.len() implies ((
    #[trigger] steps[k]).1 matches StageAction::Prepare { index, .. } && index == doctests_from(
        config,
        compilation,
        0,
    )[k]) by {
        let some = cmds.take(k);
        let past = steps.take(k + 1);
        assert forall|i: int| #![trigger some[i]] 0 <= i < some.len() implies doc_step(
            config,
            test_args,
            compilation,
            past[i].0,
            StageEvent::<E>::Process(Ok(some[i])),
            past[i + 1],
        ) by {
            assert(some[i] == cmds[i]);
        }
        law_every_selected_doctest_is_run(config, test_args, compilation, some, past);
    }
}

/// The next doctest is the first of those that run.
proof fn lemma_next_doctest(config: Config, compilation: Compilation, from: int)
    requires
        from <= compilation.to_doc_test@.len(),
    ensures
        match next_doctest(config, compilation, from) {
            Some((index, _)) => {
                &&& from <= index < compilation.to_doc_test@.len()
                &&& doctests_from(config, compilation, from) == seq![index] + doctests_from(
                    config,
                    compilation,
                    index + 1,
                )
            },
            None => doctests_from(config, compilation, from).len() == 0,
        },
    decreases compilation.to_doc_test@.len() - from,
{
    if from < compilation.to_doc_test@.len() {
        lemma_next_doctest(config, compilation, from + 1);
    }
}

proof fn lemma_docs_prepared<E>(
    config: Config,
    test_args: Seq<&str>,
    compilation: Compilation,
    cmds: Seq<ProcessBuilder>,
    steps: Seq<(Stage, StageAction<E>)>,
) -> (result: (Seq<TestBatch>, int))
    requires
        is_doc_stage(config, test_args, compilation, cmds, steps),
        cmds.len() <= doctests_from(config, compilation, 0).len(),
    ensures
        ({
            let (batches, from) = result;
            let positions = doctests_from(config, compilation, 0);
            &&& docs_prepared(config, test_args, compilation, positions, cmds, batches)
            &&& goes_on(batches, next_doctest(config, compilation, from), steps.last())
            &&& from <= compilation.to_doc_test@.len()
            &&& doctests_from(config, compilation, from) == positions.skip(cmds.len() as int)
        }),
    decreases cmds.len(),
{
    let positions = doctests_from(config, compilation, 0);
    if cmds.len() == 0 {
        assert(positions.skip(0) =~= positions);
        (Seq::empty(), 0)
    } else {
        let past = cmds.drop_last();
        let before = steps.drop_last();
        assert forall|i: int| #![trigger past[i]] 0 <= i < past.len() implies doc_step(
            config,
            test_args,
            compilation,
            before[i].0,
            StageEvent::<E>::Process(Ok(past[i])),
            before[i + 1],
        ) by {
            assert(past[i] == cmds[i]);
        }
        let (made, from) = lemma_docs_prepared(config, test_args, compilation, past, before);
        let last = cmds.len() - 1;
        assert(cmds[last] == cmds.last());
        lemma_next_doctest(config, compilation, from);
        let index = positions[last];
        assert(positions.skip(last)[0] == index);
        assert(positions.skip(last).drop_first() =~= positions.skip(cmds.len() as int));
        assert((seq![index] + doctests_from(config, compilation, index + 1)).drop_first()
            =~= doctests_from(config, compilation, index + 1));
        let doctest = compilation.to_doc_test@[index];
        let batch = choose|batch: TestBatch|
            {
                &&& #[trigger] is_doc_batch(
                    config,
                    test_args,
                    compilation,
                    doctest,
                    cmds[last],
                    batch,
                )
                &&& goes_on(
                    made.push(batch),
                    next_doctest(config, compilation, index + 1),
                    steps.last(),
                )
            };
        let batches = made.push(batch);
        assert forall|i: int| 0 <= i < batches.len() implies is_doc_batch(
            config,
            test_args,
            compilation,
            compilation.to_doc_test@[positions[i]],
            cmds[i],
            #[trigger] batches[i],
        ) by {
            if i < last {
                assert(is_doc_batch(
                    config,
                    test_args,
                    compilation,
                    compilation.to_doc_test@[positions[i]],
                    past[i],
                    made[i],
                ));
            }
        }
        (batches, index + 1)
    }
}

/// The doctests of a unit run if that was asked for of all platforms, or if the unit
/// is for the host, or for a platform of the name of the host; else they do not.
pub proof fn law_which_doctests_run(config: Config, host: String, kind: CompileKind, run: bool)
    requires
        call_ensures(should_run_doctest, (&config, &host, &kind), run),
    ensures
        config.doctest_xcompile ==> run,
        kind is Host ==> run,
        kind matches CompileKind::Target(target) ==> (!config.doctest_xcompile ==> (run
            <==> target.short_name@ == host@)),
        run == runs_doctest(config, host@, kind),
{
}

/// Values with a flag are pairs of the flag and a value, in order.
proof fn lemma_flagged_len(flag: Seq<u8>, values: Seq<Seq<u8>>)
    ensures
        flagged(flag, values).len() == 2 * values.len(),
    decreases values.len(),
{
    if values.len() > 0 {
        lemma_flagged_len(flag, values.drop_last());
    }
}

proof fn lemma_flagged_at(flag: Seq<u8>, values: Seq<Seq<u8>>, i: int)
    requires
        0 <= i < values.len(),
    ensures
        flagged(flag, values).len() == 2 * values.len(),
        flagged(flag, values)[2 * i] == flag,
        flagged(flag, values)[2 * i + 1] == values[i],
    decreases values.len(),
{
    let past = values.drop_last();
    lemma_flagged_len(flag, past);
    if i < past.len() {
        lemma_flagged_at(flag, past, i);
    }
}

/// Where a part of a sequence stands.
proof fn lemma_part(
    whole: Seq<Seq<u8>>,
    front: Seq<Seq<u8>>,
    part: Seq<Seq<u8>>,
    rest: Seq<Seq<u8>>,
)
    requires
        whole == front + part + rest,
    ensures
        whole.len() == front.len() + part.len() + rest.len(),
        forall|i: int| 0 <= i < part.len() ==> whole[front.len() + i] == #[trigger] part[i],
{
}

/// What is passed on to the tests: the arguments of the user and `--quiet`.
proof fn lemma_passed_args(config: Config, test_args: Seq<&str>)
    ensures
        ({
            let passed = passed_args(config, test_args);
            let quiet = if config.verbosity is Quiet {
                2int
            } else {
                0
            };
            &&& passed.len() == 2 * test_args.len() + quiet
            &&& forall|i: int|
                0 <= i < test_args.len() ==> (passed[2 * i], passed[2 * i + 1]) == (
                    encode_utf8("--test-args"@),
                    encode_utf8((#[trigger] test_args[i])@),
                )
            &&& config.verbosity is Quiet ==> passed[2 * test_args.len() as int] == encode_utf8(
                "--test-args"@,
            ) && passed[2 * test_args.len() as int + 1] == encode_utf8("--quiet"@)
        }),
{
    let passed = passed_args(config, test_args);
    let flag = text("--test-args"@);
    lemma_flagged_len(flag, texts(test_args));
    assert forall|i: int| 0 <= i < test_args.len() implies (passed[2 * i], passed[2 * i + 1]) == (
        encode_utf8("--test-args"@),
        encode_utf8((#[trigger] test_args[i])@),
    ) by {
        lemma_flagged_at(flag, texts(test_args), i);
        assert(texts(test_args)[i] == encode_utf8(test_args[i]@));
        assert(passed[2 * i] == flagged(flag, texts(test_args))[2 * i]);
        assert(passed[2 * i + 1] == flagged(flag, texts(test_args))[2 * i + 1]);
    }
}

/// What the unit itself asks for.
proof fn lemma_own_args(doctest: Doctest)
    ensures
        ({
            let own = own_args(doctest);
            let unstable = if doctest.unstable_opts {
                1int
            } else {
                0
            };
            &&& own.len() == doctest.args@.len() + unstable
            &&& forall|i: int|
                0 <= i < doctest.args@.len() ==> own[i] == path_bytes(#[trigger] doctest.args@[i])
            &&& doctest.unstable_opts ==> own[doctest.args@.len() as int] == encode_utf8(
                "-Zunstable-options"@,
            )
        }),
{
    let own = own_args(doctest);
    assert forall|i: int| 0 <= i < doctest.args@.len() implies own[i] == path_bytes(
        #[trigger] doctest.args@[i],
    ) by {
        assert(own[i] == paths(doctest.args@)[i]);
    }
}

/// Where libraries are found.
proof fn lemma_library_args(compilation: Compilation, kind: CompileKind)
    ensures
        ({
            let found = library_args(compilation, kind);
            let dirs = compilation.native_dirs@;
            &&& found.len() == 4 + 2 * dirs.len()
            &&& found[0] == encode_utf8("-L"@)
            &&& found[1] == encode_utf8("dependency="@) + path_bytes(
                compilation.deps_output@[kind@],
            )
            &&& found[2] == encode_utf8("-L"@)
            &&& found[3] == encode_utf8("dependency="@) + path_bytes(
                compilation.deps_output@[CompileKindView::Host],
            )
            &&& forall|i: int|
                0 <= i < dirs.len() ==> (found[4 + 2 * i], found[5 + 2 * i]) == (
                    encode_utf8("-L"@),
                    path_bytes(#[trigger] dirs[i]),
                )
        }),
{
    let found = library_args(compilation, kind);
    let dirs = compilation.native_dirs@;
    let native = flagged(text("-L"@), paths(dirs));
    lemma_flagged_len(text("-L"@), paths(dirs));
    assert forall|i: int| 0 <= i < dirs.len() implies (found[4 + 2 * i], found[5 + 2 * i]) == (
        encode_utf8("-L"@),
        path_bytes(#[trigger] dirs[i]),
    ) by {
        lemma_flagged_at(text("-L"@), paths(dirs), i);
        assert(paths(dirs)[i] == path_bytes(dirs[i]));
        assert(found[4 + 2 * i] == native[2 * i]);
        assert(found[4 + (2 * i + 1)] == native[2 * i + 1]);
    }
}

/// The runner with its arguments.
proof fn lemma_runner_args(compilation: Compilation, kind: CompileKind)
    ensures
        ({
            let runners = compilation.target_runners@;
            let found = runner_args(compilation, kind);
            let given = runners[kind@].args@;
            &&& !runners.contains_key(kind@) ==> found.len() == 0
            &&& runners.contains_key(kind@) ==> {
                &&& found.len() == 2 + 2 * given.len()
                &&& found[0] == encode_utf8("--runtool"@)
                &&& found[1] == path_bytes(runners[kind@].program)
                &&& forall|i: int|
                    0 <= i < given.len() ==> (found[2 + 2 * i], found[3 + 2 * i]) == (
                        encode_utf8("--runtool-arg"@),
                        encode_utf8((#[trigger] given[i])@),
                    )
            }
        }),
{
    let runners = compilation.target_runners@;
    if runners.contains_key(kind@) {
        let found = runner_args(compilation, kind);
        let given = runners[kind@].args@;
        let flag = text("--runtool-arg"@);
        lemma_flagged_len(flag, strings(given));
        assert forall|i: int| 0 <= i < given.len() implies (found[2 + 2 * i], found[3 + 2 * i]) == (
            encode_utf8("--runtool-arg"@),
            encode_utf8((#[trigger] given[i])@),
        ) by {
            lemma_flagged_at(flag, strings(given), i);
            assert(strings(given)[i] == encode_utf8(given[i]@));
            assert(found[2 + 2 * i] == flagged(flag, strings(given))[2 * i]);
            assert(found[2 + (2 * i + 1)] == flagged(flag, strings(given))[2 * i + 1]);
        }
    }
}

/// Where the parts of the arguments of a doctest stand, and how long the first two
/// are.
proof fn lemma_doc_args_parts(
    config: Config,
    test_args: Seq<&str>,
    compilation: Compilation,
    doctest: Doctest,
    cmd: ProcessBuilder,
    batch: TestBatch,
) -> (parts: (Seq<Seq<u8>>, Seq<Seq<u8>>, Seq<Seq<u8>>, Seq<Seq<u8>>, Seq<Seq<u8>>))
    requires
        is_doc_batch(config, test_args, compilation, doctest, cmd, batch),
    ensures
        ({
            let (front, cross, library, passed, own) = parts;
            let args = process_args(batch.cmd);
            &&& front == process_args(cmd) + (crate_args(config, test_args, doctest.unit)
                + source_args(config, doctest))
            &&& cross == cross_args(config, compilation, doctest)
            &&& library == library_args(compilation, doctest.unit.kind)
            &&& passed == passed_args(config, test_args)
            &&& own == own_args(doctest)
            &&& args == front + cross + library + passed + own
        }),
{
    let front = process_args(cmd) + (crate_args(config, test_args, doctest.unit) + source_args(
        config,
        doctest,
    ));
    let cross = cross_args(config, compilation, doctest);
    let library = library_args(compilation, doctest.unit.kind);
    let passed = passed_args(config, test_args);
    let own = own_args(doctest);
    assert(process_args(batch.cmd) =~= front + cross + library + passed + own);
    (front, cross, library, passed, own)
}

/// How long the front of the arguments of a doctest is.
proof fn lemma_doc_args_front(config: Config, test_args: Seq<&str>, doctest: Doctest)
    ensures
        ({
            let refused = exists|i: int|
                0 <= i < test_args.len() && (#[trigger] test_args[i])@ == "--color=never"@;
            let colored = if config.err_supports_color && !refused {
                1int
            } else {
                0
            };
            let source = if config.doctest_in_workspace {
                5int
            } else {
                1
            };
            &&& crate_args(config, test_args, doctest.unit).len() == 3 + colored
            &&& source_args(config, doctest).len() == source
        }),
{
}

/// Where the last two parts of a sequence stand.
proof fn lemma_tail(
    args: Seq<Seq<u8>>,
    head: Seq<Seq<u8>>,
    passed: Seq<Seq<u8>>,
    own: Seq<Seq<u8>>,
)
    requires
        args == head + passed + own,
    ensures
        args.len() == head.len() + passed.len() + own.len(),
        forall|i: int| 0 <= i < passed.len() ==> args[head.len() + i] == #[trigger] passed[i],
        forall|i: int|
            0 <= i < own.len() ==> args[head.len() + passed.len() + i] == #[trigger] own[i],
{
}

/// The arguments of a doctest, cut in front of what is passed on to the tests.
proof fn lemma_doc_args_head(
    config: Config,
    test_args: Seq<&str>,
    compilation: Compilation,
    doctest: Doctest,
    cmd: ProcessBuilder,
    batch: TestBatch,
) -> (head: Seq<Seq<u8>>)
    requires
        is_doc_batch(config, test_args, compilation, doctest, cmd, batch),
    ensures
        process_args(batch.cmd) == head + passed_args(config, test_args) + own_args(doctest),
        head.len() > process_args(cmd).len(),
{
    let (front, cross, library, passed, own) = lemma_doc_args_parts(
        config,
        test_args,
        compilation,
        doctest,
        cmd,
        batch,
    );
    front + cross + library
}

/// The arguments of a doctest, cut around the libraries.
proof fn lemma_doc_args_library(
    config: Config,
    test_args: Seq<&str>,
    compilation: Compilation,
    doctest: Doctest,
    cmd: ProcessBuilder,
    batch: TestBatch,
) -> (cut: (Seq<Seq<u8>>, Seq<Seq<u8>>))
    requires
        is_doc_batch(config, test_args, compilation, doctest, cmd, batch),
    ensures
        process_args(batch.cmd) == cut.0 + library_args(compilation, doctest.unit.kind) + cut.1,
        cut.0.len() > process_args(cmd).len(),
        cut.1.len() == passed_args(config, test_args).len() + own_args(doctest).len(),
{
    let (front, cross, library, passed, own) = lemma_doc_args_parts(
        config,
        test_args,
        compilation,
        doctest,
        cmd,
        batch,
    );
    assert(process_args(batch.cmd) =~= (front + cross) + library + (passed + own));
    (front + cross, passed + own)
}

/// Where the parts of what other platforms need stand.
proof fn lemma_cross_parts(
    cross: Seq<Seq<u8>>,
    platform: Seq<Seq<u8>>,
    options: Seq<Seq<u8>>,
    runner: Seq<Seq<u8>>,
    linker: Seq<Seq<u8>>,
)
    requires
        cross == platform + options + runner + linker,
    ensures
        cross.len() == platform.len() + options.len() + runner.len() + linker.len(),
        forall|i: int| 0 <= i < platform.len() ==> cross[i] == #[trigger] platform[i],
        forall|i: int|
            0 <= i < options.len() ==> cross[platform.len() + i] == #[trigger] options[i],
        forall|i: int|
            0 <= i < runner.len() ==> cross[platform.len() + options.len() + i]
                == #[trigger] runner[i],
        forall|i: int|
            0 <= i < linker.len() ==> cross[platform.len() + options.len() + runner.len() + i]
                == #[trigger] linker[i],
{
}

/// The flag stands at that position, and the value right behind it.
spec fn stands_at(args: Seq<Seq<u8>>, at: int, flag: Seq<u8>, value: Seq<u8>) -> bool {
    args[at] == flag && args[at + 1] == value
}

/// What other platforms need, part by part.
spec fn meets_platform(
    config: Config,
    compilation: Compilation,
    doctest: Doctest,
    cross: Seq<Seq<u8>>,
) -> bool {
    let kind = doctest.unit.kind;
    let options = if kind is Host {
        0int
    } else {
        2
    };
    let runners = compilation.target_runners@;
    let given = runners[kind@].args@;
    let linker = cross.len() - if doctest.linker is Some {
        2int
    } else {
        0
    };
    &&& !config.doctest_xcompile ==> cross.len() == 0
    &&& config.doctest_xcompile ==> {
        &&& kind matches CompileKind::Target(target) ==> cross[0] == encode_utf8(
            "--target"@,
        ) && cross[1] == encode_utf8(target.rustc_target@)
        &&& cross[options] == encode_utf8("-Zunstable-options"@)
        &&& cross[options + 1] == encode_utf8("--enable-per-target-ignores"@)
        &&& options + 2 <= linker <= cross.len()
        &&& !runners.contains_key(kind@) ==> linker == options + 2
        &&& runners.contains_key(kind@) ==> {
            &&& linker == options + 4 + 2 * given.len()
            &&& cross[options + 2] == encode_utf8("--runtool"@)
            &&& cross[options + 3] == path_bytes(runners[kind@].program)
            &&& forall|i: int|
                0 <= i < given.len() ==> stands_at(
                        cross,
                        options + 4 + 2 * i,
                        encode_utf8("--runtool-arg"@),
                        encode_utf8((#[trigger] given[i])@),
                    )
        }
        &&& doctest.linker matches Some(path) ==> cross[linker] == encode_utf8("-C"@)
            && cross[linker + 1] == encode_utf8("linker="@) + path_bytes(path)
    }
}

#[verifier::rlimit(50)]
#[verifier::spinoff_prover]
proof fn lemma_cross_args(config: Config, compilation: Compilation, doctest: Doctest)
    ensures
        meets_platform(
            config,
            compilation,
            doctest,
            cross_args(config, compilation, doctest),
        ),
{
    if config.doctest_xcompile {
        let cross = cross_args(config, compilation, doctest);
        let kind = doctest.unit.kind;
        let t = platform_args(kind);
        let o = seq![text("-Zunstable-options"@), text("--enable-per-target-ignores"@)];
        let r = runner_args(compilation, kind);
        let k = linker_args(doctest.linker);
        lemma_cross_parts(cross, t, o, r, k);
        lemma_runner_args(compilation, kind);
        let a = t.len() as int;
        if kind is Target {
            assert(cross[0] == t[0] && cross[1] == t[1]);
        }
        assert(cross[a + 0] == o[0] && cross[a + 1] == o[1]);
        let runners = compilation.target_runners@;
        if runners.contains_key(kind@) {
            let given = runners[kind@].args@;
            assert(cross[a + 2 + 0] == r[0] && cross[a + 2 + 1] == r[1]);
            assert forall|i: int| 0 <= i < given.len() implies stands_at(
                cross,
                a + 4 + 2 * i,
                encode_utf8("--runtool-arg"@),
                encode_utf8((#[trigger] given[i])@),
            ) by {
                assert(cross[a + 2 + (2 + 2 * i)] == r[2 + 2 * i]);
                assert(cross[a + 2 + (3 + 2 * i)] == r[3 + 2 * i]);
            }
        }
        if doctest.linker is Some {
            let at = a + 2 + r.len();
            assert(cross[at + 0] == k[0] && cross[at + 1] == k[1]);
        }
    }
}

/// The arguments of a doctest, cut around what other platforms need.
proof fn lemma_doc_args_cross(
    config: Config,
    test_args: Seq<&str>,
    compilation: Compilation,
    doctest: Doctest,
    cmd: ProcessBuilder,
    batch: TestBatch,
) -> (cut: (Seq<Seq<u8>>, Seq<Seq<u8>>, Seq<Seq<u8>>))
    requires
        is_doc_batch(config, test_args, compilation, doctest, cmd, batch),
    ensures
        process_args(batch.cmd) == cut.0 + cut.1 + cut.2,
        ({
            let refused = exists|i: int|
                0 <= i < test_args.len() && (#[trigger] test_args[i])@ == "--color=never"@;
            let colored = if config.err_supports_color && !refused {
                1int
            } else {
                0
            };
            let source = if config.doctest_in_workspace {
                5int
            } else {
                1
            };
            cut.0.len() == process_args(cmd).len() + 3 + colored + source
        }),
        meets_platform(config, compilation, doctest, cut.1),
        ({
            let unstable = if doctest.unstable_opts {
                1int
            } else {
                0
            };
            let quiet = if config.verbosity is Quiet {
                2int
            } else {
                0
            };
            cut.2.len() == 4 + 2 * compilation.native_dirs@.len() + 2 * test_args.len() + quiet
                + doctest.args@.len() + unstable
        }),
{
    let (front, cross, library, passed, own) = lemma_doc_args_parts(
        config,
        test_args,
        compilation,
        doctest,
        cmd,
        batch,
    );
    lemma_doc_args_front(config, test_args, doctest);
    lemma_library_args(compilation, doctest.unit.kind);
    lemma_passed_args(config, test_args);
    lemma_own_args(doctest);
    lemma_cross_args(config, compilation, doctest);
    assert(process_args(batch.cmd) =~= front + cross + (library + passed + own));
    (front, cross, library + passed + own)
}

/// What other platforms need stands between two positions.
spec fn platform_between(
    config: Config,
    compilation: Compilation,
    doctest: Doctest,
    args: Seq<Seq<u8>>,
    from: int,
    until: int,
) -> bool {
    let options = if doctest.unit.kind is Host {
        from
    } else {
        from + 2
    };
    let runners = compilation.target_runners@;
    let linker = if doctest.linker is Some {
        until - 2
    } else {
        until
    };
    &&& !config.doctest_xcompile ==> from == until
    &&& config.doctest_xcompile ==> {
        &&& doctest.unit.kind matches CompileKind::Target(target) ==> args[from]
            == encode_utf8("--target"@) && args[from + 1] == encode_utf8(
            target.rustc_target@,
        )
        &&& args[options] == encode_utf8("-Zunstable-options"@)
        &&& args[options + 1] == encode_utf8("--enable-per-target-ignores"@)
        &&& !runners.contains_key(doctest.unit.kind@) ==> linker == options + 2
        &&& runners.contains_key(doctest.unit.kind@) ==> {
            let runner = runners[doctest.unit.kind@];
            &&& linker == options + 4 + 2 * runner.args@.len()
            &&& args[options + 2] == encode_utf8("--runtool"@)
            &&& args[options + 3] == path_bytes(runner.program)
            &&& forall|i: int|
                0 <= i < runner.args@.len() ==> stands_at(
                        args,
                        options + 4 + 2 * i,
                        encode_utf8("--runtool-arg"@),
                        encode_utf8((#[trigger] runner.args@[i])@),
                    )
        }
        &&& doctest.linker matches Some(path) ==> args[linker] == encode_utf8("-C"@)
            && args[linker + 1] == encode_utf8("linker="@) + path_bytes(path)
    }
}

proof fn lemma_platform_between(
    config: Config,
    compilation: Compilation,
    doctest: Doctest,
    args: Seq<Seq<u8>>,
    front: Seq<Seq<u8>>,
    cross: Seq<Seq<u8>>,
    rest: Seq<Seq<u8>>,
)
    requires
        args == front + cross + rest,
        meets_platform(config, compilation, doctest, cross),
    ensures
        args.len() == front.len() + cross.len() + rest.len(),
        platform_between(
            config,
            compilation,
            doctest,
            args,
            front.len() as int,
            (front.len() + cross.len()) as int,
        ),
{
    lemma_part(args, front, cross, rest);
    let from = front.len() as int;
    if config.doctest_xcompile {
        let kind = doctest.unit.kind;
        let a = if kind is Host {
            0int
        } else {
            2
        };
        if kind is Target {
            assert(args[from + 0] == cross[0] && args[from + 1] == cross[1]);
        }
        assert(args[from + a] == cross[a] && args[from + (a + 1)] == cross[a + 1]);
        let runners = compilation.target_runners@;
        if runners.contains_key(kind@) {
            let given = runners[kind@].args@;
            assert(args[from + (a + 2)] == cross[a + 2] && args[from + (a + 3)] == cross[a + 3]);
            assert forall|i: int| 0 <= i < given.len() implies stands_at(
                args,
                from + a + 4 + 2 * i,
                encode_utf8("--runtool-arg"@),
                encode_utf8((#[trigger] given[i])@),
            ) by {
                assert(stands_at(
                    cross,
                    a + 4 + 2 * i,
                    encode_utf8("--runtool-arg"@),
                    encode_utf8(given[i]@),
                ));
                assert(args[from + (a + 4 + 2 * i)] == cross[a + 4 + 2 * i]);
                assert(args[from + (a + 5 + 2 * i)] == cross[a + 5 + 2 * i]);
            }
        }
        if doctest.linker is Some {
            let at = cross.len() - 2;
            assert(args[from + at] == cross[at] && args[from + (at + 1)] == cross[at + 1]);
        }
    }
}

/// The process that tests the documentation keeps the arguments that it had in
/// front. They are followed by the name of the crate, `--test`, and
/// `--color=always` where standard error can show colours and the user has not
/// refused them; and then by the source, or in the workspace by the source as seen
/// from its root and the directory to run in.
#[verifier::rlimit(50)]
#[verifier::spinoff_prover]
pub proof fn law_doctest_command_begins(
    config: Config,
    test_args: Seq<&str>,
    compilation: Compilation,
    doctest: Doctest,
    cmd: ProcessBuilder,
    batch: TestBatch,
)
    requires
        is_doc_batch(config, test_args, compilation, doctest, cmd, batch),
    ensures
        ({
            let args = process_args(batch.cmd);
            let n = process_args(cmd).len() as int;
            let refused = exists|i: int|
                0 <= i < test_args.len() && (#[trigger] test_args[i])@ == "--color=never"@;
            let colored = config.err_supports_color && !refused;
            let at = if colored {
                n + 4
            } else {
                n + 3
            };
            &&& process_args(cmd).is_prefix_of(args)
            &&& args[n] == encode_utf8("--crate-name"@)
            &&& args[n + 1] == encode_utf8(doctest.unit.target.crate_name@)
            &&& args[n + 2] == encode_utf8("--test"@)
            &&& colored ==> args[n + 3] == encode_utf8("--color=always"@)
            &&& !config.doctest_in_workspace ==> args[at] == path_bytes(
                doctest.unit.target.src_path->0,
            )
            &&& config.doctest_in_workspace ==> {
                &&& args[at] == path_bytes(doctest.path_args.arg)
                &&& args[at + 1] == encode_utf8("-Z"@)
                &&& args[at + 2] == encode_utf8("unstable-options"@)
                &&& args[at + 3] == encode_utf8("--test-run-directory"@)
                &&& args[at + 4] == path_bytes(doctest.unit.pkg.root)
            }
        }),
{
    let (front, cross, library, passed, own) = lemma_doc_args_parts(
        config,
        test_args,
        compilation,
        doctest,
        cmd,
        batch,
    );
    lemma_doc_args_front(config, test_args, doctest);
    let args = process_args(batch.cmd);
    let n = process_args(cmd);
    let c = crate_args(config, test_args, doctest.unit);
    let s = source_args(config, doctest);
    let rest = cross + library + passed + own;
    assert(args =~= n + c + (s + rest));
    assert(args =~= (n + c) + s + rest);
    lemma_part(args, n, c, s + rest);
    lemma_part(args, n + c, s, rest);
    let at = (n + c).len() as int;
    assert(args[n.len() as int] == c[0]);
    assert(args[n.len() as int + 1] == c[1]);
    assert(args[n.len() as int + 2] == c[2]);
    if c.len() == 4 {
        assert(args[n.len() as int + 3] == c[3]);
    }
    assert(args[at + 0] == s[0]);
    if config.doctest_in_workspace {
        assert(args[at + 1] == s[1]);
        assert(args[at + 2] == s[2]);
        assert(args[at + 3] == s[3]);
        assert(args[at + 4] == s[4]);
    }
}

/// The process that tests the documentation ends with the arguments that the unit
/// itself asks for, in order, and `-Zunstable-options` where these need it. In front
/// of them stand the arguments of the user, in order and each behind
/// `--test-args`, and in the same way `--quiet` where the shell is quiet.
#[verifier::rlimit(50)]
#[verifier::spinoff_prover]
pub proof fn law_doctest_command_ends(
    config: Config,
    test_args: Seq<&str>,
    compilation: Compilation,
    doctest: Doctest,
    cmd: ProcessBuilder,
    batch: TestBatch,
)
    requires
        is_doc_batch(config, test_args, compilation, doctest, cmd, batch),
    ensures
        ({
            let args = process_args(batch.cmd);
            let own = args.len() - doctest.args@.len() - if doctest.unstable_opts {
                1int
            } else {
                0
            };
            let passed = own - 2 * test_args.len() - if config.verbosity is Quiet {
                2int
            } else {
                0
            };
            &&& process_args(cmd).len() < passed <= own <= args.len()
            &&& forall|i: int|
                0 <= i < doctest.args@.len() ==> args[own + i] == path_bytes(
                    #[trigger] doctest.args@[i],
                )
            &&& doctest.unstable_opts ==> args.last() == encode_utf8("-Zunstable-options"@)
            &&& forall|i: int|
                0 <= i < test_args.len() ==> (args[passed + 2 * i], args[passed + 2 * i + 1]) == (
                    encode_utf8("--test-args"@),
                    encode_utf8((#[trigger] test_args[i])@),
                )
            &&& config.verbosity is Quiet ==> args[own - 2] == encode_utf8("--test-args"@)
                && args[own - 1] == encode_utf8("--quiet"@)
        }),
{
    let head = lemma_doc_args_head(config, test_args, compilation, doctest, cmd, batch);
    let args = process_args(batch.cmd);
    let p = passed_args(config, test_args);
    let o = own_args(doctest);
    lemma_passed_args(config, test_args);
    lemma_own_args(doctest);
    lemma_tail(args, head, p, o);
    let own = (head.len() + p.len()) as int;
    assert forall|i: int| 0 <= i < doctest.args@.len() implies args[own + i] == path_bytes(
        #[trigger] doctest.args@[i],
    ) by {
        assert(args[own + i] == o[i]);
    }
    if doctest.unstable_opts {
        assert(args[own + doctest.args@.len()] == o[doctest.args@.len() as int]);
    }
    assert forall|i: int| 0 <= i < test_args.len() implies (
        args[head.len() + 2 * i],
        args[head.len() + 2 * i + 1],
    ) == (encode_utf8("--test-args"@), encode_utf8((#[trigger] test_args[i])@)) by {
        assert(args[head.len() + 2 * i] == p[2 * i]);
        assert(args[head.len() + (2 * i + 1)] == p[2 * i + 1]);
    }
    if config.verbosity is Quiet {
        let k = 2 * test_args.len() as int;
        assert(args[head.len() + k] == p[k]);
        assert(args[head.len() + (k + 1)] == p[k + 1]);
    }
}

/// Right in front of what is passed on to the tests stand the directories of
/// libraries: the dependencies of the unit's own kind, those of the host, and then
/// each native one, in order; whether or not doctests of other platforms run.
#[verifier::rlimit(50)]
#[verifier::spinoff_prover]
pub proof fn law_doctest_command_finds_libraries(
    config: Config,
    test_args: Seq<&str>,
    compilation: Compilation,
    doctest: Doctest,
    cmd: ProcessBuilder,
    batch: TestBatch,
)
    requires
        is_doc_batch(config, test_args, compilation, doctest, cmd, batch),
    ensures
        ({
            let args = process_args(batch.cmd);
            let passed = args.len() - doctest.args@.len() - if doctest.unstable_opts {
                1int
            } else {
                0
            } - 2 * test_args.len() - if config.verbosity is Quiet {
                2int
            } else {
                0
            };
            let dirs = compilation.native_dirs@;
            let at = passed - 4 - 2 * dirs.len();
            &&& process_args(cmd).len() < at
            &&& args[at] == encode_utf8("-L"@)
            &&& args[at + 1] == encode_utf8("dependency="@) + path_bytes(
                compilation.deps_output@[doctest.unit.kind@],
            )
            &&& args[at + 2] == encode_utf8("-L"@)
            &&& args[at + 3] == encode_utf8("dependency="@) + path_bytes(
                compilation.deps_output@[CompileKindView::Host],
            )
            &&& forall|i: int|
                0 <= i < dirs.len() ==> (args[at + 4 + 2 * i], args[at + 5 + 2 * i]) == (
                    encode_utf8("-L"@),
                    path_bytes(#[trigger] dirs[i]),
                )
        }),
{
    let (front, rest) = lemma_doc_args_library(
        config,
        test_args,
        compilation,
        doctest,
        cmd,
        batch,
    );
    lemma_library_args(compilation, doctest.unit.kind);
    lemma_passed_args(config, test_args);
    lemma_own_args(doctest);
    let args = process_args(batch.cmd);
    let library = library_args(compilation, doctest.unit.kind);
    lemma_part(args, front, library, rest);
    let at = front.len() as int;
    assert(args[at + 0] == library[0]);
    assert(args[at + 1] == library[1]);
    assert(args[at + 2] == library[2]);
    assert(args[at + 3] == library[3]);
    let dirs = compilation.native_dirs@;
    assert forall|i: int| 0 <= i < dirs.len() implies (
        args[at + 4 + 2 * i],
        args[at + 5 + 2 * i],
    ) == (encode_utf8("-L"@), path_bytes(#[trigger] dirs[i])) by {
        assert(args[at + (4 + 2 * i)] == library[4 + 2 * i]);
        assert(args[at + (5 + 2 * i)] == library[5 + 2 * i]);
    }
}

/// Where doctests of other platforms run, the source is followed by the platform of
/// the unit, unless that is the host, by the options for ignoring tests, by the
/// runner of the unit's kind with its arguments, if there is one, and by the linker,
/// if there is one. Where they do not, nothing stands between the source and the
/// libraries.
pub proof fn law_doctest_command_for_other_platforms(
    config: Config,
    test_args: Seq<&str>,
    compilation: Compilation,
    doctest: Doctest,
    cmd: ProcessBuilder,
    batch: TestBatch,
)
    requires
        is_doc_batch(config, test_args, compilation, doctest, cmd, batch),
    ensures
        ({
            let args = process_args(batch.cmd);
            let refused = exists|i: int|
                0 <= i < test_args.len() && (#[trigger] test_args[i])@ == "--color=never"@;
            let from = process_args(cmd).len() + 3 + if config.err_supports_color && !refused {
                1int
            } else {
                0
            } + if config.doctest_in_workspace {
                5int
            } else {
                1
            };
            let until = args.len() - doctest.args@.len() - if doctest.unstable_opts {
                1int
            } else {
                0
            } - 2 * test_args.len() - if config.verbosity is Quiet {
                2int
            } else {
                0
            } - 4 - 2 * compilation.native_dirs@.len();
            let options = if doctest.unit.kind is Host {
                from
            } else {
                from + 2
            };
            let runners = compilation.target_runners@;
            let linker = if doctest.linker is Some {
                until - 2
            } else {
                until
            };
            &&& !config.doctest_xcompile ==> from == until
            &&& config.doctest_xcompile ==> {
                &&& doctest.unit.kind matches CompileKind::Target(target) ==> args[from]
                    == encode_utf8("--target"@) && args[from + 1] == encode_utf8(
                    target.rustc_target@,
                )
                &&& args[options] == encode_utf8("-Zunstable-options"@)
                &&& args[options + 1] == encode_utf8("--enable-per-target-ignores"@)
                &&& !runners.contains_key(doctest.unit.kind@) ==> linker == options + 2
                &&& runners.contains_key(doctest.unit.kind@) ==> {
                    let runner = runners[doctest.unit.kind@];
                    &&& linker == options + 4 + 2 * runner.args@.len()
                    &&& args[options + 2] == encode_utf8("--runtool"@)
                    &&& args[options + 3] == path_bytes(runner.program)
                    &&& forall|i: int|
                        0 <= i < runner.args@.len() ==> (
                            args[options + 4 + 2 * i],
                            args[options + 5 + 2 * i],
                        ) == (
                            encode_utf8("--runtool-arg"@),
                            encode_utf8((#[trigger] runner.args@[i])@),
                        )
                }
                &&& doctest.linker matches Some(path) ==> args[linker] == encode_utf8("-C"@)
                    && args[linker + 1] == encode_utf8("linker="@) + path_bytes(path)
            }
        }),
{
    let (front, cross, rest) = lemma_doc_args_cross(
        config,
        test_args,
        compilation,
        doctest,
        cmd,
        batch,
    );
    lemma_platform_between(
        config,
        compilation,
        doctest,
        process_args(batch.cmd),
        front,
        cross,
        rest,
    );
}

/// That doctests of other platforms run adds arguments in one place, and changes
/// none of the others.
#[verifier::rlimit(50)]
#[verifier::spinoff_prover]
pub proof fn law_other_platforms_only_add_arguments(
    config: Config,
    test_args: Seq<&str>,
    compilation: Compilation,
    doctest: Doctest,
    cmd: ProcessBuilder,
    other_cmd: ProcessBuilder,
    with: TestBatch,
    without: TestBatch,
)
    requires
        is_doc_batch(
            (Config { doctest_xcompile: true, ..config }),
            test_args,
            compilation,
            doctest,
            cmd,
            with,
        ),
        is_doc_batch(
            (Config { doctest_xcompile: false, ..config }),
            test_args,
            compilation,
            doctest,
            other_cmd,
            without,
        ),
        process_args(cmd) == process_args(other_cmd),
    ensures
        exists|at: int, added: Seq<Seq<u8>>|
            {
                &&& 0 <= at <= process_args(without.cmd).len()
                &&& process_args(with.cmd) == #[trigger] process_args(without.cmd).take(at) + added
                    + process_args(without.cmd).skip(at)
                &&& #[trigger] added.contains(encode_utf8("--enable-per-target-ignores"@))
            },
{
    let on = Config { doctest_xcompile: true, ..config };
    let off = Config { doctest_xcompile: false, ..config };
    let front = process_args(cmd) + (crate_args(on, test_args, doctest.unit) + source_args(
        on,
        doctest,
    ));
    let rest = library_args(compilation, doctest.unit.kind) + passed_args(on, test_args)
        + own_args(doctest);
    let added = cross_args(on, compilation, doctest);
    let at = front.len() as int;
    assert(crate_args(on, test_args, doctest.unit) == crate_args(off, test_args, doctest.unit));
    assert(process_args(without.cmd) =~= front + rest);
    assert(process_args(with.cmd) =~= front + added + rest);
    assert(process_args(without.cmd).take(at) =~= front);
    assert(process_args(without.cmd).skip(at) =~= rest);
    let t = platform_args(doctest.unit.kind).len() as int;
    assert(added[t + 1] == text("--enable-per-target-ignores"@));
    assert(added.contains(encode_utf8("--enable-per-target-ignores"@)));
}

/// Apart from its arguments the process stays as it was made; it runs in another
/// directory only in the workspace.
pub proof fn law_doctest_process_is_kept(
    config: Config,
    test_args: Seq<&str>,
    compilation: Compilation,
    doctest: Doctest,
    cmd: ProcessBuilder,
    batch: TestBatch,
)
    requires
        is_doc_batch(config, test_args, compilation, doctest, cmd, batch),
    ensures
        process_program(batch.cmd) == process_program(cmd),
        process_env(batch.cmd) == process_env(cmd),
        process_shows_env(batch.cmd) == process_shows_env(cmd),
        process_jobserver(batch.cmd) == process_jobserver(cmd),
        process_cwd(batch.cmd) == if config.doctest_in_workspace {
            Some(path_bytes(doctest.path_args.cwd))
        } else {
            process_cwd(cmd)
        },
        to_string_from_display_ensures::<ProcessBuilder>(
            &batch.cmd,
            batch.display.exe_display,
        ),
        batch.display.cmd_display is None,
        batch.error_display.target_kind == doctest.unit.target.kind,
        batch.error_display.target_name == doctest.unit.target.name,
        batch.error_display.pkg_name == doctest.unit.pkg.name,
{
}

/// Each doctest that is prepared runs, is the first one that does from where the
/// stage was, and is announced by the name of its target. When none is left, the
/// batches are run.
proof fn lemma_prepared(config: Config, compilation: Compilation, from: int)
    requires
        0 <= from <= compilation.to_doc_test@.len(),
    ensures
        match next_doctest(config, compilation, from) {
            Some((index, announce)) => {
                &&& from <= index < compilation.to_doc_test@.len()
                &&& runs_doctest(
                    config,
                    compilation.host@,
                    compilation.to_doc_test@[index].unit.kind,
                )
                &&& forall|i: int|
                    from <= i < index ==> !runs_doctest(
                        config,
                        compilation.host@,
                        (#[trigger] compilation.to_doc_test@[i]).unit.kind,
                    )
                &&& announce == Some(
                    ShellActionView::Status(
                        "Doc-tests"@,
                        compilation.to_doc_test@[index].unit.target.name@,
                    ),
                )
            },
            None => forall|i: int|
                from <= i < compilation.to_doc_test@.len() ==> !runs_doctest(
                    config,
                    compilation.host@,
                    (#[trigger] compilation.to_doc_test@[i]).unit.kind,
                ),
        },
    decreases compilation.to_doc_test@.len() - from,
{
    if from < compilation.to_doc_test@.len() {
        lemma_prepared(config, compilation, from + 1);
    }
}

/// Whatever step leads to it, a doctest that is to be prepared is one that runs,
/// and is announced under `Doc-tests` by the whole name of its target. Where the
/// step was not the first one, it comes after the doctest before it.
pub proof fn law_doctest_is_announced<E>(
    config: Config,
    test_args: &[&str],
    compilation: Compilation,
    stage: Stage,
    event: StageEvent<E>,
    result: (Stage, StageAction<E>),
)
    requires
        call_ensures(
            run_doc_tests::<E>,
            (&config, test_args, &compilation, stage, event),
            result,
        ),
        doc_stage_ok(config, compilation, stage, event),
    ensures
        result.1 matches StageAction::Prepare { index, announce } ==> {
            &&& index < compilation.to_doc_test@.len()
            &&& stage matches Stage::Preparing { index: past, .. } ==> past < index
            &&& announce matches Some(ShellAction::Status(status, name)) && status@
                == "Doc-tests"@ && name@ == compilation.to_doc_test@[index as int].unit.target.name@
            &&& config.doctest_xcompile || match compilation.to_doc_test@[index as int].unit.kind {
                CompileKind::Host => true,
                CompileKind::Target(target) => target.short_name@ == compilation.host@,
            }
        },
{
    let from = match event {
        StageEvent::Begin => 0,
        _ => stage->index + 1,
    };
    if result.1 is Prepare {
        lemma_prepared(config, compilation, from);
    }
}

/// The doctest that is prepared next, or that the batches are run, depends on which
/// doctests run: each one that is passed over is of another platform than the host,
/// and other platforms were not asked for.
pub proof fn law_no_doctest_is_passed_over<E>(
    config: Config,
    test_args: &[&str],
    compilation: Compilation,
    stage: Stage,
    event: StageEvent<E>,
    result: (Stage, StageAction<E>),
    from: int,
    i: int,
)
    requires
        call_ensures(
            run_doc_tests::<E>,
            (&config, test_args, &compilation, stage, event),
            result,
        ),
        doc_stage_ok(config, compilation, stage, event),
        match event {
            StageEvent::Begin => from == 0,
            StageEvent::Process(Ok(_)) => from == stage->index + 1,
            _ => false,
        },
        from <= i < compilation.to_doc_test@.len(),
        result.1 matches StageAction::Prepare { index, .. } ==> i < index,
    ensures
        !config.doctest_xcompile,
        compilation.to_doc_test@[i].unit.kind matches CompileKind::Target(target)
            && target.short_name@ != compilation.host@,
{
    lemma_prepared(config, compilation, from);
    let doctest = compilation.to_doc_test@[i];
    assert(!runs_doctest(config, compilation.host@, doctest.unit.kind));
}

/// A process for a doctest makes one more batch, for that doctest and with the
/// arguments of the user, behind those that were made.
pub proof fn law_stage_makes_a_batch_of_each_doctest<E>(
    config: Config,
    test_args: &[&str],
    compilation: Compilation,
    before: Vec<TestBatch>,
    index: usize,
    cmd: ProcessBuilder,
    result: (Stage, StageAction<E>),
)
    requires
        call_ensures(
            run_doc_tests::<E>,
            (
                &config,
                test_args,
                &compilation,
                Stage::Preparing { batches: before, index },
                StageEvent::<E>::Process(Ok(cmd)),
            ),
            result,
        ),
        index < compilation.to_doc_test@.len(),
    ensures
        result.1 is Prepare || result.1 is Run,
        ({
            let made = match result.1 {
                StageAction::Run(batches) => batches@,
                _ => result.0->batches@,
            };
            &&& result.1 is Prepare ==> result.0 is Preparing && result.0->index
                == result.1->Prepare_index
            &&& result.1 is Run ==> result.0 is Running
            &&& made.len() == before@.len() + 1
            &&& made.drop_last() == before@
            &&& is_doc_batch(
                config,
                test_args@,
                compilation,
                compilation.to_doc_test@[index as int],
                cmd,
                made.last(),
            )
        }),
{
    let doctest = compilation.to_doc_test@[index as int];
    let batch = choose|batch: TestBatch|
        {
            &&& #[trigger] is_doc_batch(config, test_args@, compilation, doctest, cmd, batch)
            &&& goes_on(
                before@.push(batch),
                next_doctest(config, compilation, index + 1),
                result,
            )
        };
    assert(before@.push(batch).drop_last() =~= before@);
}

/// The stage of the doctests begins with no batch made.
pub proof fn law_doctest_stage_begins<E>(
    config: Config,
    test_args: &[&str],
    compilation: Compilation,
    stage: Stage,
    result: (Stage, StageAction<E>),
)
    requires
        call_ensures(
            run_doc_tests::<E>,
            (&config, test_args, &compilation, stage, StageEvent::<E>::Begin),
            result,
        ),
    ensures
        match result.1 {
            StageAction::Prepare { index, .. } => result.0 matches Stage::Preparing {
                batches,
                index: at,
            } && batches@.len() == 0 && at == index,
            StageAction::Run(batches) => result.0 is Running && batches@.len() == 0,
            _ => false,
        },
{
}

/// When the batches have run, the stage of the doctests is over: it names the
/// doctests and tells every failure, in order. An error is told as it is, also one
/// in announcing a doctest or in getting its process.
pub proof fn law_doctest_stage_tells_what_failed<E>(
    config: Config,
    test_args: &[&str],
    compilation: Compilation,
    stage: Stage,
    event: StageEvent<E>,
    result: (Stage, StageAction<E>),
)
    requires
        call_ensures(
            run_doc_tests::<E>,
            (&config, test_args, &compilation, stage, event),
            result,
        ),
    ensures
        event matches StageEvent::Ran(Ok(errors)) ==> {
            &&& result.0 is Returned
            &&& result.1 matches StageAction::Return(Ok((test, causes))) && test is Doc
                && causes@.len() == errors@.len() && forall|i: int|
                0 <= i < errors@.len() ==> causes@[i] == (#[trigger] errors@[i]).1
        },
        event matches StageEvent::Ran(Err(error)) ==> result.0 is Returned && result.1
            == StageAction::<E>::Return(Err(error)),
        event matches StageEvent::Process(Err(error)) ==> result.0 is Returned && result.1
            == StageAction::<E>::Return(Err(error)),
{
}

/// Whatever comes in answer to what the stage of the doctests asks for is taken. Of a
/// doctest whose process was made, the source must be known, unless it is compiled in
/// the workspace, and so must the directories of the dependencies of its kind and of
/// the host; of one whose process could not be made, nothing.
pub proof fn law_doctest_stage_answers_are_taken<E>(
    config: Config,
    test_args: &[&str],
    compilation: Compilation,
    stage: Stage,
    event: StageEvent<E>,
    result: (Stage, StageAction<E>),
    process: Result<ProcessBuilder, E>,
    ran: Result<Vec<Failure>, E>,
)
    requires
        call_ensures(
            run_doc_tests::<E>,
            (&config, test_args, &compilation, stage, event),
            result,
        ),
        doc_stage_ok(config, compilation, stage, event),
        result.1 matches StageAction::Prepare { index, .. } ==> (process is Ok ==> ({
            let unit = compilation.to_doc_test@[index as int].unit;
            &&& config.doctest_in_workspace || unit.target.src_path is Some
            &&& compilation.deps_output@.contains_key(unit.kind@)
            &&& compilation.deps_output@.contains_key(CompileKindView::Host)
        })),
    ensures
        doc_stage_ok(config, compilation, Stage::Idle, StageEvent::<E>::Begin),
        result.1 is Prepare ==> doc_stage_ok(
            config,
            compilation,
            result.0,
            StageEvent::Process(process),
        ),
        result.1 is Run ==> doc_stage_ok(config, compilation, result.0, StageEvent::Ran(ran)),
{
    let from = match event {
        StageEvent::Begin => 0,
        _ => stage->index + 1,
    };
    if result.1 is Prepare {
        lemma_prepared(config, compilation, from);
    }
}

} // verus!
