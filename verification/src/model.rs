//! What a test run is made of: the options, the configuration, what was
//! compiled, and the errors that a run can end in.
use crate::lookup::DirSet;
use crate::lookup::KindMap;
use crate::shell::Verbosity;
use cargo_util::ProcessError;
use std::path::PathBuf;
use vstd::prelude::*;

verus! {

/// How to build.
#[derive(Clone, Copy, Debug)]
pub struct BuildConfig {
    /// The number of jobs that test executables run on. On one job they run in
    /// turn; else they run side by side, one more of them at most than there are
    /// jobs.
    pub test_jobs: u32,
}

/// What to compile.
#[derive(Clone, Copy, Debug)]
pub struct CompileOptions {
    pub build_config: BuildConfig,
}

/// The options of a test run.
#[derive(Clone, Copy, Debug)]
pub struct TestOptions {
    pub compile_opts: CompileOptions,
    /// Compile only.
    pub no_run: bool,
    /// After a test executable has failed, go on to the doctests, and start those
    /// that run side by side and have not been started. Test executables that run
    /// in turn all run in any case.
    pub no_fail_fast: bool,
}

/// The settings that a test run depends on.
#[derive(Debug)]
pub struct Config {
    /// The directory that the user is in.
    pub cwd: PathBuf,
    pub verbosity: Verbosity,
    /// Standard error can show colours.
    pub err_supports_color: bool,
    /// Doctests run for targets other than the host.
    pub doctest_xcompile: bool,
    /// Doctests are compiled in the root of the workspace.
    pub doctest_in_workspace: bool,
}

/// What a target is built as.
#[derive(Clone, Copy, Debug, PartialEq, Eq, Structural)]
pub enum TargetKind {
    Lib,
    Bin,
    Test,
    Bench,
    ExampleLib,
    ExampleBin,
    CustomBuild,
}

/// A platform to compile for.
#[derive(Debug)]
pub struct CompileTarget {
    /// The name of the platform.
    pub short_name: String,
    /// What the compiler is given to select the platform.
    pub rustc_target: String,
}

/// Whether a unit is compiled for the host or for another platform.
#[derive(Debug)]
pub enum CompileKind {
    Host,
    Target(CompileTarget),
}

/// The contents of a [`CompileKind`].
pub enum CompileKindView {
    Host,
    Target { short_name: Seq<char>, rustc_target: Seq<char> },
}

impl View for CompileKind {
    type V = CompileKindView;

    open spec fn view(&self) -> CompileKindView {
        match self {
            CompileKind::Host => CompileKindView::Host,
            CompileKind::Target(target) => CompileKindView::Target {
                short_name: target.short_name@,
                rustc_target: target.rustc_target@,
            },
        }
    }
}

impl CompileKind {
    /// Both stand for the same platform.
    pub fn same_as(&self, other: &CompileKind) -> (same: bool)
        ensures
            same == (self@ == other@),
    {
        match (self, other) {
            (CompileKind::Host, CompileKind::Host) => true,
            (CompileKind::Target(a), CompileKind::Target(b)) => a.short_name == b.short_name
                && a.rustc_target == b.rustc_target,
            _ => false,
        }
    }
}

/// A target of a package.
#[derive(Debug)]
pub struct Target {
    pub kind: TargetKind,
    pub name: String,
    pub crate_name: String,
    /// The root of the source, unless it is generated.
    pub src_path: Option<PathBuf>,
    /// The target is linked with the test harness.
    pub harness: bool,
}

/// A package.
#[derive(Debug)]
pub struct Package {
    pub name: String,
    pub root: PathBuf,
}

/// A target of a package, compiled for a platform.
#[derive(Debug)]
pub struct Unit {
    pub pkg: Package,
    pub target: Target,
    pub kind: CompileKind,
}

/// A compiled test executable.
#[derive(Debug)]
pub struct UnitOutput {
    pub unit: Unit,
    /// Where the executable is.
    pub path: PathBuf,
    /// The build script output that belongs to the unit.
    pub script_meta: Option<u64>,
    /// The place of this output in the order of all outputs by unit, path and
    /// build script.
    pub order: u64,
}

/// Where to compile a doctest from in the root of the workspace.
#[derive(Debug)]
pub struct PathArgs {
    /// The source, as it is to be handed to the compiler.
    pub arg: PathBuf,
    /// The directory to compile in.
    pub cwd: PathBuf,
}

/// A unit whose documentation is to be tested.
#[derive(Debug)]
pub struct Doctest {
    /// Arguments for the documentation tool.
    pub args: Vec<PathBuf>,
    /// The arguments need unstable options to be allowed.
    pub unstable_opts: bool,
    pub unit: Unit,
    pub linker: Option<PathBuf>,
    pub script_meta: Option<u64>,
    pub path_args: PathArgs,
}

/// A program that runs executables of another platform, with its arguments.
#[derive(Debug)]
pub struct TargetRunner {
    pub program: PathBuf,
    pub args: Vec<String>,
}

/// What has been compiled.
#[derive(Debug)]
pub struct Compilation {
    pub tests: Vec<UnitOutput>,
    pub to_doc_test: Vec<Doctest>,
    /// The name of the host platform.
    pub host: String,
    /// The directory that holds the dependencies, for each kind.
    pub deps_output: KindMap<PathBuf>,
    /// The directories of native libraries.
    pub native_dirs: DirSet,
    /// The runner for each kind that has one.
    pub target_runners: KindMap<TargetRunner>,
}

/// What failed.
#[derive(Debug, PartialEq, Eq)]
pub enum Test {
    /// More than one test executable, or none.
    Multiple,
    /// A doctest.
    Doc,
    /// The test executable of one target.
    UnitTest { kind: TargetKind, name: String, pkg_name: String },
}

/// The error of a test run in which tests failed.
#[derive(Debug)]
pub struct CargoTestError {
    pub test: Test,
    /// How each of the failed processes failed.
    pub causes: Vec<ProcessError>,
}

impl CargoTestError {
    /// There is no such error without a failure.
    pub open spec fn wf(&self) -> bool {
        self.causes@.len() > 0
    }

    /// The error for the given failures.
    pub fn new(test: Test, errors: Vec<ProcessError>) -> (error: CargoTestError)
        requires
            errors@.len() > 0,
        ensures
            error.wf(),
            error.test == test,
            error.causes == errors,
    {
        CargoTestError { test, causes: errors }
    }
}

/// Two kinds are the same if, and only if, both are the host, or both are
/// platforms of the same name that the compiler is given in the same way.
pub proof fn law_same_kind(a: CompileKind, b: CompileKind, same: bool)
    requires
        call_ensures(CompileKind::same_as, (&a, &b), same),
    ensures
        same == match (a, b) {
            (CompileKind::Host, CompileKind::Host) => true,
            (CompileKind::Target(a), CompileKind::Target(b)) => a.short_name@ == b.short_name@
                && a.rustc_target@ == b.rustc_target@,
            _ => false,
        },
        same <==> a@ == b@,
{
}

/// The error of a run holds the test and all the failures that it was made of.
pub proof fn law_error_holds_what_it_was_given(
    test: Test,
    errors: Vec<ProcessError>,
    error: CargoTestError,
)
    requires
        call_ensures(CargoTestError::new, (test, errors), error),
    ensures
        error.test == test,
        error.causes@ == errors@,
{
}

} // verus!
