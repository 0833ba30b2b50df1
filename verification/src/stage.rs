//! The stages of a test run: the test executables, and the doctests.
//!
//! A stage gets a process for each of its tests, makes batches of them, has the
//! batches run, and tells what failed. A stage is a function from its state and
//! what has happened to its next state and what is to be done.
use crate::batch::Failure;
use crate::batch::TestBatch;
use crate::model::Test;
use crate::shell::ShellAction;
use crate::shell::ShellActionView;
use cargo_util::ProcessBuilder;
use cargo_util::ProcessError;
use vstd::prelude::*;
use vstd::utf8::encode_utf8;

verus! {

/// How far a stage has come.
#[derive(Debug)]
pub enum Stage {
    /// It has not begun.
    Idle,
    /// These batches have been made, and a process was asked for the test at
    /// that position.
    Preparing { batches: Vec<TestBatch>, index: usize },
    /// The batches are running.
    Running,
    /// It is over.
    Returned,
}

/// What has happened.
#[derive(Debug)]
pub enum StageEvent<E> {
    /// The stage is to begin.
    Begin,
    /// A process was made for a test, or the test could not be announced or the
    /// process not be made.
    Process(Result<ProcessBuilder, E>),
    /// The batches have run, or could not be.
    Ran(Result<Vec<Failure>, E>),
}

/// What a stage is to have done.
#[derive(Debug)]
pub enum StageAction<E> {
    /// Announce the test at that position, if there is an announcement, and make
    /// a process for it.
    Prepare { index: usize, announce: Option<ShellAction> },
    /// Run the batches.
    Run(Vec<TestBatch>),
    /// The stage is over: what was tested, and how it failed.
    Return(Result<(Test, Vec<ProcessError>), E>),
}

/// The event answers what the stage has asked for.
pub open spec fn answers<E>(stage: Stage, event: StageEvent<E>) -> bool {
    match event {
        StageEvent::Begin => stage is Idle,
        StageEvent::Process(_) => stage is Preparing,
        StageEvent::Ran(_) => stage is Running,
    }
}

/// A test to prepare: its position, and how it is announced.
pub type Preparation = (int, Option<ShellActionView>);

/// With these batches made, the stage goes on to the next test to prepare, or
/// runs the batches if there is none.
pub open spec fn goes_on<E>(
    batches: Seq<TestBatch>,
    next: Option<Preparation>,
    result: (Stage, StageAction<E>),
) -> bool {
    match next {
        Some((index, announce)) => {
            &&& result.0 matches Stage::Preparing { batches: made, index: at }
            &&& made@ == batches
            &&& at == index
            &&& result.1 matches StageAction::Prepare { index: at, announce: shown }
            &&& at == index
            &&& match shown {
                Some(shown) => announce == Some(shown@),
                None => announce is None,
            }
        },
        None => {
            &&& result.0 is Running
            &&& result.1 matches StageAction::Run(made)
            &&& made@ == batches
        },
    }
}

/// The stage ends with an error.
pub open spec fn breaks_off<E>(error: E, result: (Stage, StageAction<E>)) -> bool {
    result.0 is Returned && result.1 == StageAction::<E>::Return(Err(error))
}

/// The errors of the failures, in order.
pub open spec fn causes_of(failures: Seq<Failure>) -> Seq<ProcessError> {
    failures.map_values(|failure: Failure| failure.1)
}

/// Takes the errors out of the failures.
pub fn into_causes(failures: Vec<Failure>) -> (causes: Vec<ProcessError>)
    ensures
        causes@ == causes_of(failures@),
{
    let ghost all = failures@;
    let mut causes: Vec<ProcessError> = Vec::new();
    for failure in iter: failures
        invariant
            iter.seq() == all,
            causes@.len() == iter.index(),
            forall|i: int| 0 <= i < causes@.len() ==> #[trigger] causes@[i] == all[i].1,
    {
        causes.push(failure.1);
    }
    assert(causes@ =~= causes_of(all));
    causes
}

/// Arguments that are strings.
pub open spec fn texts(args: Seq<&str>) -> Seq<Seq<u8>> {
    args.map_values(|arg: &str| encode_utf8(arg@))
}

/// The argument is among the given ones.
pub open spec fn has_arg(args: Seq<&str>, arg: Seq<char>) -> bool {
    exists|i: int| 0 <= i < args.len() && (#[trigger] args[i])@ == arg
}

/// Looks for an argument.
pub fn contains_arg(args: &[&str], arg: &str) -> (found: bool)
    ensures
        found == has_arg(args@, arg@),
{
    let wanted = arg.to_owned();
    let mut i: usize = 0;
    while i < args.len()
        invariant
            i <= args@.len(),
            wanted@ == arg@,
            forall|j: int| 0 <= j < i ==> (#[trigger] args@[j])@ != arg@,
        decreases args.len() - i,
    {
        if args[i].to_owned() == wanted {
            return true;
        }
        i = i + 1;
    }
    false
}

/// Each failure has its own error told, in its place.
pub proof fn law_every_cause_is_told(failures: Vec<Failure>, causes: Vec<ProcessError>)
    requires
        call_ensures(into_causes, (failures,), causes),
    ensures
        causes@.len() == failures@.len(),
        forall|i: int| 0 <= i < failures@.len() ==> causes@[i] == (#[trigger] failures@[i]).1,
{
}

/// An argument is found exactly where one of those given has the same text,
/// wherever it stands.
pub proof fn law_argument_is_found(args: &[&str], arg: &str, found: bool)
    requires
        call_ensures(contains_arg, (args, arg), found),
    ensures
        found <==> exists|i: int| 0 <= i < args@.len() && (#[trigger] args@[i])@ == arg@,
{
}

} // verus!
