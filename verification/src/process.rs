//! Processes that are put together here and run by others.
use crate::path::os_text;
use crate::path::path_bytes;
use cargo_util::ProcessBuilder;
use cargo_util::ProcessError;
use std::path::PathBuf;
use vstd::prelude::*;
use vstd::string::to_string_from_display_ensures;
use vstd::utf8::encode_utf8;

verus! {

/// [`cargo_util::ProcessBuilder`]: a process that has not been started.
#[verifier::external_type_specification]
#[verifier::external_body]
pub struct ExProcessBuilder(ProcessBuilder);

/// [`cargo_util::ProcessError`]: how a process failed.
#[verifier::external_type_specification]
#[verifier::external_body]
pub struct ExProcessError(ProcessError);

/// The arguments of a process, in order.
pub uninterp spec fn process_args(cmd: ProcessBuilder) -> Seq<Seq<u8>>;

/// The executable of a process.
pub uninterp spec fn process_program(cmd: ProcessBuilder) -> Seq<u8>;

/// The environment variables that are set for a process, or unset if `None`.
pub uninterp spec fn process_env(cmd: ProcessBuilder) -> Map<Seq<char>, Option<Seq<u8>>>;

/// The directory that a process is to run in, where one was given.
pub uninterp spec fn process_cwd(cmd: ProcessBuilder) -> Option<Seq<u8>>;

/// The environment variables of a process show where the process is displayed.
pub uninterp spec fn process_shows_env(cmd: ProcessBuilder) -> bool;

/// The jobserver that a process is to inherit, as a number that tells it from
/// other jobservers.
pub uninterp spec fn process_jobserver(cmd: ProcessBuilder) -> Option<int>;

/// `ProcessBuilder::arg`: the argument is put behind those that are there; the
/// executable, the environment, the directory, the jobserver and the way in which
/// the process is displayed stay as they are.
#[verifier::external_body]
fn push_arg(cmd: &mut ProcessBuilder, arg: &PathBuf)
    ensures
        process_args(*final(cmd)) == process_args(*old(cmd)).push(path_bytes(*arg)),
        process_program(*final(cmd)) == process_program(*old(cmd)),
        process_env(*final(cmd)) == process_env(*old(cmd)),
        process_cwd(*final(cmd)) == process_cwd(*old(cmd)),
        process_shows_env(*final(cmd)) == process_shows_env(*old(cmd)),
        process_jobserver(*final(cmd)) == process_jobserver(*old(cmd)),
{
    cmd.arg(arg);
}

/// `ProcessBuilder::cwd`: the process is to run in that directory; the rest of
/// it stays as it is, as for [`push_arg`].
#[verifier::external_body]
pub(crate) fn set_cwd(cmd: &mut ProcessBuilder, dir: &PathBuf)
    ensures
        process_cwd(*final(cmd)) == Some(path_bytes(*dir)),
        process_args(*final(cmd)) == process_args(*old(cmd)),
        process_program(*final(cmd)) == process_program(*old(cmd)),
        process_env(*final(cmd)) == process_env(*old(cmd)),
        process_shows_env(*final(cmd)) == process_shows_env(*old(cmd)),
        process_jobserver(*final(cmd)) == process_jobserver(*old(cmd)),
{
    cmd.cwd(dir);
}

/// The string is what displaying the process gives.
pub open spec fn displays_process(cmd: ProcessBuilder, shown: String) -> bool {
    to_string_from_display_ensures::<ProcessBuilder>(&cmd, shown)
}

/// The command line of a process, for the user to read.
pub fn process_display(cmd: &ProcessBuilder) -> (shown: String)
    ensures
        displays_process(*cmd, shown),
{
    cmd.to_string()
}

/// Apart from its arguments and its directory, the process is the same.
pub open spec fn same_process(before: ProcessBuilder, after: ProcessBuilder) -> bool {
    &&& process_program(after) == process_program(before)
    &&& process_env(after) == process_env(before)
    &&& process_shows_env(after) == process_shows_env(before)
    &&& process_jobserver(after) == process_jobserver(before)
}

/// The arguments have been put behind those of the process, and nothing else
/// has changed.
pub open spec fn appended(
    before: ProcessBuilder,
    after: ProcessBuilder,
    args: Seq<Seq<u8>>,
) -> bool {
    &&& process_args(after) == process_args(before) + args
    &&& process_cwd(after) == process_cwd(before)
    &&& same_process(before, after)
}

/// Puts a path behind the arguments.
pub fn push_path(cmd: &mut ProcessBuilder, path: &PathBuf)
    ensures
        appended(*old(cmd), *final(cmd), seq![path_bytes(*path)]),
{
    push_arg(cmd, path);
    assert(process_args(*cmd) =~= process_args(*old(cmd)) + seq![path_bytes(*path)]);
}

/// Puts a string behind the arguments.
pub fn push_text(cmd: &mut ProcessBuilder, text: &str)
    ensures
        appended(*old(cmd), *final(cmd), seq![encode_utf8(text@)]),
{
    let arg = os_text(text);
    push_path(cmd, &arg);
}

} // verus!
