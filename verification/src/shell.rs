//! What is shown to the user: the requests that the library makes of the shell,
//! and the pieces of test output that pass through it.
use vstd::prelude::*;

verus! {

/// How much the shell is asked to say.
#[derive(Clone, Copy, Debug, PartialEq, Eq, Structural)]
pub enum Verbosity {
    Verbose,
    Normal,
    Quiet,
}

/// One request to the shell.
#[derive(Debug, PartialEq, Eq)]
pub enum ShellAction {
    /// A status line, whatever the verbosity.
    Status(String, String),
    /// A status line for the shell to show unless it is verbose.
    Concise(String, String),
    /// A status line for the shell to show only if it is verbose.
    Verbose(String, String),
    /// A line for standard output.
    Stdout(String),
    /// A line for standard error.
    Stderr(String),
}

/// The contents of a [`ShellAction`].
pub enum ShellActionView {
    Status(Seq<char>, Seq<char>),
    Concise(Seq<char>, Seq<char>),
    Verbose(Seq<char>, Seq<char>),
    Stdout(Seq<char>),
    Stderr(Seq<char>),
}

impl View for ShellAction {
    type V = ShellActionView;

    open spec fn view(&self) -> ShellActionView {
        match self {
            ShellAction::Status(status, message) => ShellActionView::Status(status@, message@),
            ShellAction::Concise(status, message) => ShellActionView::Concise(status@, message@),
            ShellAction::Verbose(status, message) => ShellActionView::Verbose(status@, message@),
            ShellAction::Stdout(line) => ShellActionView::Stdout(line@),
            ShellAction::Stderr(line) => ShellActionView::Stderr(line@),
        }
    }
}

/// The contents of a sequence of requests.
pub open spec fn actions_view(actions: Seq<ShellAction>) -> Seq<ShellActionView> {
    actions.map_values(|a: ShellAction| a@)
}

/// A line that a test executable wrote.
#[derive(Debug)]
pub enum OutOrErr {
    Stdout(String),
    Stderr(String),
}

/// The contents of an [`OutOrErr`].
pub enum OutOrErrView {
    Stdout(Seq<char>),
    Stderr(Seq<char>),
}

impl View for OutOrErr {
    type V = OutOrErrView;

    open spec fn view(&self) -> OutOrErrView {
        match self {
            OutOrErr::Stdout(line) => OutOrErrView::Stdout(line@),
            OutOrErr::Stderr(line) => OutOrErrView::Stderr(line@),
        }
    }
}

/// How a test executable is announced.
#[derive(Debug)]
pub struct TestBatchDisplay {
    /// The name under which its output is collected.
    pub exe_display: String,
    /// The command line, where the user asked for it.
    pub cmd_display: Option<String>,
}

/// The contents of a [`TestBatchDisplay`].
pub struct TestBatchDisplayView {
    pub exe_display: Seq<char>,
    pub cmd_display: Option<Seq<char>>,
}

impl View for TestBatchDisplay {
    type V = TestBatchDisplayView;

    open spec fn view(&self) -> TestBatchDisplayView {
        TestBatchDisplayView {
            exe_display: self.exe_display@,
            cmd_display: match self.cmd_display {
                Some(cmd) => Some(cmd@),
                None => None,
            },
        }
    }
}

impl Clone for TestBatchDisplay {
    fn clone(&self) -> (copy: Self)
        ensures
            copy@ == self@,
    {
        TestBatchDisplay {
            exe_display: self.exe_display.clone(),
            cmd_display: match &self.cmd_display {
                Some(cmd) => Some(cmd.clone()),
                None => None,
            },
        }
    }
}

/// The contents of a sequence of displays.
pub open spec fn displays_view(displays: Seq<TestBatchDisplay>) -> Seq<TestBatchDisplayView> {
    displays.map_values(|d: TestBatchDisplay| d@)
}

/// A message from a running test executable: a line of output, or that there
/// will be no more.
#[derive(Debug)]
pub struct TestOutput {
    pub exe_display: String,
    pub output: Option<OutOrErr>,
}

/// The contents of a [`TestOutput`].
pub struct TestOutputView {
    pub exe_display: Seq<char>,
    pub output: Option<OutOrErrView>,
}

/// The contents of an optional line.
pub open spec fn output_view(output: Option<OutOrErr>) -> Option<OutOrErrView> {
    match output {
        Some(line) => Some(line@),
        None => None,
    }
}

impl View for TestOutput {
    type V = TestOutputView;

    open spec fn view(&self) -> TestOutputView {
        TestOutputView { exe_display: self.exe_display@, output: output_view(self.output) }
    }
}

/// The announcement of a test executable: its name where the shell is concise,
/// its command line where the shell is verbose.
pub open spec fn display_actions(display: TestBatchDisplayView) -> Seq<ShellActionView> {
    seq![
        ShellActionView::Concise("Running"@, display.exe_display),
        ShellActionView::Verbose(
            "Running"@,
            match display.cmd_display {
                Some(cmd) => cmd,
                None => ""@,
            },
        ),
    ]
}

/// A line goes to the stream that it came from.
pub open spec fn line_action(line: OutOrErrView) -> ShellActionView {
    match line {
        OutOrErrView::Stdout(line) => ShellActionView::Stdout(line),
        OutOrErrView::Stderr(line) => ShellActionView::Stderr(line),
    }
}

/// Announces a test executable.
pub fn print_display(display: &TestBatchDisplay) -> (actions: Vec<ShellAction>)
    ensures
        actions_view(actions@) == display_actions(display@),
{
    let mut actions: Vec<ShellAction> = Vec::new();
    actions.push(ShellAction::Concise("Running".to_owned(), display.exe_display.clone()));
    let cmd = match &display.cmd_display {
        Some(cmd) => cmd.clone(),
        None => "".to_owned(),
    };
    actions.push(ShellAction::Verbose("Running".to_owned(), cmd));
    assert(actions_view(actions@) =~= display_actions(display@));
    actions
}

/// Shows a line of output.
pub fn print_line(line: &OutOrErr) -> (action: ShellAction)
    ensures
        action@ == line_action(line@),
{
    match line {
        OutOrErr::Stdout(line) => ShellAction::Stdout(line.clone()),
        OutOrErr::Stderr(line) => ShellAction::Stderr(line.clone()),
    }
}

/// A line is shown with the text that the executable wrote, all of it and nothing
/// else, on the stream that it wrote it to.
pub proof fn law_line_is_shown_as_written(line: OutOrErr, action: ShellAction)
    requires
        call_ensures(print_line, (&line,), action),
    ensures
        match line {
            OutOrErr::Stdout(text) => action matches ShellAction::Stdout(shown) && shown@ == text@,
            OutOrErr::Stderr(text) => action matches ShellAction::Stderr(shown) && shown@ == text@,
        },
{
}

/// From what is shown of a line its text and its stream can be got back.
pub proof fn law_line_can_be_got_back(text: Seq<char>)
    ensures
        line_action(OutOrErrView::Stdout(text)) == ShellActionView::Stdout(text),
        line_action(OutOrErrView::Stderr(text)) == ShellActionView::Stderr(text),
{
}

/// An executable is announced to a concise shell by its whole name, and to a
/// verbose one by its whole command line, or by nothing where that is not known.
pub proof fn law_announcement(display: TestBatchDisplay, actions: Vec<ShellAction>)
    requires
        call_ensures(print_display, (&display,), actions),
    ensures
        actions@.len() == 2,
        actions@[0] matches ShellAction::Concise(status, name) && status@ == "Running"@ && name@
            == display.exe_display@,
        actions@[1] matches ShellAction::Verbose(status, shown) && status@ == "Running"@ && shown@
            == match display.cmd_display {
            Some(cmd) => cmd@,
            None => ""@,
        },
{
    assert(actions_view(actions@).len() == display_actions(display@).len());
    assert(actions_view(actions@)[0] == actions@[0]@);
    assert(actions_view(actions@)[1] == actions@[1]@);
}

/// A copy of a display announces the executable by the same name and the same
/// command line.
pub proof fn law_copy_announces_the_same(display: TestBatchDisplay, copy: TestBatchDisplay)
    requires
        call_ensures(TestBatchDisplay::clone, (&display,), copy),
    ensures
        copy.exe_display@ == display.exe_display@,
        match (display.cmd_display, copy.cmd_display) {
            (Some(cmd), Some(copied)) => copied@ == cmd@,
            (None, None) => true,
            _ => false,
        },
{
    assert(copy@.exe_display == display@.exe_display);
    assert(copy@.cmd_display == display@.cmd_display);
}

} // verus!
