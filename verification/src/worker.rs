//! What a running batch sends: the lines that its executable writes, then that
//! there will be no more, and then its report.
use crate::jobs::done_report;
use crate::jobs::report;
use crate::printer::ended;
use crate::printer::named;
use crate::printer::shown_lines;
use crate::printer_laws::all_ended;
use crate::printer_laws::block;
use crate::printer_laws::distinct;
use crate::printer_laws::holds;
use crate::printer_laws::law_complete_output;
use crate::printer_laws::law_output_is_presented_in_order;
use crate::printer_laws::law_which_is_being_shown;
use crate::printer_laws::lemma_presented_tells;
use crate::printer_laws::orderly;
use crate::printer_laws::run;
use crate::printer_laws::stream_of;
use crate::printer_laws::told_in_turn;
use crate::shell::display_actions;
use crate::shell::line_action;
use crate::shell::OutOrErr;
use crate::shell::OutOrErrView;
use crate::shell::TestBatchDisplay;
use crate::shell::TestBatchDisplayView;
use crate::shell::TestOutput;
use crate::shell::TestOutputView;
use vstd::prelude::*;

verus! {

/// A batch that is running.
#[derive(Debug)]
pub struct RunningBatch {
    exe_display: String,
    fail_fast: bool,
}

/// The state of a [`RunningBatch`].
pub struct RunningBatchView {
    /// The name that its messages carry.
    pub exe_display: Seq<char>,
    pub fail_fast: bool,
}

impl View for RunningBatch {
    type V = RunningBatchView;

    closed spec fn view(&self) -> RunningBatchView {
        RunningBatchView { exe_display: self.exe_display@, fail_fast: self.fail_fast }
    }
}

/// A batch that is through, and whose report is still to be sent.
#[derive(Debug)]
pub struct DoneBatch {
    has_error: bool,
    fail_fast: bool,
}

/// The state of a [`DoneBatch`].
pub struct DoneBatchView {
    pub has_error: bool,
    pub fail_fast: bool,
}

impl View for DoneBatch {
    type V = DoneBatchView;

    closed spec fn view(&self) -> DoneBatchView {
        DoneBatchView { has_error: self.has_error, fail_fast: self.fail_fast }
    }
}

/// The message for a line.
pub open spec fn line_message(name: Seq<char>, line: OutOrErrView) -> TestOutputView {
    TestOutputView { exe_display: name, output: Some(line) }
}

/// The message that there will be no more.
pub open spec fn end_message(name: Seq<char>) -> TestOutputView {
    TestOutputView { exe_display: name, output: None }
}

impl RunningBatch {
    /// A batch that starts to run.
    pub fn new(display: &TestBatchDisplay, fail_fast: bool) -> (batch: RunningBatch)
        ensures
            batch@ == (RunningBatchView { exe_display: display@.exe_display, fail_fast }),
    {
        RunningBatch { exe_display: display.exe_display.clone(), fail_fast }
    }

    /// The message for a line that the executable has written.
    pub fn line(&self, line: OutOrErr) -> (message: TestOutput)
        ensures
            message@ == line_message(self@.exe_display, line@),
    {
        TestOutput { exe_display: self.exe_display.clone(), output: Some(line) }
    }

    /// The closing message, after which the batch sends no other. The report is to
    /// be had once there is this message.
    pub fn finish(self, has_error: bool) -> (closing: (TestOutput, DoneBatch))
        ensures
            closing.0@ == end_message(self@.exe_display),
            closing.1@ == (DoneBatchView { has_error, fail_fast: self@.fail_fast }),
    {
        (
            TestOutput { exe_display: self.exe_display, output: None },
            DoneBatch { has_error, fail_fast: self.fail_fast },
        )
    }
}

impl DoneBatch {
    /// The report of the batch.
    pub fn report(self) -> (done: Option<()>)
        ensures
            done == report(self@.has_error, self@.fail_fast),
    {
        done_report(self.has_error, self.fail_fast)
    }
}

/// The messages of a batch whose executable has written these lines: one for each
/// line, in order, and the closing one if the batch is through.
pub open spec fn batch_messages(
    name: Seq<char>,
    lines: Seq<OutOrErrView>,
    through: bool,
) -> Seq<TestOutputView> {
    lines.map_values(|line: OutOrErrView| line_message(name, line)) + if through {
        seq![end_message(name)]
    } else {
        seq![]
    }
}

/// The messages that carry the name, in the order in which they came.
pub open spec fn messages_from(history: Seq<TestOutputView>, name: Seq<char>) -> Seq<
    TestOutputView,
> {
    history.filter(|message: TestOutputView| message.exe_display == name)
}

/// The history is made of the messages of the batches, those of each batch in the
/// order in which it sent them, in whatever way they are interleaved.
pub open spec fn interleaves(
    displays: Seq<TestBatchDisplayView>,
    lines: Seq<Seq<OutOrErrView>>,
    through: Seq<bool>,
    history: Seq<TestOutputView>,
) -> bool {
    &&& lines.len() == displays.len()
    &&& through.len() == displays.len()
    &&& forall|k: int|
        0 <= k < history.len() ==> named(displays, (#[trigger] history[k]).exe_display)
    &&& forall|i: int|
        0 <= i < displays.len() ==> messages_from(history, (#[trigger] displays[i]).exe_display)
            == batch_messages(displays[i].exe_display, lines[i], through[i])
}

/// What a name has sent is what its messages hold.
proof fn lemma_stream_of_messages(history: Seq<TestOutputView>, name: Seq<char>)
    ensures
        stream_of(history, name) == messages_from(history, name).map_values(
            |message: TestOutputView| message.output,
        ),
    decreases history.len(),
{
    reveal(Seq::filter);
    let output = |message: TestOutputView| message.output;
    if history.len() > 0 {
        let past = history.drop_last();
        lemma_stream_of_messages(past, name);
        if history.last().exe_display == name {
            assert(messages_from(history, name).map_values(output) =~= messages_from(
                past,
                name,
            ).map_values(output).push(history.last().output));
        }
    } else {
        assert(messages_from(history, name).map_values(output) =~= Seq::empty());
    }
}

/// What a name had sent earlier is the beginning of what it has sent, and a message
/// from it adds to that.
proof fn lemma_stream_grows(history: Seq<TestOutputView>, name: Seq<char>, k: int)
    requires
        0 <= k <= history.len(),
    ensures
        stream_of(history.take(k), name).is_prefix_of(stream_of(history, name)),
        k < history.len() && history[k].exe_display == name ==> stream_of(
            history.take(k),
            name,
        ).len() < stream_of(history, name).len(),
    decreases history.len() - k,
{
    if k == history.len() {
        assert(history.take(k) =~= history);
    } else {
        lemma_stream_grows(history, name, k + 1);
        assert(history.take(k + 1).drop_last() =~= history.take(k));
        assert(history.take(k + 1).last() == history[k]);
    }
}

/// The stream of a batch: its lines, and the end if it is through.
proof fn lemma_batch_stream(
    displays: Seq<TestBatchDisplayView>,
    lines: Seq<Seq<OutOrErrView>>,
    through: Seq<bool>,
    history: Seq<TestOutputView>,
    i: int,
)
    requires
        interleaves(displays, lines, through, history),
        0 <= i < displays.len(),
    ensures
        ({
            let stream = stream_of(history, displays[i].exe_display);
            &&& stream.len() == lines[i].len() + if through[i] {
                1int
            } else {
                0
            }
            &&& forall|k: int|
                0 <= k < lines[i].len() ==> #[trigger] stream[k] == Some(lines[i][k])
            &&& through[i] ==> stream.last() is None
            &&& ended(stream) <==> through[i]
        }),
{
    let name = displays[i].exe_display;
    let stream = stream_of(history, name);
    lemma_stream_of_messages(history, name);
    assert(messages_from(history, name) == batch_messages(name, lines[i], through[i]));
    assert forall|k: int| 0 <= k < lines[i].len() implies #[trigger] stream[k] == Some(
        lines[i][k],
    ) by {
        assert(batch_messages(name, lines[i], through[i])[k] == line_message(name, lines[i][k]));
    }
    if through[i] {
        assert(stream[lines[i].len() as int] is None);
    }
}

/// The lines of a stream in which only the last place can be the end.
proof fn lemma_lines_shown(
    stream: Seq<Option<OutOrErrView>>,
    lines: Seq<OutOrErrView>,
)
    requires
        lines.len() <= stream.len() <= lines.len() + 1,
        forall|k: int| 0 <= k < lines.len() ==> #[trigger] stream[k] == Some(lines[k]),
        stream.len() > lines.len() ==> stream.last() is None,
    ensures
        shown_lines(stream) == lines.map_values(|line: OutOrErrView| line_action(line)),
    decreases stream.len(),
{
    let action = |line: OutOrErrView| line_action(line);
    if stream.len() == 0 {
        assert(lines.map_values(action) =~= Seq::empty());
    } else if stream.len() > lines.len() {
        lemma_lines_shown(stream.drop_last(), lines);
    } else {
        lemma_lines_shown(stream.drop_last(), lines.drop_last());
        assert(stream.last() == Some(lines.last()));
        assert(!ended(stream.drop_last())) by {
            if ended(stream.drop_last()) {
                let k = choose|k: int|
                    0 <= k < stream.drop_last().len() && stream.drop_last()[k] is None;
                assert(stream[k] == Some(lines[k]));
            }
        }
        assert(lines.map_values(action) =~= lines.drop_last().map_values(action).push(
            line_action(lines.last()),
        ));
    }
}

/// However the messages of batches are interleaved, they are orderly: none comes
/// from a batch that has said that it is done. All have ended exactly when all
/// batches are through.
pub proof fn law_messages_are_orderly(
    displays: Seq<TestBatchDisplayView>,
    lines: Seq<Seq<OutOrErrView>>,
    through: Seq<bool>,
    history: Seq<TestOutputView>,
)
    requires
        interleaves(displays, lines, through, history),
    ensures
        orderly(displays, history),
        all_ended(displays, history) <==> forall|i: int|
            0 <= i < through.len() ==> #[trigger] through[i],
{
    assert forall|k: int| 0 <= k < history.len() implies {
        let name = (#[trigger] history[k]).exe_display;
        named(displays, name) && !ended(stream_of(history.take(k), name))
    } by {
        let name = history[k].exe_display;
        let i = choose|i: int|
            0 <= i < displays.len() && (#[trigger] displays[i]).exe_display == name;
        lemma_batch_stream(displays, lines, through, history, i);
        lemma_stream_grows(history, name, k);
        let before = stream_of(history.take(k), name);
        let stream = stream_of(history, name);
        if ended(before) {
            let j = choose|j: int| 0 <= j < before.len() && before[j] is None;
            assert(stream[j] == before[j]);
            assert(stream[j] == Some(lines[i][j]));
        }
    }
    assert forall|i: int| 0 <= i < displays.len() implies (ended(
        stream_of(history, (#[trigger] displays[i]).exe_display),
    ) <==> through[i]) by {
        lemma_batch_stream(displays, lines, through, history, i);
    }
    if all_ended(displays, history) {
        assert forall|i: int| 0 <= i < through.len() implies #[trigger] through[i] by {
            assert(ended(stream_of(history, displays[i].exe_display)));
        }
    }
}

/// Once all batches are through, each has been announced once, in the order given,
/// followed by all the lines that its executable has written, and by nothing else
/// before the next one.
pub proof fn law_batches_are_shown_in_order(
    displays: Seq<TestBatchDisplayView>,
    lines: Seq<Seq<OutOrErrView>>,
    through: Seq<bool>,
    history: Seq<TestOutputView>,
)
    requires
        distinct(displays),
        interleaves(displays, lines, through, history),
        forall|i: int| 0 <= i < through.len() ==> #[trigger] through[i],
    ensures
        run(displays, history).0 == Seq::new(
            displays.len(),
            |i: int|
                display_actions(displays[i]) + lines[i].map_values(
                    |line: OutOrErrView| line_action(line),
                ),
        ).flatten(),
{
    law_messages_are_orderly(displays, lines, through, history);
    law_complete_output(displays, history);
    let shown = Seq::new(
        displays.len(),
        |i: int|
            display_actions(displays[i]) + lines[i].map_values(
                |line: OutOrErrView| line_action(line),
            ),
    );
    let given = displays.map_values(|display: TestBatchDisplayView| block(display, history));
    assert forall|i: int| 0 <= i < displays.len() implies #[trigger] shown[i] == given[i] by {
        lemma_batch_stream(displays, lines, through, history, i);
        lemma_lines_shown(stream_of(history, displays[i].exe_display), lines[i]);
    }
    assert(shown =~= given);
}

/// A running batch, from its start to its report: each line is sent under the name
/// of the batch, with its text and its stream; the end is sent under the same name;
/// and a stop is asked for if, and only if, the batch failed and failures are to stop
/// the run.
pub proof fn law_what_a_batch_sends(
    display: TestBatchDisplay,
    fail_fast: bool,
    batch: RunningBatch,
    line: OutOrErr,
    message: TestOutput,
    has_error: bool,
    closing: (TestOutput, DoneBatch),
    done: Option<()>,
)
    requires
        call_ensures(RunningBatch::new, (&display, fail_fast), batch),
        call_ensures(RunningBatch::line, (&batch, line), message),
        call_ensures(RunningBatch::finish, (batch, has_error), closing),
        call_ensures(DoneBatch::report, (closing.1,), done),
    ensures
        message.exe_display@ == display.exe_display@,
        match line {
            OutOrErr::Stdout(text) => message.output matches Some(OutOrErr::Stdout(sent)) && sent@
                == text@,
            OutOrErr::Stderr(text) => message.output matches Some(OutOrErr::Stderr(sent)) && sent@
                == text@,
        },
        closing.0.exe_display@ == display.exe_display@,
        closing.0.output is None,
        done is None <==> has_error && fail_fast,
{
    assert(message@.exe_display == display@.exe_display);
    assert(message@.output == Some(line@));
    assert(closing.0@.exe_display == display@.exe_display);
    assert(closing.0@.output is None);
}

/// At any time, however the messages are interleaved: the executables up to the first
/// one that is not through have been announced in order, each by its whole name and
/// command line and followed by every line that it has written so far, as it was
/// written; and nothing else has been shown.
pub proof fn law_what_is_shown_at_any_time(
    displays: Seq<TestBatchDisplayView>,
    lines: Seq<Seq<OutOrErrView>>,
    through: Seq<bool>,
    history: Seq<TestOutputView>,
    passed: int,
)
    requires
        forall|i: int, j: int|
            #![trigger displays[i], displays[j]]
            0 <= i < j < displays.len() ==> displays[i].exe_display != displays[j].exe_display,
        lines.len() == displays.len(),
        through.len() == displays.len(),
        forall|k: int|
            0 <= k < history.len() ==> exists|i: int|
                0 <= i < displays.len() && (#[trigger] displays[i]).exe_display == (
                #[trigger] history[k]).exe_display,
        forall|i: int|
            0 <= i < displays.len() ==> messages_from(
                history,
                (#[trigger] displays[i]).exe_display,
            ) == Seq::new(
                lines[i].len(),
                |k: int|
                    TestOutputView {
                        exe_display: displays[i].exe_display,
                        output: Some(lines[i][k]),
                    },
            ) + if through[i] {
                seq![TestOutputView { exe_display: displays[i].exe_display, output: None }]
            } else {
                seq![]
            },
        0 <= passed <= displays.len(),
        forall|i: int| 0 <= i < passed ==> #[trigger] through[i],
        passed < displays.len() ==> !through[passed],
    ensures
        run(displays, history).0 == told_in_turn(
            displays,
            if passed < displays.len() {
                lines.take(passed + 1)
            } else {
                lines
            },
        ),
        run(displays, history).1.current == if passed < displays.len() {
            Some(displays[passed])
        } else {
            None
        },
{
    assert forall|k: int| 0 <= k < history.len() implies named(
        displays,
        (#[trigger] history[k]).exe_display,
    ) by {}
    assert forall|i: int| 0 <= i < displays.len() implies messages_from(
        history,
        (#[trigger] displays[i]).exe_display,
    ) == batch_messages(displays[i].exe_display, lines[i], through[i]) by {
        assert(messages_from(history, displays[i].exe_display) =~= batch_messages(
            displays[i].exe_display,
            lines[i],
            through[i],
        ));
    }
    assert(interleaves(displays, lines, through, history));
    law_messages_are_orderly(displays, lines, through, history);
    law_output_is_presented_in_order(displays, history);
    let told = if passed < displays.len() {
        lines.take(passed + 1)
    } else {
        lines
    };
    assert forall|i: int| 0 <= i < told.len() implies holds(
        stream_of(history, (#[trigger] displays[i]).exe_display),
        told[i],
        i < passed,
    ) by {
        lemma_batch_stream(displays, lines, through, history, i);
        assert(told[i] == lines[i]);
        if i < passed {
            assert(through[i]);
        }
    }
    lemma_presented_tells(displays, history, told, passed);
    assert forall|i: int| 0 <= i < displays.len() implies (ended(
        stream_of(history, (#[trigger] displays[i]).exe_display),
    ) <==> through[i]) by {
        lemma_batch_stream(displays, lines, through, history, i);
    }
    law_which_is_being_shown(displays, history, passed);
}

} // verus!
