//! What holds of a whole run of the [printer](crate::printer): however the
//! messages of the executables are interleaved, what is shown is in order.
use crate::printer::advance;
use crate::printer::empty_cache;
use crate::printer::ended;
use crate::printer::named;
use crate::printer::receive;
use crate::printer::shown_lines;
use crate::printer::start;
use crate::printer::Printer;
use crate::printer::PrinterView;
use crate::printer::Stream;
use crate::shell::actions_view;
use crate::shell::display_actions;
use crate::shell::displays_view;
use crate::shell::line_action;
use crate::shell::OutOrErrView;
use crate::shell::ShellAction;
use crate::shell::ShellActionView;
use crate::shell::TestBatchDisplay;
use crate::shell::TestBatchDisplayView;
use crate::shell::TestOutputView;
use vstd::prelude::*;

verus! {

/// All that a printer has shown after the given messages, and its state.
pub open spec fn run(
    displays: Seq<TestBatchDisplayView>,
    history: Seq<TestOutputView>,
) -> (Seq<ShellActionView>, PrinterView)
    decreases history.len(),
{
    if history.len() == 0 {
        start(displays)
    } else {
        let (shown, state) = run(displays, history.drop_last());
        let (more, next) = receive(state, history.last());
        (shown + more, next)
    }
}

/// What the executable of that name has sent.
pub open spec fn stream_of(history: Seq<TestOutputView>, name: Seq<char>) -> Stream
    decreases history.len(),
{
    if history.len() == 0 {
        Seq::empty()
    } else {
        let before = stream_of(history.drop_last(), name);
        if history.last().exe_display == name {
            before.push(history.last().output)
        } else {
            before
        }
    }
}

/// No two executables have the same name.
pub open spec fn distinct(displays: Seq<TestBatchDisplayView>) -> bool {
    forall|i: int, j: int|
        #![trigger displays[i], displays[j]]
        0 <= i < j < displays.len() ==> displays[i].exe_display != displays[j].exe_display
}

/// Each message comes from one of the executables, and from one that had not
/// said before that it is done.
pub open spec fn orderly(
    displays: Seq<TestBatchDisplayView>,
    history: Seq<TestOutputView>,
) -> bool {
    forall|k: int|
        0 <= k < history.len() ==> {
            let name = (#[trigger] history[k]).exe_display;
            named(displays, name) && !ended(stream_of(history.take(k), name))
        }
}

/// The executable's announcement, followed by its lines in the order in which
/// it sent them.
pub open spec fn block(
    display: TestBatchDisplayView,
    history: Seq<TestOutputView>,
) -> Seq<ShellActionView> {
    display_actions(display) + shown_lines(stream_of(history, display.exe_display))
}

/// The blocks of the executables, in order, up to and with that of the first
/// executable that has not ended.
pub open spec fn presented(
    displays: Seq<TestBatchDisplayView>,
    history: Seq<TestOutputView>,
) -> Seq<ShellActionView>
    decreases displays.len(),
{
    if displays.len() == 0 {
        Seq::empty()
    } else if ended(stream_of(history, displays[0].exe_display)) {
        block(displays[0], history) + presented(displays.drop_first(), history)
    } else {
        block(displays[0], history)
    }
}

/// The blocks of all executables, in order.
pub open spec fn blocks(
    displays: Seq<TestBatchDisplayView>,
    history: Seq<TestOutputView>,
) -> Seq<ShellActionView> {
    displays.map_values(|display: TestBatchDisplayView| block(display, history)).flatten()
}

/// Every executable has said that it is done.
pub open spec fn all_ended(
    displays: Seq<TestBatchDisplayView>,
    history: Seq<TestOutputView>,
) -> bool {
    forall|i: int|
        0 <= i < displays.len() ==> ended(
            stream_of(history, (#[trigger] displays[i]).exe_display),
        )
}

/// The printer is showing the executable at position `at`, or has shown all if
/// that is past the last one: those before it have ended, it has not, and what
/// those after it have sent is in the cache.
spec fn showing(
    displays: Seq<TestBatchDisplayView>,
    history: Seq<TestOutputView>,
    state: PrinterView,
    at: int,
) -> bool {
    &&& 0 <= at <= displays.len()
    &&& all_ended(displays.take(at), history)
    &&& if at < displays.len() {
        &&& state.current == Some(displays[at])
        &&& state.queue == displays.skip(at + 1)
        &&& !ended(stream_of(history, displays[at].exe_display))
    } else {
        state.current is None && state.queue == displays.skip(at)
    }
    &&& forall|i: int|
        at < i < displays.len() ==> state.cache[(#[trigger] displays[i]).exe_display]
            == stream_of(history, displays[i].exe_display)
}

/// A message adds to the stream of its sender and to no other.
proof fn lemma_stream_push(
    history: Seq<TestOutputView>,
    message: TestOutputView,
    name: Seq<char>,
)
    ensures
        stream_of(history.push(message), name) == if message.exe_display == name {
            stream_of(history, name).push(message.output)
        } else {
            stream_of(history, name)
        },
{
    assert(history.push(message).drop_last() =~= history);
}

/// Lines are added at the end of those that were there.
proof fn lemma_shown_push(stream: Stream, output: Option<crate::shell::OutOrErrView>)
    requires
        !ended(stream),
    ensures
        shown_lines(stream.push(output)) == match output {
            Some(line) => shown_lines(stream).push(line_action(line)),
            None => shown_lines(stream),
        },
        ended(stream.push(output)) <==> output is None,
{
    let longer = stream.push(output);
    assert(longer.drop_last() =~= stream);
    if output is None {
        assert(longer[stream.len() as int] is None);
    } else if ended(longer) {
        let k = choose|k: int| 0 <= k < longer.len() && longer[k] is None;
        assert(stream[k] is None);
    }
}

/// The executables that have ended have their blocks in front.
proof fn lemma_presented_split(
    displays: Seq<TestBatchDisplayView>,
    history: Seq<TestOutputView>,
    k: int,
)
    requires
        0 <= k <= displays.len(),
        all_ended(displays.take(k), history),
    ensures
        presented(displays, history) == presented(displays.take(k), history) + presented(
            displays.skip(k),
            history,
        ),
    decreases k,
{
    if k == 0 {
        assert(displays.skip(0) =~= displays);
        assert(presented(displays, history) =~= Seq::empty() + presented(displays, history));
    } else {
        let rest = displays.drop_first();
        let front = displays.take(k);
        assert(front[0] == displays[0]);
        assert(front.drop_first() =~= rest.take(k - 1));
        assert(rest.skip(k - 1) =~= displays.skip(k));
        assert forall|i: int| 0 <= i < rest.take(k - 1).len() implies ended(
            stream_of(history, (#[trigger] rest.take(k - 1)[i]).exe_display),
        ) by {
            assert(front[i + 1] == rest.take(k - 1)[i]);
        }
        lemma_presented_split(rest, history, k - 1);
        let first = block(displays[0], history);
        let middle = presented(rest.take(k - 1), history);
        let last = presented(displays.skip(k), history);
        assert(first + (middle + last) =~= (first + middle) + last);
    }
}

/// What is presented depends on the streams of the executables alone.
proof fn lemma_presented_same(
    displays: Seq<TestBatchDisplayView>,
    a: Seq<TestOutputView>,
    b: Seq<TestOutputView>,
)
    requires
        forall|i: int|
            0 <= i < displays.len() ==> stream_of(a, (#[trigger] displays[i]).exe_display)
                == stream_of(b, displays[i].exe_display),
    ensures
        presented(displays, a) == presented(displays, b),
    decreases displays.len(),
{
    if displays.len() > 0 {
        let rest = displays.drop_first();
        assert forall|i: int| 0 <= i < rest.len() implies stream_of(
            a,
            (#[trigger] rest[i]).exe_display,
        ) == stream_of(b, rest[i].exe_display) by {
            assert(rest[i] == displays[i + 1]);
        }
        lemma_presented_same(rest, a, b);
        assert(stream_of(a, displays[0].exe_display) == stream_of(b, displays[0].exe_display));
    }
}

/// Moving on shows what has been cached, in order.
proof fn lemma_advance(
    displays: Seq<TestBatchDisplayView>,
    history: Seq<TestOutputView>,
    cache: Map<Seq<char>, Stream>,
    from: int,
) -> (at: int)
    requires
        0 <= from <= displays.len(),
        all_ended(displays.take(from), history),
        forall|i: int|
            from <= i < displays.len() ==> cache[(#[trigger] displays[i]).exe_display]
                == stream_of(history, displays[i].exe_display),
    ensures
        advance(displays.skip(from), cache).0 == presented(displays.skip(from), history),
        advance(displays.skip(from), cache).1.cache == cache,
        showing(displays, history, advance(displays.skip(from), cache).1, at),
        at >= from,
    decreases displays.len() - from,
{
    let queue = displays.skip(from);
    if from == displays.len() {
        from
    } else {
        assert(queue[0] == displays[from]);
        assert(queue.drop_first() =~= displays.skip(from + 1));
        if ended(stream_of(history, displays[from].exe_display)) {
            assert forall|i: int| 0 <= i < displays.take(from + 1).len() implies ended(
                stream_of(history, (#[trigger] displays.take(from + 1)[i]).exe_display),
            ) by {
                if i < from {
                    assert(displays.take(from)[i] == displays.take(from + 1)[i]);
                }
            }
            lemma_advance(displays, history, cache, from + 1)
        } else {
            from
        }
    }
}

/// After any orderly history the printer shows one of the executables, and has
/// shown what it should.
#[verifier::rlimit(60)]
#[verifier::spinoff_prover]
proof fn lemma_run(displays: Seq<TestBatchDisplayView>, history: Seq<TestOutputView>) -> (at: int)
    requires
        distinct(displays),
        orderly(displays, history),
    ensures
        showing(displays, history, run(displays, history).1, at),
        run(displays, history).0 == presented(displays, history),
    decreases history.len(),
{
    if history.len() == 0 {
        let cache = empty_cache(displays);
        assert(displays.skip(0) =~= displays);
        assert forall|i: int| 0 <= i < displays.len() implies cache[(
        #[trigger] displays[i]).exe_display] == stream_of(history, displays[i].exe_display) by {
            assert(named(displays, displays[i].exe_display));
        }
        lemma_advance(displays, history, cache, 0)
    } else {
        let past = history.drop_last();
        let message = history.last();
        let name = message.exe_display;
        assert(past.push(message) =~= history);
        assert(history.take(history.len() - 1) =~= past);
        assert forall|k: int| 0 <= k < past.len() implies {
            let name = (#[trigger] past[k]).exe_display;
            named(displays, name) && !ended(stream_of(past.take(k), name))
        } by {
            assert(past[k] == history[k]);
            assert(past.take(k) =~= history.take(k));
        }
        let at = lemma_run(displays, past);
        let (shown, state) = run(displays, past);
        assert(named(displays, name) && !ended(stream_of(past, name))) by {
            assert(history[history.len() - 1] == message);
        }
        let sender = choose|i: int|
            0 <= i < displays.len() && (#[trigger] displays[i]).exe_display == name;
        assert(sender >= at) by {
            if sender < at {
                assert(displays.take(at)[sender] == displays[sender]);
            }
        }
        assert forall|other: Seq<char>| other != name implies #[trigger] stream_of(history, other)
            == stream_of(past, other) by {
            lemma_stream_push(past, message, other);
        }
        lemma_stream_push(past, message, name);
        lemma_shown_push(stream_of(past, name), message.output);
        let before = displays.take(at);
        assert forall|i: int| 0 <= i < before.len() implies stream_of(
            past,
            (#[trigger] before[i]).exe_display,
        ) == stream_of(history, before[i].exe_display) by {
            assert(before[i] == displays[i]);
            assert(displays[i].exe_display != displays[sender].exe_display);
        }
        lemma_presented_same(before, past, history);
        lemma_presented_split(displays, past, at);
        assert(all_ended(before, history)) by {
            assert forall|i: int| 0 <= i < before.len() implies ended(
                stream_of(history, (#[trigger] before[i]).exe_display),
            ) by {
                assert(ended(stream_of(past, before[i].exe_display)));
            }
        }
        lemma_presented_split(displays, history, at);
        let old_rest = presented(displays.skip(at), past);
        let new_rest = presented(displays.skip(at), history);
        let front = presented(before, history);
        assert(displays.skip(at)[0] == displays[at]);
        assert(old_rest == block(displays[at], past));
        assert(displays.skip(at).drop_first() =~= displays.skip(at + 1));
        assert forall|i: int, j: int|
            0 <= i < displays.len() && 0 <= j < displays.len() && i != j implies (
        #[trigger] displays[i]).exe_display != (#[trigger] displays[j]).exe_display by {
            if j < i {
                assert(displays[j].exe_display != displays[i].exe_display);
            }
        }
        if sender == at {
            match message.output {
                Some(line) => {
                    assert(new_rest =~= old_rest.push(line_action(line)));
                    assert(shown + seq![line_action(line)] =~= front + new_rest);
                    at
                },
                None => {
                    assert forall|i: int|
                        0 <= i < displays.take(at + 1).len() implies ended(
                        stream_of(history, (#[trigger] displays.take(at + 1)[i]).exe_display),
                    ) by {
                        if i < at {
                            assert(displays.take(at)[i] == displays.take(at + 1)[i]);
                        }
                    }
                    assert forall|i: int|
                        at + 1 <= i < displays.len() implies state.cache[(
                    #[trigger] displays[i]).exe_display] == stream_of(
                        history,
                        displays[i].exe_display,
                    ) by {
                        assert(displays[i].exe_display != name);
                    }
                    let more = presented(displays.skip(at + 1), history);
                    assert(new_rest =~= old_rest + more);
                    assert((front + old_rest) + more =~= front + (old_rest + more));
                    lemma_advance(displays, history, state.cache, at + 1)
                },
            }
        } else {
            let next = receive(state, message).1;
            assert(displays[at].exe_display != name);
            assert(new_rest == old_rest);
            assert(shown + Seq::<ShellActionView>::empty() =~= shown);
            assert forall|i: int|
                at < i < displays.len() implies next.cache[(
            #[trigger] displays[i]).exe_display] == stream_of(history, displays[i].exe_display) by {
                if i != sender {
                    assert(displays[i].exe_display != name);
                }
            }
            at
        }
    }
}

/// The output is presented in order: after any orderly history, what has been
/// shown is the blocks of the executables, in the order in which these were
/// given, up to and with the first one that has not ended. Nothing of a later
/// one has been shown, and nothing that could be shown is held back.
pub proof fn law_output_is_presented_in_order(
    displays: Seq<TestBatchDisplayView>,
    history: Seq<TestOutputView>,
)
    requires
        distinct(displays),
        orderly(displays, history),
    ensures
        run(displays, history).0 == presented(displays, history),
{
    lemma_run(displays, history);
}

/// The printer finishes when, and only when, every executable has ended.
pub proof fn law_finished_when_all_ended(
    displays: Seq<TestBatchDisplayView>,
    history: Seq<TestOutputView>,
)
    requires
        distinct(displays),
        orderly(displays, history),
    ensures
        run(displays, history).1.current is None <==> all_ended(displays, history),
{
    let at = lemma_run(displays, history);
    if at == displays.len() {
        assert(displays.take(at) =~= displays);
    }
}

/// Where every executable has ended, what is presented is all the blocks.
proof fn lemma_presented_whole(
    displays: Seq<TestBatchDisplayView>,
    history: Seq<TestOutputView>,
)
    requires
        all_ended(displays, history),
    ensures
        presented(displays, history) == blocks(displays, history),
    decreases displays.len(),
{
    let f = |display: TestBatchDisplayView| block(display, history);
    if displays.len() == 0 {
        assert(displays.map_values(f) =~= Seq::empty());
    } else {
        let rest = displays.drop_first();
        assert forall|i: int| 0 <= i < rest.len() implies ended(
            stream_of(history, (#[trigger] rest[i]).exe_display),
        ) by {
            assert(rest[i] == displays[i + 1]);
        }
        lemma_presented_whole(rest, history);
        assert(displays.map_values(f).drop_first() =~= rest.map_values(f));
        assert(displays.map_values(f)[0] == block(displays[0], history));
    }
}

/// Once every executable has ended, each has been announced once, in the order
/// given, with all its lines behind its announcement and before the next one.
pub proof fn law_complete_output(
    displays: Seq<TestBatchDisplayView>,
    history: Seq<TestOutputView>,
)
    requires
        distinct(displays),
        orderly(displays, history),
        all_ended(displays, history),
    ensures
        run(displays, history).0 == blocks(displays, history),
{
    lemma_run(displays, history);
    lemma_presented_whole(displays, history);
}

/// How the messages of the executables are interleaved cannot be seen: what has
/// been shown depends only on what each of them has sent.
pub proof fn law_interleaving_is_invisible(
    displays: Seq<TestBatchDisplayView>,
    a: Seq<TestOutputView>,
    b: Seq<TestOutputView>,
)
    requires
        distinct(displays),
        orderly(displays, a),
        orderly(displays, b),
        forall|i: int|
            0 <= i < displays.len() ==> stream_of(a, (#[trigger] displays[i]).exe_display)
                == stream_of(b, displays[i].exe_display),
    ensures
        run(displays, a).0 == run(displays, b).0,
{
    lemma_run(displays, a);
    lemma_run(displays, b);
    lemma_presented_same(displays, a, b);
}

/// Where only the first so many executables were started, and these have all
/// ended, all their output has been shown. The one that would have come next has
/// been announced.
pub proof fn law_output_of_a_stopped_run(
    displays: Seq<TestBatchDisplayView>,
    history: Seq<TestOutputView>,
    started: int,
)
    requires
        distinct(displays),
        orderly(displays, history),
        0 <= started < displays.len(),
        all_ended(displays.take(started), history),
        forall|i: int|
            started <= i < displays.len() ==> stream_of(
                history,
                (#[trigger] displays[i]).exe_display,
            ).len() == 0,
    ensures
        run(displays, history).0 == blocks(displays.take(started), history) + display_actions(
            displays[started],
        ),
{
    lemma_run(displays, history);
    lemma_presented_split(displays, history, started);
    lemma_presented_whole(displays.take(started), history);
    let rest = displays.skip(started);
    assert(rest[0] == displays[started]);
    let stream = stream_of(history, displays[started].exe_display);
    assert(stream =~= Seq::empty());
    assert(presented(rest, history) =~= display_actions(displays[started]));
}

/// The cache has a place for each of the executables and for nothing else.
proof fn lemma_cache_names(
    displays: Seq<TestBatchDisplayView>,
    history: Seq<TestOutputView>,
    name: Seq<char>,
)
    requires
        orderly(displays, history),
    ensures
        run(displays, history).1.cache.contains_key(name) <==> named(displays, name),
    decreases history.len(),
{
    if history.len() == 0 {
        lemma_advance_cache(displays, empty_cache(displays));
    } else {
        let past = history.drop_last();
        assert forall|k: int| 0 <= k < past.len() implies {
            let name = (#[trigger] past[k]).exe_display;
            named(displays, name) && !ended(stream_of(past.take(k), name))
        } by {
            assert(past[k] == history[k]);
            assert(past.take(k) =~= history.take(k));
        }
        lemma_cache_names(displays, past, name);
        assert(history[history.len() - 1] == history.last());
        let state = run(displays, past).1;
        lemma_advance_cache(state.queue, state.cache);
    }
}

proof fn lemma_advance_cache(queue: Seq<TestBatchDisplayView>, cache: Map<Seq<char>, Stream>)
    ensures
        advance(queue, cache).1.cache == cache,
    decreases queue.len(),
{
    if queue.len() > 0 {
        lemma_advance_cache(queue.drop_first(), cache);
    }
}

/// A printer can take every message of an orderly history: it has not finished
/// before, and it knows the sender.
pub proof fn law_orderly_messages_are_accepted(
    displays: Seq<TestBatchDisplayView>,
    history: Seq<TestOutputView>,
    k: int,
)
    requires
        distinct(displays),
        orderly(displays, history),
        0 <= k < history.len(),
    ensures
        run(displays, history.take(k)).1.current is Some,
        run(displays, history.take(k)).1.cache.contains_key(history[k].exe_display),
{
    let past = history.take(k);
    assert forall|j: int| 0 <= j < past.len() implies {
        let name = (#[trigger] past[j]).exe_display;
        named(displays, name) && !ended(stream_of(past.take(j), name))
    } by {
        assert(past[j] == history[j]);
        assert(past.take(j) =~= history.take(j));
    }
    lemma_cache_names(displays, past, history[k].exe_display);
    law_finished_when_all_ended(displays, past);
    let sender = choose|i: int|
        0 <= i < displays.len() && (#[trigger] displays[i]).exe_display == history[k].exe_display;
    assert(!ended(stream_of(past, displays[sender].exe_display)));
}

/// What has been shown stays shown, in the same order: later messages only add to
/// its end.
pub proof fn law_nothing_shown_is_withdrawn(
    displays: Seq<TestBatchDisplayView>,
    history: Seq<TestOutputView>,
    later: Seq<TestOutputView>,
)
    ensures
        run(displays, history).0.is_prefix_of(run(displays, history + later).0),
    decreases later.len(),
{
    if later.len() == 0 {
        assert(history + later =~= history);
    } else {
        law_nothing_shown_is_withdrawn(displays, history, later.drop_last());
        assert((history + later).drop_last() =~= history + later.drop_last());
    }
}

/// At the start the first executable is announced, by its whole name and command
/// line, and the others wait in order. Each has its own place to be cached in, with
/// nothing in it. Without executables nothing is shown, and the printer has finished.
pub proof fn law_the_first_is_announced(
    exe_displays: Vec<TestBatchDisplay>,
    result: (Printer, Vec<ShellAction>),
)
    requires
        call_ensures(Printer::new, (exe_displays,), result),
    ensures
        exe_displays@.len() == 0 ==> result.1@.len() == 0 && result.0@.current is None,
        exe_displays@.len() > 0 ==> {
            &&& result.1@.len() == 2
            &&& result.1@[0] matches ShellAction::Concise(status, name) && status@ == "Running"@
                && name@ == exe_displays@[0].exe_display@
            &&& result.1@[1] matches ShellAction::Verbose(status, shown) && status@ == "Running"@
                && shown@ == match exe_displays@[0].cmd_display {
                Some(cmd) => cmd@,
                None => ""@,
            }
            &&& result.0@.current == Some(exe_displays@[0]@)
            &&& result.0@.queue.len() == exe_displays@.len() - 1
        },
        forall|i: int|
            0 < i < exe_displays@.len() ==> result.0@.queue[i - 1] == (
            #[trigger] exe_displays@[i])@,
        forall|i: int|
            0 <= i < exe_displays@.len() ==> result.0@.cache.contains_key(
                (#[trigger] exe_displays@[i]).exe_display@,
            ),
        forall|name: Seq<char>| #[trigger]
            result.0@.cache.contains_key(name) ==> result.0@.cache[name].len() == 0 && exists|
                i: int,
            |
                0 <= i < exe_displays@.len() && (#[trigger] exe_displays@[i]).exe_display@ == name,
{
    let displays = displays_view(exe_displays@);
    let shown = actions_view(result.1@);
    assert(shown.len() == result.1@.len());
    assert forall|i: int| 0 <= i < exe_displays@.len() implies displays[i] == (
    #[trigger] exe_displays@[i])@ by {}
    if exe_displays@.len() > 0 {
        let cache = empty_cache(displays);
        let first = displays[0];
        assert(named(displays, first.exe_display));
        assert(!ended(cache[first.exe_display]));
        assert(shown_lines(cache[first.exe_display]) =~= Seq::empty());
        assert(shown =~= display_actions(first));
        assert(shown[0] == result.1@[0]@);
        assert(shown[1] == result.1@[1]@);
        assert(result.0@.queue == displays.drop_first());
        assert(result.0@.cache == cache);
    } else {
        assert(displays.len() == 0);
    }
    assert forall|i: int| 0 <= i < exe_displays@.len() implies result.0@.cache.contains_key(
        (#[trigger] exe_displays@[i]).exe_display@,
    ) by {
        assert(displays[i].exe_display == exe_displays@[i].exe_display@);
    }
    let cache = result.0@.cache;
    assert forall|name: Seq<char>| #[trigger] cache.contains_key(name) implies cache[name].len()
        == 0 && exists|i: int|
        0 <= i < exe_displays@.len() && (#[trigger] exe_displays@[i]).exe_display@ == name by {
        assert(named(displays, name));
        let i = choose|i: int|
            0 <= i < displays.len() && (#[trigger] displays[i]).exe_display == name;
        assert(exe_displays@[i].exe_display@ == name);
    }
}

/// A line of the executable that is being shown is shown at once, with its text and
/// on its stream, and nothing else happens.
pub proof fn law_current_line_is_shown_at_once(
    state: PrinterView,
    current: TestBatchDisplayView,
    text: Seq<char>,
)
    requires
        state.current == Some(current),
    ensures
        receive(
            state,
            (TestOutputView {
                exe_display: current.exe_display,
                output: Some(OutOrErrView::Stdout(text)),
            }),
        ) == (seq![ShellActionView::Stdout(text)], state),
        receive(
            state,
            (TestOutputView {
                exe_display: current.exe_display,
                output: Some(OutOrErrView::Stderr(text)),
            }),
        ) == (seq![ShellActionView::Stderr(text)], state),
{
}

/// A message of an executable that is not being shown is kept behind those that came
/// from it before, and nothing is shown.
pub proof fn law_other_messages_wait(state: PrinterView, message: TestOutputView)
    requires
        state.current matches Some(current) && current.exe_display != message.exe_display,
    ensures
        receive(state, message).0.len() == 0,
        receive(state, message).1.current == state.current,
        receive(state, message).1.queue == state.queue,
        receive(state, message).1.cache == state.cache.insert(
            message.exe_display,
            state.cache[message.exe_display].push(message.output),
        ),
{
}

/// The lines of a stream up to its end, each shown as it was written.
proof fn lemma_lines_up_to_the_end(stream: Stream, lines: Seq<OutOrErrView>)
    requires
        lines.len() <= stream.len(),
        forall|k: int| 0 <= k < lines.len() ==> stream[k] == Some(#[trigger] lines[k]),
        lines.len() < stream.len() ==> stream[lines.len() as int] is None,
    ensures
        ended(stream) <==> lines.len() < stream.len(),
        shown_lines(stream) == Seq::new(
            lines.len(),
            |k: int|
                match lines[k] {
                    OutOrErrView::Stdout(text) => ShellActionView::Stdout(text),
                    OutOrErrView::Stderr(text) => ShellActionView::Stderr(text),
                },
        ),
    decreases stream.len(),
{
    let shown = Seq::new(
        lines.len(),
        |k: int|
            match lines[k] {
                OutOrErrView::Stdout(text) => ShellActionView::Stdout(text),
                OutOrErrView::Stderr(text) => ShellActionView::Stderr(text),
            },
    );
    if lines.len() < stream.len() {
        assert(stream[lines.len() as int] is None);
        lemma_lines_up_to_the_end(stream.drop_last(), lines);
    } else {
        assert forall|k: int| 0 <= k < stream.len() implies stream[k] is Some by {
            assert(stream[k] == Some(lines[k]));
        }
        if stream.len() > 0 {
            let past = lines.drop_last();
            assert forall|k: int| 0 <= k < past.len() implies stream.drop_last()[k] == Some(
                #[trigger] past[k],
            ) by {
                assert(past[k] == lines[k]);
            }
            lemma_lines_up_to_the_end(stream.drop_last(), past);
            assert(stream.last() == Some(lines[lines.len() - 1]));
            assert(shown_lines(stream) =~= shown);
        } else {
            assert(shown =~= Seq::empty());
        }
    }
}

/// What is shown of so many executables in turn: each is announced by its whole name
/// and command line, and followed by its lines as they were written.
pub open spec fn told_in_turn(
    displays: Seq<TestBatchDisplayView>,
    lines: Seq<Seq<OutOrErrView>>,
) -> Seq<ShellActionView> {
    Seq::new(
        lines.len(),
        |i: int|
            seq![
                ShellActionView::Concise("Running"@, displays[i].exe_display),
                ShellActionView::Verbose(
                    "Running"@,
                    match displays[i].cmd_display {
                        Some(cmd) => cmd,
                        None => ""@,
                    },
                ),
            ] + Seq::new(
                lines[i].len(),
                |k: int|
                    match lines[i][k] {
                        OutOrErrView::Stdout(text) => ShellActionView::Stdout(text),
                        OutOrErrView::Stderr(text) => ShellActionView::Stderr(text),
                    },
            ),
    ).flatten()
}

/// The first one is told before the others.
proof fn lemma_told_first(displays: Seq<TestBatchDisplayView>, lines: Seq<Seq<OutOrErrView>>)
    requires
        0 < lines.len() <= displays.len(),
    ensures
        told_in_turn(displays, lines) == display_actions(displays[0]) + Seq::new(
            lines[0].len(),
            |k: int|
                match lines[0][k] {
                    OutOrErrView::Stdout(text) => ShellActionView::Stdout(text),
                    OutOrErrView::Stderr(text) => ShellActionView::Stderr(text),
                },
        ) + told_in_turn(displays.drop_first(), lines.drop_first()),
{
    let told = |displays: Seq<TestBatchDisplayView>, lines: Seq<Seq<OutOrErrView>>|
        Seq::new(
            lines.len(),
            |i: int|
                seq![
                    ShellActionView::Concise("Running"@, displays[i].exe_display),
                    ShellActionView::Verbose(
                        "Running"@,
                        match displays[i].cmd_display {
                            Some(cmd) => cmd,
                            None => ""@,
                        },
                    ),
                ] + Seq::new(
                    lines[i].len(),
                    |k: int|
                        match lines[i][k] {
                            OutOrErrView::Stdout(text) => ShellActionView::Stdout(text),
                            OutOrErrView::Stderr(text) => ShellActionView::Stderr(text),
                        },
                ),
        );
    assert(told_in_turn(displays, lines) == told(displays, lines).flatten());
    let rest = told(displays.drop_first(), lines.drop_first());
    assert(told(displays, lines).drop_first() =~~= rest);
    assert(told_in_turn(displays.drop_first(), lines.drop_first()) == rest.flatten());
}

/// The lines are all that the stream holds up to its end, or up to now if it has
/// not ended.
pub open spec fn holds(stream: Stream, lines: Seq<OutOrErrView>, through: bool) -> bool {
    &&& if through {
        lines.len() < stream.len() && stream[lines.len() as int] is None
    } else {
        lines.len() == stream.len()
    }
    &&& forall|k: int| 0 <= k < lines.len() ==> stream[k] == Some(#[trigger] lines[k])
}

proof fn lemma_none_told(displays: Seq<TestBatchDisplayView>, lines: Seq<Seq<OutOrErrView>>)
    requires
        lines.len() == 0,
    ensures
        told_in_turn(displays, lines) == Seq::<ShellActionView>::empty(),
{
}

proof fn lemma_advance_tells(
    queue: Seq<TestBatchDisplayView>,
    cache: Map<Seq<char>, Stream>,
    lines: Seq<Seq<OutOrErrView>>,
    passed: int,
)
    requires
        0 <= passed <= queue.len(),
        lines.len() == if passed < queue.len() {
            passed + 1
        } else {
            passed
        },
        forall|i: int|
            0 <= i < lines.len() ==> holds(
                cache[(#[trigger] queue[i]).exe_display],
                lines[i],
                i < passed,
            ),
    ensures
        advance(queue, cache).0 == told_in_turn(queue, lines),
        advance(queue, cache).1.current == if passed < queue.len() {
            Some(queue[passed])
        } else {
            None
        },
        advance(queue, cache).1.queue == if passed < queue.len() {
            queue.skip(passed + 1)
        } else {
            Seq::empty()
        },
        advance(queue, cache).1.cache == cache,
    decreases queue.len(),
{
    if queue.len() == 0 {
        lemma_none_told(queue, lines);
        assert(queue =~= Seq::empty());
    } else {
        let rest = queue.drop_first();
        let more = lines.drop_first();
        assert(holds(cache[queue[0].exe_display], lines[0], 0 < passed));
        lemma_lines_up_to_the_end(cache[queue[0].exe_display], lines[0]);
        lemma_told_first(queue, lines);
        if passed == 0 {
            lemma_none_told(rest, more);
            assert(queue.skip(1) =~= rest);
            assert(advance(queue, cache).0 =~= told_in_turn(queue, lines));
        } else {
            assert forall|i: int| 0 <= i < more.len() implies holds(
                cache[(#[trigger] rest[i]).exe_display],
                more[i],
                i < passed - 1,
            ) by {
                assert(rest[i] == queue[i + 1]);
            }
            lemma_advance_tells(rest, cache, more, passed - 1);
            if passed < queue.len() {
                assert(rest.skip(passed) =~= queue.skip(passed + 1));
            }
        }
    }
}

/// When the executable that is being shown has ended, the next one is shown: it is
/// announced, and followed by the lines that were kept of it. As long as an executable
/// has ended already, the one after it is shown too. The first one that has not ended
/// is the one that is being shown then; if all have, the printer has finished.
pub proof fn law_the_next_ones_are_shown(
    state: PrinterView,
    current: TestBatchDisplayView,
    lines: Seq<Seq<OutOrErrView>>,
    passed: int,
)
    requires
        state.current == Some(current),
        0 <= passed <= state.queue.len(),
        lines.len() == if passed < state.queue.len() {
            passed + 1
        } else {
            passed
        },
        forall|i: int|
            0 <= i < lines.len() ==> holds(
                state.cache[(#[trigger] state.queue[i]).exe_display],
                lines[i],
                i < passed,
            ),
    ensures
        ({
            let (shown, next) = receive(
                state,
                TestOutputView { exe_display: current.exe_display, output: None },
            );
            &&& shown == told_in_turn(state.queue, lines)
            &&& next.current == if passed < state.queue.len() {
                Some(state.queue[passed])
            } else {
                None
            }
            &&& next.queue == if passed < state.queue.len() {
                state.queue.skip(passed + 1)
            } else {
                Seq::empty()
            }
            &&& next.cache == state.cache
        }),
{
    lemma_advance_tells(state.queue, state.cache, lines, passed);
}

/// What is presented, given the lines of the executables up to the first one that has
/// not ended.
pub(crate) proof fn lemma_presented_tells(
    displays: Seq<TestBatchDisplayView>,
    history: Seq<TestOutputView>,
    lines: Seq<Seq<OutOrErrView>>,
    passed: int,
)
    requires
        0 <= passed <= displays.len(),
        lines.len() == if passed < displays.len() {
            passed + 1
        } else {
            passed
        },
        forall|i: int|
            0 <= i < lines.len() ==> holds(
                stream_of(history, (#[trigger] displays[i]).exe_display),
                lines[i],
                i < passed,
            ),
    ensures
        presented(displays, history) == told_in_turn(displays, lines),
    decreases displays.len(),
{
    if displays.len() == 0 {
        lemma_none_told(displays, lines);
    } else {
        let rest = displays.drop_first();
        let more = lines.drop_first();
        let stream = stream_of(history, displays[0].exe_display);
        assert(holds(stream, lines[0], 0 < passed));
        lemma_lines_up_to_the_end(stream, lines[0]);
        lemma_told_first(displays, lines);
        if passed == 0 {
            lemma_none_told(rest, more);
            assert(presented(displays, history) =~= told_in_turn(displays, lines));
        } else {
            assert forall|i: int| 0 <= i < more.len() implies holds(
                stream_of(history, (#[trigger] rest[i]).exe_display),
                more[i],
                i < passed - 1,
            ) by {
                assert(rest[i] == displays[i + 1]);
            }
            lemma_presented_tells(rest, history, more, passed - 1);
        }
    }
}

/// The executable that is being shown is the first one that has not ended.
pub proof fn law_which_is_being_shown(
    displays: Seq<TestBatchDisplayView>,
    history: Seq<TestOutputView>,
    passed: int,
)
    requires
        distinct(displays),
        orderly(displays, history),
        0 <= passed <= displays.len(),
        forall|i: int|
            0 <= i < passed ==> ended(stream_of(history, (#[trigger] displays[i]).exe_display)),
        passed < displays.len() ==> !ended(stream_of(history, displays[passed].exe_display)),
    ensures
        run(displays, history).1.current == if passed < displays.len() {
            Some(displays[passed])
        } else {
            None
        },
{
    let at = lemma_run(displays, history);
    if at < passed {
        assert(ended(stream_of(history, displays[at].exe_display)));
    } else if passed < at {
        assert(displays.take(at)[passed] == displays[passed]);
    }
}

} // verus!
