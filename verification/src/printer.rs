//! Shows the output of test executables that run side by side, one executable
//! after the other.
//!
//! Messages arrive in whatever order the executables send them. The executable
//! that is being shown has its lines passed on at once; what the others send is
//! cached until their turn comes.
use crate::shell::actions_view;
use crate::shell::display_actions;
use crate::shell::displays_view;
use crate::shell::line_action;
use crate::shell::output_view;
use crate::shell::print_display;
use crate::shell::print_line;
use crate::shell::OutOrErr;
use crate::shell::OutOrErrView;
use crate::shell::ShellAction;
use crate::shell::ShellActionView;
use crate::shell::TestBatchDisplay;
use crate::shell::TestBatchDisplayView;
use crate::shell::TestOutput;
use crate::shell::TestOutputView;
use std::collections::VecDeque;
use vstd::hash_map::StringHashMap;
use vstd::prelude::*;

verus! {

/// What one executable sent: its lines, and `None` where it said that there
/// will be no more.
pub type Stream = Seq<Option<OutOrErrView>>;

/// The state of a [`Printer`].
pub struct PrinterView {
    /// The executable that is being shown; `None` once all have been shown.
    pub current: Option<TestBatchDisplayView>,
    /// The executables whose turn is still to come.
    pub queue: Seq<TestBatchDisplayView>,
    /// What was cached for each executable, by its name.
    pub cache: Map<Seq<char>, Stream>,
}

/// The executable has said that it is done.
pub open spec fn ended(stream: Stream) -> bool {
    stream.contains(None)
}

/// The lines of a stream up to its end.
pub open spec fn shown_lines(stream: Stream) -> Seq<ShellActionView>
    decreases stream.len(),
{
    if stream.len() == 0 {
        Seq::empty()
    } else {
        let before = shown_lines(stream.drop_last());
        match stream.last() {
            Some(line) if !ended(stream.drop_last()) => before.push(line_action(line)),
            _ => before,
        }
    }
}

/// Moves on to the first executable of the queue that has not ended, showing
/// what was cached for it and for those passed over: what is shown, and the
/// state afterwards.
pub open spec fn advance(
    queue: Seq<TestBatchDisplayView>,
    cache: Map<Seq<char>, Stream>,
) -> (Seq<ShellActionView>, PrinterView)
    decreases queue.len(),
{
    if queue.len() == 0 {
        (Seq::empty(), PrinterView { current: None, queue, cache })
    } else {
        let next = queue[0];
        let stream = cache[next.exe_display];
        let shown = display_actions(next) + shown_lines(stream);
        if ended(stream) {
            let (more, state) = advance(queue.drop_first(), cache);
            (shown + more, state)
        } else {
            (shown, PrinterView { current: Some(next), queue: queue.drop_first(), cache })
        }
    }
}

/// The name is that of one of the executables.
pub open spec fn named(displays: Seq<TestBatchDisplayView>, name: Seq<char>) -> bool {
    exists|i: int| 0 <= i < displays.len() && (#[trigger] displays[i]).exe_display == name
}

/// A cache with nothing in it yet for each of the executables.
pub open spec fn empty_cache(displays: Seq<TestBatchDisplayView>) -> Map<Seq<char>, Stream> {
    Map::new(|name: Seq<char>| named(displays, name), |name: Seq<char>| Seq::empty())
}

/// The start: the first executable is announced.
pub open spec fn start(displays: Seq<TestBatchDisplayView>) -> (
    Seq<ShellActionView>,
    PrinterView,
) {
    advance(displays, empty_cache(displays))
}

/// What a message makes the printer show, and the state afterwards.
pub open spec fn receive(state: PrinterView, message: TestOutputView) -> (
    Seq<ShellActionView>,
    PrinterView,
) {
    let name = message.exe_display;
    if state.current matches Some(current) && current.exe_display == name {
        match message.output {
            Some(line) => (seq![line_action(line)], state),
            None => advance(state.queue, state.cache),
        }
    } else {
        (
            Seq::empty(),
            PrinterView {
                cache: state.cache.insert(name, state.cache[name].push(message.output)),
                ..state
            },
        )
    }
}

/// The contents of a cached stream.
pub open spec fn stream_view(stream: Seq<Option<OutOrErr>>) -> Stream {
    stream.map_values(|output: Option<OutOrErr>| output_view(output))
}

/// Presents the messages of many executables as if these had run in turn.
pub struct Printer {
    current: Option<TestBatchDisplay>,
    queue: VecDeque<TestBatchDisplay>,
    /// Where in `streams` the stream of each executable is.
    index: StringHashMap<usize>,
    streams: Vec<Vec<Option<OutOrErr>>>,
}

impl View for Printer {
    type V = PrinterView;

    closed spec fn view(&self) -> PrinterView {
        PrinterView {
            current: match self.current {
                Some(current) => Some(current@),
                None => None,
            },
            queue: displays_view(self.queue@),
            cache: cache_view(self.index@, self.streams@),
        }
    }
}

spec fn cache_view(index: Map<Seq<char>, usize>, streams: Seq<Vec<Option<OutOrErr>>>) -> Map<
    Seq<char>,
    Stream,
> {
    index.map_values(|i: usize| stream_view(streams[i as int]@))
}

spec fn index_ok(index: Map<Seq<char>, usize>, streams: Seq<Vec<Option<OutOrErr>>>) -> bool {
    &&& forall|name: Seq<char>| #[trigger] index.contains_key(name) ==> index[name] < streams.len()
    &&& forall|a: Seq<char>, b: Seq<char>|
        #![trigger index[a], index[b]]
        index.contains_key(a) && index.contains_key(b) && index[a] == index[b] ==> a == b
}

impl Printer {
    /// Every executable that is or will be shown has a place in the cache.
    pub closed spec fn wf(&self) -> bool {
        &&& index_ok(self.index@, self.streams@)
        &&& forall|i: int|
            0 <= i < self.queue@.len() ==> self.index@.contains_key(
                (#[trigger] self.queue@[i]).exe_display@,
            )
        &&& self.current matches Some(current) ==> self.index@.contains_key(current.exe_display@)
        &&& self.current is None ==> self.queue@.len() == 0
    }

    /// Starts with the executables in the order in which they are to be shown.
    pub fn new(exe_displays: Vec<TestBatchDisplay>) -> (result: (Printer, Vec<ShellAction>))
        ensures
            result.0.wf(),
            (actions_view(result.1@), result.0@) == start(displays_view(exe_displays@)),
    {
        let ghost displays = displays_view(exe_displays@);
        let mut index: StringHashMap<usize> = StringHashMap::new();
        let mut streams: Vec<Vec<Option<OutOrErr>>> = Vec::new();
        let mut queue: VecDeque<TestBatchDisplay> = VecDeque::new();
        let mut i: usize = 0;
        while i < exe_displays.len()
            invariant
                i <= exe_displays@.len(),
                displays == displays_view(exe_displays@),
                index_ok(index@, streams@),
                forall|j: int| 0 <= j < streams@.len() ==> (#[trigger] streams@[j])@.len() == 0,
                forall|name: Seq<char>| #[trigger]
                    index@.contains_key(name) <==> named(displays.take(i as int), name),
                displays_view(queue@) =~= displays.take(i as int),
            decreases exe_displays.len() - i,
        {
            let display = exe_displays[i].clone();
            proof {
                let now = displays.take(i + 1);
                let past = displays.take(i as int);
                assert(now[i as int] == display@);
                assert forall|name: Seq<char>|
                    named(now, name) <==> named(past, name) || name == display.exe_display@ by {
                    if named(past, name) {
                        let j = choose|j: int|
                            0 <= j < past.len() && (#[trigger] past[j]).exe_display == name;
                        assert(now[j] == past[j]);
                    }
                    if named(now, name) {
                        let j = choose|j: int|
                            0 <= j < now.len() && (#[trigger] now[j]).exe_display == name;
                        if j < i {
                            assert(past[j] == now[j]);
                        }
                    }
                }
            }
            if !index.contains_key(display.exe_display.as_str()) {
                index.insert(display.exe_display.clone(), streams.len());
                streams.push(Vec::new());
            }
            queue.push_back(display);
            i = i + 1;
        }
        proof {
            assert(displays.take(i as int) =~= displays);
            assert forall|j: int| 0 <= j < queue@.len() implies index@.contains_key(
                (#[trigger] queue@[j]).exe_display@,
            ) by {
                assert(displays_view(queue@)[j] == queue@[j]@);
                assert(named(displays, queue@[j].exe_display@));
            }
            assert forall|name: Seq<char>| #[trigger] index@.contains_key(name) implies cache_view(
                index@,
                streams@,
            )[name] == Seq::<Option<OutOrErrView>>::empty() by {
                assert(streams@[index@[name] as int]@.len() == 0);
                assert(cache_view(index@, streams@)[name] =~= Seq::empty());
            }
            assert(cache_view(index@, streams@) =~= empty_cache(displays));
        }
        let mut printer = Printer { current: None, queue, index, streams };
        let shown = printer.advance();
        (printer, shown)
    }

    /// Moves on to the next executable that has not ended.
    fn advance(&mut self) -> (shown: Vec<ShellAction>)
        requires
            index_ok(old(self).index@, old(self).streams@),
            forall|i: int|
                0 <= i < old(self).queue@.len() ==> old(self).index@.contains_key(
                    (#[trigger] old(self).queue@[i]).exe_display@,
                ),
        ensures
            final(self).wf(),
            (actions_view(shown@), final(self)@) == advance(old(self)@.queue, old(self)@.cache),
    {
        let ghost cache = self@.cache;
        let ghost whole = advance(self@.queue, cache);
        let mut shown: Vec<ShellAction> = Vec::new();
        assert(actions_view(shown@) + whole.0 =~= whole.0);
        loop
            invariant
                cache == cache_view(self.index@, self.streams@),
                index_ok(self.index@, self.streams@),
                forall|i: int|
                    0 <= i < self.queue@.len() ==> self.index@.contains_key(
                        (#[trigger] self.queue@[i]).exe_display@,
                    ),
                whole.0 == actions_view(shown@) + advance(displays_view(self.queue@), cache).0,
                whole.1 == advance(displays_view(self.queue@), cache).1,
                whole == advance(old(self)@.queue, old(self)@.cache),
            decreases self.queue@.len(),
        {
            let ghost queue = displays_view(self.queue@);
            let ghost before = actions_view(shown@);
            match self.queue.pop_front() {
                None => {
                    self.current = None;
                    assert(displays_view(self.queue@) =~= queue);
                    assert(before + Seq::empty() =~= before);
                    return shown;
                },
                Some(next) => {
                    assert(queue[0] == next@);
                    assert(displays_view(self.queue@) =~= queue.drop_first());
                    let mut announcement = print_display(&next);
                    let ghost announced = announcement@;
                    shown.append(&mut announcement);
                    assert(actions_view(shown@) =~= before + actions_view(announced));
                    let i: usize = match self.index.get(next.exe_display.as_str()) {
                        Some(i) => *i,
                        None => 0,
                    };
                    let ghost stream = cache[next@.exe_display];
                    let has_ended = show_stream(&self.streams[i], &mut shown);
                    assert(actions_view(shown@) =~= before + (display_actions(next@)
                        + shown_lines(stream)));
                    if !has_ended {
                        self.current = Some(next);
                        return shown;
                    }
                    proof {
                        let more = advance(queue.drop_first(), cache).0;
                        assert(before + ((display_actions(next@) + shown_lines(stream)) + more)
                            =~= (before + (display_actions(next@) + shown_lines(stream))) + more);
                    }
                },
            }
        }
    }

    /// Takes in a message from one of the executables.
    pub fn receive(&mut self, message: TestOutput) -> (shown: Vec<ShellAction>)
        requires
            old(self).wf(),
            old(self)@.current is Some,
            old(self)@.cache.contains_key(message@.exe_display),
        ensures
            final(self).wf(),
            (actions_view(shown@), final(self)@) == receive(old(self)@, message@),
    {
        let is_current = match &self.current {
            Some(current) => current.exe_display == message.exe_display,
            None => false,
        };
        let mut shown: Vec<ShellAction> = Vec::new();
        if is_current {
            match &message.output {
                Some(line) => {
                    shown.push(print_line(line));
                    assert(actions_view(shown@) =~= seq![line_action(line@)]);
                },
                None => {
                    shown = self.advance();
                },
            }
        } else {
            let i: usize = match self.index.get(message.exe_display.as_str()) {
                Some(i) => *i,
                None => 0,
            };
            let ghost name = message@.exe_display;
            let ghost output = message.output;
            let ghost streams = self.streams@;
            self.streams[i].push(message.output);
            proof {
                assert(stream_view(streams[i as int]@.push(output)) =~= stream_view(
                    streams[i as int]@,
                ).push(output_view(output)));
                assert(self@.cache =~= old(self)@.cache.insert(
                    name,
                    old(self)@.cache[name].push(output_view(output)),
                ));
            }
        }
        shown
    }

    /// All executables have been shown to their end.
    pub fn is_finished(&self) -> (finished: bool)
        ensures
            finished == (self@.current is None),
    {
        self.current.is_none()
    }

    /// The name is that of an executable that the printer was started with.
    pub fn knows(&self, exe_display: &str) -> (known: bool)
        ensures
            known == self@.cache.contains_key(exe_display@),
    {
        self.index.contains_key(exe_display)
    }
}

/// Shows a cached stream up to its end; whether it has ended.
fn show_stream(stream: &Vec<Option<OutOrErr>>, shown: &mut Vec<ShellAction>) -> (has_ended: bool)
    ensures
        actions_view(final(shown)@) == actions_view(old(shown)@) + shown_lines(stream_view(stream@)),
        has_ended == ended(stream_view(stream@)),
{
    let ghost whole = stream_view(stream@);
    let mut i: usize = 0;
    assert(actions_view(shown@) =~= actions_view(old(shown)@) + shown_lines(whole.take(0)));
    while i < stream.len()
        invariant
            i <= stream@.len(),
            whole == stream_view(stream@),
            !ended(whole.take(i as int)),
            actions_view(shown@) == actions_view(old(shown)@) + shown_lines(whole.take(i as int)),
        decreases stream.len() - i,
    {
        let ghost now = whole.take(i + 1);
        assert(now.drop_last() =~= whole.take(i as int));
        assert(now.last() == output_view(stream@[i as int]));
        match &stream[i] {
            Some(line) => {
                let ghost before = shown@;
                shown.push(print_line(line));
                proof {
                    assert(actions_view(shown@) =~= actions_view(before).push(line_action(line@)));
                    assert(actions_view(shown@) =~= actions_view(old(shown)@) + shown_lines(now));
                    assert forall|k: int| 0 <= k < now.len() implies now[k] is Some by {
                        if k < i {
                            assert(whole.take(i as int)[k] == now[k]);
                        }
                    }
                }
            },
            None => {
                proof {
                    assert(whole[i as int] is None);
                    lemma_nothing_after_end(whole, i as int);
                }
                return true;
            },
        }
        i = i + 1;
    }
    assert(whole.take(i as int) =~= whole);
    false
}

/// What follows the end of a stream is not shown.
proof fn lemma_nothing_after_end(stream: Stream, end: int)
    requires
        0 <= end < stream.len(),
        stream[end] is None,
    ensures
        shown_lines(stream) == shown_lines(stream.take(end)),
    decreases stream.len(),
{
    let before = stream.drop_last();
    if end == stream.len() - 1 {
        assert(before =~= stream.take(end));
    } else {
        assert(before[end] is None);
        assert(before.take(end) =~= stream.take(end));
        lemma_nothing_after_end(before, end);
    }
}

} // verus!
