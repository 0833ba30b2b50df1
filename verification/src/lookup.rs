//! What is looked up by kind, and directories in order.
use crate::model::CompileKind;
use crate::model::CompileKindView;
use crate::path::path_bytes;
use crate::path::path_precedes;
use crate::path::precedes;
use std::path::PathBuf;
use vstd::prelude::*;

verus! {

/// No kind occurs twice.
pub open spec fn kinds_distinct<T>(entries: Seq<(CompileKind, T)>) -> bool {
    forall|i: int, j: int|
        #![trigger entries[i], entries[j]]
        0 <= i < j < entries.len() ==> entries[i].0@ != entries[j].0@
}

/// The entry at that position is for the kind.
pub open spec fn is_entry_for<T>(
    entries: Seq<(CompileKind, T)>,
    kind: CompileKindView,
    i: int,
) -> bool {
    0 <= i < entries.len() && entries[i].0@ == kind
}

/// There is an entry for the kind.
pub open spec fn has_entry<T>(entries: Seq<(CompileKind, T)>, kind: CompileKindView) -> bool {
    exists|i: int| #[trigger] is_entry_for(entries, kind, i)
}

/// What the entries hold, by kind.
pub open spec fn entries_map<T>(entries: Seq<(CompileKind, T)>) -> Map<CompileKindView, T> {
    Map::new(
        |kind: CompileKindView| has_entry(entries, kind),
        |kind: CompileKindView| entries[choose|i: int| is_entry_for(entries, kind, i)].1,
    )
}

/// Where no kind occurs twice, what is held for a kind is what its only entry
/// holds.
pub proof fn law_only_entry<T>(entries: Seq<(CompileKind, T)>, kind: CompileKindView, i: int)
    requires
        kinds_distinct(entries),
        is_entry_for(entries, kind, i),
    ensures
        entries_map(entries).contains_key(kind),
        entries_map(entries)[kind] == entries[i].1,
        forall|j: int| #[trigger] is_entry_for(entries, kind, j) ==> j == i,
{
    assert forall|j: int| #[trigger] is_entry_for(entries, kind, j) implies j == i by {
        if j < i {
            assert(entries[j].0@ != entries[i].0@);
        } else if i < j {
            assert(entries[i].0@ != entries[j].0@);
        }
    }
}

/// One value for each kind.
#[derive(Debug)]
pub struct KindMap<T> {
    entries: Vec<(CompileKind, T)>,
}

impl<T> View for KindMap<T> {
    type V = Map<CompileKindView, T>;

    closed spec fn view(&self) -> Map<CompileKindView, T> {
        entries_map(self.entries@)
    }
}

impl<T> KindMap<T> {
    #[verifier::type_invariant]
    spec fn wf(self) -> bool {
        kinds_distinct(self.entries@)
    }

    /// Holds nothing.
    pub fn new() -> (map: KindMap<T>)
        ensures
            map@ == Map::<CompileKindView, T>::empty(),
    {
        let map = KindMap { entries: Vec::new() };
        assert(map@ =~= Map::empty());
        map
    }

    /// Holds the value for the kind, in place of the one that was there.
    pub fn insert(&mut self, kind: CompileKind, value: T)
        ensures
            final(self)@ == old(self)@.insert(kind@, value),
    {
        proof {
            use_type_invariant(&*self);
        }
        let ghost before = self.entries@;
        let ghost key = kind@;
        let mut entries: Vec<(CompileKind, T)> = Vec::new();
        std::mem::swap(&mut entries, &mut self.entries);
        let mut at: usize = 0;
        while at < entries.len() && !entries[at].0.same_as(&kind)
            invariant
                at <= entries@.len(),
                key == kind@,
                forall|j: int| 0 <= j < at ==> (#[trigger] entries@[j]).0@ != key,
            decreases entries.len() - at,
        {
            at = at + 1;
        }
        if at < entries.len() {
            entries.set(at, (kind, value));
        } else {
            entries.push((kind, value));
        }
        proof {
            lemma_entry_set(before, entries@, at as int, key, value);
        }
        self.entries = entries;
    }

    /// The value for a kind.
    pub fn get(&self, kind: &CompileKind) -> (found: Option<&T>)
        ensures
            match found {
                Some(value) => self@.contains_key(kind@) && *value == self@[kind@],
                None => !self@.contains_key(kind@),
            },
    {
        proof {
            use_type_invariant(self);
        }
        let ghost key = kind@;
        let mut i: usize = 0;
        while i < self.entries.len()
            invariant
                i <= self.entries@.len(),
                key == kind@,
                kinds_distinct(self.entries@),
                forall|j: int| 0 <= j < i ==> (#[trigger] self.entries@[j]).0@ != key,
            decreases self.entries.len() - i,
        {
            if self.entries[i].0.same_as(kind) {
                proof {
                    law_only_entry(self.entries@, key, i as int);
                }
                return Some(&self.entries[i].1);
            }
            i = i + 1;
        }
        None
    }

    /// The entries: one for each kind that has a value, and no kind twice.
    pub fn entries(&self) -> (entries: &Vec<(CompileKind, T)>)
        ensures
            kinds_distinct(entries@),
            self@ == entries_map(entries@),
    {
        proof {
            use_type_invariant(self);
        }
        &self.entries
    }
}

/// Setting the entry for a kind, or adding one where there is none, sets what is
/// held for the kind and nothing else.
proof fn lemma_entry_set<T>(
    before: Seq<(CompileKind, T)>,
    after: Seq<(CompileKind, T)>,
    at: int,
    key: CompileKindView,
    value: T,
)
    requires
        kinds_distinct(before),
        0 <= at <= before.len(),
        forall|j: int| 0 <= j < at ==> (#[trigger] before[j]).0@ != key,
        at < before.len() ==> before[at].0@ == key,
        after.len() == if at < before.len() { before.len() } else { before.len() + 1 },
        after[at].0@ == key,
        after[at].1 == value,
        forall|j: int| 0 <= j < before.len() && j != at ==> #[trigger] after[j] == before[j],
    ensures
        kinds_distinct(after),
        entries_map(after) == entries_map(before).insert(key, value),
{
    assert forall|j: int| 0 <= j < before.len() && j != at implies (
    #[trigger] before[j]).0@ != key by {
        if at < j {
            assert(before[at].0@ != before[j].0@);
        }
    }
    assert(kinds_distinct(after)) by {
        assert forall|i: int, j: int|
            #![trigger after[i], after[j]]
            0 <= i < j < after.len() implies after[i].0@ != after[j].0@ by {
            if i != at {
                assert(after[i] == before[i]);
            }
            if j != at {
                assert(after[j] == before[j]);
            }
        }
    }
    law_only_entry(after, key, at);
    assert forall|kind: CompileKindView| kind != key implies {
        &&& has_entry(after, kind) <==> has_entry(before, kind)
        &&& has_entry(before, kind) ==> entries_map(after)[kind] == entries_map(before)[kind]
    } by {
        if has_entry(before, kind) {
            let i = choose|i: int| is_entry_for(before, kind, i);
            assert(after[i] == before[i]);
            assert(is_entry_for(after, kind, i));
            law_only_entry(before, kind, i);
            law_only_entry(after, kind, i);
        }
        if has_entry(after, kind) {
            let i = choose|i: int| is_entry_for(after, kind, i);
            assert(after[i] == before[i]);
            assert(is_entry_for(before, kind, i));
        }
    }
    assert(entries_map(after) =~= entries_map(before).insert(key, value));
}

/// The first directory comes before the second one.
pub open spec fn dir_precedes(a: PathBuf, b: PathBuf) -> bool {
    path_precedes(path_bytes(a), path_bytes(b))
}

/// The directories are in ascending order, and none occurs twice.
pub open spec fn ascending(dirs: Seq<PathBuf>) -> bool {
    forall|i: int, j: int|
        #![trigger dirs[i], dirs[j]]
        0 <= i < j < dirs.len() ==> dir_precedes(dirs[i], dirs[j]) && !dir_precedes(
            dirs[j],
            dirs[i],
        )
}

/// How many directories at the front come before the given one.
pub open spec fn place_of(dirs: Seq<PathBuf>, dir: PathBuf) -> int
    decreases dirs.len(),
{
    if dirs.len() > 0 && dir_precedes(dirs[0], dir) {
        1 + place_of(dirs.drop_first(), dir)
    } else {
        0
    }
}

/// The directories with one more at its place, unless that place is taken by one
/// that is the same to the order.
pub open spec fn with_dir(dirs: Seq<PathBuf>, dir: PathBuf) -> Seq<PathBuf> {
    let at = place_of(dirs, dir);
    if at < dirs.len() && !dir_precedes(dir, dirs[at]) {
        dirs
    } else {
        dirs.insert(at, dir)
    }
}

/// A directory between those before it and those after it keeps the order.
proof fn lemma_ascending_insert(dirs: Seq<PathBuf>, at: int, dir: PathBuf)
    requires
        ascending(dirs),
        0 <= at <= dirs.len(),
        forall|j: int|
            0 <= j < at ==> dir_precedes(#[trigger] dirs[j], dir) && !dir_precedes(dir, dirs[j]),
        at < dirs.len() ==> dir_precedes(dir, dirs[at]) && !dir_precedes(dirs[at], dir),
        at < dirs.len() ==> forall|c: PathBuf|
            path_precedes(path_bytes(dirs[at]), #[trigger] path_bytes(c)) ==> dir_precedes(dir, c)
                && !dir_precedes(c, dir),
    ensures
        ascending(dirs.insert(at, dir)),
{
    let more = dirs.insert(at, dir);
    assert forall|i: int, j: int|
        #![trigger more[i], more[j]]
        0 <= i < j < more.len() implies dir_precedes(more[i], more[j]) && !dir_precedes(
        more[j],
        more[i],
    ) by {
        let from_i = if i < at { i } else { i - 1 };
        let from_j = if j < at { j } else { j - 1 };
        if i == at {
            if from_j != at {
                assert(dir_precedes(dirs[at], dirs[from_j]));
            }
        } else if j == at {
            assert(dir_precedes(dirs[from_i], dir));
        } else {
            assert(dir_precedes(dirs[from_i], dirs[from_j]));
        }
    }
}

/// Directories in ascending order, none of them twice.
#[derive(Debug)]
pub struct DirSet {
    dirs: Vec<PathBuf>,
}

impl View for DirSet {
    type V = Seq<PathBuf>;

    closed spec fn view(&self) -> Seq<PathBuf> {
        self.dirs@
    }
}

impl DirSet {
    #[verifier::type_invariant]
    spec fn wf(self) -> bool {
        ascending(self.dirs@)
    }

    /// Holds nothing.
    pub fn new() -> (dirs: DirSet)
        ensures
            dirs@ == Seq::<PathBuf>::empty(),
    {
        DirSet { dirs: Vec::new() }
    }

    /// Puts a directory at its place.
    pub fn insert(&mut self, dir: PathBuf)
        ensures
            final(self)@ == with_dir(old(self)@, dir),
    {
        proof {
            use_type_invariant(&*self);
        }
        let ghost before = self.dirs@;
        let mut dirs: Vec<PathBuf> = Vec::new();
        std::mem::swap(&mut dirs, &mut self.dirs);
        let mut at: usize = 0;
        assert(dirs@.skip(0) =~= dirs@);
        while at < dirs.len() && precedes(&dirs[at], &dir)
            invariant
                at <= dirs@.len(),
                dirs@ == before,
                place_of(before, dir) == at + place_of(before.skip(at as int), dir),
                forall|j: int|
                    0 <= j < at ==> dir_precedes(#[trigger] before[j], dir) && !dir_precedes(
                        dir,
                        before[j],
                    ),
            decreases dirs.len() - at,
        {
            assert(before.skip(at as int)[0] == before[at as int]);
            assert(before.skip(at as int).drop_first() =~= before.skip(at + 1));
            at = at + 1;
        }
        if at < dirs.len() {
            assert(before.skip(at as int)[0] == before[at as int]);
            if precedes(&dir, &dirs[at]) {
                proof {
                    lemma_ascending_insert(before, at as int, dir);
                }
                dirs.insert(at, dir);
            }
        } else {
            proof {
                lemma_ascending_insert(before, at as int, dir);
            }
            dirs.insert(at, dir);
        }
        self.dirs = dirs;
    }

    /// The directories, in order.
    pub fn dirs(&self) -> (dirs: &Vec<PathBuf>)
        ensures
            dirs@ == self@,
            ascending(dirs@),
    {
        proof {
            use_type_invariant(self);
        }
        &self.dirs
    }
}

/// A new directory is put where those in front of it come before it and the one
/// behind it does not; the others stay as they are to one another. It is left out
/// only where neither it nor the one at its place comes before the other.
pub proof fn law_directory_finds_its_place(dirs: Seq<PathBuf>, dir: PathBuf)
    ensures
        exists|at: int|
            {
                &&& 0 <= at <= dirs.len()
                &&& forall|j: int|
                    0 <= j < at ==> path_precedes(path_bytes(#[trigger] dirs[j]), path_bytes(dir))
                &&& at < dirs.len() ==> !path_precedes(path_bytes(dirs[at]), path_bytes(dir))
                &&& if at < dirs.len() && !path_precedes(path_bytes(dir), path_bytes(dirs[at])) {
                    with_dir(dirs, dir) == dirs
                } else {
                    with_dir(dirs, dir) == #[trigger] dirs.insert(at, dir)
                }
            },
{
    lemma_place_of(dirs, dir);
    let at = place_of(dirs, dir);
    let more = dirs.insert(at, dir);
}

/// Those in front of the place come before the directory, and the one at it does
/// not.
proof fn lemma_place_of(dirs: Seq<PathBuf>, dir: PathBuf)
    ensures
        0 <= place_of(dirs, dir) <= dirs.len(),
        forall|j: int|
            0 <= j < place_of(dirs, dir) ==> dir_precedes(#[trigger] dirs[j], dir),
        place_of(dirs, dir) < dirs.len() ==> !dir_precedes(dirs[place_of(dirs, dir)], dir),
    decreases dirs.len(),
{
    if dirs.len() > 0 && dir_precedes(dirs[0], dir) {
        let rest = dirs.drop_first();
        lemma_place_of(rest, dir);
        assert forall|j: int| 0 <= j < place_of(dirs, dir) implies dir_precedes(
            #[trigger] dirs[j],
            dir,
        ) by {
            if j > 0 {
                assert(rest[j - 1] == dirs[j]);
            }
        }
    }
}

/// The directories are handed out in ascending order, all of them and no others.
pub proof fn law_directories_are_handed_out(held: DirSet, dirs: &Vec<PathBuf>)
    requires
        call_ensures(DirSet::dirs, (&held,), dirs),
    ensures
        dirs@ == held@,
        forall|i: int, j: int|
            #![trigger dirs@[i], dirs@[j]]
            0 <= i < j < dirs@.len() ==> path_precedes(path_bytes(dirs@[i]), path_bytes(dirs@[j]))
                && !path_precedes(path_bytes(dirs@[j]), path_bytes(dirs@[i])),
{
    assert forall|i: int, j: int|
        #![trigger dirs@[i], dirs@[j]]
        0 <= i < j < dirs@.len() implies path_precedes(path_bytes(dirs@[i]), path_bytes(dirs@[j]))
        && !path_precedes(path_bytes(dirs@[j]), path_bytes(dirs@[i])) by {
        assert(dir_precedes(dirs@[i], dirs@[j]) && !dir_precedes(dirs@[j], dirs@[i]));
    }
}

/// What is found for a kind is what was last put there for it.
pub proof fn law_found_is_what_is_held<T>(
    map: KindMap<T>,
    kind: CompileKind,
    found: Option<&T>,
)
    requires
        call_ensures(KindMap::<T>::get, (&map, &kind), found),
    ensures
        found is Some <==> map@.contains_key(kind@),
        found matches Some(value) ==> *value == map@[kind@],
{
}

} // verus!
