//! Puts what was compiled in order.
use crate::model::Compilation;
use crate::model::UnitOutput;
use vstd::prelude::*;

verus! {

/// The outputs are in ascending order.
pub open spec fn in_order(tests: Seq<UnitOutput>) -> bool {
    forall|i: int, j: int|
        #![trigger tests[i], tests[j]]
        0 <= i < j < tests.len() ==> tests[i].order <= tests[j].order
}

/// The outputs that have the given place in the order.
pub open spec fn at_place(tests: Seq<UnitOutput>, order: u64) -> Seq<UnitOutput> {
    tests.filter(|test: UnitOutput| test.order == order)
}

/// The second sequence is the first one sorted: it is in ascending order, and
/// for each place it has the same outputs in the same order.
pub open spec fn sorted_from(tests: Seq<UnitOutput>, sorted: Seq<UnitOutput>) -> bool {
    &&& in_order(sorted)
    &&& forall|order: u64| #[trigger] at_place(sorted, order) == at_place(tests, order)
}

/// The second compilation is the first one with its test executables sorted.
pub open spec fn sorted_compilation(compilation: Compilation, sorted: Compilation) -> bool {
    &&& sorted_from(compilation.tests@, sorted.tests@)
    &&& sorted.to_doc_test == compilation.to_doc_test
    &&& sorted.host == compilation.host
    &&& sorted.deps_output == compilation.deps_output
    &&& sorted.native_dirs == compilation.native_dirs
    &&& sorted.target_runners == compilation.target_runners
}

/// Sorts the test executables of a compilation.
pub fn compile_tests(compilation: Compilation) -> (sorted: Compilation)
    ensures
        sorted_compilation(compilation, sorted),
{
    let mut compilation = compilation;
    sort_tests(&mut compilation.tests);
    compilation
}

/// Sorts outputs; those with the same place stay as they are to one another.
fn sort_tests(tests: &mut Vec<UnitOutput>)
    ensures
        sorted_from(old(tests)@, final(tests)@),
{
    let mut done: usize = 0;
    while done < tests.len()
        invariant
            done <= tests@.len(),
            tests@.len() == old(tests)@.len(),
            in_order(tests@.take(done as int)),
            forall|order: u64| #[trigger]
                at_place(tests@, order) == at_place(old(tests)@, order),
        decreases tests@.len() - done,
    {
        let ghost before = tests@;
        let next = tests.remove(done);
        let mut at: usize = done;
        while at > 0 && tests[at - 1].order > next.order
            invariant
                at <= done < before.len(),
                tests@ == before.remove(done as int),
                next == before[done as int],
                in_order(before.take(done as int)),
                forall|k: int| at <= k < done ==> (#[trigger] before[k]).order > next.order,
            decreases at,
        {
            at = at - 1;
        }
        tests.insert(at, next);
        proof {
            lemma_moved_up(before, tests@, at as int, done as int);
            let sorted = tests@.take(done + 1);
            let old_sorted = before.take(done as int);
            assert forall|i: int, j: int|
                #![trigger sorted[i], sorted[j]]
                0 <= i < j < sorted.len() implies sorted[i].order <= sorted[j].order by {
                let from_i = if i < at { i } else { i - 1 };
                let from_j = if j < at { j } else { j - 1 };
                if i != at {
                    assert(sorted[i] == old_sorted[from_i]);
                }
                if j != at {
                    assert(sorted[j] == old_sorted[from_j]);
                }
                if i == at {
                    assert(before[from_j].order > next.order);
                }
                if j == at {
                    assert(at > 0);
                    assert(old_sorted[at - 1] == before[at - 1]);
                    assert(old_sorted[at - 1].order <= next.order);
                }
            }
        }
        done = done + 1;
    }
    assert(tests@.take(done as int) =~= tests@);
}

/// An output that moves in front of outputs of later places stays where it is
/// among those of its own place.
proof fn lemma_moved_up(
    before: Seq<UnitOutput>,
    after: Seq<UnitOutput>,
    at: int,
    from: int,
)
    requires
        0 <= at <= from < before.len(),
        after == before.remove(from).insert(at, before[from]),
        forall|k: int| at <= k < from ==> (#[trigger] before[k]).order > before[from].order,
    ensures
        forall|order: u64| #[trigger] at_place(after, order) == at_place(before, order),
{
    let moved = seq![before[from]];
    let a = before.take(at);
    let b = before.subrange(at, from);
    let c = before.skip(from + 1);
    assert(before =~= a + b + moved + c);
    assert(after =~= a + moved + b + c);
    assert forall|order: u64| #[trigger] at_place(after, order) == at_place(before, order) by {
        let here = |test: UnitOutput| test.order == order;
        Seq::filter_distributes_over_add(a + b + moved, c, here);
        Seq::filter_distributes_over_add(a + b, moved, here);
        Seq::filter_distributes_over_add(a, b, here);
        Seq::filter_distributes_over_add(a + moved + b, c, here);
        Seq::filter_distributes_over_add(a + moved, b, here);
        Seq::filter_distributes_over_add(a, moved, here);
        if order == before[from].order {
            b.lemma_all_neg_filter_empty(here);
            assert(a.filter(here) + b.filter(here) + moved.filter(here) =~= a.filter(here)
                + moved.filter(here) + b.filter(here));
        } else {
            moved.lemma_all_neg_filter_empty(here);
            assert(a.filter(here) + b.filter(here) + moved.filter(here) =~= a.filter(here)
                + moved.filter(here) + b.filter(here));
        }
    }
}

/// Sorting neither loses nor adds an output.
pub proof fn law_sorting_keeps_all(tests: Seq<UnitOutput>, sorted: Seq<UnitOutput>)
    requires
        sorted_from(tests, sorted),
    ensures
        sorted.to_multiset() == tests.to_multiset(),
{
    assert forall|test: UnitOutput|
        sorted.to_multiset().count(test) == tests.to_multiset().count(test) by {
        lemma_count_at_place(sorted, test);
        lemma_count_at_place(tests, test);
        assert(at_place(sorted, test.order) == at_place(tests, test.order));
    }
    assert(sorted.to_multiset() =~= tests.to_multiset());
}

/// An output occurs as often at its place as it does at all.
proof fn lemma_count_at_place(tests: Seq<UnitOutput>, test: UnitOutput)
    ensures
        tests.to_multiset().count(test) == at_place(tests, test.order).to_multiset().count(test),
    decreases tests.len(),
{
    broadcast use vstd::seq_lib::to_multiset_build;

    if tests.len() > 0 {
        lemma_last_place(tests, test.order);
        lemma_count_at_place(tests.drop_last(), test);
        assert(tests =~= tests.drop_last().push(tests.last()));
    } else {
        reveal(Seq::filter);
        assert(at_place(tests, test.order) =~= tests);
    }
}

/// A sorted sequence is determined by the one that it comes from.
pub proof fn law_sorting_is_unique(
    tests: Seq<UnitOutput>,
    a: Seq<UnitOutput>,
    b: Seq<UnitOutput>,
)
    requires
        sorted_from(tests, a),
        sorted_from(tests, b),
    ensures
        a == b,
{
    assert forall|order: u64| #[trigger] at_place(a, order) == at_place(b, order) by {
        assert(at_place(a, order) == at_place(tests, order));
        assert(at_place(b, order) == at_place(tests, order));
    }
    lemma_same_places(a, b);
}

/// The last output is the last one at its place, and of no other place.
proof fn lemma_last_place(tests: Seq<UnitOutput>, order: u64)
    requires
        tests.len() > 0,
    ensures
        at_place(tests, order) == if tests.last().order == order {
            at_place(tests.drop_last(), order).push(tests.last())
        } else {
            at_place(tests.drop_last(), order)
        },
{
    reveal(Seq::filter);
}

/// No output comes after the last place.
proof fn lemma_last_is_greatest(tests: Seq<UnitOutput>, order: u64)
    requires
        in_order(tests),
        at_place(tests, order).len() > 0,
    ensures
        tests.len() > 0,
        order <= tests.last().order,
{
    let here = |test: UnitOutput| test.order == order;
    tests.lemma_filter_len(here);
    tests.lemma_filter_pred(here, 0);
    tests.lemma_filter_contains_rev(here, tests.filter(here)[0]);
    let k = choose|k: int| 0 <= k < tests.len() && tests[k] == tests.filter(here)[0];
    assert(tests[k].order <= tests[tests.len() - 1].order);
}

proof fn lemma_same_places(a: Seq<UnitOutput>, b: Seq<UnitOutput>)
    requires
        in_order(a),
        in_order(b),
        forall|order: u64| #[trigger] at_place(a, order) == at_place(b, order),
    ensures
        a == b,
    decreases a.len() + b.len(),
{
    if a.len() > 0 {
        lemma_last_place(a, a.last().order);
        lemma_last_is_greatest(b, a.last().order);
    }
    if b.len() > 0 {
        lemma_last_place(b, b.last().order);
        lemma_last_is_greatest(a, b.last().order);
    }
    if a.len() > 0 {
        let last = at_place(a, a.last().order);
        assert(last.last() == a.last() && last.last() == b.last());
        assert forall|order: u64| #[trigger]
            at_place(a.drop_last(), order) == at_place(b.drop_last(), order) by {
            lemma_last_place(a, order);
            lemma_last_place(b, order);
            assert(at_place(a, order) == at_place(b, order));
            if order == a.last().order {
                assert(at_place(a.drop_last(), order) =~= at_place(a, order).drop_last());
                assert(at_place(b.drop_last(), order) =~= at_place(b, order).drop_last());
            }
        }
        lemma_same_places(a.drop_last(), b.drop_last());
        assert(a =~= a.drop_last().push(a.last()));
        assert(b =~= b.drop_last().push(b.last()));
    } else {
        assert(a =~= b);
    }
}

/// Test executables come in ascending order, all of those that were compiled and
/// no others; and nothing else of the compilation changes.
pub proof fn law_tests_are_put_in_order(compilation: Compilation, sorted: Compilation)
    requires
        call_ensures(compile_tests, (compilation,), sorted),
    ensures
        forall|i: int, j: int|
            #![trigger sorted.tests@[i], sorted.tests@[j]]
            0 <= i < j < sorted.tests@.len() ==> sorted.tests@[i].order <= sorted.tests@[j].order,
        sorted.tests@.to_multiset() == compilation.tests@.to_multiset(),
        sorted.tests@.len() == compilation.tests@.len(),
        sorted.to_doc_test == compilation.to_doc_test,
        sorted.host == compilation.host,
        sorted.deps_output == compilation.deps_output,
        sorted.native_dirs == compilation.native_dirs,
        sorted.target_runners == compilation.target_runners,
{
    law_sorting_keeps_all(compilation.tests@, sorted.tests@);
    broadcast use vstd::seq_lib::to_multiset_len;

    assert(sorted.tests@.to_multiset().len() == sorted.tests@.len());
    assert(compilation.tests@.to_multiset().len() == compilation.tests@.len());
}

/// Test executables of the same place stay as they are to one another.
pub proof fn law_equal_places_keep_their_order(
    compilation: Compilation,
    sorted: Compilation,
    place: u64,
    here: spec_fn(UnitOutput) -> bool,
)
    requires
        call_ensures(compile_tests, (compilation,), sorted),
        forall|test: UnitOutput| #[trigger] here(test) <==> test.order == place,
    ensures
        sorted.tests@.filter(here) == compilation.tests@.filter(here),
{
    lemma_filter_at_place(sorted.tests@, place, here);
    lemma_filter_at_place(compilation.tests@, place, here);
    assert(at_place(sorted.tests@, place) == at_place(compilation.tests@, place));
}

proof fn lemma_filter_at_place(
    tests: Seq<UnitOutput>,
    place: u64,
    here: spec_fn(UnitOutput) -> bool,
)
    requires
        forall|test: UnitOutput| #[trigger] here(test) <==> test.order == place,
    ensures
        at_place(tests, place) == tests.filter(here),
    decreases tests.len(),
{
    reveal(Seq::filter);
    if tests.len() > 0 {
        lemma_filter_at_place(tests.drop_last(), place, here);
    }
}

} // verus!
