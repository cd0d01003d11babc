//! Binding lists in the order of their target names.

use vstd::prelude::*;
use crate::model::{capture_view, CaptureBinding, CaptureBindingView};
use crate::text::{lemma_name_le_total, lemma_name_le_transitive, name_le, name_precedes};

verus! {

/// Whether `a` may stand before `b`: its target name is not after `b`'s.
pub open spec fn target_le(a: CaptureBindingView, b: CaptureBindingView) -> bool {
    name_le(a.binding.target_collection, b.binding.target_collection)
}

/// Whether the bindings stand in the order of their target names.
pub open spec fn targets_ordered(bindings: Seq<CaptureBindingView>) -> bool {
    forall|i: int, j: int| 0 <= i < j < bindings.len() ==> target_le(bindings[i], bindings[j])
}

/// `sorted` with `b` put in behind the last binding that may stand before
/// it.
pub open spec fn insert_by_target(
    sorted: Seq<CaptureBindingView>,
    b: CaptureBindingView,
) -> Seq<CaptureBindingView>
    decreases sorted.len(),
{
    if sorted.len() == 0 {
        seq![b]
    } else if target_le(sorted.last(), b) {
        sorted.push(b)
    } else {
        insert_by_target(sorted.drop_last(), b).push(sorted.last())
    }
}

/// The bindings in the order of their target names; bindings of one
/// target name keep the order they had.
pub open spec fn sort_by_target(bindings: Seq<CaptureBindingView>) -> Seq<CaptureBindingView>
    decreases bindings.len(),
{
    if bindings.len() == 0 {
        Seq::empty()
    } else {
        insert_by_target(sort_by_target(bindings.drop_last()), bindings.last())
    }
}

/// Where the binding goes in: behind position `at - 1`, which may stand
/// before it, and before everything from `at` on, which may not.
pub proof fn lemma_insert_at(sorted: Seq<CaptureBindingView>, b: CaptureBindingView, at: int)
    requires
        0 <= at <= sorted.len(),
        at > 0 ==> target_le(sorted[at - 1], b),
        forall|j: int| at <= j < sorted.len() ==> !target_le(sorted[j], b),
    ensures
        insert_by_target(sorted, b) == sorted.insert(at, b),
    decreases sorted.len(),
{
    if sorted.len() == 0 {
        assert(sorted.insert(at, b) =~= seq![b]);
    } else if at == sorted.len() {
        assert(sorted.insert(at, b) =~= sorted.push(b));
    } else {
        let front = sorted.drop_last();
        assert(forall|j: int| 0 <= j < front.len() ==> front[j] == sorted[j]);
        lemma_insert_at(front, b, at);
        assert(front.insert(at, b).push(sorted.last()) =~= sorted.insert(at, b));
    }
}

/// Putting a binding in changes nothing else: the result holds the
/// binding and what was there, and nothing more.
pub proof fn lemma_insert_contains(
    sorted: Seq<CaptureBindingView>,
    b: CaptureBindingView,
    x: CaptureBindingView,
)
    ensures
        insert_by_target(sorted, b).contains(x) <==> sorted.contains(x) || x == b,
        insert_by_target(sorted, b).len() == sorted.len() + 1,
    decreases sorted.len(),
{
    if sorted.len() == 0 {
        assert(seq![b][0] == b);
    } else if target_le(sorted.last(), b) {
        let r = sorted.push(b);
        assert(r[sorted.len() as int] == b);
        assert(forall|i: int| 0 <= i < sorted.len() ==> r[i] == sorted[i]);
    } else {
        let front = sorted.drop_last();
        let inner = insert_by_target(front, b);
        lemma_insert_contains(front, b, x);
        let r = inner.push(sorted.last());
        assert(r[inner.len() as int] == sorted.last());
        assert(forall|i: int| 0 <= i < inner.len() ==> r[i] == inner[i]);
        assert(forall|i: int| 0 <= i < front.len() ==> front[i] == sorted[i]);
        if sorted.contains(x) {
            let i = choose|i: int| 0 <= i < sorted.len() && sorted[i] == x;
            if i < front.len() {
                assert(front[i] == x);
            }
        }
    }
}

/// Putting a binding into an ordered list leaves the list ordered.
pub proof fn lemma_insert_ordered(sorted: Seq<CaptureBindingView>, b: CaptureBindingView)
    requires
        targets_ordered(sorted),
    ensures
        targets_ordered(insert_by_target(sorted, b)),
    decreases sorted.len(),
{
    if sorted.len() == 0 {
    } else if target_le(sorted.last(), b) {
        let r = sorted.push(b);
        assert forall|i: int, j: int| 0 <= i < j < r.len() implies target_le(r[i], r[j]) by {
            if j == sorted.len() && i < sorted.len() - 1 {
                assert(target_le(sorted[i], sorted[sorted.len() - 1]));
                lemma_name_le_transitive(
                    sorted[i].binding.target_collection,
                    sorted.last().binding.target_collection,
                    b.binding.target_collection,
                );
            }
        }
    } else {
        let front = sorted.drop_last();
        let last = sorted.last();
        assert(forall|j: int| 0 <= j < front.len() ==> front[j] == sorted[j]);
        lemma_insert_ordered(front, b);
        let inner = insert_by_target(front, b);
        let r = inner.push(last);
        lemma_name_le_total(last.binding.target_collection, b.binding.target_collection);
        assert forall|i: int, j: int| 0 <= i < j < r.len() implies target_le(r[i], r[j]) by {
            if j == inner.len() {
                lemma_insert_contains(front, b, inner[i]);
                assert(inner.contains(inner[i]));
                if inner[i] != b {
                    let k = choose|k: int| 0 <= k < front.len() && front[k] == inner[i];
                    assert(target_le(sorted[k], sorted[sorted.len() - 1]));
                }
            }
        }
    }
}

/// Sorting gives an ordered list of the same length.
pub proof fn lemma_sort_ordered(bindings: Seq<CaptureBindingView>)
    ensures
        targets_ordered(sort_by_target(bindings)),
        sort_by_target(bindings).len() == bindings.len(),
    decreases bindings.len(),
{
    if bindings.len() > 0 {
        let front = sort_by_target(bindings.drop_last());
        lemma_sort_ordered(bindings.drop_last());
        lemma_insert_ordered(front, bindings.last());
        lemma_insert_contains(front, bindings.last(), bindings.last());
    }
}

/// Sorting holds exactly what was there.
pub proof fn lemma_sort_contains(bindings: Seq<CaptureBindingView>, x: CaptureBindingView)
    ensures
        sort_by_target(bindings).contains(x) <==> bindings.contains(x),
    decreases bindings.len(),
{
    if bindings.len() > 0 {
        let front = bindings.drop_last();
        lemma_sort_contains(front, x);
        lemma_insert_contains(sort_by_target(front), bindings.last(), x);
        assert(forall|j: int| 0 <= j < front.len() ==> front[j] == bindings[j]);
        if bindings.contains(x) {
            let i = choose|i: int| 0 <= i < bindings.len() && bindings[i] == x;
            if i < front.len() {
                assert(front[i] == x);
            }
        }
    }
}

/// Putting a binding in adds it once and takes nothing away.
pub proof fn lemma_insert_permutes(sorted: Seq<CaptureBindingView>, b: CaptureBindingView)
    ensures
        insert_by_target(sorted, b).to_multiset() == sorted.to_multiset().insert(b),
    decreases sorted.len(),
{
    broadcast use vstd::seq_lib::group_to_multiset_ensures;

    if sorted.len() == 0 {
        assert(seq![b] =~= sorted.push(b));
    } else if !target_le(sorted.last(), b) {
        let front = sorted.drop_last();
        lemma_insert_permutes(front, b);
        assert(front.push(sorted.last()) =~= sorted);
        assert(insert_by_target(front, b).push(sorted.last()).to_multiset()
            =~= front.to_multiset().insert(b).insert(sorted.last()));
        assert(sorted.to_multiset() =~= front.to_multiset().insert(sorted.last()));
    }
    assert(insert_by_target(sorted, b).to_multiset() =~= sorted.to_multiset().insert(b));
}

/// Sorting rearranges: every binding is there as often as it was.
pub proof fn lemma_sort_permutes(bindings: Seq<CaptureBindingView>)
    ensures
        sort_by_target(bindings).to_multiset() == bindings.to_multiset(),
    decreases bindings.len(),
{
    broadcast use vstd::seq_lib::group_to_multiset_ensures;

    if bindings.len() > 0 {
        let front = bindings.drop_last();
        lemma_sort_permutes(front);
        lemma_insert_permutes(sort_by_target(front), bindings.last());
        assert(front.push(bindings.last()) =~= bindings);
    }
    assert(sort_by_target(bindings).to_multiset() =~= bindings.to_multiset());
}

/// Sorting an ordered list changes nothing.
pub proof fn lemma_sort_of_ordered(bindings: Seq<CaptureBindingView>)
    requires
        targets_ordered(bindings),
    ensures
        sort_by_target(bindings) == bindings,
    decreases bindings.len(),
{
    if bindings.len() > 0 {
        let front = bindings.drop_last();
        assert(forall|j: int| 0 <= j < front.len() ==> front[j] == bindings[j]);
        lemma_sort_of_ordered(front);
        if front.len() > 0 {
            assert(target_le(bindings[front.len() - 1], bindings[bindings.len() - 1]));
        }
        assert(front.push(bindings.last()) =~= bindings);
    }
}

/// Whether `rel` holds of every two bindings at different places.
pub open spec fn pairwise(
    bindings: Seq<CaptureBindingView>,
    rel: spec_fn(CaptureBindingView, CaptureBindingView) -> bool,
) -> bool {
    forall|i: int, j: int|
        0 <= i < bindings.len() && 0 <= j < bindings.len() && i != j ==> rel(
            bindings[i],
            bindings[j],
        )
}

/// Putting a binding in is inserting it at some place.
pub proof fn lemma_insert_somewhere(sorted: Seq<CaptureBindingView>, b: CaptureBindingView)
    ensures
        exists|at: int|
            0 <= at <= sorted.len() && insert_by_target(sorted, b) == #[trigger] sorted.insert(at, b),
    decreases sorted.len(),
{
    if sorted.len() == 0 {
        assert(sorted.insert(0, b) =~= seq![b]);
    } else if target_le(sorted.last(), b) {
        assert(sorted.insert(sorted.len() as int, b) =~= sorted.push(b));
    } else {
        let front = sorted.drop_last();
        lemma_insert_somewhere(front, b);
        let at = choose|at: int|
            0 <= at <= front.len() && insert_by_target(front, b) == #[trigger] front.insert(at, b);
        assert(front.insert(at, b).push(sorted.last()) =~= sorted.insert(at, b));
    }
}

/// What holds of every two bindings of a list holds of every two of them
/// after sorting.
pub proof fn lemma_sort_pairwise(
    bindings: Seq<CaptureBindingView>,
    rel: spec_fn(CaptureBindingView, CaptureBindingView) -> bool,
)
    requires
        pairwise(bindings, rel),
    ensures
        pairwise(sort_by_target(bindings), rel),
    decreases bindings.len(),
{
    if bindings.len() > 0 {
        let front = bindings.drop_last();
        let last = bindings.last();
        assert(forall|i: int| 0 <= i < front.len() ==> front[i] == bindings[i]);
        assert(pairwise(front, rel));
        lemma_sort_pairwise(front, rel);
        let sorted = sort_by_target(front);
        lemma_insert_somewhere(sorted, last);
        let at = choose|at: int|
            0 <= at <= sorted.len() && insert_by_target(sorted, last) == #[trigger] sorted.insert(
                at,
                last,
            );
        let result = sorted.insert(at, last);
        assert forall|i: int| 0 <= i < sorted.len() implies rel(sorted[i], last) && rel(
            last,
            sorted[i],
        ) by {
            assert(sorted.contains(sorted[i]));
            lemma_sort_contains(front, sorted[i]);
            let k = choose|k: int| 0 <= k < front.len() && front[k] == sorted[i];
            assert(rel(bindings[k], bindings[bindings.len() - 1]));
            assert(rel(bindings[bindings.len() - 1], bindings[k]));
        }
        assert forall|i: int, j: int|
            0 <= i < result.len() && 0 <= j < result.len() && i != j implies rel(
            result[i],
            result[j],
        ) by {
            let a = if i < at {
                i
            } else {
                i - 1
            };
            let b = if j < at {
                j
            } else {
                j - 1
            };
            if i != at && j != at {
                assert(result[i] == sorted[a] && result[j] == sorted[b]);
                assert(rel(sorted[a], sorted[b]));
            } else if i == at {
                assert(result[j] == sorted[b]);
            } else {
                assert(result[i] == sorted[a]);
            }
        }
    }
}

/// Puts a binding into a list behind the last binding whose target name
/// is not after its own.
pub fn insert_sorted(bindings: &mut Vec<CaptureBinding>, b: CaptureBinding)
    ensures
        capture_view(final(bindings)@) == insert_by_target(capture_view(old(bindings)@), b@),
{
    let ghost before = capture_view(bindings@);
    let mut at: usize = bindings.len();
    while at > 0 && !name_precedes(
        bindings[at - 1].binding.target_collection.as_str(),
        b.binding.target_collection.as_str(),
    )
        invariant
            at <= bindings@.len(),
            before == capture_view(bindings@),
            forall|j: int| at <= j < before.len() ==> !target_le(before[j], b@),
        decreases at,
    {
        at -= 1;
    }
    proof {
        lemma_insert_at(before, b@, at as int);
    }
    bindings.insert(at, b);
    assert(capture_view(bindings@) =~= before.insert(at as int, b@));
}

} // verus!
