//! Selection of the positions of the `k` greatest values of a sequence.

use vstd::prelude::*;

use crate::errors::topk_incorrect_k;
use crate::errors::Error;
use crate::errors::ErrorView;
use crate::utils::heap::outranks;
use crate::utils::heap::MaxHeap;
use crate::utils::indexed::IndexedTuple;
use crate::utils::nonan::FloatBits;
use crate::utils::nonan::NoNaN;
use crate::utils::order::Ranked;

verus! {

/// Whether position `i` comes before position `j` when the positions of
/// `scores` are put in descending order of score, equal scores in ascending
/// order of position.
pub open spec fn precedes(scores: Seq<int>, i: int, j: int) -> bool {
    scores[i] > scores[j] || (scores[i] == scores[j] && i < j)
}

/// Whether `picked` lists the first `k` positions of `scores` in the order
/// of [`precedes`]: each listed position is in range and comes before the
/// next one listed, and every listed position comes before every position
/// that is not listed.
///
/// For given `scores` and `k` at most one `picked` does
/// ([`lemma_top_k_unique`]).
pub open spec fn is_top_k(scores: Seq<int>, k: int, picked: Seq<usize>) -> bool {
    &&& picked.len() == k
    &&& forall|a: int| 0 <= a < picked.len() ==> (#[trigger] picked[a]) < scores.len()
    &&& forall|a: int, b: int|
        0 <= a < b < picked.len() ==> precedes(
            scores,
            #[trigger] picked[a] as int,
            #[trigger] picked[b] as int,
        )
    &&& forall|a: int, j: usize|
        0 <= a < picked.len() && j < scores.len() && !(#[trigger] picked.contains(j)) ==> precedes(
            scores,
            #[trigger] picked[a] as int,
            j as int,
        )
}

/// What a Top-K request for `k` positions of `scores` returns: the first
/// `k` positions where `k` is at most the number of scores, and the error
/// `InvalidArgument` where it is more.
pub open spec fn top_k_outcome(scores: Seq<int>, k: usize, result: Result<Vec<usize>, Error>) -> bool {
    match result {
        Ok(picked) => k <= scores.len() && is_top_k(scores, k as int, picked@),
        Err(e) => k > scores.len() && e@ == (ErrorView::InvalidArgument {
            k,
            len: scores.len() as usize,
        }),
    }
}

/// Two lists that both are the first `k` positions of the same scores are
/// the same list.
pub proof fn lemma_top_k_unique(scores: Seq<int>, k: int, first: Seq<usize>, second: Seq<usize>)
    requires
        is_top_k(scores, k, first),
        is_top_k(scores, k, second),
    ensures
        first == second,
{
    assert forall|a: int| 0 <= a < k implies first[a] == second[a] by {
        lemma_top_k_agree(scores, k, first, second, a);
    }
    assert(first =~= second);
}

/// Two lists of the first `k` positions agree at position `a`, by induction
/// over `a`.
proof fn lemma_top_k_agree(scores: Seq<int>, k: int, first: Seq<usize>, second: Seq<usize>, a: int)
    requires
        is_top_k(scores, k, first),
        is_top_k(scores, k, second),
        0 <= a < k,
    ensures
        first[a] == second[a],
    decreases a,
{
    assert forall|b: int| 0 <= b < a implies first[b] == second[b] by {
        lemma_top_k_agree(scores, k, first, second, b);
    }
    if first[a] != second[a] {
        lemma_comes_later_or_not_at_all(scores, first, second, a);
        lemma_comes_later_or_not_at_all(scores, second, first, a);
    }
}

/// Where two lists of first positions agree before `a` and differ at `a`,
/// the entry of `other` at `a` comes before that of `picked`.
proof fn lemma_comes_later_or_not_at_all(
    scores: Seq<int>,
    picked: Seq<usize>,
    other: Seq<usize>,
    a: int,
)
    requires
        is_top_k(scores, picked.len() as int, picked),
        is_top_k(scores, picked.len() as int, other),
        0 <= a < picked.len(),
        forall|b: int| 0 <= b < a ==> picked[b] == other[b],
        picked[a] != other[a],
    ensures
        precedes(scores, other[a] as int, picked[a] as int),
{
    let x = picked[a];
    if other.contains(x) {
        let b = choose|b: int| 0 <= b < other.len() && other[b] == x;
        if b < a {
            assert(picked[b] == x);
            assert(precedes(scores, picked[b] as int, picked[a] as int));
        }
        assert(a < b);
        assert(precedes(scores, other[a] as int, other[b] as int));
    }
}

/// The first `k` positions are `k` different positions of the scores, and
/// the score at each of them is at least the score at any position that is
/// not among them.
pub proof fn lemma_top_k_selects(scores: Seq<int>, k: int, picked: Seq<usize>)
    requires
        is_top_k(scores, k, picked),
    ensures
        picked.len() == k,
        picked.no_duplicates(),
        forall|a: int| 0 <= a < k ==> 0 <= (#[trigger] picked[a]) < scores.len(),
        forall|a: int, j: usize|
            0 <= a < k && j < scores.len() && !(#[trigger] picked.contains(j)) ==> scores[(
            #[trigger] picked[a]) as int] >= scores[j as int],
{
    assert forall|a: int, b: int| 0 <= a < picked.len() && 0 <= b < picked.len() && a != b implies picked[a]
        != picked[b] by {
        if a < b {
            assert(precedes(scores, picked[a] as int, picked[b] as int));
        } else {
            assert(precedes(scores, picked[b] as int, picked[a] as int));
        }
    }
    assert forall|a: int, j: usize|
        0 <= a < k && j < scores.len() && !(#[trigger] picked.contains(j)) implies scores[(
    #[trigger] picked[a]) as int] >= scores[j as int] by {
        assert(precedes(scores, picked[a] as int, j as int));
    }
}

/// The ranks of `values`, in their order.
pub open spec fn ranks_of<T: Ranked>(values: Seq<T>) -> Seq<int> {
    values.map_values(|value: T| value.rank())
}

/// Top-K selection over a container of ordered values.
pub trait TopK {
    /// The ranks of the values, in the order of the container.
    spec fn ranks(&self) -> Seq<int>;

    /// The positions of the `k` greatest values, the greatest first. Among
    /// equal values the one at the smaller position comes first.
    ///
    /// Fails with `InvalidArgument` exactly when `k` is more than the number
    /// of values.
    fn top_k(&self, k: usize) -> (result: Result<Vec<usize>, Error>)
        ensures
            top_k_outcome(self.ranks(), k, result),
    ;
}

/// Whether `entries` pairs each value of `values` with its position.
spec fn entries_of<T>(entries: Seq<IndexedTuple<T>>, values: Seq<T>) -> bool {
    &&& entries.len() <= values.len()
    &&& forall|j: int| 0 <= j < entries.len() ==> (#[trigger] entries[j])@ == (j as usize, values[j])
}

/// What holds while the entries leave the queue: `popped` are the entries
/// that left, in order, `picked` their positions, and `rest` what the queue
/// still holds.
spec fn selecting<T: Ranked>(
    entries: Seq<IndexedTuple<T>>,
    rest: vstd::multiset::Multiset<IndexedTuple<T>>,
    popped: Seq<IndexedTuple<T>>,
    picked: Seq<usize>,
) -> bool {
    &&& picked.len() == popped.len()
    &&& rest.add(popped.to_multiset()) == entries.to_multiset()
    &&& forall|a: int|
        0 <= a < popped.len() ==> (#[trigger] picked[a]) < entries.len() && popped[a]
            == entries[picked[a] as int]
    &&& forall|a: int, other: IndexedTuple<T>|
        0 <= a < popped.len() && #[trigger] rest.contains(other) ==> !outranks(
            other@,
            (#[trigger] popped[a])@,
        )
    &&& forall|a: int, b: int|
        0 <= a < b < popped.len() ==> outranks((#[trigger] popped[a])@, (#[trigger] popped[b])@)
}

/// Entries that pair values with their positions are all different.
proof fn lemma_entries_distinct<T>(entries: Seq<IndexedTuple<T>>, values: Seq<T>)
    requires
        entries_of(entries, values),
        values.len() <= usize::MAX,
    ensures
        entries.no_duplicates(),
        forall|x: IndexedTuple<T>| #[trigger]
            entries.to_multiset().count(x) <= 1,
{
    assert forall|i: int, j: int| 0 <= i < entries.len() && 0 <= j < entries.len() && i != j implies entries[i]
        != entries[j] by {
        assert(entries[i]@.0 == i as usize);
        assert(entries[j]@.0 == j as usize);
    }
    entries.lemma_multiset_has_no_duplicates();
}

/// One more entry leaves the queue.
proof fn lemma_select_next<T: Ranked>(
    values: Seq<T>,
    entries: Seq<IndexedTuple<T>>,
    rest: vstd::multiset::Multiset<IndexedTuple<T>>,
    popped: Seq<IndexedTuple<T>>,
    picked: Seq<usize>,
    entry: IndexedTuple<T>,
)
    requires
        entries_of(entries, values),
        entries.len() == values.len() <= usize::MAX,
        selecting(entries, rest, popped, picked),
        rest.contains(entry),
        forall|other: IndexedTuple<T>| #[trigger] rest.contains(other) ==> !outranks(other@, entry@),
    ensures
        selecting(entries, rest.remove(entry), popped.push(entry), picked.push(entry@.0)),
{
    broadcast use vstd::seq_lib::group_to_multiset_ensures;
    broadcast use vstd::multiset::group_multiset_axioms;

    lemma_entries_distinct(entries, values);
    let rest2 = rest.remove(entry);
    let popped2 = popped.push(entry);
    let picked2 = picked.push(entry@.0);
    assert(rest2.add(popped2.to_multiset()) =~= entries.to_multiset());
    assert(entries.to_multiset().count(entry) > 0);
    assert(entries.contains(entry));
    let i = choose|i: int| 0 <= i < entries.len() && entries[i] == entry;
    assert(entry@.0 == i as usize);
    assert forall|a: int| 0 <= a < popped2.len() implies (#[trigger] picked2[a]) < entries.len()
        && popped2[a] == entries[picked2[a] as int] by {
        if a < popped.len() {
            assert(picked2[a] == picked[a]);
            assert(popped2[a] == popped[a]);
        }
    }
    assert forall|a: int, other: IndexedTuple<T>|
        0 <= a < popped2.len() && #[trigger] rest2.contains(other) implies !outranks(
        other@,
        (#[trigger] popped2[a])@,
    ) by {
        assert(rest.contains(other));
        if a < popped.len() {
            assert(popped2[a] == popped[a]);
        }
    }
    assert forall|a: int, b: int| 0 <= a < b < popped2.len() implies outranks(
        (#[trigger] popped2[a])@,
        (#[trigger] popped2[b])@,
    ) by {
        assert(popped2[a] == popped[a]);
        if b < popped.len() {
            assert(popped2[b] == popped[b]);
        } else {
            assert(popped2[b] == entry);
            assert(!outranks(entry@, popped[a]@));
            assert(popped.to_multiset().count(popped[a]) > 0) by {
                assert(popped.contains(popped[a]));
            }
            assert(entries.to_multiset().count(popped[a]) <= 1);
            assert(popped[a] != entry);
            assert(popped[a]@.0 == picked[a]);
            assert(picked[a] as int != i);
        }
    }
}

/// Once `k` entries have left the queue, their positions are the first `k`
/// positions of the ranks.
proof fn lemma_selected<T: Ranked>(
    values: Seq<T>,
    entries: Seq<IndexedTuple<T>>,
    rest: vstd::multiset::Multiset<IndexedTuple<T>>,
    popped: Seq<IndexedTuple<T>>,
    picked: Seq<usize>,
)
    requires
        entries_of(entries, values),
        entries.len() == values.len() <= usize::MAX,
        selecting(entries, rest, popped, picked),
    ensures
        is_top_k(ranks_of(values), picked.len() as int, picked),
{
    broadcast use vstd::seq_lib::group_to_multiset_ensures;
    broadcast use vstd::multiset::group_multiset_axioms;

    let scores = ranks_of(values);
    lemma_entries_distinct(entries, values);
    assert forall|a: int, b: int| 0 <= a < b < picked.len() implies precedes(
        scores,
        #[trigger] picked[a] as int,
        #[trigger] picked[b] as int,
    ) by {
        assert(outranks(popped[a]@, popped[b]@));
    }
    assert forall|a: int, j: usize|
        0 <= a < picked.len() && j < scores.len() && !(#[trigger] picked.contains(j)) implies precedes(
        scores,
        #[trigger] picked[a] as int,
        j as int,
    ) by {
        let x = entries[j as int];
        assert(entries.contains(x));
        if popped.contains(x) {
            let b = choose|b: int| 0 <= b < popped.len() && popped[b] == x;
            assert(popped[b] == entries[picked[b] as int]);
            assert(picked[b] == j);
            assert(picked.contains(j));
        }
        assert(popped.to_multiset().count(x) == 0);
        assert(entries.to_multiset().count(x) > 0);
        assert(rest.add(popped.to_multiset()).count(x) == rest.count(x) + popped.to_multiset().count(x));
        assert(rest.contains(x));
        assert(!outranks(x@, popped[a]@));
        assert(popped[a] == entries[picked[a] as int]);
        assert(picked[a] != j) by {
            if picked[a] == j {
                assert(picked.contains(j));
            }
        }
    }
}

impl<T: Ranked + Copy> TopK for Vec<T> {
    open spec fn ranks(&self) -> Seq<int> {
        ranks_of(self@)
    }

    /// Puts every value with its position into a [`MaxHeap`] and takes the
    /// first `k` entries out again.
    fn top_k(&self, k: usize) -> (result: Result<Vec<usize>, Error>) {
        let n: usize = self.len();
        if k > n {
            return Err(topk_incorrect_k(k, n));
        }
        let mut heap: MaxHeap<T> = MaxHeap::with_capacity(n);
        let ghost mut entries: Seq<IndexedTuple<T>> = Seq::empty();
        proof {
            broadcast use vstd::seq_lib::group_to_multiset_ensures;
            broadcast use vstd::multiset::group_multiset_axioms;

            assert(entries.to_multiset() =~= heap@);
        }
        let mut i: usize = 0;
        while i < n
            invariant
                n == self.len(),
                i <= n,
                entries.len() == i,
                entries_of(entries, self@),
                heap@ == entries.to_multiset(),
            decreases n - i,
        {
            let entry = IndexedTuple::new(i, self[i]);
            heap.push(entry);
            proof {
                vstd::seq_lib::to_multiset_build(entries, entry);
                entries = entries.push(entry);
            }
            i += 1;
        }
        let mut picked: Vec<usize> = Vec::with_capacity(k);
        let ghost mut popped: Seq<IndexedTuple<T>> = Seq::empty();
        proof {
            broadcast use vstd::seq_lib::group_to_multiset_ensures;
            broadcast use vstd::multiset::group_multiset_axioms;

            assert(heap@.add(popped.to_multiset()) =~= entries.to_multiset());
        }
        while picked.len() < k
            invariant
                n == self.len(),
                k <= n,
                entries.len() == n,
                entries_of(entries, self@),
                picked.len() <= k,
                selecting(entries, heap@, popped, picked@),
            decreases k - picked.len(),
        {
            proof {
                broadcast use vstd::seq_lib::group_to_multiset_ensures;
                broadcast use vstd::multiset::group_multiset_axioms;

                assert(heap@.add(popped.to_multiset()).len() == heap@.len()
                    + popped.to_multiset().len());
                assert(heap@.len() + popped.len() == entries.len());
            }
            let ghost rest = heap@;
            let top = heap.pop();
            let entry = top.unwrap();
            proof {
                lemma_select_next(self@, entries, rest, popped, picked@, entry);
                popped = popped.push(entry);
            }
            picked.push(entry.index());
        }
        proof {
            lemma_selected(self@, entries, heap@, popped, picked@);
        }
        Ok(picked)
    }
}

/// The signed magnitudes of bit patterns of floating-point numbers, in
/// their order.
pub open spec fn magnitudes<B: FloatBits>(patterns: Seq<B>) -> Seq<int> {
    patterns.map_values(|pattern: B| pattern.signed_magnitude())
}

/// Whether none of `patterns` is a pattern of NaN.
pub open spec fn free_of_nan<B: FloatBits>(patterns: Seq<B>) -> bool {
    forall|i: int| 0 <= i < patterns.len() ==> !(#[trigger] patterns[i]).is_nan()
}

/// Top-K selection over floating-point numbers, given as their bit
/// patterns: the positions of the `k` greatest numbers, the greatest first,
/// as [`TopK::top_k`] gives them for the numbers wrapped in [`NoNaN`].
///
/// NaN has no place in the order, so none of the numbers may be NaN.
pub fn top_k_of_floats<B: FloatBits>(patterns: &Vec<B>, k: usize) -> (result: Result<
    Vec<usize>,
    Error,
>)
    requires
        free_of_nan(patterns@),
    ensures
        top_k_outcome(magnitudes(patterns@), k, result),
{
    let mut numbers: Vec<NoNaN<B>> = Vec::with_capacity(patterns.len());
    let mut i: usize = 0;
    while i < patterns.len()
        invariant
            i <= patterns.len(),
            free_of_nan(patterns@),
            numbers@.len() == i,
            forall|j: int| 0 <= j < i ==> (#[trigger] numbers@[j])@ == patterns@[j],
        decreases patterns.len() - i,
    {
        let number = NoNaN::new(patterns[i]);
        assert(!patterns@[i as int].is_nan());
        numbers.push(number.unwrap());
        i += 1;
    }
    assert(numbers.ranks() =~= magnitudes(patterns@));
    numbers.top_k(k)
}

} // verus!
