//! A max-priority queue of indexed values.

use vstd::multiset::Multiset;
use vstd::prelude::*;

use crate::utils::indexed::IndexedTuple;
use crate::utils::order::Ranked;

verus! {

/// Whether the entry `a` leaves the queue before the entry `b`.
///
/// The entry with the greater value leaves first. Among entries with equal
/// values the one with the smaller index leaves first: this is the rule by
/// which ties are broken everywhere in this crate.
pub open spec fn outranks<T: Ranked>(a: (usize, T), b: (usize, T)) -> bool {
    a.1.rank() > b.1.rank() || (a.1.rank() == b.1.rank() && a.0 < b.0)
}

/// Decides [`outranks`] for two entries.
pub fn entry_outranks<T: Ranked>(a: &IndexedTuple<T>, b: &IndexedTuple<T>) -> (ahead: bool)
    ensures
        ahead == outranks(a@, b@),
{
    if b.value().ranks_below(a.value()) {
        true
    } else if a.value().ranks_below(b.value()) {
        false
    } else {
        a.index() < b.index()
    }
}

/// Whether position `c` is one of the two children of position `p` in the
/// implicit binary tree laid out over a sequence.
spec fn is_child(c: int, p: int) -> bool {
    0 <= p && (c == 2 * p + 1 || c == 2 * p + 2)
}

/// No entry outranks its parent.
spec fn heap_ordered<T: Ranked>(s: Seq<IndexedTuple<T>>) -> bool {
    forall|c: int, p: int|
        is_child(c, p) && c < s.len() ==> !outranks(#[trigger] s[c]@, #[trigger] s[p]@)
}

/// The heap order holds everywhere but between `hole` and its parent, and
/// the children of `hole` do not outrank the parent of `hole`.
spec fn ordered_but_above<T: Ranked>(s: Seq<IndexedTuple<T>>, hole: int) -> bool {
    &&& forall|c: int, p: int|
        is_child(c, p) && c < s.len() && c != hole ==> !outranks(
            #[trigger] s[c]@,
            #[trigger] s[p]@,
        )
    &&& forall|c: int, g: int|
        c < s.len() && is_child(c, hole) && is_child(hole, g) ==> !outranks(
            #[trigger] s[c]@,
            #[trigger] s[g]@,
        )
}

/// The heap order holds everywhere but between `hole` and its children, and
/// the children of `hole` do not outrank the parent of `hole`.
spec fn ordered_but_below<T: Ranked>(s: Seq<IndexedTuple<T>>, hole: int) -> bool {
    &&& forall|c: int, p: int|
        is_child(c, p) && c < s.len() && p != hole ==> !outranks(
            #[trigger] s[c]@,
            #[trigger] s[p]@,
        )
    &&& forall|c: int, g: int|
        c < s.len() && is_child(c, hole) && is_child(hole, g) ==> !outranks(
            #[trigger] s[c]@,
            #[trigger] s[g]@,
        )
}

/// In a heap-ordered sequence no entry outranks the first.
proof fn lemma_root_leads<T: Ranked>(s: Seq<IndexedTuple<T>>, i: int)
    requires
        heap_ordered(s),
        0 <= i < s.len(),
    ensures
        !outranks(s[i]@, s[0]@),
    decreases i,
{
    if i > 0 {
        let p = (i - 1) / 2;
        assert(is_child(i, p));
        lemma_root_leads(s, p);
        assert(!outranks(s[i]@, s[p]@));
    }
}

/// Exchanges the entries at `i` and `j`.
fn swap_entries<T: Copy>(items: &mut Vec<IndexedTuple<T>>, i: usize, j: usize)
    requires
        i < old(items).len(),
        j < old(items).len(),
    ensures
        final(items)@ == old(items)@.update(i as int, old(items)@[j as int]).update(
            j as int,
            old(items)@[i as int],
        ),
        final(items)@.to_multiset() == old(items)@.to_multiset(),
{
    broadcast use {vstd::seq_lib::group_to_multiset_ensures, vstd::multiset::group_multiset_axioms};

    let a = items[i];
    let b = items[j];
    items.set(i, b);
    items.set(j, a);
    proof {
        let s = old(items)@;
        let s1 = s.update(i as int, b);
        vstd::seq_lib::to_multiset_update(s, i as int, b);
        vstd::seq_lib::to_multiset_update(s1, j as int, a);
        assert(s.to_multiset().count(a) > 0) by {
            assert(s.contains(a));
        }
        assert(s.to_multiset().count(b) > 0) by {
            assert(s.contains(b));
        }
        assert(s1.update(j as int, a).to_multiset() =~= s.to_multiset());
    }
}

/// Moves the last entry up until its parent is not outranked by it.
fn sift_up<T: Ranked + Copy>(items: &mut Vec<IndexedTuple<T>>)
    requires
        old(items).len() > 0,
        heap_ordered(old(items)@.drop_last()),
    ensures
        heap_ordered(final(items)@),
        final(items)@.to_multiset() == old(items)@.to_multiset(),
{
    let mut pos: usize = items.len() - 1;
    assert(ordered_but_above(items@, pos as int)) by {
        let s = items@;
        assert forall|c: int, p: int|
            is_child(c, p) && c < s.len() && c != pos implies !outranks(
            #[trigger] s[c]@,
            #[trigger] s[p]@,
        ) by {
            assert(s.drop_last()[c] == s[c]);
            assert(s.drop_last()[p] == s[p]);
        }
    }
    while pos > 0
        invariant
            pos < items.len(),
            ordered_but_above(items@, pos as int),
            items@.to_multiset() == old(items)@.to_multiset(),
        ensures
            heap_ordered(items@),
            items@.to_multiset() == old(items)@.to_multiset(),
        decreases pos,
    {
        let up: usize = (pos - 1) / 2;
        assert(is_child(pos as int, up as int));
        if entry_outranks(&items[pos], &items[up]) {
            let ghost before = items@;
            swap_entries(items, pos, up);
            assert(ordered_but_above(items@, up as int)) by {
                let s = items@;
                assert forall|c: int, p: int|
                    is_child(c, p) && c < s.len() && c != up implies !outranks(
                    #[trigger] s[c]@,
                    #[trigger] s[p]@,
                ) by {
                    if c != pos {
                        if p == pos || p == up {
                            assert(!outranks(before[c]@, before[up as int]@));
                        } else {
                            assert(!outranks(before[c]@, before[p]@));
                        }
                    }
                }
                assert forall|c: int, g: int|
                    c < s.len() && is_child(c, up as int) && is_child(up as int, g) implies !outranks(
                    #[trigger] s[c]@,
                    #[trigger] s[g]@,
                ) by {
                    assert(!outranks(before[up as int]@, before[g]@));
                    if c != pos {
                        assert(!outranks(before[c]@, before[up as int]@));
                    }
                }
            }
            pos = up;
        } else {
            break;
        }
    }
}

/// Moves the first entry down until neither of its children outranks it.
fn sift_down<T: Ranked + Copy>(items: &mut Vec<IndexedTuple<T>>)
    requires
        ordered_but_below(old(items)@, 0),
    ensures
        heap_ordered(final(items)@),
        final(items)@.to_multiset() == old(items)@.to_multiset(),
{
    let len: usize = items.len();
    let mut pos: usize = 0;
    while pos < len / 2
        invariant
            len == items.len(),
            ordered_but_below(items@, pos as int),
            items@.to_multiset() == old(items)@.to_multiset(),
        ensures
            heap_ordered(items@),
            items@.to_multiset() == old(items)@.to_multiset(),
        decreases len - pos,
    {
        let left: usize = 2 * pos + 1;
        let right: usize = left + 1;
        let mut best: usize = left;
        if right < len && entry_outranks(&items[right], &items[left]) {
            best = right;
        }
        assert(is_child(best as int, pos as int));
        if entry_outranks(&items[best], &items[pos]) {
            let ghost before = items@;
            swap_entries(items, pos, best);
            assert(ordered_but_below(items@, best as int)) by {
                let s = items@;
                assert forall|c: int, p: int|
                    is_child(c, p) && c < s.len() && p != best implies !outranks(
                    #[trigger] s[c]@,
                    #[trigger] s[p]@,
                ) by {
                    if p == pos {
                        if c != best {
                            assert(c == left || c == right);
                            assert(!outranks(before[c]@, before[best as int]@));
                        }
                    } else if c == pos {
                        assert(!outranks(before[best as int]@, before[p]@));
                    } else {
                        assert(!outranks(before[c]@, before[p]@));
                    }
                }
                assert forall|c: int, g: int|
                    c < s.len() && is_child(c, best as int) && is_child(best as int, g) implies !outranks(
                    #[trigger] s[c]@,
                    #[trigger] s[g]@,
                ) by {
                    assert(g == pos);
                    assert(!outranks(before[c]@, before[best as int]@));
                }
            }
            pos = best;
        } else {
            assert(heap_ordered(items@)) by {
                let s = items@;
                assert forall|c: int, p: int| is_child(c, p) && c < s.len() implies !outranks(
                    #[trigger] s[c]@,
                    #[trigger] s[p]@,
                ) by {
                    if p == pos {
                        assert(c == left || c == right);
                    }
                }
            }
            break;
        }
    }
}

/// A priority queue of indexed values from which the entry that
/// [outranks](outranks) all others leaves first.
///
/// The view is the multiset of the entries in the queue.
pub struct MaxHeap<T: Ranked> {
    items: Vec<IndexedTuple<T>>,
}

impl<T: Ranked> MaxHeap<T> {
    #[verifier::type_invariant]
    spec fn ordered(self) -> bool {
        heap_ordered(self.items@)
    }
}

impl<T: Ranked> View for MaxHeap<T> {
    type V = Multiset<IndexedTuple<T>>;

    closed spec fn view(&self) -> Multiset<IndexedTuple<T>> {
        self.items@.to_multiset()
    }
}

impl<T: Ranked + Copy> MaxHeap<T> {
    /// An empty queue with room for `capacity` entries.
    pub fn with_capacity(capacity: usize) -> (heap: Self)
        ensures
            heap@ == Multiset::<IndexedTuple<T>>::empty(),
    {
        let items: Vec<IndexedTuple<T>> = Vec::with_capacity(capacity);
        assert(items@.to_multiset() =~= Multiset::<IndexedTuple<T>>::empty()) by {
            broadcast use vstd::seq_lib::group_to_multiset_ensures;
            broadcast use vstd::multiset::group_multiset_axioms;

            assert(items@.to_multiset().len() == 0);
        }
        MaxHeap { items }
    }

    /// The number of entries in the queue.
    pub fn len(&self) -> (len: usize)
        ensures
            len == self@.len(),
    {
        proof {
            vstd::seq_lib::to_multiset_len(self.items@);
        }
        self.items.len()
    }

    /// Adds `entry` to the queue.
    pub fn push(&mut self, entry: IndexedTuple<T>)
        ensures
            final(self)@ == old(self)@.insert(entry),
    {
        proof {
            use_type_invariant(&*self);
        }
        let mut items: Vec<IndexedTuple<T>> = Vec::new();
        core::mem::swap(&mut items, &mut self.items);
        items.push(entry);
        proof {
            vstd::seq_lib::to_multiset_build(old(self).items@, entry);
            assert(items@.drop_last() == old(self).items@);
        }
        sift_up(&mut items);
        self.items = items;
    }

    /// Takes out the entry that outranks all others, if the queue is not
    /// empty.
    pub fn pop(&mut self) -> (top: Option<IndexedTuple<T>>)
        ensures
            match top {
                None => old(self)@.len() == 0 && final(self)@ == old(self)@,
                Some(entry) => {
                    &&& old(self)@.contains(entry)
                    &&& final(self)@ == old(self)@.remove(entry)
                    &&& forall|other: IndexedTuple<T>| #[trigger]
                        old(self)@.contains(other) ==> !outranks(other@, entry@)
                },
            },
    {
        proof {
            use_type_invariant(&*self);
            vstd::seq_lib::to_multiset_len(self.items@);
        }
        if self.items.len() == 0 {
            return None;
        }
        let mut items: Vec<IndexedTuple<T>> = Vec::new();
        core::mem::swap(&mut items, &mut self.items);
        let ghost before = items@;
        let entry = items.swap_remove(0);
        proof {
            broadcast use vstd::seq_lib::group_to_multiset_ensures;
            broadcast use vstd::multiset::group_multiset_axioms;

            let last = before.last();
            let moved = before.update(0, last);
            vstd::seq_lib::to_multiset_update(before, 0, last);
            assert(moved.drop_last() =~= moved.remove(moved.len() - 1));
            assert(before.contains(entry));
            assert(before.contains(last));
            assert(items@.to_multiset() =~= before.to_multiset().remove(entry));
            assert forall|other: IndexedTuple<T>| #[trigger]
                before.to_multiset().contains(other) implies !outranks(other@, entry@) by {
                assert(before.contains(other));
                let i = choose|i: int| 0 <= i < before.len() && before[i] == other;
                lemma_root_leads(before, i);
            }
            assert(ordered_but_below(items@, 0)) by {
                let s = items@;
                assert forall|c: int, p: int|
                    is_child(c, p) && c < s.len() && p != 0 implies !outranks(
                    #[trigger] s[c]@,
                    #[trigger] s[p]@,
                ) by {
                    assert(!outranks(before[c]@, before[p]@));
                }
            }
        }
        sift_down(&mut items);
        self.items = items;
        Some(entry)
    }
}

} // verus!
