//! The heap as a sequence.
//!
//! The live elements of a heap form a sequence `s`. Positions are counted from 1, as is usual
//! for array-backed binary heaps: the element at position `p` is `s[p - 1]`, its parent sits
//! at position `p / 2` and its children at `2 * p` and `2 * p + 1`. Everything here is
//! mathematics over `Seq<T>` and a priority relation `rel`; the executable heap states its
//! contracts in these terms.

use crate::policy::{lemma_irreflexive, lemma_not_before_better, strict_weak_order};
use vstd::prelude::*;
use vstd::seq_lib::{to_multiset_build, to_multiset_remove, to_multiset_update};

verus! {

/// Position of the parent of position `p`.
pub open spec fn parent(p: int) -> int {
    p / 2
}

/// Position of the left child of position `p`.
pub open spec fn left_child(p: int) -> int {
    p * 2
}

/// Position of the right child of position `p`.
pub open spec fn right_child(p: int) -> int {
    left_child(p) + 1
}

/// The element at position `p`, counted from 1.
pub open spec fn item<T>(s: Seq<T>, p: int) -> T
    recommends
        1 <= p <= s.len(),
{
    s[p - 1]
}

/// `s` with the elements at positions `p` and `q` exchanged.
pub open spec fn exchange<T>(s: Seq<T>, p: int, q: int) -> Seq<T>
    recommends
        1 <= p <= s.len(),
        1 <= q <= s.len(),
{
    s.update(p - 1, s[q - 1]).update(q - 1, s[p - 1])
}

/// Heap order: no element has strict priority over its parent. Put the other way round, every
/// element has priority over, or ties with, both of its children.
pub open spec fn heap_ordered<T>(s: Seq<T>, rel: spec_fn(T, T) -> bool) -> bool {
    forall|c: int| 2 <= c <= s.len() ==> !rel(#[trigger] item(s, c), item(s, parent(c)))
}

/// Sifting up from position `p`: while the element has strict priority over its parent the two
/// are exchanged and the walk goes on from the parent's position. It stops at the root or at
/// the first parent that the element does not precede.
pub open spec fn sift_up<T>(s: Seq<T>, p: int, rel: spec_fn(T, T) -> bool) -> Seq<T>
    decreases p,
{
    if 1 < p <= s.len() && rel(item(s, p), item(s, parent(p))) {
        sift_up(exchange(s, p, parent(p)), parent(p), rel)
    } else {
        s
    }
}

/// The child of `p` that sifting down compares against: the left child where it is the only
/// one or has strict priority over the right child, else the right child. On a tie between
/// the children the right one is chosen.
pub open spec fn selected_child<T>(s: Seq<T>, p: int, rel: spec_fn(T, T) -> bool) -> int
    recommends
        1 <= p,
        left_child(p) <= s.len(),
{
    if right_child(p) > s.len() {
        left_child(p)
    } else if rel(item(s, left_child(p)), item(s, right_child(p))) {
        left_child(p)
    } else {
        right_child(p)
    }
}

/// Sifting down from position `p`: while the selected child has strict priority over the
/// element the two are exchanged and the walk goes on from the child's position. It stops at
/// a leaf or at the first selected child that does not precede the element.
pub open spec fn sift_down<T>(s: Seq<T>, p: int, rel: spec_fn(T, T) -> bool) -> Seq<T>
    decreases s.len() - p,
{
    if 1 <= p && left_child(p) <= s.len() && rel(
        item(s, selected_child(s, p, rel)),
        item(s, p),
    ) {
        let c = selected_child(s, p, rel);
        sift_down(exchange(s, c, p), c, rel)
    } else {
        s
    }
}

/// The heap after `value` has been inserted: appended at the end, then sifted up.
pub open spec fn inserted<T>(s: Seq<T>, value: T, rel: spec_fn(T, T) -> bool) -> Seq<T> {
    sift_up(s.push(value), s.len() as int + 1, rel)
}

/// A non-empty heap with its root taken out and its last element put in the root's place.
pub open spec fn uprooted<T>(s: Seq<T>) -> Seq<T>
    recommends
        s.len() > 0,
{
    s.update(0, s.last()).drop_last()
}

/// What is left of a non-empty heap after its root has been extracted: the last element
/// moves to the root and is sifted down.
pub open spec fn remainder<T>(s: Seq<T>, rel: spec_fn(T, T) -> bool) -> Seq<T>
    recommends
        s.len() > 0,
{
    sift_down(uprooted(s), 1, rel)
}

/// Exchanging two elements keeps the length and the elements.
pub proof fn lemma_exchange_permutes<T>(s: Seq<T>, p: int, q: int)
    requires
        1 <= p <= s.len(),
        1 <= q <= s.len(),
    ensures
        exchange(s, p, q).len() == s.len(),
        exchange(s, p, q).to_multiset() == s.to_multiset(),
{
    broadcast use vstd::multiset::group_multiset_axioms;

    to_multiset_update(s, p - 1, s[q - 1]);
    to_multiset_update(s.update(p - 1, s[q - 1]), q - 1, s[p - 1]);
    s.to_multiset_ensures();
    assert(exchange(s, p, q).to_multiset() =~= s.to_multiset());
}

/// Sifting up keeps the length and the elements.
pub proof fn lemma_sift_up_permutes<T>(s: Seq<T>, p: int, rel: spec_fn(T, T) -> bool)
    ensures
        sift_up(s, p, rel).len() == s.len(),
        sift_up(s, p, rel).to_multiset() == s.to_multiset(),
    decreases p,
{
    if 1 < p <= s.len() && rel(item(s, p), item(s, parent(p))) {
        lemma_exchange_permutes(s, p, parent(p));
        lemma_sift_up_permutes(exchange(s, p, parent(p)), parent(p), rel);
    }
}

/// Sifting down keeps the length and the elements.
pub proof fn lemma_sift_down_permutes<T>(s: Seq<T>, p: int, rel: spec_fn(T, T) -> bool)
    ensures
        sift_down(s, p, rel).len() == s.len(),
        sift_down(s, p, rel).to_multiset() == s.to_multiset(),
    decreases s.len() - p,
{
    if 1 <= p && left_child(p) <= s.len() && rel(item(s, selected_child(s, p, rel)), item(s, p)) {
        let c = selected_child(s, p, rel);
        lemma_exchange_permutes(s, c, p);
        lemma_sift_down_permutes(exchange(s, c, p), c, rel);
    }
}

/// Heap order but for the element at position `p`, which may have priority over its parent:
/// every other element yields to its parent, and the children of `p` yield to the parent of
/// `p` too.
pub open spec fn ordered_but_above<T>(s: Seq<T>, p: int, rel: spec_fn(T, T) -> bool) -> bool {
    &&& forall|c: int|
        2 <= c <= s.len() && c != p ==> !rel(#[trigger] item(s, c), item(s, parent(c)))
    &&& forall|c: int|
        2 <= c <= s.len() && parent(c) == p && 2 <= p ==> !rel(
            #[trigger] item(s, c),
            item(s, parent(p)),
        )
}

/// Heap order but for the element at position `p`, to which its children may not yield:
/// every element that is not a child of `p` yields to its parent, and the children of `p`
/// yield to the parent of `p`.
pub open spec fn ordered_but_below<T>(s: Seq<T>, p: int, rel: spec_fn(T, T) -> bool) -> bool {
    &&& forall|c: int|
        2 <= c <= s.len() && parent(c) != p ==> !rel(#[trigger] item(s, c), item(s, parent(c)))
    &&& forall|c: int|
        2 <= c <= s.len() && parent(c) == p && 2 <= p ==> !rel(
            #[trigger] item(s, c),
            item(s, parent(p)),
        )
}

/// Sifting up from the one position that may be out of order restores heap order.
pub proof fn lemma_sift_up_orders<T>(s: Seq<T>, p: int, rel: spec_fn(T, T) -> bool)
    requires
        strict_weak_order(rel),
        1 <= p <= s.len(),
        ordered_but_above(s, p, rel),
    ensures
        heap_ordered(sift_up(s, p, rel), rel),
    decreases p,
{
    if 1 < p && rel(item(s, p), item(s, parent(p))) {
        let q = parent(p);
        let t = exchange(s, p, q);
        let x = item(s, p);
        let y = item(s, q);
        assert forall|c: int| 2 <= c <= t.len() && c != q implies !rel(
            #[trigger] item(t, c),
            item(t, parent(c)),
        ) by {
            if c == p {
                assert(!rel(y, x));
            } else if parent(c) == q {
                assert(!rel(item(s, c), y));
                lemma_not_before_better(rel, item(s, c), y, x);
            } else if parent(c) == p {
                assert(!rel(item(s, c), item(s, parent(p))));
            } else {
                assert(!rel(item(s, c), item(s, parent(c))));
            }
        }
        assert forall|c: int| 2 <= c <= t.len() && parent(c) == q && 2 <= q implies !rel(
            #[trigger] item(t, c),
            item(t, parent(q)),
        ) by {
            // the old parent `y` yields to its own parent, and its other child yields to `y`
            assert(!rel(item(s, q), item(s, parent(q))));
            if c != p {
                assert(!rel(item(s, c), y));
            }
        }
        lemma_sift_up_orders(t, q, rel);
    } else {
        assert forall|c: int| 2 <= c <= s.len() implies !rel(
            #[trigger] item(s, c),
            item(s, parent(c)),
        ) by {}
    }
}

/// Sifting down from the one position that may be out of order restores heap order.
pub proof fn lemma_sift_down_orders<T>(s: Seq<T>, p: int, rel: spec_fn(T, T) -> bool)
    requires
        strict_weak_order(rel),
        1 <= p,
        ordered_but_below(s, p, rel),
    ensures
        heap_ordered(sift_down(s, p, rel), rel),
    decreases s.len() - p,
{
    if left_child(p) <= s.len() {
        let c = selected_child(s, p, rel);
        let x = item(s, c);
        let y = item(s, p);
        // the selected child yields to no sibling
        assert forall|d: int| 2 <= d <= s.len() && parent(d) == p implies !rel(
            #[trigger] item(s, d),
            x,
        ) by {
            assert(d == left_child(p) || d == right_child(p));
            if d == c {
                lemma_irreflexive(rel, x);
            }
        }
        if rel(x, y) {
            let t = exchange(s, c, p);
            assert forall|d: int| 2 <= d <= t.len() && parent(d) != c implies !rel(
                #[trigger] item(t, d),
                item(t, parent(d)),
            ) by {
                if d == c {
                    assert(!rel(y, x));
                } else if parent(d) == p {
                    assert(!rel(item(s, d), x));
                } else if d == p {
                    assert(!rel(item(s, c), item(s, parent(p))));
                } else {
                    assert(!rel(item(s, d), item(s, parent(d))));
                }
            }
            assert forall|d: int| 2 <= d <= t.len() && parent(d) == c && 2 <= c implies !rel(
                #[trigger] item(t, d),
                item(t, parent(c)),
            ) by {
                assert(!rel(item(s, d), item(s, parent(d))));
            }
            lemma_sift_down_orders(t, c, rel);
        } else {
            assert forall|d: int| 2 <= d <= s.len() implies !rel(
                #[trigger] item(s, d),
                item(s, parent(d)),
            ) by {
                if parent(d) == p {
                    assert(!rel(item(s, d), x));
                }
            }
        }
    } else {
        assert forall|d: int| 2 <= d <= s.len() implies !rel(
            #[trigger] item(s, d),
            item(s, parent(d)),
        ) by {}
    }
}

/// Insertion adds exactly one element.
pub proof fn lemma_inserted_permutes<T>(s: Seq<T>, value: T, rel: spec_fn(T, T) -> bool)
    ensures
        inserted(s, value, rel).len() == s.len() + 1,
        inserted(s, value, rel).to_multiset() == s.to_multiset().insert(value),
{
    to_multiset_build(s, value);
    lemma_sift_up_permutes(s.push(value), s.len() as int + 1, rel);
}

/// Insertion keeps heap order.
pub proof fn lemma_inserted_ordered<T>(s: Seq<T>, value: T, rel: spec_fn(T, T) -> bool)
    requires
        strict_weak_order(rel),
        heap_ordered(s, rel),
    ensures
        heap_ordered(inserted(s, value, rel), rel),
{
    let t = s.push(value);
    let p = s.len() as int + 1;
    assert forall|c: int| 2 <= c <= t.len() && c != p implies !rel(
        #[trigger] item(t, c),
        item(t, parent(c)),
    ) by {
        assert(!rel(item(s, c), item(s, parent(c))));
    }
    lemma_sift_up_orders(t, p, rel);
}

/// Taking the root out removes exactly the root.
pub proof fn lemma_uprooted_permutes<T>(s: Seq<T>)
    requires
        s.len() > 0,
    ensures
        uprooted(s).len() == s.len() - 1,
        uprooted(s).to_multiset() == s.to_multiset().remove(s[0]),
{
    broadcast use vstd::multiset::group_multiset_axioms;

    let moved = s.update(0, s.last());
    to_multiset_update(s, 0, s.last());
    to_multiset_remove(moved, s.len() - 1);
    s.to_multiset_ensures();
    assert(uprooted(s) =~= moved.remove(s.len() - 1));
    assert(uprooted(s).to_multiset() =~= s.to_multiset().remove(s[0]));
}

/// Extraction removes exactly the root.
pub proof fn lemma_remainder_permutes<T>(s: Seq<T>, rel: spec_fn(T, T) -> bool)
    requires
        s.len() > 0,
    ensures
        remainder(s, rel).len() == s.len() - 1,
        remainder(s, rel).to_multiset() == s.to_multiset().remove(s[0]),
{
    lemma_uprooted_permutes(s);
    lemma_sift_down_permutes(uprooted(s), 1, rel);
}

/// Extraction keeps heap order.
pub proof fn lemma_remainder_ordered<T>(s: Seq<T>, rel: spec_fn(T, T) -> bool)
    requires
        strict_weak_order(rel),
        heap_ordered(s, rel),
        s.len() > 0,
    ensures
        heap_ordered(remainder(s, rel), rel),
{
    let t = uprooted(s);
    assert forall|c: int| 2 <= c <= t.len() && parent(c) != 1 implies !rel(
        #[trigger] item(t, c),
        item(t, parent(c)),
    ) by {
        assert(!rel(item(s, c), item(s, parent(c))));
    }
    lemma_sift_down_orders(t, 1, rel);
}

/// In heap order nothing has strict priority over the root.
pub proof fn lemma_root_first<T>(s: Seq<T>, p: int, rel: spec_fn(T, T) -> bool)
    requires
        strict_weak_order(rel),
        heap_ordered(s, rel),
        1 <= p <= s.len(),
    ensures
        !rel(item(s, p), item(s, 1)),
    decreases p,
{
    if p == 1 {
        lemma_irreflexive(rel, item(s, 1));
    } else {
        lemma_root_first(s, parent(p), rel);
        assert(!rel(item(s, p), item(s, parent(p))));
    }
}

} // verus!
