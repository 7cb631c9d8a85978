//! What holds of a heap over its whole life: after any run of insertions and extractions,
//! and when it is filled and then drained.

use crate::layout::{
    heap_ordered, inserted, item, left_child, lemma_inserted_ordered, lemma_inserted_permutes,
    lemma_remainder_ordered, lemma_remainder_permutes, lemma_root_first, parent, remainder,
    right_child,
};
use crate::policy::{
    ascending, at_most, descending, lemma_total_order_policies, strict_weak_order, ties,
    totally_ordered,
};
use vstd::prelude::*;
use vstd::seq_lib::{to_multiset_build, to_multiset_insert};

verus! {

/// One operation on a heap.
pub enum Step<T> {
    /// Insert the value.
    Insert(T),
    /// Extract the root, if there is one.
    Extract,
}

/// The heap `s` after one step. Extraction leaves an empty heap as it is.
pub open spec fn step<T>(s: Seq<T>, op: Step<T>, rel: spec_fn(T, T) -> bool) -> Seq<T> {
    match op {
        Step::Insert(value) => inserted(s, value, rel),
        Step::Extract => if s.len() == 0 {
            s
        } else {
            remainder(s, rel)
        },
    }
}

/// What one step hands out: the root, when it is an extraction from a non-empty heap.
pub open spec fn yielded<T>(s: Seq<T>, op: Step<T>) -> Option<T> {
    match op {
        Step::Insert(_) => None,
        Step::Extract => if s.len() == 0 {
            None
        } else {
            Some(s[0])
        },
    }
}

/// The heap `s` after the steps `ops`, taken in order.
pub open spec fn after<T>(s: Seq<T>, ops: Seq<Step<T>>, rel: spec_fn(T, T) -> bool) -> Seq<T>
    decreases ops.len(),
{
    if ops.len() == 0 {
        s
    } else {
        step(after(s, ops.drop_last(), rel), ops.last(), rel)
    }
}

/// How many of the steps are insertions.
pub open spec fn insertions<T>(ops: Seq<Step<T>>) -> nat
    decreases ops.len(),
{
    if ops.len() == 0 {
        0
    } else {
        insertions(ops.drop_last()) + if ops.last() is Insert {
            1nat
        } else {
            0nat
        }
    }
}

/// How many of the steps, run from `s`, are extractions that hand out an element.
pub open spec fn extractions<T>(s: Seq<T>, ops: Seq<Step<T>>, rel: spec_fn(T, T) -> bool) -> nat
    decreases ops.len(),
{
    if ops.len() == 0 {
        0
    } else {
        extractions(s, ops.drop_last(), rel) + if yielded(
            after(s, ops.drop_last(), rel),
            ops.last(),
        ) is Some {
            1nat
        } else {
            0nat
        }
    }
}

/// The heap that holds `values`, inserted one after another into an empty heap.
pub open spec fn filled<T>(values: Seq<T>, rel: spec_fn(T, T) -> bool) -> Seq<T>
    decreases values.len(),
{
    if values.len() == 0 {
        Seq::empty()
    } else {
        inserted(filled(values.drop_last(), rel), values.last(), rel)
    }
}

/// The elements that repeated extraction hands out until the heap is empty, in that order.
pub open spec fn drained<T>(s: Seq<T>, rel: spec_fn(T, T) -> bool) -> Seq<T>
    decreases s.len(),
    via drained_decreases::<T>
{
    if s.len() == 0 {
        Seq::empty()
    } else {
        seq![s[0]] + drained(remainder(s, rel), rel)
    }
}

#[via_fn]
proof fn drained_decreases<T>(s: Seq<T>, rel: spec_fn(T, T) -> bool) {
    if s.len() != 0 {
        lemma_remainder_permutes(s, rel);
    }
}

/// Heap order, read from the parent's side: an element has priority over each of its
/// children or ties with it.
pub proof fn lemma_parent_first<T>(s: Seq<T>, rel: spec_fn(T, T) -> bool, i: int, c: int)
    requires
        strict_weak_order(rel),
        heap_ordered(s, rel),
        1 <= i,
        c == left_child(i) || c == right_child(i),
        c <= s.len(),
    ensures
        rel(item(s, i), item(s, c)) || ties(rel, item(s, i), item(s, c)),
{
}

/// Where the two do not tie, an element has strict priority over its child.
pub proof fn lemma_parent_strictly_first<T>(
    s: Seq<T>,
    rel: spec_fn(T, T) -> bool,
    i: int,
    c: int,
)
    requires
        strict_weak_order(rel),
        heap_ordered(s, rel),
        1 <= i,
        c == left_child(i) || c == right_child(i),
        c <= s.len(),
        !ties(rel, item(s, i), item(s, c)),
    ensures
        rel(item(s, i), item(s, c)),
{
    lemma_parent_first(s, rel, i, c);
}

/// One step keeps heap order.
pub proof fn lemma_step_keeps_order<T>(s: Seq<T>, op: Step<T>, rel: spec_fn(T, T) -> bool)
    requires
        strict_weak_order(rel),
        heap_ordered(s, rel),
    ensures
        heap_ordered(step(s, op, rel), rel),
{
    match op {
        Step::Insert(value) => lemma_inserted_ordered(s, value, rel),
        Step::Extract => if s.len() > 0 {
            lemma_remainder_ordered(s, rel)
        },
    }
}

/// The heap is in heap order after any run of insertions and extractions.
pub proof fn lemma_order_is_invariant<T>(ops: Seq<Step<T>>, rel: spec_fn(T, T) -> bool)
    requires
        strict_weak_order(rel),
    ensures
        heap_ordered(after(Seq::empty(), ops, rel), rel),
    decreases ops.len(),
{
    if ops.len() > 0 {
        lemma_order_is_invariant(ops.drop_last(), rel);
        lemma_step_keeps_order(after(Seq::empty(), ops.drop_last(), rel), ops.last(), rel);
    }
}

/// After a run of steps the heap holds as many elements as were inserted and not handed out:
/// with `k` insertions and `m` successful extractions, `m <= k` and the length is `k - m`.
pub proof fn lemma_length_after<T>(ops: Seq<Step<T>>, rel: spec_fn(T, T) -> bool)
    ensures
        extractions(Seq::empty(), ops, rel) <= insertions(ops),
        after(Seq::empty(), ops, rel).len() == insertions(ops) - extractions(
            Seq::empty(),
            ops,
            rel,
        ),
    decreases ops.len(),
{
    if ops.len() > 0 {
        let before = after(Seq::<T>::empty(), ops.drop_last(), rel);
        lemma_length_after(ops.drop_last(), rel);
        match ops.last() {
            Step::Insert(value) => lemma_inserted_permutes(before, value, rel),
            Step::Extract => if before.len() > 0 {
                lemma_remainder_permutes(before, rel)
            },
        }
    }
}

/// Extraction from an empty heap hands out nothing and leaves the heap empty, however often
/// it is repeated.
pub proof fn lemma_empty_stays_empty<T>(n: nat, rel: spec_fn(T, T) -> bool)
    ensures
        yielded(Seq::<T>::empty(), Step::Extract) is None,
        after(Seq::empty(), Seq::new(n, |i: int| Step::<T>::Extract), rel) == Seq::<T>::empty(),
    decreases n,
{
    if n > 0 {
        lemma_empty_stays_empty::<T>((n - 1) as nat, rel);
        let ops = Seq::new(n, |i: int| Step::<T>::Extract);
        assert(ops.drop_last() =~= Seq::new((n - 1) as nat, |i: int| Step::<T>::Extract));
    }
}

/// A filled heap holds exactly the values it was filled with.
pub proof fn lemma_filled_permutes<T>(values: Seq<T>, rel: spec_fn(T, T) -> bool)
    ensures
        filled(values, rel).len() == values.len(),
        filled(values, rel).to_multiset() == values.to_multiset(),
    decreases values.len(),
{
    if values.len() > 0 {
        lemma_filled_permutes(values.drop_last(), rel);
        lemma_inserted_permutes(filled(values.drop_last(), rel), values.last(), rel);
        to_multiset_build(values.drop_last(), values.last());
        assert(values.drop_last().push(values.last()) =~= values);
    } else {
        assert(values =~= Seq::<T>::empty());
    }
}

/// A filled heap is in heap order.
pub proof fn lemma_filled_ordered<T>(values: Seq<T>, rel: spec_fn(T, T) -> bool)
    requires
        strict_weak_order(rel),
    ensures
        heap_ordered(filled(values, rel), rel),
    decreases values.len(),
{
    if values.len() > 0 {
        lemma_filled_ordered(values.drop_last(), rel);
        lemma_inserted_ordered(filled(values.drop_last(), rel), values.last(), rel);
    }
}

/// Draining hands out exactly the elements of the heap.
pub proof fn lemma_drained_permutes<T>(s: Seq<T>, rel: spec_fn(T, T) -> bool)
    ensures
        drained(s, rel).len() == s.len(),
        drained(s, rel).to_multiset() == s.to_multiset(),
    decreases s.len(),
{
    broadcast use vstd::multiset::group_multiset_axioms;

    if s.len() == 0 {
        assert(s =~= Seq::<T>::empty());
    } else {
        let rest = drained(remainder(s, rel), rel);
        lemma_remainder_permutes(s, rel);
        lemma_drained_permutes(remainder(s, rel), rel);
        assert(seq![s[0]] + rest =~= rest.insert(0, s[0]));
        to_multiset_insert(rest, 0, s[0]);
        s.to_multiset_ensures();
    }
}

/// Draining a heap hands its elements out in priority order: no element has strict priority
/// over one handed out before it.
pub proof fn lemma_drained_in_order<T>(s: Seq<T>, rel: spec_fn(T, T) -> bool)
    requires
        strict_weak_order(rel),
        heap_ordered(s, rel),
    ensures
        ({
            let out = drained(s, rel);
            forall|i: int, j: int|
                #![trigger out[j], out[i]]
                0 <= i < j < s.len() ==> !rel(out[j], out[i])
        }),
    decreases s.len(),
{
    if s.len() > 0 {
        let t = remainder(s, rel);
        let rest = drained(t, rel);
        let all = drained(s, rel);
        lemma_remainder_permutes(s, rel);
        lemma_remainder_ordered(s, rel);
        lemma_drained_permutes(t, rel);
        lemma_drained_in_order(t, rel);
        assert forall|i: int, j: int|
            #![trigger all[j], all[i]]
            0 <= i < j < s.len() implies !rel(all[j], all[i]) by {
            if i == 0 {
                lemma_in_heap(s, rel, rest, j - 1);
                let k = choose|k: int| 0 <= k < s.len() && s[k] == rest[j - 1];
                lemma_root_first(s, k + 1, rel);
            }
        }
    }
}

/// What draining the remainder hands out was in the heap.
proof fn lemma_in_heap<T>(s: Seq<T>, rel: spec_fn(T, T) -> bool, rest: Seq<T>, j: int)
    requires
        s.len() > 0,
        rest == drained(remainder(s, rel), rel),
        0 <= j < rest.len(),
    ensures
        exists|k: int| 0 <= k < s.len() && s[k] == rest[j],
{
    broadcast use vstd::multiset::group_multiset_axioms;

    lemma_remainder_permutes(s, rel);
    lemma_drained_permutes(remainder(s, rel), rel);
    let x = rest[j];
    rest.to_multiset_ensures();
    assert(rest.to_multiset().count(x) > 0);
    s.to_multiset_ensures();
}

/// Filling a heap and draining it hands back exactly the values that went in.
pub proof fn lemma_round_trip<T>(values: Seq<T>, rel: spec_fn(T, T) -> bool)
    ensures
        drained(filled(values, rel), rel).len() == values.len(),
        drained(filled(values, rel), rel).to_multiset() == values.to_multiset(),
{
    lemma_filled_permutes(values, rel);
    lemma_drained_permutes(filled(values, rel), rel);
}

/// Draining a filled heap hands the values out in priority order.
pub proof fn lemma_filled_drains_in_order<T>(values: Seq<T>, rel: spec_fn(T, T) -> bool)
    requires
        strict_weak_order(rel),
    ensures
        ({
            let out = drained(filled(values, rel), rel);
            forall|i: int, j: int|
                #![trigger out[j], out[i]]
                0 <= i < j < values.len() ==> !rel(out[j], out[i])
        }),
{
    lemma_filled_permutes(values, rel);
    lemma_filled_ordered(values, rel);
    lemma_drained_in_order(filled(values, rel), rel);
}

/// A min-heap drains in non-decreasing order: whatever values of a totally ordered type are
/// inserted, each value handed out is at most the ones handed out after it.
pub proof fn lemma_min_heap_drains_ascending<T: PartialOrd>(values: Seq<T>)
    requires
        totally_ordered::<T>(),
    ensures
        ({
            let out = drained(filled(values, ascending::<T>()), ascending::<T>());
            forall|i: int, j: int|
                #![trigger out[i], out[j]]
                0 <= i < j < values.len() ==> at_most(out[i], out[j])
        }),
{
    lemma_total_order_policies::<T>();
    lemma_filled_drains_in_order(values, ascending::<T>());
    let out = drained(filled(values, ascending::<T>()), ascending::<T>());
    assert forall|i: int, j: int|
        #![trigger out[i], out[j]]
        0 <= i < j < values.len() implies at_most(out[i], out[j]) by {
        assert(!ascending::<T>()(out[j], out[i]));
    }
}

/// A max-heap drains in non-increasing order: whatever values of a totally ordered type are
/// inserted, each value handed out is at least the ones handed out after it.
pub proof fn lemma_max_heap_drains_descending<T: PartialOrd>(values: Seq<T>)
    requires
        totally_ordered::<T>(),
    ensures
        ({
            let out = drained(filled(values, descending::<T>()), descending::<T>());
            forall|i: int, j: int|
                #![trigger out[i], out[j]]
                0 <= i < j < values.len() ==> at_most(out[j], out[i])
        }),
{
    lemma_total_order_policies::<T>();
    lemma_filled_drains_in_order(values, descending::<T>());
    let out = drained(filled(values, descending::<T>()), descending::<T>());
    assert forall|i: int, j: int|
        #![trigger out[i], out[j]]
        0 <= i < j < values.len() implies at_most(out[j], out[i]) by {
        assert(!descending::<T>()(out[j], out[i]));
    }
}

} // verus!
