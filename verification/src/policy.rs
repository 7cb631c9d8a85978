//! Ordering policies.
//!
//! A heap is driven by a comparator: an executable two-argument predicate that answers whether
//! its first operand has strict priority over the second. Contracts never look inside the
//! comparator. They speak of a mathematical relation `rel` and of the comparator *deciding*
//! that relation, and what they state holds for every relation that the comparator decides.

use vstd::prelude::*;
use vstd::relations::asymmetric;
use vstd::std_specs::cmp::PartialOrdIs;

verus! {

/// The comparator may be called on every pair of elements.
pub open spec fn callable<T, F: Fn(&T, &T) -> bool>(f: F) -> bool {
    forall|a: T, b: T| #[trigger] call_requires(f, (&a, &b))
}

/// Every answer that `f` gives on a pair is the one `rel` gives: `f` is a pure predicate whose
/// meaning is `rel`.
pub open spec fn decides<T, F: Fn(&T, &T) -> bool>(f: F, rel: spec_fn(T, T) -> bool) -> bool {
    forall|a: T, b: T, r: bool| #[trigger] call_ensures(f, (&a, &b), r) ==> r == rel(a, b)
}

/// If `a` does not precede `b` and `b` does not precede `c`, then `a` does not precede `c`.
pub open spec fn negatively_transitive<T>(rel: spec_fn(T, T) -> bool) -> bool {
    forall|a: T, b: T, c: T| !#[trigger] rel(a, b) && !#[trigger] rel(b, c) ==> !rel(a, c)
}

/// A strict weak order: a strict order in which "neither precedes the other" is transitive.
/// These are the relations under which a binary heap keeps its order.
pub open spec fn strict_weak_order<T>(rel: spec_fn(T, T) -> bool) -> bool {
    &&& asymmetric(rel)
    &&& negatively_transitive(rel)
}

/// `a` and `b` tie: neither has priority over the other.
pub open spec fn ties<T>(rel: spec_fn(T, T) -> bool, a: T, b: T) -> bool {
    !rel(a, b) && !rel(b, a)
}

/// The "min" policy: `a` has priority over `b` iff `a < b`.
pub open spec fn ascending<T: PartialOrd>() -> spec_fn(T, T) -> bool {
    |a: T, b: T| a.is_lt(&b)
}

/// The "max" policy: `a` has priority over `b` iff `a > b`.
pub open spec fn descending<T: PartialOrd>() -> spec_fn(T, T) -> bool {
    |a: T, b: T| a.is_gt(&b)
}

/// `a <= b`.
pub open spec fn at_most<T: PartialOrd>(a: T, b: T) -> bool {
    a.is_le(&b)
}

/// The comparison operators of `T` describe a total order: `<=` is total and transitive, and
/// `<` and `>` are its strict parts.
pub open spec fn totally_ordered<T: PartialOrd>() -> bool {
    &&& forall|a: T, b: T| #[trigger] at_most(a, b) || at_most(b, a)
    &&& forall|a: T, b: T, c: T|
        #[trigger] at_most(a, b) && #[trigger] at_most(b, c) ==> at_most(a, c)
    &&& forall|a: T, b: T| a.is_lt(&b) <==> !#[trigger] at_most(b, a)
    &&& forall|a: T, b: T| a.is_gt(&b) <==> !#[trigger] at_most(a, b)
}

/// A strict weak order is irreflexive.
pub proof fn lemma_irreflexive<T>(rel: spec_fn(T, T) -> bool, a: T)
    requires
        strict_weak_order(rel),
    ensures
        !rel(a, a),
{
    assert(rel(a, a) ==> !rel(a, a));
}

/// In a strict weak order, what does not precede `b` precedes nothing that precedes `b`.
pub proof fn lemma_not_before_better<T>(rel: spec_fn(T, T) -> bool, a: T, b: T, c: T)
    requires
        strict_weak_order(rel),
        !rel(a, b),
        rel(c, b),
    ensures
        !rel(a, c),
{
    assert(!rel(b, c));
}

/// On a totally ordered type both `<` and `>` are strict weak orders.
pub proof fn lemma_total_order_policies<T: PartialOrd>()
    requires
        totally_ordered::<T>(),
    ensures
        strict_weak_order(ascending::<T>()),
        strict_weak_order(descending::<T>()),
{
    let up = ascending::<T>();
    let down = descending::<T>();
    assert forall|a: T, b: T| #[trigger] up(a, b) implies #[trigger] up(b, a) == false by {
        assert(at_most(a, b) || at_most(b, a));
    }
    assert forall|a: T, b: T, c: T| !#[trigger] up(a, b) && !#[trigger] up(b, c) implies !up(
        a,
        c,
    ) by {
        assert(at_most(b, a) && at_most(c, b));
    }
    assert forall|a: T, b: T| #[trigger] down(a, b) implies #[trigger] down(b, a) == false by {
        assert(at_most(a, b) || at_most(b, a));
    }
    assert forall|a: T, b: T, c: T| !#[trigger] down(a, b) && !#[trigger] down(b, c) implies !down(
        a,
        c,
    ) by {
        assert(at_most(a, b) && at_most(b, c));
    }
}

/// The unsigned primitive integers are totally ordered.
pub proof fn lemma_unsigned_totally_ordered()
    ensures
        totally_ordered::<u8>(),
        totally_ordered::<u16>(),
        totally_ordered::<u32>(),
        totally_ordered::<u64>(),
        totally_ordered::<u128>(),
        totally_ordered::<usize>(),
{
}

/// The signed primitive integers are totally ordered.
pub proof fn lemma_signed_totally_ordered()
    ensures
        totally_ordered::<i8>(),
        totally_ordered::<i16>(),
        totally_ordered::<i32>(),
        totally_ordered::<i64>(),
        totally_ordered::<i128>(),
        totally_ordered::<isize>(),
{
}

} // verus!
