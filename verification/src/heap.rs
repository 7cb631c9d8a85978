//! The executable binary heap.

use crate::layout::{
    exchange, heap_ordered, inserted, item, left_child, lemma_exchange_permutes,
    lemma_inserted_ordered, lemma_remainder_ordered, lemma_root_first, lemma_uprooted_permutes,
    parent, remainder, right_child, selected_child, sift_down, sift_up, uprooted,
};
use crate::policy::{ascending, callable, decides, descending, strict_weak_order};
use vstd::prelude::*;
use vstd::seq_lib::to_multiset_build;
use vstd::std_specs::cmp::{PartialOrdIs, PartialOrdSpec};

verus! {

/// An array-backed binary heap whose order is given by a comparator fixed at construction.
///
/// The backing vector holds a placeholder at index 0 and the live elements at indices
/// `1..=count`, so that the parent of index `i` is `i / 2` and its children are `2 * i` and
/// `2 * i + 1`.
pub struct Heap<T, F> where T: Default {
    count: usize,
    items: Vec<T>,
    comparator: F,
}

impl<T: Default, F> View for Heap<T, F> {
    type V = Seq<T>;

    /// The live elements in storage order: `self@[0]` is the root.
    closed spec fn view(&self) -> Seq<T> {
        self.items@.skip(1)
    }
}

impl<T, F> Heap<T, F> where T: Default, F: Fn(&T, &T) -> bool {
    /// The comparator the heap was built with.
    pub closed spec fn policy(&self) -> F {
        self.comparator
    }

    /// The storage has its placeholder and `count` live elements, and the comparator may be
    /// called on any two of them.
    spec fn shaped(&self) -> bool {
        &&& self.items@.len() == self.count + 1
        &&& callable(self.comparator)
    }

    /// Well-formedness: the storage is consistent, and under every strict weak order that the
    /// comparator decides the live elements are in heap order.
    pub closed spec fn wf(&self) -> bool {
        &&& self.shaped()
        &&& forall|rel: spec_fn(T, T) -> bool| #[trigger]
            decides(self.comparator, rel) && strict_weak_order(rel) ==> heap_ordered(self@, rel)
    }

    /// An empty heap ordered by `comparator`.
    pub fn new(comparator: F) -> (heap: Self)
        requires
            callable(comparator),
        ensures
            heap.wf(),
            heap@ == Seq::<T>::empty(),
            heap.policy() == comparator,
    {
        let heap = Self { count: 0, items: vec![T::default()], comparator };
        heap
    }

    /// The number of live elements.
    pub fn len(&self) -> (n: usize)
        requires
            self.wf(),
        ensures
            n == self@.len(),
    {
        self.count
    }

    /// Whether the heap holds no element.
    pub fn is_empty(&self) -> (r: bool)
        requires
            self.wf(),
        ensures
            r == (self@.len() == 0),
    {
        self.len() == 0
    }

    /// Inserts `value`: it is appended to the storage and sifted up.
    pub fn add(&mut self, value: T)
        requires
            old(self).wf(),
            old(self)@.len() + 2 <= usize::MAX,
        ensures
            final(self).wf(),
            final(self).policy() == old(self).policy(),
            final(self)@.len() == old(self)@.len() + 1,
            final(self)@.to_multiset() == old(self)@.to_multiset().insert(value),
            forall|rel: spec_fn(T, T) -> bool| #[trigger]
                decides(old(self).policy(), rel) ==> final(self)@ == inserted(
                    old(self)@,
                    value,
                    rel,
                ),
    {
        self.count += 1;
        self.items.push(value);
        assert(self@ =~= old(self)@.push(value));
        self.heapify_up(self.count);
        proof {
            to_multiset_build(old(self)@, value);
            assert forall|rel: spec_fn(T, T) -> bool| #[trigger]
                decides(self.comparator, rel) && strict_weak_order(rel) implies heap_ordered(
                self@,
                rel,
            ) by {
                lemma_inserted_ordered(old(self)@, value, rel);
            }
        }
    }

    /// Extracts the root, if there is one: the last element takes its place and is sifted
    /// down. On an empty heap nothing changes and `None` is returned.
    pub fn next(&mut self) -> (r: Option<T>)
        requires
            old(self).wf(),
        ensures
            final(self).wf(),
            final(self).policy() == old(self).policy(),
            old(self)@.len() == 0 ==> r.is_none() && final(self)@ == old(self)@,
            old(self)@.len() > 0 ==> {
                &&& r == Some(old(self)@[0])
                &&& final(self)@.len() == old(self)@.len() - 1
                &&& final(self)@.to_multiset() == old(self)@.to_multiset().remove(old(self)@[0])
                &&& forall|rel: spec_fn(T, T) -> bool| #[trigger]
                    decides(old(self).policy(), rel) ==> final(self)@ == remainder(
                        old(self)@,
                        rel,
                    )
            },
    {
        if self.count == 0 {
            return None;
        }
        let result = self.items.swap_remove(1);
        self.count -= 1;
        assert(self@ =~= uprooted(old(self)@));
        proof {
            lemma_uprooted_permutes(old(self)@);
        }
        if self.count > 0 {
            self.heapify_down(1);
        }
        proof {
            assert forall|rel: spec_fn(T, T) -> bool| #[trigger]
                decides(self.comparator, rel) && strict_weak_order(rel) implies heap_ordered(
                self@,
                rel,
            ) by {
                lemma_remainder_ordered(old(self)@, rel);
            }
        }
        Some(result)
    }

    /// In a well-formed heap, under a strict weak order that its comparator decides, no
    /// element has strict priority over its parent.
    pub proof fn lemma_heap_order(&self, rel: spec_fn(T, T) -> bool)
        requires
            self.wf(),
            decides(self.policy(), rel),
            strict_weak_order(rel),
        ensures
            heap_ordered(self@, rel),
    {
    }

    /// In a well-formed heap, under a strict weak order that its comparator decides, no
    /// element has strict priority over the root: what `next` hands out is a best element.
    pub proof fn lemma_root_is_first(&self, rel: spec_fn(T, T) -> bool, k: int)
        requires
            self.wf(),
            decides(self.policy(), rel),
            strict_weak_order(rel),
            0 <= k < self@.len(),
        ensures
            !rel(self@[k], self@[0]),
    {
        lemma_root_first(self@, k + 1, rel);
    }

    /// Exchanges the elements at the indices `i` and `j`.
    fn swap(&mut self, i: usize, j: usize)
        requires
            old(self).shaped(),
            1 <= i <= old(self).count,
            1 <= j <= old(self).count,
        ensures
            final(self).shaped(),
            final(self).count == old(self).count,
            final(self).comparator == old(self).comparator,
            final(self)@ == exchange(old(self)@, i as int, j as int),
            final(self)@.to_multiset() == old(self)@.to_multiset(),
    {
        self.items.swap(i, j);
        proof {
            lemma_exchange_permutes(old(self)@, i as int, j as int);
        }
    }

    /// Whether the element at index `i` has strict priority over the one at index `j`.
    fn compare(&self, i: usize, j: usize) -> (r: bool)
        requires
            self.shaped(),
            1 <= i <= self.count,
            1 <= j <= self.count,
        ensures
            forall|rel: spec_fn(T, T) -> bool| #[trigger]
                decides(self.comparator, rel) ==> r == rel(
                    item(self@, i as int),
                    item(self@, j as int),
                ),
    {
        (self.comparator)(&self.items[i], &self.items[j])
    }

    /// Sifts the element at `idx` up until its parent no longer yields to it.
    fn heapify_up(&mut self, mut idx: usize)
        requires
            old(self).shaped(),
            1 <= idx <= old(self).count,
        ensures
            final(self).shaped(),
            final(self).count == old(self).count,
            final(self).comparator == old(self).comparator,
            final(self)@.to_multiset() == old(self)@.to_multiset(),
            forall|rel: spec_fn(T, T) -> bool| #[trigger]
                decides(old(self).comparator, rel) ==> final(self)@ == sift_up(
                    old(self)@,
                    idx as int,
                    rel,
                ),
    {
        let ghost start = idx as int;
        while idx > 1
            invariant
                self.shaped(),
                1 <= idx <= self.count,
                self.count == old(self).count,
                self.comparator == old(self).comparator,
                self@.to_multiset() == old(self)@.to_multiset(),
                forall|rel: spec_fn(T, T) -> bool| #[trigger]
                    decides(self.comparator, rel) ==> sift_up(self@, idx as int, rel) == sift_up(
                        old(self)@,
                        start,
                        rel,
                    ),
            ensures
                forall|rel: spec_fn(T, T) -> bool| #[trigger]
                    decides(self.comparator, rel) ==> self@ == sift_up(old(self)@, start, rel),
            decreases idx,
        {
            let parent = self.parent_idx(idx);
            match self.compare(idx, parent) {
                true => {
                    self.swap(idx, parent);
                    idx = parent;
                },
                false => break ,
            }
        }
    }

    /// Sifts the element at `idx` down until its selected child no longer has priority.
    fn heapify_down(&mut self, mut idx: usize)
        requires
            old(self).shaped(),
            1 <= idx <= old(self).count,
        ensures
            final(self).shaped(),
            final(self).count == old(self).count,
            final(self).comparator == old(self).comparator,
            final(self)@.to_multiset() == old(self)@.to_multiset(),
            forall|rel: spec_fn(T, T) -> bool| #[trigger]
                decides(old(self).comparator, rel) ==> final(self)@ == sift_down(
                    old(self)@,
                    idx as int,
                    rel,
                ),
    {
        let ghost start = idx as int;
        while self.has_children(idx)
            invariant
                self.shaped(),
                1 <= idx <= self.count,
                self.count == old(self).count,
                self.comparator == old(self).comparator,
                self@.to_multiset() == old(self)@.to_multiset(),
                forall|rel: spec_fn(T, T) -> bool| #[trigger]
                    decides(self.comparator, rel) ==> sift_down(self@, idx as int, rel)
                        == sift_down(old(self)@, start, rel),
            ensures
                forall|rel: spec_fn(T, T) -> bool| #[trigger]
                    decides(self.comparator, rel) ==> self@ == sift_down(old(self)@, start, rel),
            decreases self.count - idx,
        {
            let child = self.select_child(idx);
            match self.compare(child, idx) {
                true => {
                    self.swap(child, idx);
                    idx = child;
                },
                false => break ,
            }
        }
    }

    /// The child of `idx` that sifting down compares against.
    fn select_child(&self, idx: usize) -> (c: usize)
        requires
            self.shaped(),
            1 <= idx,
            left_child(idx as int) <= self.count,
        ensures
            c == left_child(idx as int) || c == right_child(idx as int),
            c <= self.count,
            forall|rel: spec_fn(T, T) -> bool| #[trigger]
                decides(self.comparator, rel) ==> c == selected_child(self@, idx as int, rel),
    {
        let left = self.left_child_idx(idx);
        let right = self.right_child_idx(idx);
        if right > self.count {
            return left;
        }
        if self.compare(left, right) {
            left
        } else {
            right
        }
    }

    /// The index of the parent of `idx`.
    fn parent_idx(&self, idx: usize) -> (p: usize)
        ensures
            p == parent(idx as int),
    {
        idx / 2
    }

    /// The index of the left child of `idx`.
    fn left_child_idx(&self, idx: usize) -> (c: usize)
        requires
            idx * 2 <= usize::MAX,
        ensures
            c == left_child(idx as int),
    {
        idx * 2
    }

    /// The index of the right child of `idx`.
    fn right_child_idx(&self, idx: usize) -> (c: usize)
        requires
            idx * 2 + 1 <= usize::MAX,
        ensures
            c == right_child(idx as int),
    {
        self.left_child_idx(idx) + 1
    }

    /// Whether `idx` has a left child among the live elements. The test is made on the
    /// parent's side, `idx <= count / 2`, so that no index is doubled beyond `usize`.
    fn has_children(&self, idx: usize) -> (r: bool)
        ensures
            r == (left_child(idx as int) <= self.count),
    {
        idx <= self.parent_idx(self.count)
    }
}

/// `a < b`, the comparator of a min-heap.
fn less<T: Ord>(a: &T, b: &T) -> (r: bool)
    ensures
        T::obeys_partial_cmp_spec() ==> r == a.is_lt(b),
{
    *a < *b
}

/// `a > b`, the comparator of a max-heap.
fn greater<T: Ord>(a: &T, b: &T) -> (r: bool)
    ensures
        T::obeys_partial_cmp_spec() ==> r == a.is_gt(b),
{
    *a > *b
}

/// The constructors for the two canonical policies. They pick the comparator themselves, so
/// the comparator parameter of the type they are called on plays no part; it is fixed to `()`
/// so that `Heap::new_min()` and `Heap::new_max()` can be written without naming one.
impl<T> Heap<T, ()> where T: Default + Ord {
    /// An empty min-heap: `a` has priority over `b` iff `a < b`.
    pub fn new_min() -> (heap: Heap<T, impl Fn(&T, &T) -> bool>)
        ensures
            heap.wf(),
            heap@ == Seq::<T>::empty(),
            T::obeys_partial_cmp_spec() ==> decides(heap.policy(), ascending::<T>()),
    {
        Heap::new(less::<T>)
    }

    /// An empty max-heap: `a` has priority over `b` iff `a > b`.
    pub fn new_max() -> (heap: Heap<T, impl Fn(&T, &T) -> bool>)
        ensures
            heap.wf(),
            heap@ == Seq::<T>::empty(),
            T::obeys_partial_cmp_spec() ==> decides(heap.policy(), descending::<T>()),
    {
        Heap::new(greater::<T>)
    }
}

/// Constructor of min-heaps.
pub struct MinHeap;

impl MinHeap {
    /// An empty min-heap: `a` has priority over `b` iff `a < b`.
    pub fn new<T>() -> (heap: Heap<T, impl Fn(&T, &T) -> bool>) where T: Default + Ord
        ensures
            heap.wf(),
            heap@ == Seq::<T>::empty(),
            T::obeys_partial_cmp_spec() ==> decides(heap.policy(), ascending::<T>()),
    {
        Heap::new(less::<T>)
    }
}

/// Constructor of max-heaps.
pub struct MaxHeap;

impl MaxHeap {
    /// An empty max-heap: `a` has priority over `b` iff `a > b`.
    pub fn new<T>() -> (heap: Heap<T, impl Fn(&T, &T) -> bool>) where T: Default + Ord
        ensures
            heap.wf(),
            heap@ == Seq::<T>::empty(),
            T::obeys_partial_cmp_spec() ==> decides(heap.policy(), descending::<T>()),
    {
        Heap::new(greater::<T>)
    }
}

} // verus!
