//! A binary-heap priority queue with a pluggable ordering policy, together with the small
//! weighted graph it is usually composed with.
//!
//! * [`policy`]: what it means for a comparator to decide a priority relation.
//! * [`layout`]: the mathematical model of the heap as a sequence, and the lemmas about it.
//! * [`heap`]: the executable heap.
//! * [`history`]: what holds over runs of insertions and extractions, and of filling and
//!   draining.
//! * [`graph`]: the adjacency-table graph.
//! * [`std_specs`]: what is assumed of the standard library.

pub mod graph;
pub mod heap;
pub mod history;
pub mod layout;
pub mod policy;
pub mod std_specs;
