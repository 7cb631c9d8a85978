//! What this library takes on trust about the standard library, where `vstd` is silent.

use vstd::prelude::*;

verus! {

/// `<[E]>::swap`, as the standard library documents it: the elements at indices `a` and `b`
/// trade places and nothing else changes. It panics when an index is out of bounds, so both
/// must be in bounds.
pub assume_specification<E>[ <[E]>::swap ](s: &mut [E], a: usize, b: usize)
    requires
        a < old(s)@.len(),
        b < old(s)@.len(),
    ensures
        final(s)@ == old(s)@.update(a as int, old(s)@[b as int]).update(
            b as int,
            old(s)@[a as int],
        ),
;

} // verus!
