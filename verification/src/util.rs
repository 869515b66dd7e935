//! Cyclic index arithmetic over a non-empty slice: the successor of the last
//! index is 0 and the predecessor of index 0 is the last index.

use vstd::prelude::*;

verus! {

/// The cyclic successor of `current` among `len` indices.
pub open spec fn cycle_next_spec(len: int, current: int) -> int {
    if current == len - 1 {
        0
    } else {
        current + 1
    }
}

/// The cyclic predecessor of `current` among `len` indices.
pub open spec fn cycle_previous_spec(len: int, current: int) -> int {
    if current == 0 {
        len - 1
    } else {
        current - 1
    }
}

/// Over a non-empty slice, `previous` undoes `next`, `next` wraps the last
/// index to 0, and `previous` wraps 0 to the last index.
pub proof fn lemma_cycle_round_trip(len: int, current: int)
    requires
        0 < len,
        0 <= current < len,
    ensures
        cycle_previous_spec(len, cycle_next_spec(len, current)) == current,
        cycle_next_spec(len, cycle_previous_spec(len, current)) == current,
        cycle_next_spec(len, len - 1) == 0,
        cycle_previous_spec(len, 0) == len - 1,
{
}

pub fn cycle_next<T>(items: &[T], current: usize) -> (r: usize)
    requires
        items@.len() > 0,
        current < items@.len(),
    ensures
        r == cycle_next_spec(items@.len() as int, current as int),
        r < items@.len(),
{
    if current == items.len() - 1 {
        0
    } else {
        current + 1
    }
}

pub fn cycle_previous<T>(items: &[T], current: usize) -> (r: usize)
    requires
        items@.len() > 0,
        current < items@.len(),
    ensures
        r == cycle_previous_spec(items@.len() as int, current as int),
        r < items@.len(),
{
    if current == 0 {
        items.len() - 1
    } else {
        current - 1
    }
}

} // verus!
