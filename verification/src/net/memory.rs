//! Fallible allocation for the queues.

use std::collections::VecDeque;
use vstd::prelude::*;

verus! {

/// Calls `VecDeque::try_reserve` and tells whether it succeeded.
///
/// Claimed of the call: the elements and their order stay as they were. Whether
/// memory was available depends on the allocator, so nothing is claimed of the result.
#[verifier::external_body]
pub(crate) fn try_reserve_deque<T>(v: &mut VecDeque<T>, additional: usize) -> (r: bool)
    ensures
        final(v)@ == old(v)@,
{
    v.try_reserve(additional).is_ok()
}

/// Calls `Vec::try_reserve_exact` and tells whether it succeeded.
///
/// Claimed of the call: the bytes stay as they were. Whether memory was available depends on the
/// allocator, so nothing is claimed of the result.
#[verifier::external_body]
pub(crate) fn try_reserve_bytes(v: &mut Vec<u8>, additional: usize) -> (r: bool)
    ensures
        final(v)@ == old(v)@,
{
    v.try_reserve_exact(additional).is_ok()
}

/// Calls `Vec::capacity`.
///
/// Claimed of the call: the capacity is at least the length. How much more the allocator gave is
/// left open.
#[verifier::external_body]
pub(crate) fn byte_capacity(v: &Vec<u8>) -> (r: usize)
    ensures
        r >= v@.len(),
{
    v.capacity()
}

} // verus!
