//! Admission of pushed items into a stream's bounded buffer.

use vstd::prelude::*;

verus! {

/// Whether `n` more items fit in a buffer holding `prev` of at most `cap`:
/// the new count when they do, or `None` when they would exceed it.
pub fn buffer_accepts(prev: usize, n: usize, cap: usize) -> (r: Option<usize>)
    ensures
        prev + n <= cap ==> r == Some((prev + n) as usize),
        prev + n > cap ==> r is None,
{
    if n > cap || prev > cap - n {
        None
    } else {
        Some(prev + n)
    }
}

} // verus!
