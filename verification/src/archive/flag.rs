//! Reading and writing the flags that threads share.

use std::sync::atomic::{AtomicBool, AtomicUsize};
use vstd::prelude::*;

verus! {

/// Reads a shared flag. Another thread may write it at any moment, so the value says
/// what the flag held when it was read and nothing about what it holds afterwards.
pub fn flag_is_set(flag: &AtomicBool) -> bool {
    flag.load(std::sync::atomic::Ordering::SeqCst)
}

/// Writes a shared flag.
pub fn flag_set(flag: &AtomicBool, value: bool) {
    flag.store(value, std::sync::atomic::Ordering::SeqCst)
}

/// A counter at zero.
pub fn counter_new() -> AtomicUsize {
    AtomicUsize::new(0)
}

/// Counts one more and returns the count reached, as far as the counter tells: other
/// threads count on the same counter. The count reached includes this call, so it is at
/// least one; a counter that is full stays as it is.
pub fn counter_next(counter: &AtomicUsize) -> (reached: usize)
    ensures
        reached >= 1,
{
    let before = counter.fetch_add(1, std::sync::atomic::Ordering::Relaxed);
    if before < usize::MAX {
        before + 1
    } else {
        before
    }
}

} // verus!
