use vstd::prelude::*;

verus! {

use std::sync::atomic::{AtomicBool, AtomicU64, Ordering};

/// Reads an atomic word; other threads may have written any value to it.
pub(crate) fn load_word(a: &AtomicU64) -> u64 {
    a.load(Ordering::Relaxed)
}

/// Writes an atomic word.
pub(crate) fn store_word(a: &AtomicU64, v: u64) {
    a.store(v, Ordering::Relaxed)
}

/// Reads a shared flag; other threads may have set it.
pub(crate) fn load_flag(a: &AtomicBool) -> bool {
    a.load(Ordering::Relaxed)
}

/// Sets a shared flag.
pub(crate) fn store_flag(a: &AtomicBool, v: bool) {
    a.store(v, Ordering::Relaxed)
}

} // verus!
