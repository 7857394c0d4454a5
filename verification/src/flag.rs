//! A boolean that several threads read and write without blocking.
//!
//! The flag is advisory: a write becomes visible to the other threads
//! eventually, not at once, so nothing that needs immediate visibility may
//! rest on it. Accordingly no contract here says what a read returns. What
//! a handle wrote last is another matter: the handle keeps it.

use vstd::prelude::*;
use std::sync::Arc;
use std::sync::atomic::AtomicBool;
use std::sync::atomic::Ordering;

verus! {

/// `Arc::clone`: another pointer to the same allocation, and so to the
/// same shared value.
#[verifier::external_body]
fn arc_clone(flag: &Arc<AtomicBool>) -> (other: Arc<AtomicBool>)
    ensures
        other == *flag,
{
    Arc::clone(flag)
}

/// A handle to a shared flag, read and written with relaxed ordering.
pub struct RelaxedFlag {
    shared: Arc<AtomicBool>,
    last: bool,
}

impl RelaxedFlag {
    /// What this handle wrote last. Before its first write: the value that
    /// the flag was made with, or what the handle that it was shared from
    /// had written.
    pub closed spec fn written(self) -> bool {
        self.last
    }

    /// Whether the two handles are handles to one flag.
    pub closed spec fn same_flag(self, other: RelaxedFlag) -> bool {
        self.shared == other.shared
    }

    /// A new flag that holds `value`.
    pub fn new(value: bool) -> (flag: RelaxedFlag)
        ensures
            flag.written() == value,
    {
        RelaxedFlag { shared: Arc::new(AtomicBool::new(value)), last: value }
    }

    /// Another handle to the same flag.
    pub fn share(&self) -> (other: RelaxedFlag)
        ensures
            other.same_flag(*self),
            other.written() == self.written(),
    {
        RelaxedFlag { shared: arc_clone(&self.shared), last: self.last }
    }

    /// Writes `value`. Other threads see it eventually.
    pub fn set(&mut self, value: bool)
        ensures
            final(self).written() == value,
            final(self).same_flag(*old(self)),
    {
        self.shared.store(value, Ordering::Relaxed);
        self.last = value;
    }

    /// Reads the flag: a value that some thread wrote, not necessarily the
    /// latest.
    pub fn get(&self) -> bool {
        self.shared.load(Ordering::Relaxed)
    }

    /// What this handle wrote last.
    pub fn last_written(&self) -> (value: bool)
        ensures
            value == self.written(),
    {
        self.last
    }
}

/// Handles to one flag stay handles to one flag, whichever of them is
/// compared with which.
pub proof fn lemma_same_flag(a: RelaxedFlag, b: RelaxedFlag, c: RelaxedFlag)
    ensures
        a.same_flag(a),
        a.same_flag(b) ==> b.same_flag(a),
        a.same_flag(b) && b.same_flag(c) ==> a.same_flag(c),
{
}

} // verus!
