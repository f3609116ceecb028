//! A progress counter shared between threads, with a cancellation flag.
//!
//! The total is fixed when the tracker is made. The units done and the
//! cancellation flag may change from other threads at any moment, so the
//! methods promise nothing about the values of those they see or leave.

use std::sync::atomic::{AtomicBool, AtomicU64, Ordering};
use std::sync::Arc;
use vstd::prelude::*;

verus! {

#[derive(Debug)]
struct ProgressInner {
    total: u64,
    current: AtomicU64,
    cancelled: AtomicBool,
}

/// A handle on shared progress; clones share the same counters.
#[derive(Debug, Clone)]
pub struct ProgressTracker {
    inner: Arc<ProgressInner>,
}

impl ProgressTracker {
    /// The number of units of work, fixed when the tracker was made.
    pub closed spec fn total(&self) -> u64 {
        self.inner.total
    }

    /// A tracker of `total` units, none done, not cancelled.
    pub fn new(total: u64) -> (t: Self)
        ensures
            t.total() == total,
    {
        ProgressTracker {
            inner: Arc::new(
                ProgressInner {
                    total,
                    current: AtomicU64::new(0),
                    cancelled: AtomicBool::new(false),
                },
            ),
        }
    }

    /// Sets the units done.
    pub fn set_current(&self, value: u64) {
        self.inner.current.store(value, Ordering::Relaxed);
    }

    /// Adds units done (wrapping, as atomic addition does).
    pub fn increment(&self, delta: u64) {
        let _previous = self.inner.current.fetch_add(delta, Ordering::Relaxed);
    }

    /// The units done, as last seen, and the total.
    pub fn counts(&self) -> (r: (u64, u64))
        ensures
            r.1 == self.total(),
    {
        let current = self.inner.current.load(Ordering::Relaxed);
        let total = self.inner.total;
        (current, total)
    }

    /// Requests cancellation.
    pub fn cancel(&self) {
        self.inner.cancelled.store(true, Ordering::Relaxed);
    }

    /// Cancellation was requested.
    pub fn is_cancelled(&self) -> bool {
        self.inner.cancelled.load(Ordering::Relaxed)
    }
}

} // verus!
