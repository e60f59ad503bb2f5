//! Stopping a probe that is already running.
//!
//! A front end cannot kill what it started: the probe runs as root, and the
//! parent may not signal it. So the probe agrees to be stopped. It holds a
//! [`Cancel`] and checks it where stopping is safe, between cycles and between
//! chunks, never in the middle of an operation.

use std::sync::atomic::AtomicBool;
use std::sync::atomic::Ordering;
use std::sync::Arc;
use vstd::prelude::*;

verus! {

/// A flag a long-running probe agrees to watch. Every clone observes the same
/// flag, from whatever thread it is set; what it holds at a given moment is
/// therefore no function of the arguments of a call.
#[derive(Debug)]
pub struct Cancel {
    flag: Arc<AtomicBool>,
}

impl Cancel {
    /// Which flag this token watches.
    pub closed spec fn watched(self) -> AtomicBool {
        *self.flag
    }

    /// A token nothing ever sets.
    pub fn never() -> Self {
        Cancel { flag: Arc::new(AtomicBool::new(false)) }
    }

    /// Asks for a stop.
    pub fn stop(&self) {
        self.flag.store(true, Ordering::SeqCst)
    }

    /// Whether a stop has been asked for. Checked between units of work.
    pub fn stopped(&self) -> bool {
        self.flag.load(Ordering::SeqCst)
    }
}

impl Clone for Cancel {
    fn clone(&self) -> (r: Self)
        ensures
            r.watched() == self.watched(),
    {
        Cancel { flag: self.flag.clone() }
    }
}

impl Default for Cancel {
    fn default() -> Self {
        Cancel::never()
    }
}

/// The longest a sleeping probe goes without looking at its flag, in
/// milliseconds.
pub const SLICE_MS: u64 = 50;

/// What a probe that waits does next.
#[derive(Debug, Clone, Copy, PartialEq, Eq, Structural)]
pub enum Rest {
    /// Sleep for so many milliseconds, then look again.
    Nap(u64),
    /// Give up: a stop was asked for.
    Stopped,
    /// The full time was slept.
    Done,
}

/// One look at the flag while waiting. A stop is noticed within a slice,
/// however long the wait is.
pub fn rest(stopped: bool, left_ms: u64) -> (r: Rest)
    ensures
        r == (if stopped {
            Rest::Stopped
        } else if left_ms == 0 {
            Rest::Done
        } else if left_ms < SLICE_MS {
            Rest::Nap(left_ms)
        } else {
            Rest::Nap(SLICE_MS)
        }),
{
    if stopped {
        Rest::Stopped
    } else if left_ms == 0 {
        Rest::Done
    } else if left_ms < SLICE_MS {
        Rest::Nap(left_ms)
    } else {
        Rest::Nap(SLICE_MS)
    }
}

} // verus!
