//! USB, USB-C and Power Delivery inspection, with a diagnostic rule engine aimed
//! at cable and charging problems.
//!
//! Everything comes from sysfs and the kernel ring buffer. That tells with
//! certainty what a link negotiated and what each side advertised, and it reads a
//! cable's e-marker where there is one. It cannot measure a cable electrically,
//! so findings about cables are inferred or heuristic, unless they come straight
//! off an e-marker or a hardware counter.
//!
//! The library takes plain readings and gives plain values back. Each function is
//! stated over mathematical models of both, and proved against that statement.

use vstd::prelude::*;

pub mod big;
pub mod block;
pub mod cancel;
pub mod caps;
pub mod capture;
pub mod chain;
pub mod cycling;
pub mod diag;
pub mod double;
pub mod drm;
pub mod escalate;
pub mod fingerprint;
pub mod kernel;
pub mod kind;
pub mod lines;
pub mod model;
pub mod monitor;
pub mod names;
pub mod number;
pub mod order;
pub mod path;
pub mod places;
pub mod readings;
pub mod report;
pub mod root;
pub mod seqs;
pub mod snapshot;
pub mod spelling;
pub mod tally;
pub mod text;
pub mod vdo;
pub mod view;

verus! {

/// What to include in a capture.
#[derive(Debug, Clone, Copy)]
pub struct Options {
    pub kernel: kernel::Options,
    /// Milliseconds to sample block I/O for a live throughput figure. 0 skips it.
    pub storage_sample_ms: u64,
}

impl Default for Options {
    fn default() -> (r: Self)
        ensures
            r.kernel == (kernel::Options { include_unclassified: false, limit: 4000 }),
            r.storage_sample_ms == 0,
    {
        Options { kernel: kernel::Options::default(), storage_sample_ms: 0 }
    }
}

} // verus!
