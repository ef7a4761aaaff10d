//! Handle for the multi-scalar-multiplication acceleration engine offered
//! to proving systems: it owns the worker pool the kernel runs on.  The
//! kernel entry points themselves implement a foreign acceleration trait
//! and live with the unverified glue.

use vstd::prelude::*;
use crate::pool::Threadpool;

verus! {

/// An acceleration engine backed by a worker pool.
#[derive(Debug)]
pub struct CttEngine(Threadpool);

impl CttEngine {
    /// The worker count of the engine's pool.
    pub closed spec fn spec_num_threads(&self) -> usize {
        self.0.spec_num_threads()
    }

    /// Creates an engine with a pool of `num_threads` workers.
    pub fn new(num_threads: usize) -> (r: Self)
        ensures
            r.spec_num_threads() == num_threads,
    {
        CttEngine(Threadpool::new(num_threads))
    }
}

} // verus!
