//! Handle for the earlier acceleration-layer generation, which owned its
//! pool directly.

use vstd::prelude::*;

verus! {

/// An acceleration engine owning a pool of worker threads.
pub struct CttEngine {
    num_threads: usize,
}

impl CttEngine {
    /// The worker count of the engine's pool.
    pub closed spec fn spec_num_threads(&self) -> usize {
        self.num_threads
    }

    /// Creates an engine with `num_threads` workers.
    pub fn new(num_threads: usize) -> (r: CttEngine)
        ensures
            r.spec_num_threads() == num_threads,
    {
        CttEngine { num_threads }
    }
}

} // verus!
