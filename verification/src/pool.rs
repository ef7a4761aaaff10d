//! Thread-pool handles.
//!
//! The arithmetic engine used here runs its kernels on the calling
//! thread, so a pool is a configuration token: it records the number of
//! worker threads a parallel operation is entitled to.  Parallel and
//! serial paths are required to return bit-identical results, so the
//! token never influences any result (see the batch-verification
//! contracts).

use vstd::prelude::*;

verus! {

/// A handle on a pool of worker threads for the parallel operation
/// families.
#[derive(Debug)]
pub struct Threadpool {
    num_threads: usize,
}

impl Threadpool {
    /// The number of worker threads the pool was created with.
    pub closed spec fn spec_num_threads(&self) -> usize {
        self.num_threads
    }

    /// Creates a pool of `num_threads` workers.
    pub fn new(num_threads: usize) -> (r: Self)
        ensures
            r.spec_num_threads() == num_threads,
    {
        Threadpool { num_threads }
    }

    /// Access to the pool's private context: the worker count it was
    /// created with.
    pub fn get_private_context(&self) -> (r: usize)
        ensures
            r == self.spec_num_threads(),
    {
        self.num_threads
    }
}

/// A thread-pool handle of the curve utility layer.
pub struct CttThreadpool {
    num_threads: usize,
}

impl CttThreadpool {
    /// The number of worker threads the pool was created with.
    pub closed spec fn spec_num_threads(&self) -> usize {
        self.num_threads
    }

    /// Creates a pool of `num_threads` workers.
    pub fn new(num_threads: usize) -> (r: CttThreadpool)
        ensures
            r.spec_num_threads() == num_threads,
    {
        CttThreadpool { num_threads }
    }
}

} // verus!
