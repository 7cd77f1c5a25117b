//! Pipeline configuration: the block size and the worker count, made
//! explicit so that runs are reproducible and testable with small
//! values.

use vstd::prelude::*;

verus! {

/// Relies on num_cpus::get: the number of available logical CPUs, which
/// its documentation promises to be at least 1.
#[verifier::external_body]
pub fn available_workers() -> (n: usize)
    ensures
        n >= 1,
{
    num_cpus::get()
}

/// The pipeline's only two tunables.  The combined digest and length
/// depend on the input and on `block_size` alone; `worker_count` sets
/// the degree of parallelism and never the result.
#[derive(Debug, Clone, Copy)]
pub struct PipelineConfig {
    pub block_size: usize,
    pub worker_count: usize,
}

impl PipelineConfig {
    /// Both tunables must be positive.
    pub open spec fn wf(&self) -> bool {
        self.block_size >= 1 && self.worker_count >= 1
    }

    /// A configuration with explicit values.
    pub fn new(block_size: usize, worker_count: usize) -> (c: PipelineConfig)
        requires
            block_size >= 1,
            worker_count >= 1,
        ensures
            c.wf(),
            c.block_size == block_size,
            c.worker_count == worker_count,
    {
        PipelineConfig { block_size, worker_count }
    }

    /// A configuration matched to the host: one worker per available
    /// CPU.
    pub fn auto(block_size: usize) -> (c: PipelineConfig)
        requires
            block_size >= 1,
        ensures
            c.wf(),
            c.block_size == block_size,
    {
        PipelineConfig { block_size, worker_count: available_workers() }
    }

    /// The buffer population and channel bound: two buffers per worker,
    /// so that every worker can double-buffer and the producer need not
    /// stall while all workers are busy.
    pub fn pool_size(&self) -> (n: usize)
        requires
            self.wf(),
            2 * self.worker_count <= usize::MAX,
        ensures
            n == 2 * self.worker_count,
    {
        2 * self.worker_count
    }
}

} // verus!
