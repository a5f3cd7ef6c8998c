//! Hardware awareness: core counts and chunk-to-core affinity.
use vstd::prelude::*;

verus! {

/// `num_cpus::get`: the number of logical CPUs available to this process.
/// The crate documents that it always returns at least 1; the count itself
/// depends on the machine and is not otherwise stated.
#[verifier::external_body]
fn available_logical_cpus() -> (n: usize)
    ensures
        n >= 1,
{
    num_cpus::get()
}

/// `num_cpus::get_physical`: the number of physical cores of the system.
/// The crate documents that it always returns at least 1; the count itself
/// depends on the machine and is not otherwise stated.
#[verifier::external_body]
fn available_physical_cpus() -> (n: usize)
    ensures
        n >= 1,
{
    num_cpus::get_physical()
}

/// Core and vector-width facts of the running machine.
pub struct HardwareInfo {
    pub logical_cores: usize,
    pub physical_cores: usize,
    pub numa_nodes: usize,
    pub simd_width: usize,
}

impl HardwareInfo {
    /// Detect core counts; NUMA nodes default to one and SIMD width to eight lanes.
    pub fn detect() -> (h: Self)
        ensures
            h.logical_cores >= 1,
            h.physical_cores >= 1,
            h.numa_nodes == 1,
            h.simd_width == 8,
    {
        let logical = available_logical_cpus();
        let physical = available_physical_cpus();
        Self { logical_cores: logical, physical_cores: physical, numa_nodes: 1, simd_width: 8 }
    }

    /// Map a chunk to a core index: chunks are dealt round-robin over the
    /// logical cores.
    pub fn affinity_for_chunk(&self, chunk_idx: usize) -> (core: usize)
        requires
            self.logical_cores > 0,
        ensures
            core == chunk_idx % self.logical_cores,
            core < self.logical_cores,
    {
        chunk_idx % self.logical_cores
    }
}

} // verus!
