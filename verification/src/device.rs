//! The device capability boundary: what a graphics-API binding must provide,
//! and the error taxonomy of the allocator.

use vstd::prelude::*;

use crate::count::DescriptorTotalCount;

verus! {

/// Memory exhausted error.
#[derive(Clone, Copy, Debug, PartialEq, Eq, Structural)]
pub enum OutOfMemory {
    /// Device memory exhausted.
    OutOfDeviceMemory,
    /// Host memory exhausted.
    OutOfHostMemory,
}

/// Error of a pool creation call.
#[derive(Clone, Copy, Debug, PartialEq, Eq, Structural)]
pub enum CreatePoolError {
    /// Device memory exhausted.
    OutOfDeviceMemory,
    /// Host memory exhausted.
    OutOfHostMemory,
    /// A descriptor pool creation has failed due to fragmentation.
    Fragmentation,
}

/// Error of a descriptor-set allocation call on one pool.
#[derive(Clone, Copy, Debug, PartialEq, Eq, Structural)]
pub enum AllocationError {
    /// Device memory exhausted.
    OutOfDeviceMemory,
    /// Host memory exhausted.
    OutOfHostMemory,
    /// Failed to allocate memory from the pool.
    OutOfPoolMemory,
    /// Pool allocation failed due to fragmentation of the pool's memory.
    FragmentedPool,
}

/// Error returned by [`crate::allocator::DescriptorAllocator::allocate`].
///
/// In increasing severity: pool exhaustion (surfaced only after a retry on a
/// freshly created pool also failed), resource exhaustion (never retried),
/// and configuration errors (reported before any state-mutating call).
#[derive(Clone, Copy, Debug, PartialEq, Eq, Structural)]
pub enum AllocateError {
    /// Host or device memory exhausted; propagated as-is, never retried.
    OutOfMemory(OutOfMemory),
    /// A freshly created pool still could not serve the request.
    OutOfPoolMemory,
    /// A freshly created pool was still too fragmented to serve the request.
    FragmentedPool,
    /// Creating a new pool failed due to fragmentation.
    Fragmentation,
    /// The request asks, with a non-zero count, for a descriptor kind the
    /// device cannot represent.
    UnsupportedKind,
    /// The per-kind totals of the request (layout counts times set count)
    /// overflow the native counter width.
    CountOverflow,
}

/// Creation flags of a descriptor pool. Flags are fixed per pool at creation
/// time and apply uniformly to every set drawn from that pool; the allocator
/// never mixes sets requiring different flag combinations in one pool.
#[derive(Clone, Copy, Debug, PartialEq, Eq, Structural)]
pub struct DescriptorPoolCreateFlags {
    /// Sets may be freed individually rather than only by resetting or
    /// destroying the whole pool.
    pub free_descriptor_set: bool,
    /// Sets drawn from the pool may be updated after being bound. Affects
    /// how a binding configures the pool, not the allocator's bookkeeping.
    pub update_after_bind: bool,
}

/// Marker for types that can stand as a pool handle for sets of type `S`.
pub trait DescriptorPool<S> {

}

/// Abstract device that can create pools of type `P` and allocate sets of
/// type `S` with layouts of type `L`.
///
/// This is the only boundary the allocator consumes. The contract models the
/// device by two pieces of abstract state: the set of pool handles it has
/// handed out and not yet destroyed, and a map from each live descriptor-set
/// handle to the pool it was drawn from. Every call may fail with a bounded
/// error and must say nothing less than: success hands out fresh, distinct
/// handles, and failure leaves the abstract state unchanged.
pub trait Device<L, P, S>: Sized {
    /// Pool handles created and not yet destroyed.
    spec fn live_pools(&self) -> Set<P>;

    /// Live descriptor-set handles, each mapped to the pool it came from.
    spec fn live_sets(&self) -> Map<S, P>;

    /// The device can represent inline-uniform-block descriptors.
    spec fn inline_uniform_block_supported(&self) -> bool;

    /// The device can represent acceleration-structure descriptors.
    spec fn acceleration_structure_supported(&self) -> bool;

    /// Whether every kind requested with a non-zero count in `counts` is
    /// representable on this device.
    fn supports_counts(&self, counts: &DescriptorTotalCount) -> (r: bool)
        ensures
            r == ((!counts.needs_inline_uniform_block() || self.inline_uniform_block_supported())
                && (!counts.needs_acceleration_structure()
                || self.acceleration_structure_supported())),
    ;

    /// Create a pool with the given per-kind capacities, set capacity and
    /// flags. A kind the device cannot represent must not be requested: such
    /// a request is a configuration error the caller reports without calling
    /// the device.
    fn create_descriptor_pool(
        &mut self,
        counts: &DescriptorTotalCount,
        max_sets: u32,
        flags: DescriptorPoolCreateFlags,
    ) -> (r: Result<P, CreatePoolError>)
        requires
            !counts.needs_inline_uniform_block() || old(self).inline_uniform_block_supported(),
            !counts.needs_acceleration_structure() || old(self).acceleration_structure_supported(),
        ensures
            final(self).inline_uniform_block_supported() == old(self).inline_uniform_block_supported(),
            final(self).acceleration_structure_supported() == old(self).acceleration_structure_supported(),
            final(self).live_sets() == old(self).live_sets(),
            match r {
                Ok(pool) => {
                    &&& !old(self).live_pools().contains(pool)
                    &&& final(self).live_pools() == old(self).live_pools().insert(pool)
                },
                Err(_) => final(self).live_pools() == old(self).live_pools(),
            },
    ;

    /// Destroy a pool. Called at most once per handle; every set still live
    /// from that pool dies with it.
    fn destroy_descriptor_pool(&mut self, pool: P)
        requires
            old(self).live_pools().contains(pool),
        ensures
            final(self).inline_uniform_block_supported() == old(self).inline_uniform_block_supported(),
            final(self).acceleration_structure_supported() == old(self).acceleration_structure_supported(),
            final(self).live_pools() == old(self).live_pools().remove(pool),
            forall|s: S|
                #![trigger old(self).live_sets().dom().contains(s)]
                #![trigger final(self).live_sets().dom().contains(s)]
                final(self).live_sets().dom().contains(s) <==> (old(self).live_sets().dom().contains(s) && old(self).live_sets()[s] != pool),
            forall|s: S|
                #![trigger final(self).live_sets()[s]]
                #![trigger old(self).live_sets()[s]]
                final(self).live_sets().dom().contains(s) ==> final(self).live_sets()[s] == old(self).live_sets()[s],
    ;

    /// Allocate `count` descriptor sets with layout `layout` from `pool`.
    /// On success exactly `count` pairwise-distinct fresh handles are
    /// returned, all owned by `pool`; on failure nothing changes.
    fn alloc_descriptor_sets(&mut self, pool: &P, layout: &L, count: usize) -> (r: Result<
        Vec<S>,
        AllocationError,
    >)
        requires
            old(self).live_pools().contains(*pool),
        ensures
            final(self).inline_uniform_block_supported() == old(self).inline_uniform_block_supported(),
            final(self).acceleration_structure_supported() == old(self).acceleration_structure_supported(),
            final(self).live_pools() == old(self).live_pools(),
            match r {
                Ok(sets) => {
                    &&& sets@.len() == count
                    &&& forall|i: int, j: int|
                        0 <= i < j < sets@.len() ==> sets@[i] != sets@[j]
                    &&& forall|i: int|
                        0 <= i < sets@.len() ==> !old(self).live_sets().dom().contains(
                            #[trigger] sets@[i],
                        )
                    &&& forall|i: int|
                        0 <= i < sets@.len() ==> final(self).live_sets().dom().contains(
                            #[trigger] sets@[i],
                        ) && final(self).live_sets()[sets@[i]] == *pool
                    &&& forall|s: S|
                        #![trigger old(self).live_sets().dom().contains(s)]
                        #![trigger final(self).live_sets().dom().contains(s)]
                        old(self).live_sets().dom().contains(s) ==> final(self).live_sets().dom().contains(s) && final(self).live_sets()[s] == old(self).live_sets()[s]
                    &&& forall|s: S|
                        #![trigger old(self).live_sets().dom().contains(s)]
                        #![trigger final(self).live_sets().dom().contains(s)]
                        final(self).live_sets().dom().contains(s) ==> old(self).live_sets().dom().contains(s) || sets@.contains(s)
                },
                Err(_) => final(self).live_sets() == old(self).live_sets(),
            },
    ;

    /// Free descriptor sets. Only sets genuinely live from `pool` may be
    /// handed back; anything else would be a contract violation the
    /// allocator is responsible for never triggering.
    fn dealloc_descriptor_sets(&mut self, pool: &P, sets: &Vec<S>)
        requires
            old(self).live_pools().contains(*pool),
            forall|i: int|
                0 <= i < sets@.len() ==> old(self).live_sets().dom().contains(#[trigger] sets@[i])
                    && old(self).live_sets()[sets@[i]] == *pool,
            forall|i: int, j: int| 0 <= i < j < sets@.len() ==> sets@[i] != sets@[j],
        ensures
            final(self).inline_uniform_block_supported() == old(self).inline_uniform_block_supported(),
            final(self).acceleration_structure_supported() == old(self).acceleration_structure_supported(),
            final(self).live_pools() == old(self).live_pools(),
            forall|s: S|
                #![trigger old(self).live_sets().dom().contains(s)]
                #![trigger final(self).live_sets().dom().contains(s)]
                final(self).live_sets().dom().contains(s) <==> (old(self).live_sets().dom().contains(s) && !sets@.contains(s)),
            forall|s: S|
                #![trigger final(self).live_sets()[s]]
                #![trigger old(self).live_sets()[s]]
                final(self).live_sets().dom().contains(s) ==> final(self).live_sets()[s] == old(self).live_sets()[s],
    ;
}

} // verus!
