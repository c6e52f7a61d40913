//! An in-memory implementation of the device capability contract.
//!
//! It performs no real GPU work: handles are drawn from one counter, and the
//! live pools and sets are ghost bookkeeping. It shows the contract of
//! [`crate::device::Device`] is satisfiable and lets the allocator run, and
//! be tested, without a GPU.

use vstd::prelude::*;

use crate::count::DescriptorTotalCount;
use crate::device::AllocationError;
use crate::device::CreatePoolError;
use crate::device::DescriptorPool;
use crate::device::DescriptorPoolCreateFlags;
use crate::device::Device;

verus! {

/// On the simulated device a plain `u64` stands as a pool handle.
impl DescriptorPool<u64> for u64 {

}

/// A simulated device. Pool handles, set handles and layout handles are all
/// plain `u64` values; handles are never reused.
pub struct SimDevice {
    next_handle: u64,
    inline_uniform_block: bool,
    acceleration_structure: bool,
    pools: Ghost<Set<u64>>,
    sets: Ghost<Map<u64, u64>>,
}

impl SimDevice {
    #[verifier::type_invariant]
    spec fn inv(self) -> bool {
        &&& forall|p: u64| self.pools@.contains(p) ==> p < self.next_handle
        &&& forall|s: u64| self.sets@.dom().contains(s) ==> s < self.next_handle
    }

    /// A fresh device with nothing live, declaring which optional
    /// descriptor kinds it can represent.
    pub fn new(inline_uniform_block: bool, acceleration_structure: bool) -> (r: SimDevice)
        ensures
            r.live_pools() == Set::<u64>::empty(),
            r.live_sets() == Map::<u64, u64>::empty(),
            r.inline_uniform_block_supported() == inline_uniform_block,
            r.acceleration_structure_supported() == acceleration_structure,
    {
        SimDevice {
            next_handle: 0,
            inline_uniform_block,
            acceleration_structure,
            pools: Ghost(Set::empty()),
            sets: Ghost(Map::empty()),
        }
    }
}

impl Device<u64, u64, u64> for SimDevice {
    closed spec fn live_pools(&self) -> Set<u64> {
        self.pools@
    }

    closed spec fn live_sets(&self) -> Map<u64, u64> {
        self.sets@
    }

    closed spec fn inline_uniform_block_supported(&self) -> bool {
        self.inline_uniform_block
    }

    closed spec fn acceleration_structure_supported(&self) -> bool {
        self.acceleration_structure
    }

    fn supports_counts(&self, counts: &DescriptorTotalCount) -> (r: bool) {
        let needs_inline = counts.inline_uniform_block_bytes != 0
            || counts.inline_uniform_block_bindings != 0;
        let needs_accel = counts.acceleration_structure != 0;
        (!needs_inline || self.inline_uniform_block) && (!needs_accel
            || self.acceleration_structure)
    }

    fn create_descriptor_pool(
        &mut self,
        counts: &DescriptorTotalCount,
        max_sets: u32,
        flags: DescriptorPoolCreateFlags,
    ) -> (r: Result<u64, CreatePoolError>) {
        proof {
            use_type_invariant(&*self);
        }
        if self.next_handle == u64::MAX {
            return Err(CreatePoolError::OutOfHostMemory);
        }
        let handle = self.next_handle;
        self.next_handle = self.next_handle + 1;
        self.pools = Ghost(self.pools@.insert(handle));
        Ok(handle)
    }

    fn destroy_descriptor_pool(&mut self, pool: u64) {
        proof {
            use_type_invariant(&*self);
        }
        let ghost old_sets = self.sets@;
        self.pools = Ghost(self.pools@.remove(pool));
        self.sets = Ghost(
            Map::new(|s: u64| old_sets.dom().contains(s) && old_sets[s] != pool, |s| old_sets[s]),
        );
    }

    fn alloc_descriptor_sets(&mut self, pool: &u64, layout: &u64, count: usize) -> (r: Result<
        Vec<u64>,
        AllocationError,
    >) {
        proof {
            use_type_invariant(&*self);
        }
        let count64 = count as u64;
        if count64 > u64::MAX - self.next_handle {
            return Err(AllocationError::OutOfHostMemory);
        }
        let first = self.next_handle;
        let ghost old_sets = self.sets@;
        let mut out: Vec<u64> = Vec::new();
        let mut i: usize = 0;
        while i < count
            invariant
                i <= count,
                count64 == count as u64,
                first + count64 <= u64::MAX,
                out@.len() == i,
                forall|j: int| 0 <= j < i ==> out@[j] == first + j,
            decreases count - i,
        {
            out.push(first + (i as u64));
            i = i + 1;
        }
        self.next_handle = first + count64;
        self.sets = Ghost(
            Map::new(
                |s: u64| old_sets.dom().contains(s) || (first <= s < first + count64),
                |s: u64|
                    if first <= s < first + count64 {
                        *pool
                    } else {
                        old_sets[s]
                    },
            ),
        );
        proof {
            assert forall|i: int, j: int| 0 <= i < j < out@.len() implies out@[i] != out@[j] by {}
            assert forall|i: int| 0 <= i < out@.len() implies !old_sets.dom().contains(
                out@[i],
            ) by {}
            assert forall|s: u64|
                self.sets@.dom().contains(s) && !old_sets.dom().contains(s) implies out@.contains(
                s,
            ) by {
                let j = (s - first) as int;
                assert(out@[j] == s);
            }
        }
        Ok(out)
    }

    fn dealloc_descriptor_sets(&mut self, pool: &u64, sets: &Vec<u64>) {
        proof {
            use_type_invariant(&*self);
        }
        let ghost old_sets = self.sets@;
        self.sets = Ghost(
            Map::new(
                |s: u64| old_sets.dom().contains(s) && !sets@.contains(s),
                |s| old_sets[s],
            ),
        );
    }
}

} // verus!
