//! The pool registry: selects or creates a pool for each allocation request,
//! tracks which pool each live set was drawn from, and destroys pools that
//! become empty.

use vstd::prelude::*;

use crate::count::DescriptorTotalCount;
use crate::count::KindTotals;
use crate::device::AllocateError;
use crate::device::AllocationError;
use crate::device::CreatePoolError;
use crate::device::DescriptorPoolCreateFlags;
use crate::device::Device;
use crate::device::OutOfMemory;

verus! {

/// What the registry remembers of one live descriptor set: the raw handle
/// and the per-kind counts its layout consumes. Ghost bookkeeping only; the
/// handle itself lives in the [`DescriptorSet`] returned to the caller.
pub ghost struct SetRecord<S> {
    pub raw: S,
    pub size: DescriptorTotalCount,
}

/// A descriptor set handed out by the allocator: the raw device handle,
/// tagged with the identity of the pool it was drawn from and the per-kind
/// counts it consumes, so that freeing it can credit the right pool.
#[derive(Debug)]
pub struct DescriptorSet<S> {
    /// Raw device handle of the set.
    pub raw: S,
    /// Identity of the owning pool inside the registry.
    pub pool_id: u64,
    /// Per-kind descriptor counts this set consumes.
    pub size: DescriptorTotalCount,
}

impl<S> DescriptorSet<S> {
    /// The raw device handle, for binding the set in rendering work. The
    /// caller owns its use; the registry keeps the right to reclaim it once
    /// the set is handed back to [`DescriptorAllocator::free`].
    pub fn raw(&self) -> (r: &S)
        ensures
            *r == self.raw,
    {
        &self.raw
    }
}

/// One allocator-owned pool: the externally created handle paired with the
/// capacities it was created with and what remains of them.
pub struct PoolEntry<P, S> {
    /// Handle of the externally created pool, exclusively owned by the
    /// registry and destroyed exactly once.
    pub handle: P,
    /// Registry-unique identity; never reused.
    pub id: u64,
    /// Flags the pool was created with; every set drawn from the pool
    /// matches them.
    pub flags: DescriptorPoolCreateFlags,
    /// Per-kind capacity, as created.
    pub capacity: DescriptorTotalCount,
    /// Per-kind capacity not consumed by live sets.
    pub remaining: DescriptorTotalCount,
    /// Set capacity, as created.
    pub max_sets: u32,
    /// Set capacity not consumed by live sets.
    pub sets_remaining: u32,
    /// Number of currently live sets drawn from this pool.
    pub allocated_set_count: u32,
    /// One record per live set drawn from this pool.
    pub records: Ghost<Seq<SetRecord<S>>>,
}

/// Sum of the per-kind counts of a sequence of set records.
pub open spec fn record_sum<S>(records: Seq<SetRecord<S>>) -> KindTotals
    decreases records.len(),
{
    if records.len() == 0 {
        KindTotals::zero()
    } else {
        record_sum(records.drop_last()).add(records.last().size.totals())
    }
}

proof fn lemma_record_sum_remove<S>(records: Seq<SetRecord<S>>, i: int)
    requires
        0 <= i < records.len(),
    ensures
        record_sum(records.remove(i)) == record_sum(records).sub(records[i].size.totals()),
    decreases records.len(),
{
    if i == records.len() - 1 {
        assert(records.remove(i) =~= records.drop_last());
    } else {
        assert(records.remove(i).drop_last() =~= records.drop_last().remove(i));
        lemma_record_sum_remove(records.drop_last(), i);
        assert(records.remove(i).last() == records.last());
    }
}

proof fn lemma_record_sum_non_negative<S>(records: Seq<SetRecord<S>>)
    ensures
        record_sum(records).non_negative(),
    decreases records.len(),
{
    if records.len() > 0 {
        lemma_record_sum_non_negative(records.drop_last());
    }
}

proof fn lemma_scale_step(t: KindTotals, n: int)
    ensures
        t.scale(n + 1) == t.scale(n).add(t),
{
    assert forall|c: int| #[trigger] (c * (n + 1)) == c * n + c by {
        vstd::arithmetic::mul::lemma_mul_is_distributive_add(c, n, 1);
    }
    assert(t.sampler * (n + 1) == t.sampler * n + t.sampler);
    assert(t.combined_image_sampler * (n + 1) == t.combined_image_sampler * n
        + t.combined_image_sampler);
    assert(t.sampled_image * (n + 1) == t.sampled_image * n + t.sampled_image);
    assert(t.storage_image * (n + 1) == t.storage_image * n + t.storage_image);
    assert(t.uniform_texel_buffer * (n + 1) == t.uniform_texel_buffer * n
        + t.uniform_texel_buffer);
    assert(t.storage_texel_buffer * (n + 1) == t.storage_texel_buffer * n
        + t.storage_texel_buffer);
    assert(t.uniform_buffer * (n + 1) == t.uniform_buffer * n + t.uniform_buffer);
    assert(t.storage_buffer * (n + 1) == t.storage_buffer * n + t.storage_buffer);
    assert(t.uniform_buffer_dynamic * (n + 1) == t.uniform_buffer_dynamic * n
        + t.uniform_buffer_dynamic);
    assert(t.storage_buffer_dynamic * (n + 1) == t.storage_buffer_dynamic * n
        + t.storage_buffer_dynamic);
    assert(t.input_attachment * (n + 1) == t.input_attachment * n + t.input_attachment);
    assert(t.acceleration_structure * (n + 1) == t.acceleration_structure * n
        + t.acceleration_structure);
    assert(t.inline_uniform_block_bytes * (n + 1) == t.inline_uniform_block_bytes * n
        + t.inline_uniform_block_bytes);
    assert(t.inline_uniform_block_bindings * (n + 1) == t.inline_uniform_block_bindings * n
        + t.inline_uniform_block_bindings);
}

impl<P, S> PoolEntry<P, S> {
    /// Bookkeeping invariant of one pool: what remains never exceeds what
    /// was created, the set counters agree, and capacity splits exactly into
    /// what remains plus what the live sets of this pool consume.
    pub open spec fn wf(self) -> bool {
        &&& self.remaining.all_le(self.capacity)
        &&& self.sets_remaining <= self.max_sets
        &&& self.allocated_set_count == self.max_sets - self.sets_remaining
        &&& self.allocated_set_count > 0
        &&& self.records@.len() == self.allocated_set_count
        &&& self.capacity.totals() == self.remaining.totals().add(record_sum(self.records@))
        &&& forall|i: int, j: int|
            0 <= i < j < self.records@.len() ==> self.records@[i].raw != self.records@[j].raw
    }
}

/// The descriptor-set sub-allocator: a registry of pools.
///
/// Not internally concurrent: it is a sequential state machine, to be used
/// under external mutual exclusion if shared. All device work goes through
/// the [`crate::device::Device`] capability passed into each call; the same
/// device must be passed to every call on one registry.
pub struct DescriptorAllocator<P, S> {
    /// The pools, in creation order.
    pub pools: Vec<PoolEntry<P, S>>,
    /// Next unused pool identity.
    pub next_pool_id: u64,
}

impl<P, S> DescriptorAllocator<P, S> {
    /// Registry invariant: every pool is well formed and pool identities
    /// are strictly increasing in creation order (hence unique).
    pub open spec fn wf(self) -> bool {
        &&& forall|k: int| 0 <= k < self.pools@.len() ==> (#[trigger] self.pools@[k]).wf()
        &&& forall|k: int|
            0 <= k < self.pools@.len() ==> (#[trigger] self.pools@[k]).id < self.next_pool_id
        &&& forall|k: int, l: int|
            0 <= k < l < self.pools@.len() ==> self.pools@[k].id < self.pools@[l].id
    }

    /// How the registry relates to the device state it was used with:
    /// every pool handle is live on the device and pool handles are
    /// pairwise distinct; every recorded set handle is live on the device
    /// and owned there by the pool the registry recorded it under.
    pub open spec fn corresponds(self, dev_pools: Set<P>, dev_sets: Map<S, P>) -> bool {
        &&& forall|k: int|
            0 <= k < self.pools@.len() ==> dev_pools.contains(#[trigger] self.pools@[k].handle)
        &&& forall|k: int, l: int|
            0 <= k < l < self.pools@.len() ==> self.pools@[k].handle != self.pools@[l].handle
        &&& forall|k: int, i: int|
            0 <= k < self.pools@.len() && 0 <= i < self.pools@[k].records@.len() ==> {
                &&& dev_sets.dom().contains(#[trigger] self.pools@[k].records@[i].raw)
                &&& dev_sets[self.pools@[k].records@[i].raw] == self.pools@[k].handle
            }
    }

    /// There is a pool with identity `id`.
    pub open spec fn has_pool(self, id: u64) -> bool {
        exists|k: int| 0 <= k < self.pools@.len() && (#[trigger] self.pools@[k]).id == id
    }

    /// Index of the pool with identity `id`.
    pub open spec fn pool_index_of(self, id: u64) -> int {
        choose|k: int| 0 <= k < self.pools@.len() && (#[trigger] self.pools@[k]).id == id
    }

    /// A raw set handle is recorded under some pool.
    pub open spec fn recorded_raw(self, raw: S) -> bool {
        exists|k: int, i: int|
            0 <= k < self.pools@.len() && 0 <= i < self.pools@[k].records@.len()
                && (#[trigger] self.pools@[k].records@[i]).raw == raw
    }

    /// A descriptor set is live: the pool it names exists and holds a
    /// record with exactly this handle and size.
    pub open spec fn recorded(self, ds: DescriptorSet<S>) -> bool {
        exists|k: int|
            0 <= k < self.pools@.len() && (#[trigger] self.pools@[k]).id == ds.pool_id
                && self.pools@[k].records@.contains(SetRecord { raw: ds.raw, size: ds.size })
    }

    /// An empty registry: no pools, nothing live.
    pub fn new() -> (r: DescriptorAllocator<P, S>)
        ensures
            r.wf(),
            r.pools@.len() == 0,
            forall|ds: DescriptorSet<S>| !r.recorded(ds),
            forall|dp: Set<P>, ds: Map<S, P>| r.corresponds(dp, ds),
    {
        DescriptorAllocator { pools: Vec::new(), next_pool_id: 0 }
    }

    /// Number of pools currently owned by the registry.
    pub fn pool_count(&self) -> (r: usize)
        ensures
            r == self.pools@.len(),
    {
        self.pools.len()
    }

    /// Per-kind capacity the pool at `index` (in creation order) was created
    /// with.
    pub fn pool_capacity(&self, index: usize) -> (r: DescriptorTotalCount)
        requires
            index < self.pools@.len(),
        ensures
            r == self.pools@[index as int].capacity,
    {
        self.pools[index].capacity
    }

    /// Per-kind capacity of the pool at `index` not consumed by live sets.
    pub fn pool_remaining(&self, index: usize) -> (r: DescriptorTotalCount)
        requires
            index < self.pools@.len(),
        ensures
            r == self.pools@[index as int].remaining,
    {
        self.pools[index].remaining
    }

    /// Set capacity the pool at `index` was created with.
    pub fn pool_max_sets(&self, index: usize) -> (r: u32)
        requires
            index < self.pools@.len(),
        ensures
            r == self.pools@[index as int].max_sets,
    {
        self.pools[index].max_sets
    }

    /// Set capacity of the pool at `index` not consumed by live sets.
    pub fn pool_sets_remaining(&self, index: usize) -> (r: u32)
        requires
            index < self.pools@.len(),
        ensures
            r == self.pools@[index as int].sets_remaining,
    {
        self.pools[index].sets_remaining
    }

    /// Number of currently live sets drawn from the pool at `index`.
    pub fn pool_allocated_set_count(&self, index: usize) -> (r: u32)
        requires
            index < self.pools@.len(),
        ensures
            r == self.pools@[index as int].allocated_set_count,
    {
        self.pools[index].allocated_set_count
    }

    /// Flags the pool at `index` was created with.
    pub fn pool_flags(&self, index: usize) -> (r: DescriptorPoolCreateFlags)
        requires
            index < self.pools@.len(),
        ensures
            r == self.pools@[index as int].flags,
    {
        self.pools[index].flags
    }

    /// Scan the pools, newest first, for one that can serve the request.
    fn find_pool(
        &self,
        total: &DescriptorTotalCount,
        count: u32,
        flags: DescriptorPoolCreateFlags,
    ) -> (r: Option<usize>)
        ensures
            match r {
                Some(ks) => 0 <= ks < self.pools@.len() && pool_fits(
                    self.pools@[ks as int],
                    *total,
                    count,
                    flags,
                ),
                None => forall|j: int|
                    0 <= j < self.pools@.len() ==> !pool_fits(
                        #[trigger] self.pools@[j],
                        *total,
                        count,
                        flags,
                    ),
            },
    {
        let mut k = self.pools.len();
        while k > 0
            invariant
                k <= self.pools@.len(),
                forall|j: int|
                    k <= j < self.pools@.len() ==> !pool_fits(
                        #[trigger] self.pools@[j],
                        *total,
                        count,
                        flags,
                    ),
            decreases k,
        {
            k = k - 1;
            let flags_match = self.pools[k].flags.free_descriptor_set == flags.free_descriptor_set
                && self.pools[k].flags.update_after_bind == flags.update_after_bind;
            if flags_match && total.fits_within(&self.pools[k].remaining) && count
                <= self.pools[k].sets_remaining {
                return Some(k);
            }
        }
        None
    }

    /// Allocate `count` descriptor sets of one layout, consuming
    /// `layout_counts` descriptors each, from a pool created with `flags`.
    ///
    /// The first existing pool (newest first) whose flags match and whose
    /// remaining capacity fits the whole request serves it. If none fits, or
    /// the chosen pool fails with a pool-exhaustion error, one new pool is
    /// created, sized to exceed the request, and the allocation is retried
    /// there exactly once; a second failure is surfaced unchanged. On any
    /// error nothing is allocated and no bookkeeping changes.
    pub fn allocate<L, D: Device<L, P, S>>(
        &mut self,
        device: &mut D,
        layout: &L,
        flags: DescriptorPoolCreateFlags,
        layout_counts: &DescriptorTotalCount,
        count: u32,
    ) -> (r: Result<Vec<DescriptorSet<S>>, AllocateError>)
        requires
            old(self).wf(),
            old(self).corresponds(old(device).live_pools(), old(device).live_sets()),
        ensures
            final(self).wf(),
            final(self).corresponds(final(device).live_pools(), final(device).live_sets()),
            final(device).inline_uniform_block_supported() == old(device).inline_uniform_block_supported(),
            final(device).acceleration_structure_supported() == old(device).acceleration_structure_supported(),
            (r matches Err(AllocateError::CountOverflow)) <==> !layout_counts.totals().scale(
                count as int,
            ).in_u32_range(),
            (r matches Err(AllocateError::UnsupportedKind)) <==> (layout_counts.totals().scale(
                count as int,
            ).in_u32_range() && !((!layout_counts.totals().scale(
                count as int,
            ).needs_inline_uniform_block() || old(device).inline_uniform_block_supported()) && (
            !layout_counts.totals().scale(count as int).needs_acceleration_structure() || old(device).acceleration_structure_supported()))),
            (r matches Err(_)) ==> final(self).pools@ == old(self).pools@ && final(self).next_pool_id == old(self).next_pool_id,
            (r matches Err(_)) ==> final(device).live_pools() == old(device).live_pools(),
            (r matches Err(_)) ==> forall|s: S|
                #![trigger final(device).live_sets().dom().contains(s)]
                final(device).live_sets().dom().contains(s) ==> old(device).live_sets().dom().contains(s) && final(device).live_sets()[s] == old(device).live_sets()[s],
            match r {
                Ok(sets) => {
                    &&& sets@.len() == count as int
                    &&& forall|i: int|
                        0 <= i < sets@.len() ==> (#[trigger] sets@[i]).size == *layout_counts
                    &&& forall|i: int|
                        0 <= i < sets@.len() ==> (#[trigger] sets@[i]).pool_id == sets@[0].pool_id
                    &&& forall|i: int, j: int|
                        0 <= i < j < sets@.len() ==> sets@[i].raw != sets@[j].raw
                    &&& forall|i: int|
                        0 <= i < sets@.len() ==> !old(self).recorded_raw((#[trigger] sets@[i]).raw)
                            && !old(device).live_sets().dom().contains(sets@[i].raw)
                    &&& forall|i: int| 0 <= i < sets@.len() ==> final(self).recorded(
                        #[trigger] sets@[i],
                    )
                    &&& forall|ds: DescriptorSet<S>| #[trigger]
                        old(self).recorded(ds) ==> final(self).recorded(ds)
                    &&& old(self).pools@.len() <= final(self).pools@.len() <= old(self).pools@.len() + 1
                    &&& (count == 0 ==> final(self).pools@ == old(self).pools@ && final(self).next_pool_id == old(self).next_pool_id)
                    &&& (count > 0 ==> (exists|ks: int|
                        #![trigger final(self).pools@[ks]]
                        0 <= ks < final(self).pools@.len() && final(self).pools@[ks].id
                            == sets@[0].pool_id && final(self).pools@[ks].flags == flags && (
                        forall|k: int|
                            0 <= k < old(self).pools@.len() && k != ks
                                ==> #[trigger] final(self).pools@[k] == old(self).pools@[k]) && (ks
                            < old(self).pools@.len() ==> served_from_existing(
                            *old(self),
                            *final(self),
                            ks,
                            sets@,
                            *layout_counts,
                            count,
                        )) && (ks >= old(self).pools@.len() ==> served_from_fresh(
                            *old(self),
                            *final(self),
                            ks,
                            sets@,
                            *layout_counts,
                            count,
                        ))))
                },
                Err(_) => true,
            },
    {
        let total = match layout_counts.checked_scale(count) {
            Some(t) => t,
            None => { return Err(AllocateError::CountOverflow) },
        };
        if !device.supports_counts(&total) {
            return Err(AllocateError::UnsupportedKind);
        }
        if count == 0 {
            return Ok(Vec::new());
        }
        match self.find_pool(&total, count, flags) {
            Some(ks) => {
                let sid = self.pools[ks].id;
                match device.alloc_descriptor_sets(&self.pools[ks].handle, layout, count as usize) {
                    Ok(raws) => {
                        let ghost orig_raws = raws@;
                        let ghost new_recs = Seq::new(
                            count as nat,
                            |i: int| SetRecord { raw: orig_raws[i], size: *layout_counts },
                        );
                        let entry = vstd::std_specs::vec::vec_index_mut(&mut self.pools, ks);
                        proof {
                            assert(old(self).pools@[ks as int].wf());
                        }
                        entry.remaining = entry.remaining.sub(&total);
                        entry.sets_remaining = entry.sets_remaining - count;
                        entry.allocated_set_count = entry.allocated_set_count + count;
                        entry.records = Ghost(entry.records@ + new_recs);
                        let sets = build_sets(raws, sid, layout_counts);
                        proof {
                            commit_proof(
                                *old(self),
                                *self,
                                old(device).live_pools(),
                                old(device).live_sets(),
                                device.live_sets(),
                                ks as int,
                                orig_raws,
                                sets@,
                                *layout_counts,
                                total,
                                count,
                                flags,
                            );
                            assert(self.pools@[ks as int].id == sets@[0].pool_id);
                            assert(forall|k: int|
                                0 <= k < old(self).pools@.len() && k != ks as int
                                    ==> #[trigger] self.pools@[k] == old(self).pools@[k]);
                        }
                        return Ok(sets);
                    },
                    Err(AllocationError::OutOfDeviceMemory) => {
                        return Err(AllocateError::OutOfMemory(OutOfMemory::OutOfDeviceMemory));
                    },
                    Err(AllocationError::OutOfHostMemory) => {
                        return Err(AllocateError::OutOfMemory(OutOfMemory::OutOfHostMemory));
                    },
                    Err(_) => {},
                }
            },
            None => {},
        }
        // No existing pool fits, or the chosen pool reported exhaustion:
        // create one fresh pool sized to exceed the request and retry there
        // exactly once.
        if self.next_pool_id == u64::MAX {
            return Err(AllocateError::OutOfMemory(OutOfMemory::OutOfHostMemory));
        }
        let capacity = total.saturating_doubled();
        let max_sets = grow_max_sets(count);
        let handle = match device.create_descriptor_pool(&capacity, max_sets, flags) {
            Ok(h) => h,
            Err(CreatePoolError::OutOfDeviceMemory) => {
                return Err(AllocateError::OutOfMemory(OutOfMemory::OutOfDeviceMemory));
            },
            Err(CreatePoolError::OutOfHostMemory) => {
                return Err(AllocateError::OutOfMemory(OutOfMemory::OutOfHostMemory));
            },
            Err(CreatePoolError::Fragmentation) => {
                return Err(AllocateError::Fragmentation);
            },
        };
        match device.alloc_descriptor_sets(&handle, layout, count as usize) {
            Ok(raws) => {
                let ghost orig_raws = raws@;
                let sid = self.next_pool_id;
                let remaining = capacity.sub(&total);
                let entry = PoolEntry {
                    handle,
                    id: sid,
                    flags,
                    capacity,
                    remaining,
                    max_sets,
                    sets_remaining: max_sets - count,
                    allocated_set_count: count,
                    records: Ghost(
                        Seq::new(
                            count as nat,
                            |i: int| SetRecord { raw: orig_raws[i], size: *layout_counts },
                        ),
                    ),
                };
                self.pools.push(entry);
                self.next_pool_id = self.next_pool_id + 1;
                let sets = build_sets(raws, sid, layout_counts);
                proof {
                    assert(self.pools@.last() == self.pools@[old(self).pools@.len() as int]);
                    commit_fresh_proof(
                        *old(self),
                        *self,
                        old(device).live_pools(),
                        device.live_pools(),
                        old(device).live_sets(),
                        device.live_sets(),
                        self.pools@.last().handle,
                        orig_raws,
                        sets@,
                        *layout_counts,
                        total,
                        count,
                        flags,
                    );
                    assert(self.pools@[old(self).pools@.len() as int].id == sets@[0].pool_id);
                }
                Ok(sets)
            },
            Err(e) => {
                device.destroy_descriptor_pool(handle);
                proof {
                    assert(device.live_pools() =~= old(device).live_pools());
                    assert forall|k: int, i: int|
                        0 <= k < self.pools@.len() && 0 <= i < self.pools@[k].records@.len()
                            implies {
                        &&& device.live_sets().dom().contains(
                            #[trigger] self.pools@[k].records@[i].raw,
                        )
                        &&& device.live_sets()[self.pools@[k].records@[i].raw]
                            == self.pools@[k].handle
                    } by {
                        assert(old(device).live_sets().dom().contains(
                            self.pools@[k].records@[i].raw,
                        ));
                        assert(old(device).live_pools().contains(self.pools@[k].handle));
                    }
                }
                match e {
                    AllocationError::OutOfDeviceMemory => Err(
                        AllocateError::OutOfMemory(OutOfMemory::OutOfDeviceMemory),
                    ),
                    AllocationError::OutOfHostMemory => Err(
                        AllocateError::OutOfMemory(OutOfMemory::OutOfHostMemory),
                    ),
                    AllocationError::OutOfPoolMemory => Err(AllocateError::OutOfPoolMemory),
                    AllocationError::FragmentedPool => Err(AllocateError::FragmentedPool),
                }
            },
        }
    }

    /// Find the pool with identity `id`.
    fn find_by_id(&self, id: u64) -> (r: Option<usize>)
        ensures
            match r {
                Some(k) => 0 <= k < self.pools@.len() && self.pools@[k as int].id == id,
                None => forall|kk: int|
                    0 <= kk < self.pools@.len() ==> (#[trigger] self.pools@[kk]).id != id,
            },
    {
        let mut k: usize = 0;
        while k < self.pools.len()
            invariant
                k <= self.pools@.len(),
                forall|kk: int| 0 <= kk < k ==> (#[trigger] self.pools@[kk]).id != id,
            decreases self.pools@.len() - k,
        {
            if self.pools[k].id == id {
                return Some(k);
            }
            k = k + 1;
        }
        None
    }

    /// Hand previously allocated descriptor sets back. Each set's counts are
    /// credited to the pool it was drawn from, its record is dropped, and a
    /// pool whose last live set is freed is destroyed immediately.
    ///
    /// Only sets this registry allocated and has not yet freed may be handed
    /// back: anything else (a double free, a foreign handle) is a fatal
    /// caller error, ruled out up front rather than reported.
    #[verifier::rlimit(100)]
    pub fn free<L, D: Device<L, P, S>>(&mut self, device: &mut D, sets: Vec<DescriptorSet<S>>)
        requires
            old(self).wf(),
            old(self).corresponds(old(device).live_pools(), old(device).live_sets()),
            forall|i: int| 0 <= i < sets@.len() ==> old(self).recorded(#[trigger] sets@[i]),
            forall|i: int, j: int| 0 <= i < j < sets@.len() ==> sets@[i].raw != sets@[j].raw,
        ensures
            final(self).wf(),
            final(self).corresponds(final(device).live_pools(), final(device).live_sets()),
            final(device).inline_uniform_block_supported() == old(device).inline_uniform_block_supported(),
            final(device).acceleration_structure_supported() == old(device).acceleration_structure_supported(),
            final(self).next_pool_id == old(self).next_pool_id,
            forall|k: int|
                0 <= k < old(self).pools@.len() ==> free_pool_post(
                    #[trigger] old(self).pools@[k],
                    *final(self),
                    sets@,
                ),
            pools_from(*old(self), *final(self)),
            forall|ds: DescriptorSet<S>| #[trigger]
                old(self).recorded(ds) && !raw_in(sets@, ds.raw) ==> final(self).recorded(ds),
            forall|i: int|
                0 <= i < sets@.len() ==> !final(self).recorded_raw((#[trigger] sets@[i]).raw)
                    && !final(device).live_sets().dom().contains(sets@[i].raw),
            forall|p: P| final(device).live_pools().contains(p) ==> old(
                device,
            ).live_pools().contains(p),
            forall|s: S|
                #![trigger final(device).live_sets().dom().contains(s)]
                final(device).live_sets().dom().contains(s) ==> old(
                    device,
                ).live_sets().dom().contains(s) && final(device).live_sets()[s] == old(
                    device,
                ).live_sets()[s],
    {
        let ghost orig_sets = sets@;
        let mut sets = sets;
        let ghost processed: Seq<DescriptorSet<S>> = Seq::empty();
        proof {
            assert(processed + sets@ =~= orig_sets);
            assert forall|k: int| 0 <= k < old(self).pools@.len() implies free_pool_post(
                #[trigger] old(self).pools@[k],
                *self,
                processed,
            ) by {
                lemma_pool_index_unique(*old(self), k);
            }
        }
        while sets.len() > 0
            invariant
                old(self).wf(),
                self.wf(),
                self.corresponds(device.live_pools(), device.live_sets()),
                device.inline_uniform_block_supported() == old(device).inline_uniform_block_supported(),
                device.acceleration_structure_supported() == old(device).acceleration_structure_supported(),
                self.next_pool_id == old(self).next_pool_id,
                processed + sets@ =~= orig_sets,
                forall|i: int| 0 <= i < orig_sets.len() ==> old(self).recorded(
                    #[trigger] orig_sets[i],
                ),
                forall|i: int, j: int|
                    0 <= i < j < orig_sets.len() ==> orig_sets[i].raw != orig_sets[j].raw,
                forall|k: int|
                    0 <= k < old(self).pools@.len() ==> free_pool_post(
                        #[trigger] old(self).pools@[k],
                        *self,
                        processed,
                    ),
                pools_from(*old(self), *self),
                forall|ds2: DescriptorSet<S>| #[trigger]
                    old(self).recorded(ds2) && !raw_in(processed, ds2.raw) ==> self.recorded(
                        ds2,
                    ),
                forall|m: int|
                    0 <= m < processed.len() ==> !self.recorded_raw(
                        (#[trigger] processed[m]).raw,
                    ) && !device.live_sets().dom().contains(processed[m].raw),
                forall|p: P| device.live_pools().contains(p) ==> old(
                    device,
                ).live_pools().contains(p),
                forall|s: S|
                    #![trigger device.live_sets().dom().contains(s)]
                    device.live_sets().dom().contains(s) ==> old(
                        device,
                    ).live_sets().dom().contains(s) && device.live_sets()[s] == old(
                        device,
                    ).live_sets()[s],
            decreases sets@.len(),
        {
            // One consecutive run of sets drawn from the same pool is handed
            // back to the device in a single batched call.
            let ghost prefix = processed;
            let ghost prev_dp = device.live_pools();
            let ghost prev_ds = device.live_sets();
            let pid = sets[0].pool_id;
            let kopt = self.find_by_id(pid);
            proof {
                assert(sets@[0] == orig_sets[prefix.len() as int]);
                assert(old(self).recorded(sets@[0]));
                if raw_in(prefix, sets@[0].raw) {
                    let m = choose|m: int|
                        0 <= m < prefix.len() && (#[trigger] prefix[m]).raw == sets@[0].raw;
                    assert(prefix[m] == orig_sets[m]);
                    assert(orig_sets[m].raw != orig_sets[prefix.len() as int].raw);
                    assert(false);
                }
                assert(self.recorded(sets@[0]));
                if kopt is None {
                    let kk = choose|kk: int|
                        0 <= kk < self.pools@.len() && (#[trigger] self.pools@[kk]).id == pid
                            && self.pools@[kk].records@.contains(
                            SetRecord { raw: sets@[0].raw, size: sets@[0].size },
                        );
                    assert(false);
                }
            }
            let k = kopt.unwrap();
            let ghost handle_g = self.pools@[k as int].handle;
            let mut raws: Vec<S> = Vec::new();
            while sets.len() > 0 && sets[0].pool_id == pid && self.pools[k].allocated_set_count
                > 1
                invariant
                    old(self).wf(),
                    self.wf(),
                    k < self.pools@.len(),
                    self.pools@[k as int].id == pid,
                    self.pools@[k as int].handle == handle_g,
                    self.corresponds(prev_dp, prev_ds),
                    device.live_pools() == prev_dp,
                    device.live_sets() == prev_ds,
                    self.next_pool_id == old(self).next_pool_id,
                    processed + sets@ =~= orig_sets,
                    prefix.len() <= processed.len(),
                    forall|m: int| 0 <= m < prefix.len() ==> processed[m] == prefix[m],
                    raws@.len() == processed.len() - prefix.len(),
                    forall|m: int|
                        prefix.len() <= m < processed.len() ==> (#[trigger] processed[m]).pool_id
                            == pid && processed[m].raw == raws@[m - prefix.len()]
                            && prev_ds.dom().contains(processed[m].raw) && prev_ds[processed[
                        m].raw] == handle_g,
                    forall|i: int| 0 <= i < orig_sets.len() ==> old(self).recorded(
                        #[trigger] orig_sets[i],
                    ),
                    forall|i: int, j: int|
                        0 <= i < j < orig_sets.len() ==> orig_sets[i].raw != orig_sets[j].raw,
                    forall|kk: int|
                        0 <= kk < old(self).pools@.len() ==> free_pool_post(
                            #[trigger] old(self).pools@[kk],
                            *self,
                            processed,
                        ),
                    pools_from(*old(self), *self),
                    forall|ds2: DescriptorSet<S>| #[trigger]
                        old(self).recorded(ds2) && !raw_in(processed, ds2.raw) ==> self.recorded(
                            ds2,
                        ),
                    forall|m: int|
                        0 <= m < processed.len() ==> !self.recorded_raw(
                            (#[trigger] processed[m]).raw,
                        ),
                    forall|m: int|
                        0 <= m < prefix.len() ==> !prev_ds.dom().contains(
                            (#[trigger] prefix[m]).raw,
                        ),
                decreases sets@.len(),
            {
                let ghost mid = *self;
                let ds0 = sets.remove(0);
                let ghost ds_g = ds0;
                proof {
                    assert(processed.push(ds_g) + sets@ =~= orig_sets);
                    assert(ds_g == orig_sets[processed.len() as int]);
                    assert(old(self).recorded(ds_g));
                    if raw_in(processed, ds_g.raw) {
                        let m = choose|m: int|
                            0 <= m < processed.len() && (#[trigger] processed[m]).raw == ds_g.raw;
                        assert(processed[m] == orig_sets[m]);
                        assert(orig_sets[m].raw != orig_sets[processed.len() as int].raw);
                        assert(false);
                    }
                    assert(mid.recorded(ds_g));
                }
                let ghost rec = SetRecord { raw: ds_g.raw, size: ds_g.size };
                let ghost j = choose|j: int|
                    0 <= j < mid.pools@[k as int].records@.len() && mid.pools@[k as
                        int].records@[j] == rec;
                proof {
                    let kk = choose|kk: int|
                        0 <= kk < mid.pools@.len() && (#[trigger] mid.pools@[kk]).id
                            == ds_g.pool_id && mid.pools@[kk].records@.contains(rec);
                    lemma_pool_index_unique(mid, kk);
                    lemma_pool_index_unique(mid, k as int);
                    assert(kk == k as int);
                    assert(mid.pools@[k as int].records@.contains(rec));
                    assert(0 <= j < mid.pools@[k as int].records@.len() && mid.pools@[k as
                        int].records@[j] == rec);
                    assert(mid.pools@[k as int].wf());
                    lemma_record_sum_remove(mid.pools@[k as int].records@, j);
                    lemma_record_sum_non_negative(mid.pools@[k as int].records@.remove(j));
                    assert(mid.pools@[k as int].remaining.totals().add(ds_g.size.totals()).le(
                        mid.pools@[k as int].capacity.totals(),
                    ));
                    assert(prev_ds.dom().contains(ds_g.raw) && prev_ds[ds_g.raw] == handle_g);
                }
                let entry = vstd::std_specs::vec::vec_index_mut(&mut self.pools, k);
                entry.remaining = entry.remaining.add(&ds0.size);
                entry.sets_remaining = entry.sets_remaining + 1;
                entry.allocated_set_count = entry.allocated_set_count - 1;
                entry.records = Ghost(entry.records@.remove(j));
                raws.push(ds0.raw);
                proof {
                    lemma_records_avoid_raw(mid, prev_dp, prev_ds, k as int, ds_g.raw);
                    free_step_proof(
                        *old(self),
                        mid,
                        *self,
                        processed,
                        ds_g,
                        k as int,
                        j,
                        false,
                    );
                    // The registry still matches the untouched device state.
                    assert forall|kk: int, ii: int|
                        0 <= kk < self.pools@.len() && 0 <= ii
                            < self.pools@[kk].records@.len() implies {
                        &&& prev_ds.dom().contains(#[trigger] self.pools@[kk].records@[ii].raw)
                        &&& prev_ds[self.pools@[kk].records@[ii].raw] == self.pools@[kk].handle
                    } by {
                        if kk != k as int {
                            assert(self.pools@[kk] == mid.pools@[kk]);
                        } else {
                            let r2 = if ii < j {
                                ii
                            } else {
                                ii + 1
                            };
                            assert(self.pools@[kk].records@[ii] == mid.pools@[k as
                                int].records@[r2]);
                        }
                    }
                    assert forall|kk: int| 0 <= kk < self.pools@.len() implies prev_dp.contains(
                        (#[trigger] self.pools@[kk]).handle,
                    ) by {
                        assert(self.pools@[kk].handle == mid.pools@[kk].handle);
                    }
                    assert forall|kk: int, ll: int|
                        0 <= kk < ll < self.pools@.len() implies self.pools@[kk].handle
                        != self.pools@[ll].handle by {
                        assert(self.pools@[kk].handle == mid.pools@[kk].handle);
                        assert(self.pools@[ll].handle == mid.pools@[ll].handle);
                    }
                    assert(self.corresponds(prev_dp, prev_ds));
                    processed = processed.push(ds_g);
                }
            }
            if sets.len() > 0 && sets[0].pool_id == pid {
                // The run ends with the pool's last live set: free it and
                // destroy the pool, which releases every device set the pool
                // still owns, the just-gathered run included.
                let ghost mid = *self;
                let ds0 = sets.remove(0);
                let ghost ds_g = ds0;
                proof {
                    assert(processed.push(ds_g) + sets@ =~= orig_sets);
                    assert(ds_g == orig_sets[processed.len() as int]);
                    assert(old(self).recorded(ds_g));
                    if raw_in(processed, ds_g.raw) {
                        let m = choose|m: int|
                            0 <= m < processed.len() && (#[trigger] processed[m]).raw == ds_g.raw;
                        assert(processed[m] == orig_sets[m]);
                        assert(orig_sets[m].raw != orig_sets[processed.len() as int].raw);
                        assert(false);
                    }
                    assert(mid.recorded(ds_g));
                    assert(mid.pools@[k as int].allocated_set_count == 1);
                }
                let ghost rec = SetRecord { raw: ds_g.raw, size: ds_g.size };
                let ghost j = choose|j: int|
                    0 <= j < mid.pools@[k as int].records@.len() && mid.pools@[k as
                        int].records@[j] == rec;
                proof {
                    let kk = choose|kk: int|
                        0 <= kk < mid.pools@.len() && (#[trigger] mid.pools@[kk]).id
                            == ds_g.pool_id && mid.pools@[kk].records@.contains(rec);
                    lemma_pool_index_unique(mid, kk);
                    lemma_pool_index_unique(mid, k as int);
                    assert(kk == k as int);
                    assert(mid.pools@[k as int].records@.contains(rec));
                    assert(0 <= j < mid.pools@[k as int].records@.len() && mid.pools@[k as
                        int].records@[j] == rec);
                    assert(mid.pools@[k as int].wf());
                    lemma_record_sum_remove(mid.pools@[k as int].records@, j);
                    lemma_record_sum_non_negative(mid.pools@[k as int].records@.remove(j));
                    assert(mid.pools@[k as int].remaining.totals().add(ds_g.size.totals()).le(
                        mid.pools@[k as int].capacity.totals(),
                    ));
                    assert(prev_ds.dom().contains(ds_g.raw) && prev_ds[ds_g.raw] == handle_g);
                    assert(prev_dp.contains(handle_g));
                }
                let entry = vstd::std_specs::vec::vec_index_mut(&mut self.pools, k);
                entry.remaining = entry.remaining.add(&ds0.size);
                entry.sets_remaining = entry.sets_remaining + 1;
                entry.allocated_set_count = entry.allocated_set_count - 1;
                entry.records = Ghost(entry.records@.remove(j));
                let removed = self.pools.remove(k);
                device.destroy_descriptor_pool(removed.handle);
                proof {
                    lemma_records_avoid_raw(mid, prev_dp, prev_ds, k as int, ds_g.raw);
                    assert(self.pools@ =~= mid.pools@.remove(k as int));
                    free_step_proof(
                        *old(self),
                        mid,
                        *self,
                        processed,
                        ds_g,
                        k as int,
                        j,
                        true,
                    );
                    processed = processed.push(ds_g);
                    free_destroy_device_proof(
                        mid,
                        *self,
                        prev_dp,
                        prev_ds,
                        device.live_pools(),
                        device.live_sets(),
                        k as int,
                        handle_g,
                    );
                    // Everything processed so far is gone from the device:
                    // this run died with its pool, the rest was gone already.
                    assert forall|m: int|
                        0 <= m < processed.len() implies !device.live_sets().dom().contains(
                        (#[trigger] processed[m]).raw,
                    ) by {
                        if m < prefix.len() {
                            assert(processed[m] == prefix[m]);
                            assert(!prev_ds.dom().contains(prefix[m].raw));
                        } else if m < processed.len() - 1 {
                            assert(prev_ds[processed[m].raw] == handle_g);
                        } else {
                            assert(processed[m] == ds_g);
                            assert(prev_ds[ds_g.raw] == handle_g);
                        }
                    }
                }
            } else {
                proof {
                    // The gathered raw handles are pairwise distinct and all
                    // live on the device, owned by this pool.
                    assert forall|i: int, j2: int|
                        0 <= i < j2 < raws@.len() implies raws@[i] != raws@[j2] by {
                        assert(raws@[i] == processed[prefix.len() + i].raw);
                        assert(raws@[j2] == processed[prefix.len() + j2].raw);
                        assert(processed[prefix.len() + i] == orig_sets[prefix.len() + i]);
                        assert(processed[prefix.len() + j2] == orig_sets[prefix.len() + j2]);
                    }
                    assert forall|i: int| 0 <= i < raws@.len() implies device.live_sets().dom().contains(
                        #[trigger] raws@[i],
                    ) && device.live_sets()[raws@[i]] == self.pools@[k as int].handle by {
                        assert(raws@[i] == processed[prefix.len() + i].raw);
                    }
                    assert(device.live_pools().contains(self.pools@[k as int].handle));
                }
                device.dealloc_descriptor_sets(&self.pools[k].handle, &raws);
                proof {
                    // No surviving record carries a freed handle, so the
                    // registry still matches the device.
                    assert forall|m: int| 0 <= m < raws@.len() implies !self.recorded_raw(
                        #[trigger] raws@[m],
                    ) by {
                        assert(raws@[m] == processed[prefix.len() + m].raw);
                        assert(!self.recorded_raw(processed[prefix.len() + m].raw));
                    }
                    free_dealloc_device_proof(
                        *self,
                        device.live_pools(),
                        prev_ds,
                        device.live_sets(),
                        raws@,
                    );
                    // Every handle processed so far is gone from the device.
                    assert forall|m: int|
                        0 <= m < processed.len() implies !device.live_sets().dom().contains(
                        (#[trigger] processed[m]).raw,
                    ) by {
                        if m < prefix.len() {
                            assert(processed[m] == prefix[m]);
                            assert(!prev_ds.dom().contains(prefix[m].raw));
                        } else {
                            assert(raws@[m - prefix.len()] == processed[m].raw);
                            assert(raws@.contains(processed[m].raw));
                        }
                    }
                }
            }
        }
        proof {
            assert(processed =~= orig_sets);
        }
    }

    /// Full teardown: destroy every pool, live allocations included. Only
    /// sound when the caller guarantees no descriptor set from any pool is
    /// still referenced by outstanding work; this deliberately bypasses the
    /// ordinary rule that a pool is destroyed only once empty. Calling it
    /// again on an already torn-down registry does nothing.
    pub fn teardown<L, D: Device<L, P, S>>(&mut self, device: &mut D)
        requires
            old(self).wf(),
            old(self).corresponds(old(device).live_pools(), old(device).live_sets()),
        ensures
            final(self).wf(),
            final(self).pools@.len() == 0,
            final(self).next_pool_id == old(self).next_pool_id,
            final(self).corresponds(final(device).live_pools(), final(device).live_sets()),
            final(device).inline_uniform_block_supported() == old(device).inline_uniform_block_supported(),
            final(device).acceleration_structure_supported() == old(device).acceleration_structure_supported(),
            forall|p: P|
                final(device).live_pools().contains(p) <==> (old(device).live_pools().contains(p)
                    && !handle_among(old(self).pools@, 0, old(self).pools@.len() as int, p)),
            forall|s: S|
                final(device).live_sets().dom().contains(s) <==> (old(device).live_sets().dom().contains(s) && !handle_among(
                    old(self).pools@,
                    0,
                    old(self).pools@.len() as int,
                    old(device).live_sets()[s],
                )),
            forall|s: S|
                final(device).live_sets().dom().contains(s) ==> final(device).live_sets()[s]
                    == old(device).live_sets()[s],
            old(self).pools@.len() == 0 ==> final(self).pools@ == old(self).pools@ && final(device).live_pools() == old(device).live_pools() && final(device).live_sets() == old(device).live_sets(),
    {
        let ghost orig_pools = self.pools@;
        let ghost orig_dp = device.live_pools();
        let ghost orig_ds = device.live_sets();
        if self.pools.len() == 0 {
            return ;
        }
        while self.pools.len() > 0
            invariant
                self.wf(),
                self.corresponds(device.live_pools(), device.live_sets()),
                device.inline_uniform_block_supported() == old(device).inline_uniform_block_supported(),
                device.acceleration_structure_supported() == old(device).acceleration_structure_supported(),
                self.pools@.len() <= orig_pools.len(),
                self.pools@ =~= orig_pools.subrange(0, self.pools@.len() as int),
                self.next_pool_id == old(self).next_pool_id,
                forall|p: P|
                    device.live_pools().contains(p) <==> (orig_dp.contains(p) && !handle_among(
                        orig_pools,
                        self.pools@.len() as int,
                        orig_pools.len() as int,
                        p,
                    )),
                forall|s: S|
                    device.live_sets().dom().contains(s) <==> (orig_ds.dom().contains(s)
                        && !handle_among(
                        orig_pools,
                        self.pools@.len() as int,
                        orig_pools.len() as int,
                        orig_ds[s],
                    )),
                forall|s: S|
                    device.live_sets().dom().contains(s) ==> device.live_sets()[s] == orig_ds[s],
            decreases self.pools@.len(),
        {
            let ghost prev_pools = self.pools@;
            let ghost prev_dp = device.live_pools();
            let ghost prev_ds = device.live_sets();
            let idx = self.pools.len() - 1;
            let entry = self.pools.remove(idx);
            proof {
                assert(self.pools@ =~= prev_pools.drop_last());
                assert(self.pools@ =~= orig_pools.subrange(0, self.pools@.len() as int));
                assert(entry == orig_pools[self.pools@.len() as int]);
            }
            device.destroy_descriptor_pool(entry.handle);
            proof {
                let lo = self.pools@.len() as int;
                let hi = orig_pools.len() as int;
                assert forall|p: P|
                    device.live_pools().contains(p) <==> (orig_dp.contains(p) && !handle_among(
                        orig_pools,
                        lo,
                        hi,
                        p,
                    )) by {
                    assert(prev_dp.contains(p) <==> (orig_dp.contains(p) && !handle_among(
                        orig_pools,
                        prev_pools.len() as int,
                        hi,
                        p,
                    )));
                    assert(prev_pools.len() as int == lo + 1);
                    if device.live_pools().contains(p) {
                        assert(p != entry.handle);
                        assert(prev_dp.contains(p));
                        assert(!handle_among(orig_pools, lo + 1, hi, p));
                        assert(orig_pools[lo].handle == entry.handle);
                        assert(!handle_among(orig_pools, lo, hi, p));
                    }
                    if orig_dp.contains(p) && !handle_among(orig_pools, lo, hi, p) {
                        assert forall|k: int|
                            lo + 1 <= k < hi implies (#[trigger] orig_pools[k]).handle != p by {
                            assert(!handle_among(orig_pools, lo, hi, p));
                        }
                        assert(!handle_among(orig_pools, lo + 1, hi, p));
                        assert(prev_dp.contains(p));
                        assert(p != orig_pools[lo].handle);
                    }
                }
                assert forall|s: S|
                    device.live_sets().dom().contains(s) <==> (orig_ds.dom().contains(s)
                        && !handle_among(orig_pools, lo, hi, orig_ds[s])) by {
                    assert(prev_ds.dom().contains(s) <==> (orig_ds.dom().contains(s)
                        && !handle_among(
                        orig_pools,
                        prev_pools.len() as int,
                        hi,
                        orig_ds[s],
                    )));
                    assert(prev_pools.len() as int == lo + 1);
                    if device.live_sets().dom().contains(s) {
                        assert(prev_ds.dom().contains(s));
                        assert(prev_ds[s] != entry.handle);
                        assert(orig_ds[s] == prev_ds[s]);
                        assert(!handle_among(orig_pools, lo + 1, hi, orig_ds[s]));
                        assert(!handle_among(orig_pools, lo, hi, orig_ds[s]));
                    }
                    if orig_ds.dom().contains(s) && !handle_among(orig_pools, lo, hi, orig_ds[s]) {
                        assert forall|k: int|
                            lo + 1 <= k < hi implies (#[trigger] orig_pools[k]).handle
                                != orig_ds[s] by {
                            assert(!handle_among(orig_pools, lo, hi, orig_ds[s]));
                        }
                        assert(!handle_among(orig_pools, lo + 1, hi, orig_ds[s]));
                        assert(prev_ds.dom().contains(s));
                        assert(prev_ds[s] == orig_ds[s]);
                        assert(orig_ds[s] != orig_pools[lo].handle);
                    }
                }
                assert forall|k: int, i: int|
                    0 <= k < self.pools@.len() && 0 <= i < self.pools@[k].records@.len() implies {
                    &&& device.live_sets().dom().contains(
                        #[trigger] self.pools@[k].records@[i].raw,
                    )
                    &&& device.live_sets()[self.pools@[k].records@[i].raw]
                        == self.pools@[k].handle
                } by {
                    assert(prev_pools[k] == self.pools@[k]);
                    assert(prev_ds.dom().contains(self.pools@[k].records@[i].raw));
                    assert(prev_ds[self.pools@[k].records@[i].raw] == self.pools@[k].handle);
                    assert(self.pools@[k].handle != entry.handle);
                }
            }
        }
    }
}

/// Some pool in `pools[lo..hi]` has handle `p`.
pub open spec fn handle_among<P, S>(pools: Seq<PoolEntry<P, S>>, lo: int, hi: int, p: P) -> bool {
    exists|k: int| lo <= k < hi && (#[trigger] pools[k]).handle == p
}

/// Whether `pool` can serve a request for `count` sets consuming `total`
/// descriptors altogether, created with `flags`.
pub open spec fn pool_fits<P, S>(
    pool: PoolEntry<P, S>,
    total: DescriptorTotalCount,
    count: u32,
    flags: DescriptorPoolCreateFlags,
) -> bool {
    &&& pool.flags == flags
    &&& total.all_le(pool.remaining)
    &&& count <= pool.sets_remaining
}

/// The records the registry adds for freshly returned sets: one per set,
/// all of the request's per-set size.
pub open spec fn new_records<S>(
    sets: Seq<DescriptorSet<S>>,
    size: DescriptorTotalCount,
) -> Seq<SetRecord<S>> {
    Seq::new(sets.len(), |i: int| SetRecord { raw: sets[i].raw, size })
}

proof fn lemma_record_sum_append_uniform<S>(
    records: Seq<SetRecord<S>>,
    extra: Seq<SetRecord<S>>,
    size: DescriptorTotalCount,
)
    requires
        forall|i: int| 0 <= i < extra.len() ==> (#[trigger] extra[i]).size == size,
    ensures
        record_sum(records + extra) == record_sum(records).add(
            size.totals().scale(extra.len() as int),
        ),
    decreases extra.len(),
{
    if extra.len() == 0 {
        assert(records + extra =~= records);
    } else {
        let shorter = extra.drop_last();
        assert((records + extra).drop_last() =~= records + shorter);
        assert(forall|i: int| 0 <= i < shorter.len() ==> (#[trigger] shorter[i]).size == size);
        lemma_record_sum_append_uniform(records, shorter, size);
        assert((records + extra).last() == extra.last());
        assert(extra.last().size == size);
        lemma_scale_step(size.totals(), shorter.len() as int);
    }
}

/// Turn the raw handles of one device allocation into descriptor sets
/// tagged with their owning pool and per-set size.
fn build_sets<S>(raws: Vec<S>, pool_id: u64, size: &DescriptorTotalCount) -> (sets: Vec<
    DescriptorSet<S>,
>)
    ensures
        sets@.len() == raws@.len(),
        forall|i: int|
            0 <= i < raws@.len() ==> (#[trigger] sets@[i]).raw == raws@[i] && sets@[i].pool_id
                == pool_id && sets@[i].size == *size,
{
    let ghost orig = raws@;
    let mut raws = raws;
    let mut sets: Vec<DescriptorSet<S>> = Vec::new();
    while raws.len() > 0
        invariant
            sets@.len() + raws@.len() == orig.len(),
            raws@ =~= orig.skip(sets@.len() as int),
            forall|i: int|
                0 <= i < sets@.len() ==> (#[trigger] sets@[i]).raw == orig[i] && sets@[i].pool_id
                    == pool_id && sets@[i].size == *size,
        decreases raws@.len(),
    {
        let raw = raws.remove(0);
        proof {
            assert(raws@ =~= orig.skip(sets@.len() as int + 1));
        }
        sets.push(DescriptorSet { raw, pool_id, size: *size });
    }
    sets
}

proof fn commit_proof<P, S>(
    pre: DescriptorAllocator<P, S>,
    post: DescriptorAllocator<P, S>,
    dp: Set<P>,
    ds_pre: Map<S, P>,
    ds_post: Map<S, P>,
    ks: int,
    raws: Seq<S>,
    sets: Seq<DescriptorSet<S>>,
    layout_counts: DescriptorTotalCount,
    total: DescriptorTotalCount,
    count: u32,
    flags: DescriptorPoolCreateFlags,
)
    requires
        pre.wf(),
        pre.corresponds(dp, ds_pre),
        0 <= ks < pre.pools@.len(),
        pool_fits(pre.pools@[ks], total, count, flags),
        total.totals() == layout_counts.totals().scale(count as int),
        count > 0,
        raws.len() == count as int,
        forall|i: int, j: int| 0 <= i < j < raws.len() ==> raws[i] != raws[j],
        forall|i: int| 0 <= i < raws.len() ==> !ds_pre.dom().contains(#[trigger] raws[i]),
        forall|i: int|
            0 <= i < raws.len() ==> ds_post.dom().contains(#[trigger] raws[i])
                && ds_post[raws[i]] == pre.pools@[ks].handle,
        forall|s: S|
            #![trigger ds_pre.dom().contains(s)]
            ds_pre.dom().contains(s) ==> ds_post.dom().contains(s) && ds_post[s] == ds_pre[s],
        post.next_pool_id == pre.next_pool_id,
        post.pools@.len() == pre.pools@.len(),
        forall|k: int|
            0 <= k < post.pools@.len() && k != ks ==> #[trigger] post.pools@[k]
                == pre.pools@[k],
        post.pools@[ks].handle == pre.pools@[ks].handle,
        post.pools@[ks].id == pre.pools@[ks].id,
        post.pools@[ks].flags == pre.pools@[ks].flags,
        post.pools@[ks].capacity == pre.pools@[ks].capacity,
        post.pools@[ks].max_sets == pre.pools@[ks].max_sets,
        post.pools@[ks].remaining.totals() == pre.pools@[ks].remaining.totals().sub(
            total.totals(),
        ),
        post.pools@[ks].sets_remaining == pre.pools@[ks].sets_remaining - count,
        post.pools@[ks].allocated_set_count == pre.pools@[ks].allocated_set_count + count,
        post.pools@[ks].records@ == pre.pools@[ks].records@ + Seq::new(
            count as nat,
            |i: int| SetRecord { raw: raws[i], size: layout_counts },
        ),
        sets.len() == count as int,
        forall|i: int|
            0 <= i < sets.len() ==> (#[trigger] sets[i]).raw == raws[i] && sets[i].pool_id
                == pre.pools@[ks].id && sets[i].size == layout_counts,
    ensures
        post.wf(),
        post.corresponds(dp, ds_post),
        forall|i: int|
            0 <= i < sets.len() ==> !pre.recorded_raw((#[trigger] sets[i]).raw)
                && !ds_pre.dom().contains(sets[i].raw),
        forall|i: int| 0 <= i < sets.len() ==> post.recorded(#[trigger] sets[i]),
        forall|ds: DescriptorSet<S>| #[trigger] pre.recorded(ds) ==> post.recorded(ds),
        post.pools@[ks].records@ == pre.pools@[ks].records@ + new_records(sets, layout_counts),
{
    let pre_pool = pre.pools@[ks];
    let post_pool = post.pools@[ks];
    let recs_new = Seq::new(
        count as nat,
        |i: int| SetRecord { raw: raws[i], size: layout_counts },
    );
    assert(pre_pool.wf());
    lemma_record_sum_append_uniform(pre_pool.records@, recs_new, layout_counts);
    // The freshly recorded handles collide neither with each other nor with
    // anything this pool already recorded.
    assert forall|i: int, j: int|
        0 <= i < j < post_pool.records@.len() implies post_pool.records@[i].raw
        != post_pool.records@[j].raw by {
        let n = pre_pool.records@.len() as int;
        if j < n {
        } else if i >= n {
            assert(post_pool.records@[i].raw == raws[i - n]);
            assert(post_pool.records@[j].raw == raws[j - n]);
        } else {
            assert(post_pool.records@[i] == pre_pool.records@[i]);
            assert(ds_pre.dom().contains(pre_pool.records@[i].raw));
            assert(post_pool.records@[j].raw == raws[j - n]);
            assert(!ds_pre.dom().contains(raws[j - n]));
        }
    }
    assert(post_pool.wf());
    assert forall|k: int| 0 <= k < post.pools@.len() implies (#[trigger] post.pools@[k]).wf() by {
        if k != ks {
            assert(post.pools@[k] == pre.pools@[k]);
            assert(pre.pools@[k].wf());
        }
    }
    assert(post.wf());
    // Correspondence with the device: old records are preserved in the
    // device map, and each new record is exactly what the device reported.
    assert forall|k: int, i: int|
        0 <= k < post.pools@.len() && 0 <= i < post.pools@[k].records@.len() implies {
        &&& ds_post.dom().contains(#[trigger] post.pools@[k].records@[i].raw)
        &&& ds_post[post.pools@[k].records@[i].raw] == post.pools@[k].handle
    } by {
        if k != ks {
            assert(post.pools@[k] == pre.pools@[k]);
            assert(ds_pre.dom().contains(pre.pools@[k].records@[i].raw));
        } else {
            let n = pre_pool.records@.len() as int;
            if i < n {
                assert(post_pool.records@[i] == pre_pool.records@[i]);
                assert(ds_pre.dom().contains(pre_pool.records@[i].raw));
            } else {
                assert(post_pool.records@[i].raw == raws[i - n]);
            }
        }
    }
    assert(post.corresponds(dp, ds_post));
    // No raw handle handed out here was recorded anywhere before.
    assert forall|i: int|
        0 <= i < sets.len() implies !pre.recorded_raw((#[trigger] sets[i]).raw)
        && !ds_pre.dom().contains(sets[i].raw) by {
        assert(sets[i].raw == raws[i]);
        if pre.recorded_raw(sets[i].raw) {
            let (k, ii) = choose|k: int, ii: int|
                0 <= k < pre.pools@.len() && 0 <= ii < pre.pools@[k].records@.len() && (
                #[trigger] pre.pools@[k].records@[ii]).raw == sets[i].raw;
            assert(ds_pre.dom().contains(pre.pools@[k].records@[ii].raw));
            assert(false);
        }
    }
    // Each returned set is recorded under the serving pool.
    assert forall|i: int| 0 <= i < sets.len() implies post.recorded(#[trigger] sets[i]) by {
        let n = pre_pool.records@.len() as int;
        assert(post_pool.records@[n + i] == (SetRecord { raw: raws[i], size: layout_counts }));
        assert(post_pool.records@[n + i] == (SetRecord { raw: sets[i].raw, size: sets[i].size }));
        assert(post_pool.records@.contains(
            SetRecord { raw: sets[i].raw, size: sets[i].size },
        ));
        assert(post.pools@[ks].id == sets[i].pool_id);
    }
    // Everything recorded before is still recorded.
    assert forall|ds: DescriptorSet<S>| #[trigger]
        pre.recorded(ds) implies post.recorded(ds) by {
        let k = choose|k: int|
            0 <= k < pre.pools@.len() && (#[trigger] pre.pools@[k]).id == ds.pool_id
                && pre.pools@[k].records@.contains(SetRecord { raw: ds.raw, size: ds.size });
        if k != ks {
            assert(post.pools@[k] == pre.pools@[k]);
        } else {
            let rec = SetRecord { raw: ds.raw, size: ds.size };
            let j = choose|j: int|
                0 <= j < pre_pool.records@.len() && pre_pool.records@[j] == rec;
            assert(post_pool.records@[j] == rec);
            assert(post_pool.records@.contains(rec));
        }
    }
    assert(new_records(sets, layout_counts) =~= recs_new);
}

proof fn commit_fresh_proof<P, S>(
    pre: DescriptorAllocator<P, S>,
    post: DescriptorAllocator<P, S>,
    dp_pre: Set<P>,
    dp_post: Set<P>,
    ds_pre: Map<S, P>,
    ds_post: Map<S, P>,
    handle: P,
    raws: Seq<S>,
    sets: Seq<DescriptorSet<S>>,
    layout_counts: DescriptorTotalCount,
    total: DescriptorTotalCount,
    count: u32,
    flags: DescriptorPoolCreateFlags,
)
    requires
        pre.wf(),
        pre.corresponds(dp_pre, ds_pre),
        pre.next_pool_id < u64::MAX,
        count > 0,
        total.totals() == layout_counts.totals().scale(count as int),
        !dp_pre.contains(handle),
        dp_post == dp_pre.insert(handle),
        raws.len() == count as int,
        forall|i: int, j: int| 0 <= i < j < raws.len() ==> raws[i] != raws[j],
        forall|i: int| 0 <= i < raws.len() ==> !ds_pre.dom().contains(#[trigger] raws[i]),
        forall|i: int|
            0 <= i < raws.len() ==> ds_post.dom().contains(#[trigger] raws[i])
                && ds_post[raws[i]] == handle,
        forall|s: S|
            #![trigger ds_pre.dom().contains(s)]
            ds_pre.dom().contains(s) ==> ds_post.dom().contains(s) && ds_post[s] == ds_pre[s],
        post.next_pool_id == pre.next_pool_id + 1,
        post.pools@.len() == pre.pools@.len() + 1,
        forall|k: int|
            0 <= k < pre.pools@.len() ==> #[trigger] post.pools@[k] == pre.pools@[k],
        post.pools@.last().handle == handle,
        post.pools@.last().id == pre.next_pool_id,
        post.pools@.last().flags == flags,
        total.all_le(post.pools@.last().capacity),
        post.pools@.last().remaining.totals() == post.pools@.last().capacity.totals().sub(
            total.totals(),
        ),
        post.pools@.last().max_sets >= count,
        post.pools@.last().sets_remaining == post.pools@.last().max_sets - count,
        post.pools@.last().allocated_set_count == count,
        post.pools@.last().records@ == Seq::new(
            count as nat,
            |i: int| SetRecord { raw: raws[i], size: layout_counts },
        ),
        sets.len() == count as int,
        forall|i: int|
            0 <= i < sets.len() ==> (#[trigger] sets[i]).raw == raws[i] && sets[i].pool_id
                == pre.next_pool_id && sets[i].size == layout_counts,
    ensures
        post.wf(),
        post.corresponds(dp_post, ds_post),
        forall|i: int|
            0 <= i < sets.len() ==> !pre.recorded_raw((#[trigger] sets[i]).raw)
                && !ds_pre.dom().contains(sets[i].raw),
        forall|i: int| 0 <= i < sets.len() ==> post.recorded(#[trigger] sets[i]),
        forall|ds: DescriptorSet<S>| #[trigger] pre.recorded(ds) ==> post.recorded(ds),
        post.pools@.last().records@ == new_records(sets, layout_counts),
        layout_counts.totals().scale(count as int).le(post.pools@.last().capacity.totals()),
{
    let ks = pre.pools@.len() as int;
    let new_pool = post.pools@[ks];
    let recs_new = Seq::new(
        count as nat,
        |i: int| SetRecord { raw: raws[i], size: layout_counts },
    );
    assert(new_pool == post.pools@.last());
    lemma_record_sum_append_uniform(Seq::empty(), recs_new, layout_counts);
    assert(Seq::<SetRecord<S>>::empty() + recs_new =~= recs_new);
    assert(record_sum(recs_new) == KindTotals::zero().add(total.totals()));
    assert(new_pool.wf());
    assert forall|k: int| 0 <= k < post.pools@.len() implies (#[trigger] post.pools@[k]).wf() by {
        if k < ks {
            assert(post.pools@[k] == pre.pools@[k]);
            assert(pre.pools@[k].wf());
        }
    }
    assert(post.wf());
    assert forall|k: int, i: int|
        0 <= k < post.pools@.len() && 0 <= i < post.pools@[k].records@.len() implies {
        &&& ds_post.dom().contains(#[trigger] post.pools@[k].records@[i].raw)
        &&& ds_post[post.pools@[k].records@[i].raw] == post.pools@[k].handle
    } by {
        if k < ks {
            assert(post.pools@[k] == pre.pools@[k]);
            assert(ds_pre.dom().contains(pre.pools@[k].records@[i].raw));
        } else {
            assert(post.pools@[k].records@[i].raw == raws[i]);
        }
    }
    assert forall|k: int, l: int|
        0 <= k < l < post.pools@.len() implies post.pools@[k].handle != post.pools@[l].handle by {
        if l == ks {
            assert(dp_pre.contains(post.pools@[k].handle));
        }
    }
    assert(post.corresponds(dp_post, ds_post));
    assert forall|i: int|
        0 <= i < sets.len() implies !pre.recorded_raw((#[trigger] sets[i]).raw)
        && !ds_pre.dom().contains(sets[i].raw) by {
        assert(sets[i].raw == raws[i]);
        if pre.recorded_raw(sets[i].raw) {
            let (k, ii) = choose|k: int, ii: int|
                0 <= k < pre.pools@.len() && 0 <= ii < pre.pools@[k].records@.len() && (
                #[trigger] pre.pools@[k].records@[ii]).raw == sets[i].raw;
            assert(ds_pre.dom().contains(pre.pools@[k].records@[ii].raw));
            assert(false);
        }
    }
    assert forall|i: int| 0 <= i < sets.len() implies post.recorded(#[trigger] sets[i]) by {
        assert(new_pool.records@[i] == (SetRecord { raw: raws[i], size: layout_counts }));
        assert(new_pool.records@[i] == (SetRecord { raw: sets[i].raw, size: sets[i].size }));
        assert(new_pool.records@.contains(SetRecord { raw: sets[i].raw, size: sets[i].size }));
        assert(post.pools@[ks].id == sets[i].pool_id);
    }
    assert forall|ds: DescriptorSet<S>| #[trigger]
        pre.recorded(ds) implies post.recorded(ds) by {
        let k = choose|k: int|
            0 <= k < pre.pools@.len() && (#[trigger] pre.pools@[k]).id == ds.pool_id
                && pre.pools@[k].records@.contains(SetRecord { raw: ds.raw, size: ds.size });
        assert(post.pools@[k] == pre.pools@[k]);
    }
    assert(new_records(sets, layout_counts) =~= recs_new);
}

/// The request for `count` sets of `layout_counts` descriptors each was
/// served from the pool that already stood at index `ks`: only its
/// consumable counters moved, by exactly the request, and one record per
/// returned set was appended to it.
pub open spec fn served_from_existing<P, S>(
    pre: DescriptorAllocator<P, S>,
    post: DescriptorAllocator<P, S>,
    ks: int,
    sets: Seq<DescriptorSet<S>>,
    layout_counts: DescriptorTotalCount,
    count: u32,
) -> bool {
    &&& post.pools@.len() == pre.pools@.len()
    &&& post.pools@[ks].handle == pre.pools@[ks].handle
    &&& post.pools@[ks].id == pre.pools@[ks].id
    &&& post.pools@[ks].capacity == pre.pools@[ks].capacity
    &&& post.pools@[ks].max_sets == pre.pools@[ks].max_sets
    &&& post.pools@[ks].remaining.totals() == pre.pools@[ks].remaining.totals().sub(
        layout_counts.totals().scale(count as int),
    )
    &&& post.pools@[ks].sets_remaining == pre.pools@[ks].sets_remaining - count
    &&& post.pools@[ks].allocated_set_count == pre.pools@[ks].allocated_set_count + count
    &&& post.pools@[ks].records@ == pre.pools@[ks].records@ + new_records(sets, layout_counts)
}

/// The request was served from a pool created for it: appended after the
/// existing pools, sized to exceed the whole request, and consumed by
/// exactly the request.
pub open spec fn served_from_fresh<P, S>(
    pre: DescriptorAllocator<P, S>,
    post: DescriptorAllocator<P, S>,
    ks: int,
    sets: Seq<DescriptorSet<S>>,
    layout_counts: DescriptorTotalCount,
    count: u32,
) -> bool {
    &&& ks == pre.pools@.len()
    &&& post.pools@.len() == pre.pools@.len() + 1
    &&& layout_counts.totals().scale(count as int).le(post.pools@[ks].capacity.totals())
    &&& count <= post.pools@[ks].max_sets
    &&& post.pools@[ks].remaining.totals() == post.pools@[ks].capacity.totals().sub(
        layout_counts.totals().scale(count as int),
    )
    &&& post.pools@[ks].sets_remaining == post.pools@[ks].max_sets - count
    &&& post.pools@[ks].allocated_set_count == count
    &&& post.pools@[ks].records@ == new_records(sets, layout_counts)
}

/// Some set in `sets` carries the raw handle `raw`.
pub open spec fn raw_in<S>(sets: Seq<DescriptorSet<S>>, raw: S) -> bool {
    exists|i: int| 0 <= i < sets.len() && (#[trigger] sets[i]).raw == raw
}

/// How many of `sets` were drawn from the pool with identity `id`.
pub open spec fn freed_count<S>(sets: Seq<DescriptorSet<S>>, id: u64) -> int
    decreases sets.len(),
{
    if sets.len() == 0 {
        0
    } else if sets.last().pool_id == id {
        freed_count(sets.drop_last(), id) + 1
    } else {
        freed_count(sets.drop_last(), id)
    }
}

/// Total per-kind counts of those of `sets` drawn from the pool with
/// identity `id`.
pub open spec fn freed_sum<S>(sets: Seq<DescriptorSet<S>>, id: u64) -> KindTotals
    decreases sets.len(),
{
    if sets.len() == 0 {
        KindTotals::zero()
    } else if sets.last().pool_id == id {
        freed_sum(sets.drop_last(), id).add(sets.last().size.totals())
    } else {
        freed_sum(sets.drop_last(), id)
    }
}

/// What freeing the batch `sets` does to the pool that was `op`: its
/// remaining capacities are credited with exactly what the freed sets of
/// that pool consumed, its untouched records survive, and it is destroyed
/// exactly when its last live set was freed.
pub open spec fn free_pool_post<P, S>(
    op: PoolEntry<P, S>,
    post: DescriptorAllocator<P, S>,
    sets: Seq<DescriptorSet<S>>,
) -> bool {
    let n = freed_count(sets, op.id);
    &&& (n < op.allocated_set_count ==> {
        let q = post.pools@[post.pool_index_of(op.id)];
        &&& post.has_pool(op.id)
        &&& q.handle == op.handle
        &&& q.id == op.id
        &&& q.flags == op.flags
        &&& q.capacity == op.capacity
        &&& q.max_sets == op.max_sets
        &&& q.remaining.totals() == op.remaining.totals().add(freed_sum(sets, op.id))
        &&& q.allocated_set_count == op.allocated_set_count - n
        &&& q.sets_remaining == op.sets_remaining + n
        &&& q.records@.len() == op.records@.len() - n
        &&& forall|rec: SetRecord<S>|
            op.records@.contains(rec) && !raw_in(sets, rec.raw) ==> q.records@.contains(rec)
        &&& forall|j: int|
            0 <= j < q.records@.len() ==> op.records@.contains(#[trigger] q.records@[j])
                && !raw_in(sets, q.records@[j].raw)
    })
    &&& (n >= op.allocated_set_count ==> !post.has_pool(op.id))
}

proof fn lemma_freed_push<S>(sets: Seq<DescriptorSet<S>>, ds: DescriptorSet<S>, id: u64)
    ensures
        freed_count(sets.push(ds), id) == freed_count(sets, id) + (if ds.pool_id == id {
            1int
        } else {
            0int
        }),
        freed_sum(sets.push(ds), id) == (if ds.pool_id == id {
            freed_sum(sets, id).add(ds.size.totals())
        } else {
            freed_sum(sets, id)
        }),
{
    assert(sets.push(ds).drop_last() =~= sets);
}

proof fn lemma_raw_in_push<S>(sets: Seq<DescriptorSet<S>>, ds: DescriptorSet<S>)
    ensures
        forall|r: S| #[trigger]
            raw_in(sets.push(ds), r) <==> (raw_in(sets, r) || r == ds.raw),
{
    assert forall|r: S| #[trigger] raw_in(sets.push(ds), r) implies (raw_in(sets, r) || r
        == ds.raw) by {
        let i = choose|i: int| 0 <= i < sets.push(ds).len() && (#[trigger] sets.push(ds)[i]).raw
            == r;
        if i < sets.len() {
            assert(sets[i].raw == r);
        }
    }
    assert forall|r: S| (raw_in(sets, r) || r == ds.raw) implies #[trigger] raw_in(
        sets.push(ds),
        r,
    ) by {
        if raw_in(sets, r) {
            let i = choose|i: int| 0 <= i < sets.len() && (#[trigger] sets[i]).raw == r;
            assert(sets.push(ds)[i].raw == r);
        } else {
            assert(sets.push(ds)[sets.len() as int].raw == r);
        }
    }
}

/// Every pool of `post` already existed in `orig` (none appeared).
pub open spec fn pools_from<P, S>(
    orig: DescriptorAllocator<P, S>,
    post: DescriptorAllocator<P, S>,
) -> bool {
    forall|k2: int| 0 <= k2 < post.pools@.len() ==> orig.has_pool((#[trigger] post.pools@[k2]).id)
}

proof fn lemma_pool_index_unique<P, S>(a: DescriptorAllocator<P, S>, k: int)
    requires
        a.wf(),
        0 <= k < a.pools@.len(),
    ensures
        a.has_pool(a.pools@[k].id),
        a.pool_index_of(a.pools@[k].id) == k,
{
    assert(a.has_pool(a.pools@[k].id));
    let k2 = a.pool_index_of(a.pools@[k].id);
    if k2 != k {
        if k < k2 {
            assert(a.pools@[k].id < a.pools@[k2].id);
        } else {
            assert(a.pools@[k2].id < a.pools@[k].id);
        }
        assert(false);
    }
}

proof fn lemma_records_avoid_raw<P, S>(
    mid: DescriptorAllocator<P, S>,
    dp: Set<P>,
    ds: Map<S, P>,
    k: int,
    raw: S,
)
    requires
        mid.corresponds(dp, ds),
        0 <= k < mid.pools@.len(),
        ds.dom().contains(raw),
        ds[raw] == mid.pools@[k].handle,
    ensures
        forall|kk: int, ii: int|
            0 <= kk < mid.pools@.len() && kk != k && 0 <= ii < mid.pools@[kk].records@.len()
                ==> (#[trigger] mid.pools@[kk].records@[ii]).raw != raw,
{
    assert forall|kk: int, ii: int|
        0 <= kk < mid.pools@.len() && kk != k && 0 <= ii
            < mid.pools@[kk].records@.len() implies (
    #[trigger] mid.pools@[kk].records@[ii]).raw != raw by {
        assert(ds.dom().contains(mid.pools@[kk].records@[ii].raw));
        assert(ds[mid.pools@[kk].records@[ii].raw] == mid.pools@[kk].handle);
        if kk < k {
            assert(mid.pools@[kk].handle != mid.pools@[k].handle);
        } else {
            assert(mid.pools@[k].handle != mid.pools@[kk].handle);
        }
    }
}

proof fn free_destroy_device_proof<P, S>(
    mid: DescriptorAllocator<P, S>,
    post: DescriptorAllocator<P, S>,
    dp_pre: Set<P>,
    ds_pre: Map<S, P>,
    dp_post: Set<P>,
    ds_post: Map<S, P>,
    k: int,
    handle: P,
)
    requires
        mid.corresponds(dp_pre, ds_pre),
        0 <= k < mid.pools@.len(),
        mid.pools@[k].handle == handle,
        post.pools@ == mid.pools@.remove(k),
        dp_post == dp_pre.remove(handle),
        forall|s: S|
            #![trigger ds_post.dom().contains(s)]
            #![trigger ds_pre.dom().contains(s)]
            ds_post.dom().contains(s) <==> (ds_pre.dom().contains(s) && ds_pre[s] != handle),
        forall|s: S|
            #![trigger ds_post.dom().contains(s)]
            ds_post.dom().contains(s) ==> ds_post[s] == ds_pre[s],
    ensures
        post.corresponds(dp_post, ds_post),
{
    assert forall|kk: int, ii: int|
        0 <= kk < post.pools@.len() && 0 <= ii < post.pools@[kk].records@.len() implies {
        &&& ds_post.dom().contains(#[trigger] post.pools@[kk].records@[ii].raw)
        &&& ds_post[post.pools@[kk].records@[ii].raw] == post.pools@[kk].handle
    } by {
        let kk2 = if kk < k {
            kk
        } else {
            kk + 1
        };
        assert(post.pools@[kk] == mid.pools@[kk2]);
        assert(kk2 != k);
        assert(ds_pre.dom().contains(post.pools@[kk].records@[ii].raw));
        assert(ds_pre[post.pools@[kk].records@[ii].raw] == mid.pools@[kk2].handle);
        assert(mid.pools@[kk2].handle != handle) by {
            if kk2 < k {
                assert(mid.pools@[kk2].handle != mid.pools@[k].handle);
            } else {
                assert(mid.pools@[k].handle != mid.pools@[kk2].handle);
            }
        }
    }
    assert forall|kk: int, ll: int|
        0 <= kk < ll < post.pools@.len() implies post.pools@[kk].handle
        != post.pools@[ll].handle by {
        let a = if kk < k {
            kk
        } else {
            kk + 1
        };
        let b = if ll < k {
            ll
        } else {
            ll + 1
        };
        assert(post.pools@[kk] == mid.pools@[a]);
        assert(post.pools@[ll] == mid.pools@[b]);
    }
    assert forall|kk: int| 0 <= kk < post.pools@.len() implies dp_post.contains(
        (#[trigger] post.pools@[kk]).handle,
    ) by {
        let a = if kk < k {
            kk
        } else {
            kk + 1
        };
        assert(post.pools@[kk] == mid.pools@[a]);
        assert(dp_pre.contains(mid.pools@[a].handle));
        assert(mid.pools@[a].handle != handle) by {
            if a < k {
                assert(mid.pools@[a].handle != mid.pools@[k].handle);
            } else {
                assert(mid.pools@[k].handle != mid.pools@[a].handle);
            }
        }
    }
}

proof fn free_dealloc_device_proof<P, S>(
    post: DescriptorAllocator<P, S>,
    dp: Set<P>,
    ds_pre: Map<S, P>,
    ds_post: Map<S, P>,
    raws: Seq<S>,
)
    requires
        post.corresponds(dp, ds_pre),
        forall|m: int| 0 <= m < raws.len() ==> !post.recorded_raw(#[trigger] raws[m]),
        forall|s: S|
            #![trigger ds_post.dom().contains(s)]
            #![trigger ds_pre.dom().contains(s)]
            ds_post.dom().contains(s) <==> (ds_pre.dom().contains(s) && !raws.contains(s)),
        forall|s: S|
            #![trigger ds_post.dom().contains(s)]
            ds_post.dom().contains(s) ==> ds_post[s] == ds_pre[s],
    ensures
        post.corresponds(dp, ds_post),
{
    assert forall|kk: int, ii: int|
        0 <= kk < post.pools@.len() && 0 <= ii < post.pools@[kk].records@.len() implies {
        &&& ds_post.dom().contains(#[trigger] post.pools@[kk].records@[ii].raw)
        &&& ds_post[post.pools@[kk].records@[ii].raw] == post.pools@[kk].handle
    } by {
        let rr = post.pools@[kk].records@[ii].raw;
        assert(ds_pre.dom().contains(rr));
        assert(ds_pre[rr] == post.pools@[kk].handle);
        if raws.contains(rr) {
            let m = choose|m: int| 0 <= m < raws.len() && raws[m] == rr;
            assert(post.recorded_raw(raws[m]));
            assert(false);
        }
    }
}

#[verifier::rlimit(60)]
proof fn free_step_proof<P, S>(
    orig: DescriptorAllocator<P, S>,
    mid: DescriptorAllocator<P, S>,
    post: DescriptorAllocator<P, S>,
    prefix: Seq<DescriptorSet<S>>,
    ds: DescriptorSet<S>,
    k: int,
    j: int,
    destroyed: bool,
)
    requires
        orig.wf(),
        mid.wf(),
        forall|kk: int|
            0 <= kk < orig.pools@.len() ==> free_pool_post(
                #[trigger] orig.pools@[kk],
                mid,
                prefix,
            ),
        pools_from(orig, mid),
        forall|ds2: DescriptorSet<S>| #[trigger]
            orig.recorded(ds2) && !raw_in(prefix, ds2.raw) ==> mid.recorded(ds2),
        forall|m: int| 0 <= m < prefix.len() ==> !mid.recorded_raw((#[trigger] prefix[m]).raw),
        !raw_in(prefix, ds.raw),
        orig.recorded(ds),
        0 <= k < mid.pools@.len(),
        mid.pools@[k].id == ds.pool_id,
        0 <= j < mid.pools@[k].records@.len(),
        mid.pools@[k].records@[j] == (SetRecord { raw: ds.raw, size: ds.size }),
        forall|kk: int, ii: int|
            0 <= kk < mid.pools@.len() && kk != k && 0 <= ii
                < mid.pools@[kk].records@.len() ==> (#[trigger] mid.pools@[kk].records@[ii]).raw
                != ds.raw,
        post.next_pool_id == mid.next_pool_id,
        destroyed == (mid.pools@[k].allocated_set_count == 1),
        destroyed ==> post.pools@ == mid.pools@.remove(k),
        !destroyed ==> {
            &&& post.pools@.len() == mid.pools@.len()
            &&& (forall|kk: int|
                0 <= kk < post.pools@.len() && kk != k ==> #[trigger] post.pools@[kk]
                    == mid.pools@[kk])
            &&& post.pools@[k].handle == mid.pools@[k].handle
            &&& post.pools@[k].id == mid.pools@[k].id
            &&& post.pools@[k].flags == mid.pools@[k].flags
            &&& post.pools@[k].capacity == mid.pools@[k].capacity
            &&& post.pools@[k].max_sets == mid.pools@[k].max_sets
            &&& post.pools@[k].remaining.totals() == mid.pools@[k].remaining.totals().add(
                ds.size.totals(),
            )
            &&& post.pools@[k].sets_remaining == mid.pools@[k].sets_remaining + 1
            &&& post.pools@[k].allocated_set_count == mid.pools@[k].allocated_set_count - 1
            &&& post.pools@[k].records@ == mid.pools@[k].records@.remove(j)
        },
    ensures
        post.wf(),
        forall|kk: int|
            0 <= kk < orig.pools@.len() ==> free_pool_post(
                #[trigger] orig.pools@[kk],
                post,
                prefix.push(ds),
            ),
        pools_from(orig, post),
        forall|ds2: DescriptorSet<S>| #[trigger]
            orig.recorded(ds2) && !raw_in(prefix.push(ds), ds2.raw) ==> post.recorded(ds2),
        forall|m: int|
            0 <= m < prefix.push(ds).len() ==> !post.recorded_raw(
                (#[trigger] prefix.push(ds)[m]).raw,
            ),
{
    let mid_pool = mid.pools@[k];
    let rec = SetRecord { raw: ds.raw, size: ds.size };
    lemma_raw_in_push(prefix, ds);
    lemma_record_sum_remove(mid_pool.records@, j);
    lemma_record_sum_non_negative(mid_pool.records@.remove(j));
    lemma_pool_index_unique(mid, k);
    // Well-formedness of the updated registry.
    if destroyed {
        assert forall|kk: int| 0 <= kk < post.pools@.len() implies (
        #[trigger] post.pools@[kk]).wf() by {
            if kk < k {
                assert(post.pools@[kk] == mid.pools@[kk]);
            } else {
                assert(post.pools@[kk] == mid.pools@[kk + 1]);
            }
        }
        assert(post.wf());
    } else {
        assert forall|i1: int, i2: int|
            0 <= i1 < i2 < post.pools@[k].records@.len() implies post.pools@[k].records@[i1].raw
            != post.pools@[k].records@[i2].raw by {
            let r1 = if i1 < j {
                i1
            } else {
                i1 + 1
            };
            let r2 = if i2 < j {
                i2
            } else {
                i2 + 1
            };
            assert(post.pools@[k].records@[i1] == mid_pool.records@[r1]);
            assert(post.pools@[k].records@[i2] == mid_pool.records@[r2]);
        }
        assert(post.pools@[k].wf());
        assert forall|kk: int| 0 <= kk < post.pools@.len() implies (
        #[trigger] post.pools@[kk]).wf() by {
            if kk != k {
                assert(post.pools@[kk] == mid.pools@[kk]);
            }
        }
        assert(post.wf());
    }
    // The record removed is the only one anywhere carrying this raw handle.
    assert forall|kk: int, ii: int|
        0 <= kk < post.pools@.len() && 0 <= ii < post.pools@[kk].records@.len() implies (
    #[trigger] post.pools@[kk].records@[ii]).raw != ds.raw by {
        if destroyed {
            if kk < k {
                assert(post.pools@[kk] == mid.pools@[kk]);
            } else {
                assert(post.pools@[kk] == mid.pools@[kk + 1]);
            }
        } else {
            if kk != k {
                assert(post.pools@[kk] == mid.pools@[kk]);
            } else {
                let rr = if ii < j {
                    ii
                } else {
                    ii + 1
                };
                assert(post.pools@[kk].records@[ii] == mid_pool.records@[rr]);
            }
        }
    }
    // Per-pool outcome for the whole prefix including this set.
    assert forall|kk: int| 0 <= kk < orig.pools@.len() implies free_pool_post(
        #[trigger] orig.pools@[kk],
        post,
        prefix.push(ds),
    ) by {
        let op = orig.pools@[kk];
        lemma_freed_push(prefix, ds, op.id);
        let n = freed_count(prefix, op.id);
        let n2 = freed_count(prefix.push(ds), op.id);
        if op.id != ds.pool_id {
            assert(n2 == n);
            assert(free_pool_post(op, mid, prefix));
            if n < op.allocated_set_count {
                let q_idx = mid.pool_index_of(op.id);
                assert(mid.has_pool(op.id));
                assert(0 <= q_idx < mid.pools@.len() && mid.pools@[q_idx].id == op.id);
                assert(q_idx != k);
                if destroyed {
                    let q2 = if q_idx < k {
                        q_idx
                    } else {
                        q_idx - 1
                    };
                    assert(post.pools@[q2] == mid.pools@[q_idx]);
                    assert(post.has_pool(op.id));
                    lemma_pool_index_unique(post, q2);
                    assert(post.pool_index_of(op.id) == q2);
                } else {
                    assert(post.pools@[q_idx] == mid.pools@[q_idx]);
                    assert(post.has_pool(op.id));
                    lemma_pool_index_unique(post, q_idx);
                }
            } else {
                if post.has_pool(op.id) {
                    let q2 = choose|q2: int|
                        0 <= q2 < post.pools@.len() && (#[trigger] post.pools@[q2]).id == op.id;
                    if destroyed {
                        let r2 = if q2 < k {
                            q2
                        } else {
                            q2 + 1
                        };
                        assert(post.pools@[q2] == mid.pools@[r2]);
                        assert(mid.has_pool(op.id));
                    } else {
                        assert(post.pools@[q2] == mid.pools@[q2]);
                        assert(mid.has_pool(op.id));
                    }
                    assert(false);
                }
            }
        } else {
            // This is the pool the freed set came from.
            assert(n2 == n + 1);
            assert(free_pool_post(op, mid, prefix));
            assert(mid.has_pool(op.id));
            assert(mid.pool_index_of(op.id) == k) by {
                lemma_pool_index_unique(mid, k);
            }
            assert(n < op.allocated_set_count);
            assert(mid_pool.handle == op.handle && mid_pool.capacity == op.capacity
                && mid_pool.flags == op.flags && mid_pool.max_sets == op.max_sets);
            assert(mid_pool.allocated_set_count == op.allocated_set_count - n);
            assert(mid_pool.remaining.totals() == op.remaining.totals().add(
                freed_sum(prefix, op.id),
            ));
            if destroyed {
                assert(n2 == op.allocated_set_count);
                if post.has_pool(op.id) {
                    let q2 = choose|q2: int|
                        0 <= q2 < post.pools@.len() && (#[trigger] post.pools@[q2]).id == op.id;
                    let r2 = if q2 < k {
                        q2
                    } else {
                        q2 + 1
                    };
                    assert(post.pools@[q2] == mid.pools@[r2]);
                    assert(r2 != k);
                    assert(false);
                }
            } else {
                assert(n2 < op.allocated_set_count);
                assert(post.pools@[k].id == op.id);
                assert(post.has_pool(op.id));
                lemma_pool_index_unique(post, k);
                let q = post.pools@[k];
                assert(q.remaining.totals() == op.remaining.totals().add(
                    freed_sum(prefix.push(ds), op.id),
                ));
                // Untouched records survive the removal.
                assert forall|rec2: SetRecord<S>|
                    op.records@.contains(rec2) && !raw_in(prefix.push(ds), rec2.raw) implies
                    q.records@.contains(rec2) by {
                    assert(!raw_in(prefix, rec2.raw));
                    assert(mid_pool.records@.contains(rec2));
                    let jj = choose|jj: int|
                        0 <= jj < mid_pool.records@.len() && mid_pool.records@[jj] == rec2;
                    assert(jj != j);
                    let jj2 = if jj < j {
                        jj
                    } else {
                        jj - 1
                    };
                    assert(q.records@[jj2] == mid_pool.records@[jj]);
                    assert(q.records@.contains(rec2));
                }
                assert forall|jj: int| 0 <= jj < q.records@.len() implies op.records@.contains(
                    #[trigger] q.records@[jj],
                ) && !raw_in(prefix.push(ds), q.records@[jj].raw) by {
                    let rr = if jj < j {
                        jj
                    } else {
                        jj + 1
                    };
                    assert(q.records@[jj] == mid_pool.records@[rr]);
                    assert(op.records@.contains(mid_pool.records@[rr]));
                    assert(!raw_in(prefix, mid_pool.records@[rr].raw));
                    assert(mid_pool.records@[rr].raw != ds.raw);
                }
                assert(free_pool_post(op, post, prefix.push(ds)));
            }
        }
    }
    // No pool appeared.
    assert forall|k2: int| 0 <= k2 < post.pools@.len() implies orig.has_pool(
        (#[trigger] post.pools@[k2]).id,
    ) by {
        if destroyed {
            let r2 = if k2 < k {
                k2
            } else {
                k2 + 1
            };
            assert(post.pools@[k2] == mid.pools@[r2]);
        } else {
            if k2 != k {
                assert(post.pools@[k2] == mid.pools@[k2]);
            } else {
                assert(post.pools@[k2].id == mid.pools@[k2].id);
            }
        }
    }
    // Sets not in the batch stay recorded.
    assert forall|ds2: DescriptorSet<S>| #[trigger]
        orig.recorded(ds2) && !raw_in(prefix.push(ds), ds2.raw) implies post.recorded(ds2) by {
        assert(!raw_in(prefix, ds2.raw));
        assert(mid.recorded(ds2));
        let kk = choose|kk: int|
            0 <= kk < mid.pools@.len() && (#[trigger] mid.pools@[kk]).id == ds2.pool_id
                && mid.pools@[kk].records@.contains(SetRecord { raw: ds2.raw, size: ds2.size });
        let rec2 = SetRecord { raw: ds2.raw, size: ds2.size };
        if kk != k {
            if destroyed {
                let k2 = if kk < k {
                    kk
                } else {
                    kk - 1
                };
                assert(post.pools@[k2] == mid.pools@[kk]);
                assert(post.recorded(ds2));
            } else {
                assert(post.pools@[kk] == mid.pools@[kk]);
                assert(post.recorded(ds2));
            }
        } else {
            let jj = choose|jj: int|
                0 <= jj < mid_pool.records@.len() && mid_pool.records@[jj] == rec2;
            assert(jj != j);
            if destroyed {
                assert(mid_pool.records@.len() == 1);
                assert(false);
            } else {
                let jj2 = if jj < j {
                    jj
                } else {
                    jj - 1
                };
                assert(post.pools@[k].records@[jj2] == mid_pool.records@[jj]);
                assert(post.pools@[k].records@.contains(rec2));
                assert(post.pools@[k].id == ds2.pool_id);
                assert(post.recorded(ds2));
            }
        }
    }
    // Every raw handle freed so far is recorded nowhere.
    assert forall|m: int| 0 <= m < prefix.push(ds).len() implies !post.recorded_raw(
        (#[trigger] prefix.push(ds)[m]).raw,
    ) by {
        let r = prefix.push(ds)[m].raw;
        if post.recorded_raw(r) {
            let (kk, ii) = choose|kk: int, ii: int|
                0 <= kk < post.pools@.len() && 0 <= ii < post.pools@[kk].records@.len() && (
                #[trigger] post.pools@[kk].records@[ii]).raw == r;
            if m < prefix.len() {
                assert(!mid.recorded_raw(prefix[m].raw));
                if destroyed {
                    let rr = if kk < k {
                        kk
                    } else {
                        kk + 1
                    };
                    assert(post.pools@[kk] == mid.pools@[rr]);
                    assert(mid.recorded_raw(r));
                } else {
                    if kk != k {
                        assert(post.pools@[kk] == mid.pools@[kk]);
                        assert(mid.recorded_raw(r));
                    } else {
                        let rr = if ii < j {
                            ii
                        } else {
                            ii + 1
                        };
                        assert(post.pools@[kk].records@[ii] == mid_pool.records@[rr]);
                        assert(mid.recorded_raw(r));
                    }
                }
                assert(false);
            } else {
                assert(r == ds.raw);
                assert(false);
            }
        }
    }
}

/// Set capacity of a freshly created pool: at least the requested count,
/// with headroom to amortize nearby future requests.
fn grow_max_sets(count: u32) -> (r: u32)
    ensures
        r >= count,
        r >= 1,
{
    if count > u32::MAX / 2 {
        u32::MAX
    } else if count * 2 < 64 {
        64
    } else {
        count * 2
    }
}

/// Sum of the created per-kind capacities over a sequence of pools.
pub open spec fn pools_capacity<P, S>(pools: Seq<PoolEntry<P, S>>) -> KindTotals
    decreases pools.len(),
{
    if pools.len() == 0 {
        KindTotals::zero()
    } else {
        pools_capacity(pools.drop_last()).add(pools.last().capacity.totals())
    }
}

/// Sum of the unconsumed per-kind capacities over a sequence of pools.
pub open spec fn pools_remaining<P, S>(pools: Seq<PoolEntry<P, S>>) -> KindTotals
    decreases pools.len(),
{
    if pools.len() == 0 {
        KindTotals::zero()
    } else {
        pools_remaining(pools.drop_last()).add(pools.last().remaining.totals())
    }
}

/// Sum, over a sequence of pools, of the per-kind counts consumed by the
/// live sets drawn from them.
pub open spec fn pools_live<P, S>(pools: Seq<PoolEntry<P, S>>) -> KindTotals
    decreases pools.len(),
{
    if pools.len() == 0 {
        KindTotals::zero()
    } else {
        pools_live(pools.drop_last()).add(record_sum(pools.last().records@))
    }
}

proof fn lemma_conservation_rec<P, S>(pools: Seq<PoolEntry<P, S>>)
    requires
        forall|k: int| 0 <= k < pools.len() ==> (#[trigger] pools[k]).wf(),
    ensures
        pools_capacity(pools) == pools_remaining(pools).add(pools_live(pools)),
    decreases pools.len(),
{
    if pools.len() > 0 {
        assert(forall|k: int|
            0 <= k < pools.drop_last().len() ==> (#[trigger] pools.drop_last()[k]).wf());
        lemma_conservation_rec(pools.drop_last());
        assert(pools[pools.len() - 1].wf());
    }
}

/// Conservation law: at every point in time, the per-kind counts consumed
/// by all live allocations plus the per-kind capacity remaining across all
/// pools equal the per-kind capacity all pools were created with.
pub proof fn lemma_conservation<P, S>(a: DescriptorAllocator<P, S>)
    requires
        a.wf(),
    ensures
        pools_capacity(a.pools@) == pools_remaining(a.pools@).add(pools_live(a.pools@)),
{
    lemma_conservation_rec(a.pools@);
}

} // verus!
