use gpu_descriptor::AllocateError;
use gpu_descriptor::DescriptorAllocator;
use gpu_descriptor::DescriptorPoolCreateFlags;
use gpu_descriptor::DescriptorTotalCount;
use gpu_descriptor::Device;
use gpu_descriptor::SimDevice;

fn flags() -> DescriptorPoolCreateFlags {
    DescriptorPoolCreateFlags { free_descriptor_set: true, update_after_bind: false }
}

fn uniform_buffers(n: u32) -> DescriptorTotalCount {
    DescriptorTotalCount { uniform_buffer: n, ..Default::default() }
}

const LAYOUT: u64 = 0;

#[test]
fn four_sets_from_empty_registry_create_one_pool() {
    let mut device = SimDevice::new(true, true);
    let mut alloc: DescriptorAllocator<u64, u64> = DescriptorAllocator::new();
    let sets = alloc
        .allocate(&mut device, &LAYOUT, flags(), &uniform_buffers(2), 4)
        .unwrap();
    assert_eq!(sets.len(), 4);
    // The same handle is never handed out twice.
    for i in 0..sets.len() {
        for j in 0..i {
            assert_ne!(*sets[i].raw(), *sets[j].raw());
        }
    }
    // Exactly one pool, sized to cover at least 4 sets of 2 uniform buffers.
    assert_eq!(alloc.pool_count(), 1);
    assert!(alloc.pool_capacity(0).uniform_buffer >= 8);
    assert!(alloc.pool_max_sets(0) >= 4);
    assert_eq!(alloc.pool_allocated_set_count(0), 4);
}

#[test]
fn freeing_everything_destroys_the_pool() {
    let mut device = SimDevice::new(true, true);
    let mut alloc: DescriptorAllocator<u64, u64> = DescriptorAllocator::new();
    let sets = alloc
        .allocate(&mut device, &LAYOUT, flags(), &uniform_buffers(2), 4)
        .unwrap();
    assert_eq!(alloc.pool_count(), 1);
    alloc.free(&mut device, sets);
    // The pool's live count returned to zero, so the pool is destroyed and
    // the registry holds nothing.
    assert_eq!(alloc.pool_count(), 0);
}

#[test]
fn freeing_a_subset_keeps_the_pool() {
    let mut device = SimDevice::new(true, true);
    let mut alloc: DescriptorAllocator<u64, u64> = DescriptorAllocator::new();
    let mut sets = alloc
        .allocate(&mut device, &LAYOUT, flags(), &uniform_buffers(2), 3)
        .unwrap();
    let one = vec![sets.pop().unwrap()];
    let before_remaining = alloc.pool_remaining(0).uniform_buffer;
    let before_sets_remaining = alloc.pool_sets_remaining(0);
    alloc.free(&mut device, one);
    assert_eq!(alloc.pool_count(), 1);
    assert_eq!(alloc.pool_allocated_set_count(0), 2);
    // The freed set's counts were credited back.
    assert_eq!(alloc.pool_remaining(0).uniform_buffer, before_remaining + 2);
    assert_eq!(alloc.pool_sets_remaining(0), before_sets_remaining + 1);
    alloc.free(&mut device, sets);
    assert_eq!(alloc.pool_count(), 0);
}

#[test]
fn oversized_request_leaves_old_pool_untouched() {
    let mut device = SimDevice::new(true, true);
    let mut alloc: DescriptorAllocator<u64, u64> = DescriptorAllocator::new();
    let first = alloc
        .allocate(&mut device, &LAYOUT, flags(), &uniform_buffers(2), 1)
        .unwrap();
    assert_eq!(alloc.pool_count(), 1);
    let old_remaining = alloc.pool_remaining(0);
    let old_allocated = alloc.pool_allocated_set_count(0);
    // This request exceeds what remains in the first pool, so a second pool
    // is created and the first is left exactly as it was.
    let want = alloc.pool_remaining(0).uniform_buffer + 1;
    let big = alloc
        .allocate(&mut device, &LAYOUT, flags(), &uniform_buffers(want), 1)
        .unwrap();
    assert_eq!(alloc.pool_count(), 2);
    assert_eq!(alloc.pool_remaining(0), old_remaining);
    assert_eq!(alloc.pool_allocated_set_count(0), old_allocated);
    // The old pool still serves smaller requests.
    let small = alloc
        .allocate(&mut device, &LAYOUT, flags(), &uniform_buffers(1), 1)
        .unwrap();
    assert_eq!(alloc.pool_count(), 2);
    alloc.free(&mut device, first);
    alloc.free(&mut device, big);
    alloc.free(&mut device, small);
    assert_eq!(alloc.pool_count(), 0);
}

#[test]
fn unsupported_inline_uniform_block_is_rejected_up_front() {
    // A device that cannot represent inline uniform blocks.
    let mut device = SimDevice::new(false, true);
    let mut alloc: DescriptorAllocator<u64, u64> = DescriptorAllocator::new();
    let counts = DescriptorTotalCount { inline_uniform_block_bytes: 16, ..Default::default() };
    let r = alloc.allocate(&mut device, &LAYOUT, flags(), &counts, 1);
    assert_eq!(r.unwrap_err(), AllocateError::UnsupportedKind);
    // No pool was touched or created.
    assert_eq!(alloc.pool_count(), 0);
}

#[test]
fn unsupported_acceleration_structure_is_rejected_up_front() {
    let mut device = SimDevice::new(true, false);
    let mut alloc: DescriptorAllocator<u64, u64> = DescriptorAllocator::new();
    let counts = DescriptorTotalCount { acceleration_structure: 1, ..Default::default() };
    let r = alloc.allocate(&mut device, &LAYOUT, flags(), &counts, 1);
    assert_eq!(r.unwrap_err(), AllocateError::UnsupportedKind);
    assert_eq!(alloc.pool_count(), 0);
}

#[test]
fn supported_kinds_pass_the_capability_check() {
    let device = SimDevice::new(true, false);
    let inline = DescriptorTotalCount { inline_uniform_block_bindings: 1, ..Default::default() };
    let accel = DescriptorTotalCount { acceleration_structure: 1, ..Default::default() };
    assert!(device.supports_counts(&inline));
    assert!(!device.supports_counts(&accel));
    assert!(device.supports_counts(&uniform_buffers(5)));
}

#[test]
fn count_overflow_is_rejected_before_any_device_call() {
    let mut device = SimDevice::new(true, true);
    let mut alloc: DescriptorAllocator<u64, u64> = DescriptorAllocator::new();
    let counts = DescriptorTotalCount { sampler: u32::MAX, ..Default::default() };
    let r = alloc.allocate(&mut device, &LAYOUT, flags(), &counts, 2);
    assert_eq!(r.unwrap_err(), AllocateError::CountOverflow);
    assert_eq!(alloc.pool_count(), 0);
}

#[test]
fn zero_sets_allocate_nothing() {
    let mut device = SimDevice::new(true, true);
    let mut alloc: DescriptorAllocator<u64, u64> = DescriptorAllocator::new();
    let sets = alloc
        .allocate(&mut device, &LAYOUT, flags(), &uniform_buffers(2), 0)
        .unwrap();
    assert!(sets.is_empty());
    assert_eq!(alloc.pool_count(), 0);
}

#[test]
fn pools_never_mix_flag_combinations() {
    let mut device = SimDevice::new(true, true);
    let mut alloc: DescriptorAllocator<u64, u64> = DescriptorAllocator::new();
    let individual = DescriptorPoolCreateFlags { free_descriptor_set: true, update_after_bind: false };
    let update_after_bind = DescriptorPoolCreateFlags { free_descriptor_set: true, update_after_bind: true };
    let a = alloc
        .allocate(&mut device, &LAYOUT, individual, &uniform_buffers(1), 1)
        .unwrap();
    let b = alloc
        .allocate(&mut device, &LAYOUT, update_after_bind, &uniform_buffers(1), 1)
        .unwrap();
    // Different flag combinations never share a pool.
    assert_eq!(alloc.pool_count(), 2);
    assert_ne!(alloc.pool_flags(0), alloc.pool_flags(1));
    alloc.free(&mut device, a);
    alloc.free(&mut device, b);
}

#[test]
fn conservation_holds_at_every_step() {
    let mut device = SimDevice::new(true, true);
    let mut alloc: DescriptorAllocator<u64, u64> = DescriptorAllocator::new();
    let layout = DescriptorTotalCount { uniform_buffer: 2, sampler: 1, ..Default::default() };
    let mut sets = alloc.allocate(&mut device, &LAYOUT, flags(), &layout, 3).unwrap();
    // capacity == remaining + what the live sets consume, per kind.
    let cap = alloc.pool_capacity(0);
    let rem = alloc.pool_remaining(0);
    assert_eq!(cap.uniform_buffer, rem.uniform_buffer + 6);
    assert_eq!(cap.sampler, rem.sampler + 3);
    let one = vec![sets.pop().unwrap()];
    alloc.free(&mut device, one);
    let rem = alloc.pool_remaining(0);
    assert_eq!(cap.uniform_buffer, rem.uniform_buffer + 4);
    assert_eq!(cap.sampler, rem.sampler + 2);
    alloc.free(&mut device, sets);
    assert_eq!(alloc.pool_count(), 0);
}

#[test]
fn teardown_destroys_everything_and_is_idempotent() {
    let mut device = SimDevice::new(true, true);
    let mut alloc: DescriptorAllocator<u64, u64> = DescriptorAllocator::new();
    let _held = alloc
        .allocate(&mut device, &LAYOUT, flags(), &uniform_buffers(2), 2)
        .unwrap();
    let more = DescriptorTotalCount { storage_buffer: 200, ..Default::default() };
    let _held2 = alloc.allocate(&mut device, &LAYOUT, flags(), &more, 1).unwrap();
    assert_eq!(alloc.pool_count(), 2);
    // Full teardown destroys pools even though sets are still live.
    alloc.teardown(&mut device);
    assert_eq!(alloc.pool_count(), 0);
    // A second teardown has nothing left to destroy and is a no-op.
    alloc.teardown(&mut device);
    assert_eq!(alloc.pool_count(), 0);
}

#[test]
fn registry_can_be_reused_after_teardown() {
    let mut device = SimDevice::new(true, true);
    let mut alloc: DescriptorAllocator<u64, u64> = DescriptorAllocator::new();
    let _old = alloc
        .allocate(&mut device, &LAYOUT, flags(), &uniform_buffers(1), 1)
        .unwrap();
    alloc.teardown(&mut device);
    let sets = alloc
        .allocate(&mut device, &LAYOUT, flags(), &uniform_buffers(1), 1)
        .unwrap();
    assert_eq!(sets.len(), 1);
    assert_eq!(alloc.pool_count(), 1);
    alloc.free(&mut device, sets);
    assert_eq!(alloc.pool_count(), 0);
}

#[test]
fn descriptor_set_reports_its_raw_handle() {
    let mut device = SimDevice::new(true, true);
    let mut alloc: DescriptorAllocator<u64, u64> = DescriptorAllocator::new();
    let sets = alloc
        .allocate(&mut device, &LAYOUT, flags(), &uniform_buffers(1), 2)
        .unwrap();
    let r0 = *sets[0].raw();
    let r1 = *sets[1].raw();
    assert_ne!(r0, r1);
    alloc.free(&mut device, sets);
}
