use gpu_descriptor::DescriptorTotalCount;

fn uniform_buffers(n: u32) -> DescriptorTotalCount {
    DescriptorTotalCount { uniform_buffer: n, ..Default::default() }
}

#[test]
fn default_is_zero() {
    let zero = DescriptorTotalCount::default();
    assert!(zero.is_zero());
    assert_eq!(zero.sampler, 0);
    assert_eq!(zero.uniform_buffer, 0);
    assert_eq!(zero.inline_uniform_block_bytes, 0);
    assert_eq!(zero.acceleration_structure, 0);
}

#[test]
fn is_zero_sees_every_counter() {
    let mut c = DescriptorTotalCount::default();
    assert!(c.is_zero());
    c.input_attachment = 1;
    assert!(!c.is_zero());
}

#[test]
fn add_is_component_wise() {
    let a = DescriptorTotalCount { sampler: 1, uniform_buffer: 2, ..Default::default() };
    let b = DescriptorTotalCount { uniform_buffer: 3, storage_buffer: 7, ..Default::default() };
    let sum = a.add(&b);
    assert_eq!(sum.sampler, 1);
    assert_eq!(sum.uniform_buffer, 5);
    assert_eq!(sum.storage_buffer, 7);
    assert_eq!(sum.sampled_image, 0);
}

#[test]
fn sub_undoes_add() {
    let a = DescriptorTotalCount { sampler: 4, storage_image: 9, ..Default::default() };
    let b = DescriptorTotalCount { sampler: 1, storage_image: 5, ..Default::default() };
    let diff = a.add(&b).sub(&b);
    assert_eq!(diff, a);
}

#[test]
fn fits_within_is_component_wise() {
    let small = uniform_buffers(2);
    let big = uniform_buffers(2);
    assert!(small.fits_within(&big));
    let over = uniform_buffers(3);
    assert!(!over.fits_within(&big));
    let mixed = DescriptorTotalCount { sampler: 1, ..Default::default() };
    assert!(!mixed.fits_within(&big));
}

#[test]
fn checked_scale_multiplies_every_counter() {
    let c = DescriptorTotalCount { uniform_buffer: 2, sampler: 3, ..Default::default() };
    let scaled = c.checked_scale(4).unwrap();
    assert_eq!(scaled.uniform_buffer, 8);
    assert_eq!(scaled.sampler, 12);
    assert_eq!(scaled.storage_buffer, 0);
}

#[test]
fn checked_scale_rejects_overflow() {
    let c = DescriptorTotalCount { sampler: u32::MAX, ..Default::default() };
    assert!(c.checked_scale(2).is_none());
    assert!(c.checked_scale(1).is_some());
}

#[test]
fn saturating_doubled_covers_and_keeps_zeroes() {
    let c = DescriptorTotalCount { uniform_buffer: 3, sampler: u32::MAX, ..Default::default() };
    let d = c.saturating_doubled();
    assert_eq!(d.uniform_buffer, 6);
    assert_eq!(d.sampler, u32::MAX);
    assert_eq!(d.storage_buffer, 0);
    assert!(c.fits_within(&d));
}
