//! Fixed-shape per-kind descriptor counts and their component-wise arithmetic.

use vstd::prelude::*;

verus! {

/// Number of descriptors of each kind, one counter per descriptor kind the
/// system knows about. The shape is fixed: eleven ordinary kinds, two
/// inline-uniform-block counters and one acceleration-structure counter.
/// All counters default to zero; arithmetic is component-wise and never
/// saturates (overflow is rejected, not clamped).
#[derive(Clone, Copy, Debug, PartialEq, Eq, Structural)]
pub struct DescriptorTotalCount {
    pub sampler: u32,
    pub combined_image_sampler: u32,
    pub sampled_image: u32,
    pub storage_image: u32,
    pub uniform_texel_buffer: u32,
    pub storage_texel_buffer: u32,
    pub uniform_buffer: u32,
    pub storage_buffer: u32,
    pub uniform_buffer_dynamic: u32,
    pub storage_buffer_dynamic: u32,
    pub input_attachment: u32,
    pub acceleration_structure: u32,
    pub inline_uniform_block_bytes: u32,
    pub inline_uniform_block_bindings: u32,
}

/// Mathematical counterpart of [`DescriptorTotalCount`]: one unbounded
/// integer per kind. Sums over many pools are stated over this type, where
/// no machine width can overflow.
pub ghost struct KindTotals {
    pub sampler: int,
    pub combined_image_sampler: int,
    pub sampled_image: int,
    pub storage_image: int,
    pub uniform_texel_buffer: int,
    pub storage_texel_buffer: int,
    pub uniform_buffer: int,
    pub storage_buffer: int,
    pub uniform_buffer_dynamic: int,
    pub storage_buffer_dynamic: int,
    pub input_attachment: int,
    pub acceleration_structure: int,
    pub inline_uniform_block_bytes: int,
    pub inline_uniform_block_bindings: int,
}

impl KindTotals {
    /// The all-zero vector.
    pub open spec fn zero() -> KindTotals {
        KindTotals {
            sampler: 0,
            combined_image_sampler: 0,
            sampled_image: 0,
            storage_image: 0,
            uniform_texel_buffer: 0,
            storage_texel_buffer: 0,
            uniform_buffer: 0,
            storage_buffer: 0,
            uniform_buffer_dynamic: 0,
            storage_buffer_dynamic: 0,
            input_attachment: 0,
            acceleration_structure: 0,
            inline_uniform_block_bytes: 0,
            inline_uniform_block_bindings: 0,
        }
    }

    /// Component-wise sum.
    pub open spec fn add(self, other: KindTotals) -> KindTotals {
        KindTotals {
            sampler: self.sampler + other.sampler,
            combined_image_sampler: self.combined_image_sampler + other.combined_image_sampler,
            sampled_image: self.sampled_image + other.sampled_image,
            storage_image: self.storage_image + other.storage_image,
            uniform_texel_buffer: self.uniform_texel_buffer + other.uniform_texel_buffer,
            storage_texel_buffer: self.storage_texel_buffer + other.storage_texel_buffer,
            uniform_buffer: self.uniform_buffer + other.uniform_buffer,
            storage_buffer: self.storage_buffer + other.storage_buffer,
            uniform_buffer_dynamic: self.uniform_buffer_dynamic + other.uniform_buffer_dynamic,
            storage_buffer_dynamic: self.storage_buffer_dynamic + other.storage_buffer_dynamic,
            input_attachment: self.input_attachment + other.input_attachment,
            acceleration_structure: self.acceleration_structure + other.acceleration_structure,
            inline_uniform_block_bytes: self.inline_uniform_block_bytes
                + other.inline_uniform_block_bytes,
            inline_uniform_block_bindings: self.inline_uniform_block_bindings
                + other.inline_uniform_block_bindings,
        }
    }

    /// Component-wise difference.
    pub open spec fn sub(self, other: KindTotals) -> KindTotals {
        KindTotals {
            sampler: self.sampler - other.sampler,
            combined_image_sampler: self.combined_image_sampler - other.combined_image_sampler,
            sampled_image: self.sampled_image - other.sampled_image,
            storage_image: self.storage_image - other.storage_image,
            uniform_texel_buffer: self.uniform_texel_buffer - other.uniform_texel_buffer,
            storage_texel_buffer: self.storage_texel_buffer - other.storage_texel_buffer,
            uniform_buffer: self.uniform_buffer - other.uniform_buffer,
            storage_buffer: self.storage_buffer - other.storage_buffer,
            uniform_buffer_dynamic: self.uniform_buffer_dynamic - other.uniform_buffer_dynamic,
            storage_buffer_dynamic: self.storage_buffer_dynamic - other.storage_buffer_dynamic,
            input_attachment: self.input_attachment - other.input_attachment,
            acceleration_structure: self.acceleration_structure - other.acceleration_structure,
            inline_uniform_block_bytes: self.inline_uniform_block_bytes
                - other.inline_uniform_block_bytes,
            inline_uniform_block_bindings: self.inline_uniform_block_bindings
                - other.inline_uniform_block_bindings,
        }
    }

    /// Every component multiplied by `n`.
    pub open spec fn scale(self, n: int) -> KindTotals {
        KindTotals {
            sampler: self.sampler * n,
            combined_image_sampler: self.combined_image_sampler * n,
            sampled_image: self.sampled_image * n,
            storage_image: self.storage_image * n,
            uniform_texel_buffer: self.uniform_texel_buffer * n,
            storage_texel_buffer: self.storage_texel_buffer * n,
            uniform_buffer: self.uniform_buffer * n,
            storage_buffer: self.storage_buffer * n,
            uniform_buffer_dynamic: self.uniform_buffer_dynamic * n,
            storage_buffer_dynamic: self.storage_buffer_dynamic * n,
            input_attachment: self.input_attachment * n,
            acceleration_structure: self.acceleration_structure * n,
            inline_uniform_block_bytes: self.inline_uniform_block_bytes * n,
            inline_uniform_block_bindings: self.inline_uniform_block_bindings * n,
        }
    }

    /// Every component is representable as a `u32`.
    pub open spec fn in_u32_range(self) -> bool {
        &&& 0 <= self.sampler <= u32::MAX
        &&& 0 <= self.combined_image_sampler <= u32::MAX
        &&& 0 <= self.sampled_image <= u32::MAX
        &&& 0 <= self.storage_image <= u32::MAX
        &&& 0 <= self.uniform_texel_buffer <= u32::MAX
        &&& 0 <= self.storage_texel_buffer <= u32::MAX
        &&& 0 <= self.uniform_buffer <= u32::MAX
        &&& 0 <= self.storage_buffer <= u32::MAX
        &&& 0 <= self.uniform_buffer_dynamic <= u32::MAX
        &&& 0 <= self.storage_buffer_dynamic <= u32::MAX
        &&& 0 <= self.input_attachment <= u32::MAX
        &&& 0 <= self.acceleration_structure <= u32::MAX
        &&& 0 <= self.inline_uniform_block_bytes <= u32::MAX
        &&& 0 <= self.inline_uniform_block_bindings <= u32::MAX
    }

    /// Component-wise `<=`.
    pub open spec fn le(self, other: KindTotals) -> bool {
        &&& self.sampler <= other.sampler
        &&& self.combined_image_sampler <= other.combined_image_sampler
        &&& self.sampled_image <= other.sampled_image
        &&& self.storage_image <= other.storage_image
        &&& self.uniform_texel_buffer <= other.uniform_texel_buffer
        &&& self.storage_texel_buffer <= other.storage_texel_buffer
        &&& self.uniform_buffer <= other.uniform_buffer
        &&& self.storage_buffer <= other.storage_buffer
        &&& self.uniform_buffer_dynamic <= other.uniform_buffer_dynamic
        &&& self.storage_buffer_dynamic <= other.storage_buffer_dynamic
        &&& self.input_attachment <= other.input_attachment
        &&& self.acceleration_structure <= other.acceleration_structure
        &&& self.inline_uniform_block_bytes <= other.inline_uniform_block_bytes
        &&& self.inline_uniform_block_bindings <= other.inline_uniform_block_bindings
    }

    /// The vector asks for inline-uniform-block descriptors.
    pub open spec fn needs_inline_uniform_block(self) -> bool {
        self.inline_uniform_block_bytes != 0 || self.inline_uniform_block_bindings != 0
    }

    /// The vector asks for acceleration-structure descriptors.
    pub open spec fn needs_acceleration_structure(self) -> bool {
        self.acceleration_structure != 0
    }

    /// Every component is non-negative.
    pub open spec fn non_negative(self) -> bool {
        &&& 0 <= self.sampler
        &&& 0 <= self.combined_image_sampler
        &&& 0 <= self.sampled_image
        &&& 0 <= self.storage_image
        &&& 0 <= self.uniform_texel_buffer
        &&& 0 <= self.storage_texel_buffer
        &&& 0 <= self.uniform_buffer
        &&& 0 <= self.storage_buffer
        &&& 0 <= self.uniform_buffer_dynamic
        &&& 0 <= self.storage_buffer_dynamic
        &&& 0 <= self.input_attachment
        &&& 0 <= self.acceleration_structure
        &&& 0 <= self.inline_uniform_block_bytes
        &&& 0 <= self.inline_uniform_block_bindings
    }
}

impl DescriptorTotalCount {
    /// The mathematical value of this counter vector.
    pub open spec fn totals(self) -> KindTotals {
        KindTotals {
            sampler: self.sampler as int,
            combined_image_sampler: self.combined_image_sampler as int,
            sampled_image: self.sampled_image as int,
            storage_image: self.storage_image as int,
            uniform_texel_buffer: self.uniform_texel_buffer as int,
            storage_texel_buffer: self.storage_texel_buffer as int,
            uniform_buffer: self.uniform_buffer as int,
            storage_buffer: self.storage_buffer as int,
            uniform_buffer_dynamic: self.uniform_buffer_dynamic as int,
            storage_buffer_dynamic: self.storage_buffer_dynamic as int,
            input_attachment: self.input_attachment as int,
            acceleration_structure: self.acceleration_structure as int,
            inline_uniform_block_bytes: self.inline_uniform_block_bytes as int,
            inline_uniform_block_bindings: self.inline_uniform_block_bindings as int,
        }
    }

    /// Component-wise `<=`.
    pub open spec fn all_le(self, other: DescriptorTotalCount) -> bool {
        &&& self.sampler <= other.sampler
        &&& self.combined_image_sampler <= other.combined_image_sampler
        &&& self.sampled_image <= other.sampled_image
        &&& self.storage_image <= other.storage_image
        &&& self.uniform_texel_buffer <= other.uniform_texel_buffer
        &&& self.storage_texel_buffer <= other.storage_texel_buffer
        &&& self.uniform_buffer <= other.uniform_buffer
        &&& self.storage_buffer <= other.storage_buffer
        &&& self.uniform_buffer_dynamic <= other.uniform_buffer_dynamic
        &&& self.storage_buffer_dynamic <= other.storage_buffer_dynamic
        &&& self.input_attachment <= other.input_attachment
        &&& self.acceleration_structure <= other.acceleration_structure
        &&& self.inline_uniform_block_bytes <= other.inline_uniform_block_bytes
        &&& self.inline_uniform_block_bindings <= other.inline_uniform_block_bindings
    }

    /// The request asks for inline-uniform-block descriptors.
    pub open spec fn needs_inline_uniform_block(self) -> bool {
        self.inline_uniform_block_bytes != 0 || self.inline_uniform_block_bindings != 0
    }

    /// The request asks for acceleration-structure descriptors.
    pub open spec fn needs_acceleration_structure(self) -> bool {
        self.acceleration_structure != 0
    }

    /// Component-wise sum. The caller must know that no component overflows;
    /// within the allocator this always follows from a pool's capacity bound.
    pub fn add(&self, other: &DescriptorTotalCount) -> (r: DescriptorTotalCount)
        requires
            self.totals().add(other.totals()).in_u32_range(),
        ensures
            r.totals() == self.totals().add(other.totals()),
    {
        DescriptorTotalCount {
            sampler: self.sampler + other.sampler,
            combined_image_sampler: self.combined_image_sampler + other.combined_image_sampler,
            sampled_image: self.sampled_image + other.sampled_image,
            storage_image: self.storage_image + other.storage_image,
            uniform_texel_buffer: self.uniform_texel_buffer + other.uniform_texel_buffer,
            storage_texel_buffer: self.storage_texel_buffer + other.storage_texel_buffer,
            uniform_buffer: self.uniform_buffer + other.uniform_buffer,
            storage_buffer: self.storage_buffer + other.storage_buffer,
            uniform_buffer_dynamic: self.uniform_buffer_dynamic + other.uniform_buffer_dynamic,
            storage_buffer_dynamic: self.storage_buffer_dynamic + other.storage_buffer_dynamic,
            input_attachment: self.input_attachment + other.input_attachment,
            acceleration_structure: self.acceleration_structure + other.acceleration_structure,
            inline_uniform_block_bytes: self.inline_uniform_block_bytes
                + other.inline_uniform_block_bytes,
            inline_uniform_block_bindings: self.inline_uniform_block_bindings
                + other.inline_uniform_block_bindings,
        }
    }

    /// Component-wise difference. Driving any counter negative would mean the
    /// caller's own bookkeeping is inconsistent, so it is ruled out up front
    /// rather than reported as a recoverable error.
    pub fn sub(&self, other: &DescriptorTotalCount) -> (r: DescriptorTotalCount)
        requires
            other.all_le(*self),
        ensures
            r.totals() == self.totals().sub(other.totals()),
    {
        DescriptorTotalCount {
            sampler: self.sampler - other.sampler,
            combined_image_sampler: self.combined_image_sampler - other.combined_image_sampler,
            sampled_image: self.sampled_image - other.sampled_image,
            storage_image: self.storage_image - other.storage_image,
            uniform_texel_buffer: self.uniform_texel_buffer - other.uniform_texel_buffer,
            storage_texel_buffer: self.storage_texel_buffer - other.storage_texel_buffer,
            uniform_buffer: self.uniform_buffer - other.uniform_buffer,
            storage_buffer: self.storage_buffer - other.storage_buffer,
            uniform_buffer_dynamic: self.uniform_buffer_dynamic - other.uniform_buffer_dynamic,
            storage_buffer_dynamic: self.storage_buffer_dynamic - other.storage_buffer_dynamic,
            input_attachment: self.input_attachment - other.input_attachment,
            acceleration_structure: self.acceleration_structure - other.acceleration_structure,
            inline_uniform_block_bytes: self.inline_uniform_block_bytes
                - other.inline_uniform_block_bytes,
            inline_uniform_block_bindings: self.inline_uniform_block_bindings
                - other.inline_uniform_block_bindings,
        }
    }

    /// Every counter of `self` fits within the corresponding counter of
    /// `capacity`.
    pub fn fits_within(&self, capacity: &DescriptorTotalCount) -> (r: bool)
        ensures
            r == self.all_le(*capacity),
    {
        self.sampler <= capacity.sampler
            && self.combined_image_sampler <= capacity.combined_image_sampler
            && self.sampled_image <= capacity.sampled_image
            && self.storage_image <= capacity.storage_image
            && self.uniform_texel_buffer <= capacity.uniform_texel_buffer
            && self.storage_texel_buffer <= capacity.storage_texel_buffer
            && self.uniform_buffer <= capacity.uniform_buffer
            && self.storage_buffer <= capacity.storage_buffer
            && self.uniform_buffer_dynamic <= capacity.uniform_buffer_dynamic
            && self.storage_buffer_dynamic <= capacity.storage_buffer_dynamic
            && self.input_attachment <= capacity.input_attachment
            && self.acceleration_structure <= capacity.acceleration_structure
            && self.inline_uniform_block_bytes <= capacity.inline_uniform_block_bytes
            && self.inline_uniform_block_bindings <= capacity.inline_uniform_block_bindings
    }

    /// Every counter is zero.
    pub fn is_zero(&self) -> (r: bool)
        ensures
            r == (self.totals() == KindTotals::zero()),
    {
        let r = self.sampler == 0 && self.combined_image_sampler == 0 && self.sampled_image == 0
            && self.storage_image == 0 && self.uniform_texel_buffer == 0
            && self.storage_texel_buffer == 0 && self.uniform_buffer == 0
            && self.storage_buffer == 0 && self.uniform_buffer_dynamic == 0
            && self.storage_buffer_dynamic == 0 && self.input_attachment == 0
            && self.acceleration_structure == 0 && self.inline_uniform_block_bytes == 0
            && self.inline_uniform_block_bindings == 0;
        proof {
            if r {
                assert(self.totals() == KindTotals::zero());
            }
        }
        r
    }

    /// Every counter multiplied by `n`, or `None` if any product overflows a
    /// `u32`. Used to turn a per-set layout count into the total a request
    /// for `n` sets consumes.
    pub fn checked_scale(&self, n: u32) -> (r: Option<DescriptorTotalCount>)
        ensures
            match r {
                Some(t) => {
                    &&& self.totals().scale(n as int).in_u32_range()
                    &&& t.totals() == self.totals().scale(n as int)
                },
                None => !self.totals().scale(n as int).in_u32_range(),
            },
    {
        let sampler = match self.sampler.checked_mul(n) {
            Some(v) => v,
            None => { return None; },
        };
        let combined_image_sampler = match self.combined_image_sampler.checked_mul(n) {
            Some(v) => v,
            None => { return None; },
        };
        let sampled_image = match self.sampled_image.checked_mul(n) {
            Some(v) => v,
            None => { return None; },
        };
        let storage_image = match self.storage_image.checked_mul(n) {
            Some(v) => v,
            None => { return None; },
        };
        let uniform_texel_buffer = match self.uniform_texel_buffer.checked_mul(n) {
            Some(v) => v,
            None => { return None; },
        };
        let storage_texel_buffer = match self.storage_texel_buffer.checked_mul(n) {
            Some(v) => v,
            None => { return None; },
        };
        let uniform_buffer = match self.uniform_buffer.checked_mul(n) {
            Some(v) => v,
            None => { return None; },
        };
        let storage_buffer = match self.storage_buffer.checked_mul(n) {
            Some(v) => v,
            None => { return None; },
        };
        let uniform_buffer_dynamic = match self.uniform_buffer_dynamic.checked_mul(n) {
            Some(v) => v,
            None => { return None; },
        };
        let storage_buffer_dynamic = match self.storage_buffer_dynamic.checked_mul(n) {
            Some(v) => v,
            None => { return None; },
        };
        let input_attachment = match self.input_attachment.checked_mul(n) {
            Some(v) => v,
            None => { return None; },
        };
        let acceleration_structure = match self.acceleration_structure.checked_mul(n) {
            Some(v) => v,
            None => { return None; },
        };
        let inline_uniform_block_bytes = match self.inline_uniform_block_bytes.checked_mul(n) {
            Some(v) => v,
            None => { return None; },
        };
        let inline_uniform_block_bindings = match self.inline_uniform_block_bindings.checked_mul(
            n,
        ) {
            Some(v) => v,
            None => { return None; },
        };
        Some(
            DescriptorTotalCount {
                sampler,
                combined_image_sampler,
                sampled_image,
                storage_image,
                uniform_texel_buffer,
                storage_texel_buffer,
                uniform_buffer,
                storage_buffer,
                uniform_buffer_dynamic,
                storage_buffer_dynamic,
                input_attachment,
                acceleration_structure,
                inline_uniform_block_bytes,
                inline_uniform_block_bindings,
            },
        )
    }

    /// Every counter doubled, clamping at `u32::MAX`. The result always
    /// covers `self`, and a zero counter stays zero, so a pool sized from the
    /// result never introduces a descriptor kind the request did not ask for.
    pub fn saturating_doubled(&self) -> (r: DescriptorTotalCount)
        ensures
            self.all_le(r),
            r.needs_inline_uniform_block() == self.needs_inline_uniform_block(),
            r.needs_acceleration_structure() == self.needs_acceleration_structure(),
    {
        DescriptorTotalCount {
            sampler: double_or_max(self.sampler),
            combined_image_sampler: double_or_max(self.combined_image_sampler),
            sampled_image: double_or_max(self.sampled_image),
            storage_image: double_or_max(self.storage_image),
            uniform_texel_buffer: double_or_max(self.uniform_texel_buffer),
            storage_texel_buffer: double_or_max(self.storage_texel_buffer),
            uniform_buffer: double_or_max(self.uniform_buffer),
            storage_buffer: double_or_max(self.storage_buffer),
            uniform_buffer_dynamic: double_or_max(self.uniform_buffer_dynamic),
            storage_buffer_dynamic: double_or_max(self.storage_buffer_dynamic),
            input_attachment: double_or_max(self.input_attachment),
            acceleration_structure: double_or_max(self.acceleration_structure),
            inline_uniform_block_bytes: double_or_max(self.inline_uniform_block_bytes),
            inline_uniform_block_bindings: double_or_max(self.inline_uniform_block_bindings),
        }
    }
}

/// `2 * v`, clamping at `u32::MAX`.
fn double_or_max(v: u32) -> (r: u32)
    ensures
        v <= r,
        (r == 0) == (v == 0),
{
    if v > u32::MAX / 2 {
        u32::MAX
    } else {
        v * 2
    }
}

impl Default for DescriptorTotalCount {
    /// All counters zero.
    fn default() -> (r: Self)
        ensures
            r.totals() == KindTotals::zero(),
    {
        DescriptorTotalCount {
            sampler: 0,
            combined_image_sampler: 0,
            sampled_image: 0,
            storage_image: 0,
            uniform_texel_buffer: 0,
            storage_texel_buffer: 0,
            uniform_buffer: 0,
            storage_buffer: 0,
            uniform_buffer_dynamic: 0,
            storage_buffer_dynamic: 0,
            input_attachment: 0,
            acceleration_structure: 0,
            inline_uniform_block_bytes: 0,
            inline_uniform_block_bindings: 0,
        }
    }
}

} // verus!
