//! A verified descriptor-set sub-allocator.
//!
//! GPU APIs hand out shader resource descriptors from explicitly sized pools:
//! a pool is created with fixed per-kind descriptor capacities and a fixed
//! maximum number of descriptor sets, and both are consumed until sets are
//! freed or the pool is destroyed. This crate multiplexes many irregular
//! allocation requests onto a small, dynamically grown set of such pools.
//!
//! The crate is organised around three pieces:
//! * [`count::DescriptorTotalCount`], the fixed-shape vector of per-kind
//!   descriptor counts, with component-wise arithmetic;
//! * [`device::Device`], the capability contract that a graphics-API binding
//!   must satisfy (create/destroy pool, allocate/free sets);
//! * [`allocator::DescriptorAllocator`], the pool registry that selects or
//!   creates a pool for each request and recycles pools that become empty.
//!
//! [`sim::SimDevice`] is an in-memory implementation of the device contract,
//! showing that the contract is satisfiable and letting the allocator run
//! without a GPU.

use vstd::prelude::*;

pub mod allocator;
pub mod count;
pub mod device;
pub mod sim;

pub use allocator::DescriptorAllocator;
pub use allocator::DescriptorSet;
pub use count::DescriptorTotalCount;
pub use count::KindTotals;
pub use device::AllocateError;
pub use device::AllocationError;
pub use device::CreatePoolError;
pub use device::DescriptorPool;
pub use device::DescriptorPoolCreateFlags;
pub use device::Device;
pub use device::OutOfMemory;
pub use sim::SimDevice;

verus! {

} // verus!
