//! High-level support for the Memory Protection Unit (MPU)
//! on ARM thumbv8-m based microcontrollers.
//!
//! The MPU supports up to 8 distinct memory attribute configurations,
//! and 8 or 16 region configurations.
//!
//! - [`attributes`]: memory attributes and their 8-bit encoding.
//! - [`range`]: the address ranges of regions.
//! - [`region`]: region configurations and region tokens.
//! - [`regs`]: the MPU's register layout and the conversion to and from it.
//! - [`mpu`]: the [`MpuImpl`] interface and the model of an MPU's state.
//! - [`ll`]: [`LlMpu`], which only checks that enabled regions do not overlap.
//! - [`allocator`]: [`AllocMpu`], which allocates attribute slots and regions.
pub mod allocator;
pub mod attributes;
pub mod ll;
pub mod mpu;
mod outside;
pub mod range;
pub mod region;
pub mod regs;

pub use allocator::{AllocMpu, DeviceRegion, NormalRegion, RegionGroup, RegionGroupError};
pub use attributes::{
    DeviceMemoryAttributes, MemoryAttributes, NormalMemoryAttributes, TransientAllocations,
};
pub use ll::{LlMpu, OverlappingRanges};
pub use mpu::{MpuImpl, MpuWrite};
pub use range::{RegionRange, RegionRangeError};
pub use region::{
    AccessPermissions, AttributeIndex, Region, RegionConfig, RegionToken, Shareability,
};
pub use regs::Control;
