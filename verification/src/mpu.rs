//! The interface to an ARMv8-M MPU, with the model of its state that the
//! rest of the library reasons about.
use vstd::prelude::*;

use crate::attributes::MemoryAttributes;
use crate::region::{AttributeIndex, Region, RegionToken};
use crate::regs::Control;

verus! {

/// A property of values about which nothing is known.
#[verifier::opaque]
pub closed spec fn unconstrained<T>(x: T) -> bool {
    true
}

/// A write made to an MPU: attribute slot `index` set to some attributes,
/// region `number` configured, or the control register set.
#[derive(Debug, Clone, Copy, PartialEq, Eq, Structural)]
pub enum MpuWrite {
    /// Attribute slot `index` set to these attributes.
    Attributes(u8, MemoryAttributes),
    /// Region `number` configured as this region.
    Region(u8, Region),
    /// The control register set to this value.
    Control(Control),
}

/// An implementation of the ARMv8-M MPU.
///
/// The state of an MPU is described by the number of regions it supports,
/// the memory attributes in its eight attribute slots, the configuration of
/// each of its regions, and its control register. Reading a part of that
/// state gives what was last written to it, and writing one part leaves the
/// others as they were. The model also records every write made to the MPU,
/// in order, so that contracts can say which writes an operation makes.
///
/// The five model functions describe that state. An implementation verified
/// with this library defines them and is held to the contracts below. One
/// written outside Verus cannot define them and keeps their defaults, which
/// say nothing: each default is a value chosen for the MPU value (and index)
/// about which nothing is known, so different states may have different
/// models. The contracts of such an implementation are what it promises
/// without proof.
pub trait MpuImpl {
    /// The number of regions this MPU supports.
    closed spec fn region_count(&self) -> nat {
        choose|n: nat| #[trigger] unconstrained((n, self))
    }

    /// The memory attributes held in attribute slot `index` (0 to 7).
    closed spec fn attribute_at(&self, index: nat) -> MemoryAttributes {
        choose|a: MemoryAttributes| #[trigger] unconstrained((a, self, index))
    }

    /// The configuration of region `index`.
    closed spec fn region_at(&self, index: nat) -> Region {
        choose|r: Region| #[trigger] unconstrained((r, self, index))
    }

    /// The value of the control register.
    closed spec fn control_register(&self) -> Control {
        choose|c: Control| #[trigger] unconstrained((c, self))
    }

    /// The writes made to this MPU so far, oldest first.
    closed spec fn writes(&self) -> Seq<MpuWrite> {
        choose|w: Seq<MpuWrite>| #[trigger] unconstrained((w, self))
    }

    /// The amount of regions supported by this MPU.
    fn regions(&self) -> (r: u8)
        ensures
            r == self.region_count(),
    ;

    /// Read the memory attributes configuration for the item at
    /// index `index`.
    fn attributes(&self, index: AttributeIndex) -> (r: MemoryAttributes)
        ensures
            r == self.attribute_at(index@),
    ;

    /// Set the memory attributes configuration for the item at
    /// index `index` to `attrs`.
    fn set_attributes(&mut self, index: AttributeIndex, attrs: MemoryAttributes)
        ensures
            final(self).attribute_at(index@) == attrs,
            forall|i: nat|
                i != index@ ==> #[trigger] final(self).attribute_at(i) == old(self).attribute_at(i),
            final(self).region_count() == old(self).region_count(),
            forall|i: nat| #[trigger] final(self).region_at(i) == old(self).region_at(i),
            final(self).control_register() == old(self).control_register(),
            final(self).writes() == old(self).writes().push(
                MpuWrite::Attributes(index@ as u8, attrs),
            ),
    ;

    /// Read the control register.
    fn control(&self) -> (r: Control)
        ensures
            r == self.control_register(),
    ;

    /// Set the control register to `control`.
    fn set_control(&mut self, control: Control)
        ensures
            final(self).control_register() == control,
            forall|i: nat| #[trigger] final(self).attribute_at(i) == old(self).attribute_at(i),
            final(self).region_count() == old(self).region_count(),
            forall|i: nat| #[trigger] final(self).region_at(i) == old(self).region_at(i),
            final(self).writes() == old(self).writes().push(MpuWrite::Control(control)),
    ;

    /// Get the configuration of the region associated with `token`.
    fn region(&self, token: &RegionToken) -> (r: Region)
        requires
            token@ < self.region_count(),
        ensures
            r == self.region_at(token@),
    ;

    /// Set the configuration of the region associated with `token` to
    /// `region`.
    fn set_region(&mut self, token: &mut RegionToken, region: &Region)
        requires
            old(token)@ < old(self).region_count(),
        ensures
            final(token)@ == old(token)@,
            final(self).region_at(old(token)@) == *region,
            forall|i: nat|
                i != old(token)@ ==> #[trigger] final(self).region_at(i) == old(self).region_at(i),
            final(self).region_count() == old(self).region_count(),
            forall|i: nat| #[trigger] final(self).attribute_at(i) == old(self).attribute_at(i),
            final(self).control_register() == old(self).control_register(),
            final(self).writes() == old(self).writes().push(
                MpuWrite::Region(old(token)@ as u8, *region),
            ),
    ;
}

/// `a` and `b` hold the same attributes in every slot.
pub open spec fn same_attributes<M: MpuImpl>(a: M, b: M) -> bool {
    forall|i: nat| #[trigger] a.attribute_at(i) == b.attribute_at(i)
}

/// `a` and `b` support the same number of regions and configure every
/// region alike.
pub open spec fn same_regions<M: MpuImpl>(a: M, b: M) -> bool {
    &&& a.region_count() == b.region_count()
    &&& forall|i: nat| #[trigger] a.region_at(i) == b.region_at(i)
}

/// `b` is `a` with nothing but region `index` changed, to `region`.
pub open spec fn region_updated<M: MpuImpl>(a: M, b: M, index: nat, region: Region) -> bool {
    &&& b.region_count() == a.region_count()
    &&& b.region_at(index) == region
    &&& forall|i: nat| i != index ==> #[trigger] b.region_at(i) == a.region_at(i)
    &&& same_attributes(a, b)
    &&& b.control_register() == a.control_register()
    &&& b.writes() == a.writes().push(MpuWrite::Region(index as u8, region))
}

/// `b` is `a` with nothing but attribute slot `index` changed, to `attrs`.
pub open spec fn attributes_updated<M: MpuImpl>(
    a: M,
    b: M,
    index: nat,
    attrs: MemoryAttributes,
) -> bool {
    &&& b.attribute_at(index) == attrs
    &&& forall|i: nat| i != index ==> #[trigger] b.attribute_at(i) == a.attribute_at(i)
    &&& same_regions(a, b)
    &&& b.control_register() == a.control_register()
    &&& b.writes() == a.writes().push(MpuWrite::Attributes(index as u8, attrs))
}

/// `b` is `a` with nothing but the control register changed, to `control`.
pub open spec fn control_updated<M: MpuImpl>(a: M, b: M, control: Control) -> bool {
    &&& b.control_register() == control
    &&& same_attributes(a, b)
    &&& same_regions(a, b)
    &&& b.writes() == a.writes().push(MpuWrite::Control(control))
}

/// No two distinct enabled regions of `mpu` overlap.
pub open spec fn enabled_regions_disjoint<M: MpuImpl>(mpu: M) -> bool {
    forall|i: nat, j: nat|
        #![trigger mpu.region_at(i), mpu.region_at(j)]
        i < mpu.region_count() && j < mpu.region_count() && i != j ==> match (
            mpu.region_at(i),
            mpu.region_at(j),
        ) {
            (Region::Enabled(a), Region::Enabled(b)) => !a.range.overlaps_range(b.range),
            _ => true,
        }
}

/// Reading an attribute slot after writing it gives back what was written,
/// and the other slots keep what they held.
pub proof fn lemma_attributes_read_after_write<M: MpuImpl>(
    before: M,
    after: M,
    index: nat,
    attrs: MemoryAttributes,
    other: nat,
)
    requires
        attributes_updated(before, after, index, attrs),
    ensures
        after.attribute_at(index) == attrs,
        other != index ==> after.attribute_at(other) == before.attribute_at(other),
        after.region_at(other) == before.region_at(other),
        after.control_register() == before.control_register(),
        after.writes().len() == before.writes().len() + 1,
        after.writes().last() == MpuWrite::Attributes(index as u8, attrs),
{
}

/// Reading a region after writing it gives back what was written, and the
/// other regions keep their configurations.
pub proof fn lemma_region_read_after_write<M: MpuImpl>(
    before: M,
    after: M,
    index: nat,
    region: Region,
    other: nat,
)
    requires
        region_updated(before, after, index, region),
    ensures
        after.region_at(index) == region,
        other != index ==> after.region_at(other) == before.region_at(other),
        after.attribute_at(other) == before.attribute_at(other),
        after.control_register() == before.control_register(),
        after.writes().len() == before.writes().len() + 1,
        after.writes().last() == MpuWrite::Region(index as u8, region),
{
}

/// Reading the control register after writing it gives back what was
/// written, and the attributes and regions are unchanged.
pub proof fn lemma_control_read_after_write<M: MpuImpl>(
    before: M,
    after: M,
    control: Control,
    index: nat,
)
    requires
        control_updated(before, after, control),
    ensures
        after.control_register() == control,
        after.attribute_at(index) == before.attribute_at(index),
        after.region_at(index) == before.region_at(index),
        after.region_count() == before.region_count(),
        after.writes().len() == before.writes().len() + 1,
        after.writes().last() == MpuWrite::Control(control),
{
}

} // verus!
