//! Low-level access to the MPU.
//!
//! Using the [`LlMpu`] provided by this module requires that the
//! application manages attributes and regions itself. The only validation
//! performed by this implementation is that configured regions do not overlap.
use vstd::prelude::*;

use crate::attributes::MemoryAttributes;
use crate::mpu::{
    MpuImpl, attributes_updated, control_updated, enabled_regions_disjoint, region_updated,
};
use crate::region::{AttributeIndex, Region, RegionConfig, RegionToken};
use crate::regs::{Control, control_bits};

verus! {

/// The provided region range overlaps with another
/// enabled region.
#[derive(Debug, Clone, Copy, PartialEq, Eq, Structural)]
pub struct OverlappingRanges {
    /// The number of the region with which the provided range
    /// overlaps.
    pub region: u8,
    /// The configuration of the overlapping region.
    pub config: RegionConfig,
}

/// Region `other` of `mpu` stands in the way of configuring region `token`
/// as `region`: it is another region of the MPU, it is enabled, and so is
/// `region`, and their ranges overlap.
pub open spec fn conflicts_with<M: MpuImpl>(mpu: M, token: nat, region: Region, other: nat) -> bool {
    &&& other < mpu.region_count()
    &&& other != token
    &&& match (region, mpu.region_at(other)) {
        (Region::Enabled(a), Region::Enabled(b)) => a.range.overlaps_range(b.range),
        _ => false,
    }
}

/// The thumbv8m MPU.
pub struct LlMpu<Impl: MpuImpl> {
    mpu: Impl,
    took_tokens: bool,
}

impl<Impl: MpuImpl> LlMpu<Impl> {
    /// The MPU this value drives.
    pub closed spec fn hardware(&self) -> Impl {
        self.mpu
    }

    /// Whether the region tokens have been handed out.
    pub closed spec fn tokens_taken(&self) -> bool {
        self.took_tokens
    }

    /// Whether [`LlMpu::tokens`] has already handed out the region tokens;
    /// it may do so only once.
    pub fn took_tokens(&self) -> (r: bool)
        ensures
            r == self.tokens_taken(),
    {
        self.took_tokens
    }

    /// Instantiate the MPU.
    pub fn new(mpu: Impl) -> (r: Self)
        ensures
            r.hardware() == mpu,
            !r.tokens_taken(),
    {
        LlMpu { mpu, took_tokens: false }
    }

    /// Get all available region tokens: the tokens of regions
    /// `0..NUM_REGIONS`, in order.
    ///
    /// `NUM_REGIONS` must be 8 or 16, and no greater than the amount of
    /// regions supported by the device's MPU, and `tokens()` may be called
    /// only once.
    pub fn tokens<const NUM_REGIONS: usize>(&mut self) -> (r: Vec<RegionToken>)
        requires
            !old(self).tokens_taken(),
            NUM_REGIONS == 8 || NUM_REGIONS == 16,
            NUM_REGIONS <= old(self).hardware().region_count(),
        ensures
            final(self).tokens_taken(),
            final(self).hardware() == old(self).hardware(),
            r.len() == NUM_REGIONS,
            forall|i: int| 0 <= i < NUM_REGIONS ==> #[trigger] r[i]@ == i,
    {
        self.took_tokens = true;
        let mut tokens: Vec<RegionToken> = Vec::new();
        let mut index: usize = 0;
        while index < NUM_REGIONS
            invariant
                NUM_REGIONS == 8 || NUM_REGIONS == 16,
                index <= NUM_REGIONS,
                tokens.len() == index,
                forall|i: int| 0 <= i < index ==> #[trigger] tokens[i]@ == i,
            decreases NUM_REGIONS - index,
        {
            tokens.push(RegionToken::new(index as u8));
            index += 1;
        }
        tokens
    }

    /// Get the attributes specified at `index`.
    pub fn attributes(&self, index: AttributeIndex) -> (r: MemoryAttributes)
        ensures
            r == self.hardware().attribute_at(index@),
    {
        self.mpu.attributes(index)
    }

    /// Set the attributes at `index` to `attributes`.
    ///
    /// This affect all regions whose `index` is set to `index`.
    pub fn set_attributes(&mut self, index: AttributeIndex, attributes: MemoryAttributes)
        ensures
            attributes_updated(old(self).hardware(), final(self).hardware(), index@, attributes),
            final(self).tokens_taken() == old(self).tokens_taken(),
    {
        self.mpu.set_attributes(index, attributes);
    }

    /// Get the configuration of the region associated with `token`.
    pub fn region(&self, token: &RegionToken) -> (r: Region)
        requires
            token@ < self.hardware().region_count(),
        ensures
            r == self.hardware().region_at(token@),
    {
        self.mpu.region(token)
    }

    /// Set the configuration of the region associated with `token` to `region`.
    ///
    /// [`Err(OverlappingRanges)`](OverlappingRanges) is returned if `region` is a
    /// [`Region::Enabled`], and its `range` overlaps with at least one other
    /// enabled region; the error names the lowest-numbered such region.
    ///
    /// If `Err` is returned, the configuration of `token` is unchanged from the
    /// configuration it had before `set_region` was called.
    pub fn set_region(&mut self, token: &mut RegionToken, region: &Region) -> (r: Result<
        (),
        OverlappingRanges,
    >)
        requires
            old(token)@ < old(self).hardware().region_count(),
        ensures
            final(token)@ == old(token)@,
            final(self).tokens_taken() == old(self).tokens_taken(),
            match r {
                Ok(()) => {
                    &&& forall|j: nat|
                        !#[trigger] conflicts_with(old(self).hardware(), old(token)@, *region, j)
                    &&& region_updated(
                        old(self).hardware(),
                        final(self).hardware(),
                        old(token)@,
                        *region,
                    )
                },
                Err(e) => {
                    &&& conflicts_with(old(self).hardware(), old(token)@, *region, e.region as nat)
                    &&& forall|j: nat|
                        j < e.region ==> !#[trigger] conflicts_with(
                            old(self).hardware(),
                            old(token)@,
                            *region,
                            j,
                        )
                    &&& old(self).hardware().region_at(e.region as nat) == Region::Enabled(
                        e.config,
                    )
                    &&& *final(self) == *old(self)
                },
            },
    {
        let num = token.get();
        if let Region::Enabled(config) = region {
            // Access to overlapping, enabled regions causes the CPU to generate
            // a fault. Check that none of them are overlapping.
            let count = self.regions();
            let mut other_region_num: u8 = 0;
            while other_region_num < count
                invariant
                    *self == *old(self),
                    count == self.mpu.region_count(),
                    num == old(token)@,
                    *region == Region::Enabled(*config),
                    other_region_num <= count,
                    forall|j: nat|
                        j < other_region_num ==> !#[trigger] conflicts_with(
                            self.mpu,
                            num as nat,
                            *region,
                            j,
                        ),
                decreases count - other_region_num,
            {
                if other_region_num != num {
                    let other_region = self.mpu.region(&RegionToken::new(other_region_num));
                    if let Region::Enabled(other_region_config) = other_region {
                        if config.range.overlaps(&other_region_config.range) {
                            return Err(
                                OverlappingRanges {
                                    region: other_region_num,
                                    config: other_region_config,
                                },
                            );
                        }
                    }
                }
                other_region_num += 1;
            }
        }
        self.mpu.set_region(token, region);
        Ok(())
    }

    /// Enable the MPU
    ///
    /// `privileged_sw_may_access_default_map` controls whether
    /// accesses to memory not belonging to any enabled MPU region
    /// by privileged software is allowed according to the default
    /// map (`true`), or if it will cause a fault (`false`). The
    /// bit corresponds to the `PRIVDEFENA` bit in the `MPU_CTRL`
    /// register in ARM documentation.
    ///
    /// Setting the `enable_mpu_in_nmi_and_hardfault` will enable the MPU
    /// in the Non-Maskable Interrupt and HardFault handlers. It corresponds
    /// to the `HFNMIENA` bit in the `MPU_CTRL` register in ARM documentation.
    pub fn enable(
        &mut self,
        privileged_sw_may_access_default_map: bool,
        enable_mpu_in_nmi_and_hardfault: bool,
    )
        ensures
            control_updated(
                old(self).hardware(),
                final(self).hardware(),
                final(self).hardware().control_register(),
            ),
            final(self).hardware().control_register()@ == control_bits(
                true,
                enable_mpu_in_nmi_and_hardfault,
                privileged_sw_may_access_default_map,
            ),
            final(self).hardware().control_register().enable_bit(),
            final(self).hardware().control_register().hfnmiena_bit()
                == enable_mpu_in_nmi_and_hardfault,
            final(self).hardware().control_register().privdefena_bit()
                == privileged_sw_may_access_default_map,
            final(self).tokens_taken() == old(self).tokens_taken(),
    {
        let ctrl = Control::enabled_with(
            enable_mpu_in_nmi_and_hardfault,
            privileged_sw_may_access_default_map,
        );
        self.mpu.set_control(ctrl);
    }

    /// Disable the MPU
    pub fn disable(&mut self)
        ensures
            control_updated(
                old(self).hardware(),
                final(self).hardware(),
                final(self).hardware().control_register(),
            ),
            final(self).hardware().control_register()@ == 0,
            !final(self).hardware().control_register().enable_bit(),
            final(self).tokens_taken() == old(self).tokens_taken(),
    {
        let ctrl = Control::default();
        assert(0u32 & 1 != 1) by (bit_vector);
        self.mpu.set_control(ctrl);
    }

    /// Whether the MPU is enabled.
    pub fn enabled(&self) -> (r: bool)
        ensures
            r == self.hardware().control_register().enable_bit(),
    {
        self.mpu.control().enable()
    }

    /// Whether the PRIVDEFENA bit is set.
    pub fn privdefena(&self) -> (r: bool)
        ensures
            r == self.hardware().control_register().privdefena_bit(),
    {
        self.mpu.control().privdefena()
    }

    /// Whether the HFNMIENA bit is set.
    pub fn hfnmiena(&self) -> (r: bool)
        ensures
            r == self.hardware().control_register().hfnmiena_bit(),
    {
        self.mpu.control().hfnmiena()
    }

    /// Get the number of MPU regions supported by
    /// this MPU.
    pub fn regions(&self) -> (r: u8)
        ensures
            r == self.hardware().region_count(),
    {
        self.mpu.regions()
    }
}

/// Configuring a region with [`LlMpu::set_region`] keeps the enabled regions
/// apart: when no two enabled regions overlap before a successful call, none
/// overlap after it.
pub proof fn lemma_set_region_keeps_regions_disjoint<M: MpuImpl>(
    before: M,
    after: M,
    token: nat,
    region: Region,
)
    requires
        enabled_regions_disjoint(before),
        token < before.region_count(),
        forall|j: nat| !#[trigger] conflicts_with(before, token, region, j),
        region_updated(before, after, token, region),
    ensures
        enabled_regions_disjoint(after),
{
    assert forall|i: nat, j: nat|
        i < after.region_count() && j < after.region_count() && i != j implies match (
            #[trigger] after.region_at(i),
            #[trigger] after.region_at(j),
        ) {
            (Region::Enabled(a), Region::Enabled(b)) => !a.range.overlaps_range(b.range),
            _ => true,
        } by {
        if i == token {
            assert(!conflicts_with(before, token, region, j));
        } else if j == token {
            assert(!conflicts_with(before, token, region, i));
        } else {
            assert(after.region_at(i) == before.region_at(i));
            assert(after.region_at(j) == before.region_at(j));
        }
    }
}

/// A region stands in the way of [`LlMpu::set_region`] exactly when it is
/// another region of the MPU, it and the requested region are both enabled,
/// and their ranges have an address in common. Adjacent ranges do not stand
/// in each other's way.
pub proof fn lemma_conflict_is_shared_address<M: MpuImpl>(
    mpu: M,
    token: nat,
    region: Region,
    other: nat,
)
    requires
        region matches Region::Enabled(a) ==> a.range.well_formed(),
        mpu.region_at(other) matches Region::Enabled(b) ==> b.range.well_formed(),
    ensures
        conflicts_with(mpu, token, region, other) <==> {
            &&& other < mpu.region_count()
            &&& other != token
            &&& region matches Region::Enabled(a)
            &&& mpu.region_at(other) matches Region::Enabled(b)
            &&& exists|x: int|
                #![trigger a.range.contains_address(x)]
                a.range.start_address() <= x <= a.range.end_address() && b.range.start_address()
                    <= x <= b.range.end_address()
        },
{
    if let (Region::Enabled(a), Region::Enabled(b)) = (region, mpu.region_at(other)) {
        if a.range.overlaps_range(b.range) {
            let x = if a.range.start_address() <= b.range.start_address() {
                b.range.start_address() as int
            } else {
                a.range.start_address() as int
            };
            assert(a.range.contains_address(x));
        }
    }
}

} // verus!
