//! MPU with quasi-allocation support.
//!
//! The [`LlMpu`](crate::ll::LlMpu) requires that the application manages
//! tokens and attributes. This implementation allocates them for you, and
//! returns errors in case it cannot accomodate the requested configuration.
use vstd::prelude::*;

use crate::attributes::{DeviceMemoryAttributes, MemoryAttributes, NormalMemoryAttributes};
use crate::mpu::{MpuImpl, MpuWrite, control_updated, enabled_regions_disjoint, region_updated};
use crate::range::RegionRange;
use crate::region::{AccessPermissions, AttributeIndex, Region, RegionConfig, RegionToken, Shareability};
use crate::regs::{Control, control_bits};

verus! {

/// Errors that can occur while allocating a region group.
#[derive(Debug, Clone, Copy, PartialEq, Eq, Structural)]
pub enum RegionGroupError {
    /// All attribute slots contain an attribute configuration
    /// that is used and does not match the requested attribute
    /// configuration.
    AttributesExhausted,
    /// Enabling the requested configuration would cause overlapping
    /// regions to be allocated.
    OverlappingRanges {
        /// The requested range.
        requested: RegionRange,
        /// The overlapping range.
        overlapping: RegionRange,
    },
    /// Allocating the requested group uses more regions than
    /// are available.
    RegionsExhausted,
}

/// Configuration for a device region.
#[derive(Debug, Clone, Copy, PartialEq, Eq, Structural)]
pub struct DeviceRegion {
    /// The range of addresses in this region.
    pub range: RegionRange,
    /// The access permissions for this region.
    pub access_permissions: AccessPermissions,
    /// Whether it should be possible to execute memory from
    /// this region, provided that is readable.
    pub execute_never: bool,
}

/// Configuration for a normal (non-device) region.
#[derive(Debug, Clone, Copy, PartialEq, Eq, Structural)]
pub struct NormalRegion {
    /// The range of addresses in this region.
    pub range: RegionRange,
    /// The access permissions for this region.
    pub access_permissions: AccessPermissions,
    /// Whether it should be possible to execute memory from
    /// this region, provided that is readable.
    pub execute_never: bool,
    /// The ways in which this region is shared.
    pub shareability: Shareability,
}

/// A group of regions that share memory attributes.
#[allow(inconsistent_fields)]
#[derive(Debug, Clone, Copy)]
pub enum RegionGroup<const N: usize> {
    /// A group containing normal (non-device) memory.
    Normal {
        /// The attributes of the outer (inter-bus-master
        /// caching) memory in these regions.
        outer: NormalMemoryAttributes,
        /// The attributes of the inner (single-core
        /// caching) memory in these regions.
        inner: NormalMemoryAttributes,
        /// The regions that make up this group.
        regions: [NormalRegion; N],
    },
    /// A group containing device memory.
    Device {
        /// The attributes of the memory in these regions.
        attributes: DeviceMemoryAttributes,
        /// The regions that make up this group.
        regions: [DeviceRegion; N],
    },
}

impl<const N: usize> RegionGroup<N> {
    /// Create a new region group, whose memory should be marked
    /// as non-cacheable.
    pub fn non_cacheable(regions: [DeviceRegion; N]) -> (r: Self)
        ensures
            r == (RegionGroup::Device { attributes: DeviceMemoryAttributes::NoneAllowed, regions }),
    {
        RegionGroup::Device { attributes: DeviceMemoryAttributes::NoneAllowed, regions }
    }

    /// The memory attributes that all regions of the group share.
    pub open spec fn memory_attributes(self) -> MemoryAttributes {
        match self {
            RegionGroup::Normal { outer, inner, .. } => MemoryAttributes::Normal { outer, inner },
            RegionGroup::Device { attributes, .. } => MemoryAttributes::Device(attributes),
        }
    }

    /// The address ranges of the regions of the group, in order.
    pub open spec fn ranges(self) -> Seq<RegionRange> {
        match self {
            RegionGroup::Normal { regions, .. } => Seq::new(N as nat, |i: int| regions@[i].range),
            RegionGroup::Device { regions, .. } => Seq::new(N as nat, |i: int| regions@[i].range),
        }
    }

    /// The configuration of region `i` of the group when its memory attributes
    /// are held at `index`. Device regions are configured as outer shareable:
    /// the shareability of device memory is ignored.
    pub open spec fn config(self, i: int, index: AttributeIndex) -> RegionConfig {
        match self {
            RegionGroup::Normal { regions, .. } => RegionConfig {
                range: regions@[i].range,
                shareability: regions@[i].shareability,
                attribute_index: index,
                access_permissions: regions@[i].access_permissions,
                execute_never: regions@[i].execute_never,
            },
            RegionGroup::Device { regions, .. } => RegionConfig {
                range: regions@[i].range,
                shareability: Shareability::OuterShareable,
                attribute_index: index,
                access_permissions: regions@[i].access_permissions,
                execute_never: regions@[i].execute_never,
            },
        }
    }

    /// The memory attributes that all regions of the group share.
    fn group_attributes(&self) -> (r: MemoryAttributes)
        ensures
            r == self.memory_attributes(),
    {
        match self {
            RegionGroup::Normal { outer, inner, .. } => MemoryAttributes::Normal {
                outer: *outer,
                inner: *inner,
            },
            RegionGroup::Device { attributes, .. } => MemoryAttributes::Device(*attributes),
        }
    }

    /// The address range of region `i` of the group.
    fn range_at(&self, i: usize) -> (r: RegionRange)
        requires
            i < N,
        ensures
            r == self.ranges()[i as int],
    {
        match self {
            RegionGroup::Normal { regions, .. } => regions[i].range,
            RegionGroup::Device { regions, .. } => regions[i].range,
        }
    }

    /// The configuration of region `i` of the group when its memory
    /// attributes are held at `index`.
    fn config_at(&self, i: usize, index: AttributeIndex) -> (r: RegionConfig)
        requires
            i < N,
        ensures
            r == self.config(i as int, index),
    {
        match self {
            RegionGroup::Normal { regions, .. } => RegionConfig {
                range: regions[i].range,
                shareability: regions[i].shareability,
                attribute_index: index,
                access_permissions: regions[i].access_permissions,
                execute_never: regions[i].execute_never,
            },
            RegionGroup::Device { regions, .. } => RegionConfig {
                range: regions[i].range,
                // This value is ignored for regions with DeviceMemoryAttributes.
                // Be as pessimistic as we can, for good measure.
                shareability: Shareability::OuterShareable,
                attribute_index: index,
                access_permissions: regions[i].access_permissions,
                execute_never: regions[i].execute_never,
            },
        }
    }
}

/// Region `k` of `mpu` is enabled and takes its memory attributes from
/// slot `slot`.
pub open spec fn region_uses_slot<M: MpuImpl>(mpu: M, k: nat, slot: nat) -> bool {
    mpu.region_at(k) matches Region::Enabled(config) && config.attribute_index@ == slot
}

/// Some enabled region of `mpu` takes its memory attributes from slot `slot`.
pub open spec fn slot_in_use<M: MpuImpl>(mpu: M, slot: nat) -> bool {
    exists|k: nat| k < mpu.region_count() && #[trigger] region_uses_slot(mpu, k, slot)
}

/// `slot` is the slot that holds memory attributes `attrs` for a new group:
/// the first slot that already holds `attrs`, or, when none does, the first
/// slot that no enabled region uses.
pub open spec fn attribute_slot_for<M: MpuImpl>(mpu: M, attrs: MemoryAttributes, slot: nat) -> bool {
    let some_slot_matches = exists|s: nat| s < 8 && #[trigger] mpu.attribute_at(s) == attrs;
    slot < 8 && (if some_slot_matches {
        mpu.attribute_at(slot) == attrs && forall|s: nat|
            s < slot ==> #[trigger] mpu.attribute_at(s) != attrs
    } else {
        !slot_in_use(mpu, slot) && forall|s: nat| s < slot ==> #[trigger] slot_in_use(mpu, s)
    })
}

/// No slot of `mpu` can hold memory attributes `attrs` for a new group: every
/// slot holds other attributes and is in use.
pub open spec fn attributes_exhausted<M: MpuImpl>(mpu: M, attrs: MemoryAttributes) -> bool {
    forall|s: nat| s < 8 ==> #[trigger] mpu.attribute_at(s) != attrs && slot_in_use(mpu, s)
}

/// The numbers below `upto` of the disabled regions of `mpu`, in increasing
/// order.
pub open spec fn disabled_regions<M: MpuImpl>(mpu: M, upto: nat) -> Seq<nat>
    decreases upto,
{
    if upto == 0 {
        Seq::empty()
    } else {
        let below = disabled_regions(mpu, (upto - 1) as nat);
        if mpu.region_at((upto - 1) as nat) is Disabled {
            below.push((upto - 1) as nat)
        } else {
            below
        }
    }
}

/// The region numbers of a sequence of tokens.
pub open spec fn token_numbers(tokens: Seq<RegionToken>) -> Seq<nat> {
    tokens.map_values(|t: RegionToken| t@)
}

/// The disabled regions below `b` start with those below `a`, are
/// strictly increasing and are all below `b`.
pub proof fn lemma_disabled_regions<M: MpuImpl>(mpu: M, a: nat, b: nat)
    requires
        a <= b,
    ensures
        disabled_regions(mpu, a) == disabled_regions(mpu, b).take(
            disabled_regions(mpu, a).len() as int,
        ),
        disabled_regions(mpu, a).len() <= disabled_regions(mpu, b).len(),
        forall|i: int, j: int|
            0 <= i < j < disabled_regions(mpu, b).len() ==> disabled_regions(mpu, b)[i]
                < disabled_regions(mpu, b)[j],
        forall|i: int|
            0 <= i < disabled_regions(mpu, b).len() ==> disabled_regions(mpu, b)[i] < b
                && mpu.region_at(#[trigger] disabled_regions(mpu, b)[i]) is Disabled,
    decreases b,
{
    if b > 0 {
        lemma_disabled_regions(mpu, if a == b { (b - 1) as nat } else { a }, (b - 1) as nat);
        if a == b {
            assert(disabled_regions(mpu, a) =~= disabled_regions(mpu, b).take(
                disabled_regions(mpu, a).len() as int,
            ));
        } else {
            let da = disabled_regions(mpu, a);
            assert(da =~= disabled_regions(mpu, b).take(da.len() as int));
        }
    }
}

/// Regions `i` and `j` of a group with ranges `ranges` overlap, `i` before `j`.
pub open spec fn overlapping_pair(ranges: Seq<RegionRange>, i: int, j: int) -> bool {
    0 <= i < j < ranges.len() && ranges[i].overlaps_range(ranges[j])
}

/// `(i, j)` is the first overlapping pair of the group with ranges `ranges`,
/// in the order of `i`, then `j`.
pub open spec fn first_overlapping_pair(ranges: Seq<RegionRange>, i: int, j: int) -> bool {
    &&& overlapping_pair(ranges, i, j)
    &&& forall|a: int, b: int|
        #[trigger] overlapping_pair(ranges, a, b) ==> i < a || (i == a && j <= b)
}

/// Region `k` of `mpu` is enabled, and its range overlaps range `m` of
/// `ranges`.
pub open spec fn clashes_with_enabled<M: MpuImpl>(
    mpu: M,
    ranges: Seq<RegionRange>,
    k: nat,
    m: int,
) -> bool {
    &&& k < mpu.region_count()
    &&& 0 <= m < ranges.len()
    &&& mpu.region_at(k) matches Region::Enabled(config) && ranges[m].overlaps_range(config.range)
}

/// `(k, m)` is the first clash between an enabled region of `mpu` and a range
/// of `ranges`, in the order of `k`, then `m`.
pub open spec fn first_clash<M: MpuImpl>(mpu: M, ranges: Seq<RegionRange>, k: nat, m: int) -> bool {
    &&& clashes_with_enabled(mpu, ranges, k, m)
    &&& forall|a: nat, b: int|
        #[trigger] clashes_with_enabled(mpu, ranges, a, b) ==> k < a || (k == a && m <= b)
}

/// The range of region `k` of `mpu`, when it is enabled.
pub open spec fn enabled_range<M: MpuImpl>(mpu: M, k: nat) -> RegionRange {
    match mpu.region_at(k) {
        Region::Enabled(config) => config.range,
        Region::Disabled => arbitrary(),
    }
}

/// The writes that enable `group` in the regions `numbers` with its memory
/// attributes in slot `index`: the attribute slot first, then each region of
/// the group, in order.
pub open spec fn group_writes<const N: usize>(
    group: RegionGroup<N>,
    numbers: Seq<nat>,
    index: AttributeIndex,
) -> Seq<MpuWrite> {
    seq![MpuWrite::Attributes(index@ as u8, group.memory_attributes())] + Seq::new(
        N as nat,
        |m: int| MpuWrite::Region(numbers[m] as u8, Region::Enabled(group.config(m, index))),
    )
}

/// `after` is `before` with the regions `numbers` configured as the regions
/// of `group`, in order, with the group's memory attributes in slot `index`,
/// and nothing else changed; those are the only writes made.
pub open spec fn group_enabled<M: MpuImpl, const N: usize>(
    before: M,
    after: M,
    group: RegionGroup<N>,
    numbers: Seq<nat>,
    index: AttributeIndex,
) -> bool {
    &&& after.attribute_at(index@) == group.memory_attributes()
    &&& forall|s: nat| s != index@ ==> #[trigger] after.attribute_at(s) == before.attribute_at(s)
    &&& after.region_count() == before.region_count()
    &&& forall|m: int|
        0 <= m < N ==> after.region_at(#[trigger] numbers[m]) == Region::Enabled(
            group.config(m, index),
        )
    &&& forall|x: nat| !numbers.contains(x) ==> #[trigger] after.region_at(x) == before.region_at(x)
    &&& after.control_register() == before.control_register()
    &&& after.writes() == before.writes() + group_writes(group, numbers, index)
}

/// An MPU implementation that handles allocation of
/// attributes and regions internally.
pub struct AllocMpu<Impl: MpuImpl> {
    inner: Impl,
}

impl<Impl: MpuImpl> AllocMpu<Impl> {
    /// The MPU this value drives.
    pub closed spec fn hardware(&self) -> Impl {
        self.inner
    }

    /// The MPU implementation this value drives.
    pub fn inner(&self) -> (r: &Impl)
        ensures
            *r == self.hardware(),
    {
        &self.inner
    }

    fn setup_attribute(&self, attributes: MemoryAttributes) -> (r: Result<
        AttributeIndex,
        RegionGroupError,
    >)
        ensures
            match r {
                Ok(index) => attribute_slot_for(self.hardware(), attributes, index@),
                Err(e) => e == RegionGroupError::AttributesExhausted && attributes_exhausted(
                    self.hardware(),
                    attributes,
                ),
            },
    {
        let mut idx: u8 = 0;
        while idx < 8
            invariant
                idx <= 8,
                forall|s: nat| s < idx ==> #[trigger] self.inner.attribute_at(s) != attributes,
            decreases 8 - idx,
        {
            let attr_index = match AttributeIndex::new(idx) {
                Some(i) => i,
                None => {
                    return Err(RegionGroupError::AttributesExhausted);
                },
            };
            let attr = self.inner.attributes(attr_index);
            if attr == attributes {
                return Ok(attr_index);
            }
            idx += 1;
        }
        assert(!exists|s: nat| s < 8 && #[trigger] self.inner.attribute_at(s) == attributes);

        let mut used_attributes: Vec<bool> = vec![false, false, false, false, false, false, false, false];
        let count = self.inner.regions();
        let mut region: u8 = 0;
        while region < count
            invariant
                count == self.inner.region_count(),
                region <= count,
                used_attributes.len() == 8,
                forall|s: nat| s < 8 ==> #[trigger] self.inner.attribute_at(s) != attributes,
                forall|s: nat|
                    s < 8 ==> (used_attributes@[s as int] <==> exists|k: nat|
                        k < region && #[trigger] region_uses_slot(self.inner, k, s)),
            decreases count - region,
        {
            let token = RegionToken::new(region);
            if let Region::Enabled(config) = self.inner.region(&token) {
                let slot = config.attribute_index.get() as usize;
                used_attributes.set(slot, true);
                assert(region_uses_slot(self.inner, region as nat, slot as nat));
            }
            assert forall|s: nat| s < 8 implies (used_attributes@[s as int] <==> exists|k: nat|
                k < region + 1 && #[trigger] region_uses_slot(self.inner, k, s)) by {
                if exists|k: nat| k < region + 1 && #[trigger] region_uses_slot(self.inner, k, s) {
                    let k = choose|k: nat| k < region + 1 && #[trigger] region_uses_slot(self.inner, k, s);
                    if k == region {
                        assert(region_uses_slot(self.inner, region as nat, s));
                    }
                }
            }
            region += 1;
        }

        let mut slot: u8 = 0;
        while slot < 8
            invariant
                slot <= 8,
                used_attributes.len() == 8,
                forall|s: nat| s < 8 ==> #[trigger] self.inner.attribute_at(s) != attributes,
                forall|s: nat| s < 8 ==> (used_attributes@[s as int] <==> #[trigger] slot_in_use(self.inner, s)),
                forall|s: nat| s < slot ==> #[trigger] slot_in_use(self.inner, s),
            decreases 8 - slot,
        {
            if !used_attributes[slot as usize] {
                let index = match AttributeIndex::new(slot) {
                    Some(i) => i,
                    None => {
                        return Err(RegionGroupError::AttributesExhausted);
                    },
                };
                return Ok(index);
            }
            slot += 1;
        }
        Err(RegionGroupError::AttributesExhausted)
    }

    fn find_disabled_regions<const N: usize>(&self) -> (r: Result<Vec<RegionToken>, RegionGroupError>)
        ensures
            ({
                let free = disabled_regions(self.hardware(), self.hardware().region_count());
                match r {
                    Ok(tokens) => free.len() >= N && token_numbers(tokens@) == free.take(N as int),
                    Err(e) => e == RegionGroupError::RegionsExhausted && free.len() < N,
                }
            }),
    {
        let count = self.inner.regions();
        let mut tokens: Vec<RegionToken> = Vec::new();
        let mut region: u8 = 0;
        while region < count && tokens.len() < N
            invariant
                count == self.inner.region_count(),
                region <= count,
                tokens.len() <= N,
                token_numbers(tokens@) == disabled_regions(self.inner, region as nat),
            decreases count - region,
        {
            let token = RegionToken::new(region);
            let enabled = self.inner.region(&token).is_enabled();
            if !enabled {
                let ghost before = tokens@;
                tokens.push(token);
                assert(token_numbers(tokens@) =~= token_numbers(before).push(region as nat));
            }
            region += 1;
        }
        proof {
            lemma_disabled_regions(self.inner, region as nat, count as nat);
        }
        if tokens.len() == N {
            Ok(tokens)
        } else {
            Err(RegionGroupError::RegionsExhausted)
        }
    }

    /// Enable a group of regions.
    ///
    /// The group's regions must not overlap each other, nor any enabled
    /// region; its memory attributes go to the first attribute slot that
    /// already holds them, or else to the first slot that no enabled region
    /// uses; its regions go to the lowest-numbered disabled regions, in
    /// order. The tokens of those regions are returned.
    ///
    /// If an error is returned, the MPU state remains unchanged.
    ///
    /// Note that this change does not take effect unless
    /// [`AllocMpu::enable`] is called.
    pub fn enable_group<const N: usize>(&mut self, group: RegionGroup<N>) -> (r: Result<
        Vec<RegionToken>,
        RegionGroupError,
    >)
        ensures
            ({
                let hw = old(self).hardware();
                let ranges = group.ranges();
                let attrs = group.memory_attributes();
                let free = disabled_regions(hw, hw.region_count());
                let has_overlapping_pair = exists|i: int, j: int|
                    #[trigger] overlapping_pair(ranges, i, j);
                let has_clash = exists|k: nat, m: int| #[trigger] clashes_with_enabled(hw, ranges, k, m);
                if has_overlapping_pair {
                    exists|i: int, j: int|
                        #[trigger] first_overlapping_pair(ranges, i, j) && r == Err::<
                            Vec<RegionToken>,
                            RegionGroupError,
                        >(RegionGroupError::OverlappingRanges {
                            requested: ranges[i],
                            overlapping: ranges[j],
                        })
                } else if attributes_exhausted(hw, attrs) {
                    r == Err::<Vec<RegionToken>, RegionGroupError>(
                        RegionGroupError::AttributesExhausted,
                    )
                } else if free.len() < N {
                    r == Err::<Vec<RegionToken>, RegionGroupError>(
                        RegionGroupError::RegionsExhausted,
                    )
                } else if has_clash {
                    exists|k: nat, m: int|
                        #[trigger] first_clash(hw, ranges, k, m) && r == Err::<
                            Vec<RegionToken>,
                            RegionGroupError,
                        >(RegionGroupError::OverlappingRanges {
                            requested: ranges[m],
                            overlapping: enabled_range(hw, k),
                        })
                } else {
                    &&& r matches Ok(tokens) && token_numbers(tokens@) == free.take(N as int)
                    &&& exists|index: AttributeIndex|
                        #[trigger] attribute_slot_for(hw, attrs, index@) && group_enabled(
                            hw,
                            final(self).hardware(),
                            group,
                            free.take(N as int),
                            index,
                        )
                }
            }),
            r is Err ==> *final(self) == *old(self),
    {
        let ghost hw = self.inner;
        let ghost ranges = group.ranges();
        // Check that the regions of the group do not overlap each other.
        let mut idx: usize = 0;
        while idx < N
            invariant
                idx <= N,
                ranges == group.ranges(),
                forall|a: int, b: int| #[trigger] overlapping_pair(ranges, a, b) ==> a >= idx,
            decreases N - idx,
        {
            let range0 = group.range_at(idx);
            let mut other = idx + 1;
            while other < N
                invariant
                    idx < N,
                    idx < other <= N,
                    ranges == group.ranges(),
                    range0 == ranges[idx as int],
                    forall|a: int, b: int| #[trigger] overlapping_pair(ranges, a, b) ==> a >= idx,
                    forall|b: int| idx < b < other ==> !#[trigger] overlapping_pair(ranges, idx as int, b),
                decreases N - other,
            {
                let range1 = group.range_at(other);
                if range0.overlaps(&range1) {
                    assert(first_overlapping_pair(ranges, idx as int, other as int));
                    return Err(
                        RegionGroupError::OverlappingRanges { requested: range0, overlapping: range1 },
                    );
                }
                other += 1;
            }
            idx += 1;
        }
        assert(!exists|i: int, j: int| #[trigger] overlapping_pair(ranges, i, j));

        let attributes = group.group_attributes();
        let attribute_index = match self.setup_attribute(attributes) {
            Ok(index) => index,
            Err(e) => {
                return Err(e);
            },
        };
        assert(!attributes_exhausted(hw, attributes)) by {
            if attributes_exhausted(hw, attributes) {
                assert(hw.attribute_at(attribute_index@) != attributes);
                assert(slot_in_use(hw, attribute_index@));
            }
        }

        let tokens = match self.find_disabled_regions::<N>() {
            Ok(tokens) => tokens,
            Err(e) => {
                return Err(e);
            },
        };
        let ghost numbers = token_numbers(tokens@);
        assert(tokens@.len() == numbers.len());
        proof {
            lemma_disabled_regions(hw, hw.region_count(), hw.region_count());
        }

        // Check that the regions of the group do not overlap enabled regions.
        let count = self.inner.regions();
        let mut k: u8 = 0;
        while k < count
            invariant
                *self == *old(self),
                hw == self.inner,
                count == hw.region_count(),
                k <= count,
                hw == old(self).hardware(),
                !exists|i: int, j: int| #[trigger] overlapping_pair(ranges, i, j),
                !attributes_exhausted(hw, group.memory_attributes()),
                disabled_regions(hw, hw.region_count()).len() >= N,
                ranges == group.ranges(),
                forall|a: nat, b: int|
                    #[trigger] clashes_with_enabled(hw, ranges, a, b) ==> a >= k,
            decreases count - k,
        {
            if let Region::Enabled(other_region_config) = self.inner.region(&RegionToken::new(k)) {
                let mut m: usize = 0;
                while m < N
                    invariant
                        k < count,
                        count == hw.region_count(),
                        m <= N,
        hw == old(self).hardware(),
                        !exists|i: int, j: int| #[trigger] overlapping_pair(ranges, i, j),
                        !attributes_exhausted(hw, group.memory_attributes()),
                        disabled_regions(hw, hw.region_count()).len() >= N,
                        ranges == group.ranges(),
                        hw.region_at(k as nat) == Region::Enabled(other_region_config),
                        forall|a: nat, b: int|
                            #[trigger] clashes_with_enabled(hw, ranges, a, b) ==> a >= k,
                        forall|b: int| 0 <= b < m ==> !#[trigger] clashes_with_enabled(hw, ranges, k as nat, b),
                    decreases N - m,
                {
                    let range = group.range_at(m);
                    if range.overlaps(&other_region_config.range) {
                        assert(clashes_with_enabled(hw, ranges, k as nat, m as int));
                        assert(first_clash(hw, ranges, k as nat, m as int));
                        return Err(
                            RegionGroupError::OverlappingRanges {
                                requested: range,
                                overlapping: other_region_config.range,
                            },
                        );
                    }
                    m += 1;
                }
            }
            k += 1;
        }
        assert(!exists|a: nat, b: int| #[trigger] clashes_with_enabled(hw, ranges, a, b));

        self.inner.set_attributes(attribute_index, attributes);
        let ghost gw = group_writes(group, numbers, attribute_index);
        assert(self.inner.writes() =~= hw.writes() + gw.take(1));

        let mut result: Vec<RegionToken> = Vec::new();
        let mut m: usize = 0;
        while m < N
            invariant
                m <= N,
                tokens.len() == N,
                numbers == token_numbers(tokens@),
                numbers.len() == N,
                forall|i: int, j: int| 0 <= i < j < N ==> numbers[i] < numbers[j],
                forall|i: int| 0 <= i < N ==> #[trigger] numbers[i] < hw.region_count(),
                result.len() == m,
                forall|i: int| 0 <= i < m ==> #[trigger] result[i]@ == numbers[i],
                self.inner.attribute_at(attribute_index@) == attributes,
                forall|s: nat| s != attribute_index@ ==> #[trigger] self.inner.attribute_at(s)
                    == hw.attribute_at(s),
                self.inner.region_count() == hw.region_count(),
                self.inner.control_register() == hw.control_register(),
                forall|i: int|
                    0 <= i < m ==> self.inner.region_at(#[trigger] numbers[i]) == Region::Enabled(
                        group.config(i, attribute_index),
                    ),
                forall|x: nat|
                    !numbers.take(m as int).contains(x) ==> #[trigger] self.inner.region_at(x)
                        == hw.region_at(x),
                gw == group_writes(group, numbers, attribute_index),
                self.inner.writes() == hw.writes() + gw.take(1 + m),
            decreases N - m,
        {
            let number = tokens[m].get();
            assert(number == numbers[m as int]);
            let mut token = RegionToken::new(number);
            let config = group.config_at(m, attribute_index);
            let ghost before = self.inner;
            self.inner.set_region(&mut token, &Region::Enabled(config));
            assert(gw[1 + m as int] == MpuWrite::Region(number, Region::Enabled(config)));
            assert(self.inner.writes() =~= hw.writes() + gw.take(1 + m + 1));
            assert forall|x: nat|
                !numbers.take(m + 1).contains(x) implies #[trigger] self.inner.region_at(x)
                == hw.region_at(x) by {
                assert(numbers.take(m + 1) =~= numbers.take(m as int).push(numbers[m as int]));
                if numbers.take(m as int).contains(x) {
                    let i = choose|i: int| 0 <= i < m && numbers.take(m as int)[i] == x;
                    assert(numbers.take(m + 1)[i] == x);
                }
                assert(x != numbers[m as int]) by {
                    assert(numbers.take(m + 1)[m as int] == numbers[m as int]);
                }
            }
            result.push(token);
            m += 1;
        }
        proof {
            assert(numbers.take(N as int) =~= numbers);
            assert(gw.take(1 + N) =~= gw);
        }
        Ok(result)
    }

    /// Initialize an MPU with the provided implementation.
    pub fn new(inner: Impl) -> (r: Self)
        ensures
            r.hardware() == inner,
    {
        AllocMpu { inner }
    }

    /// Disable the region associated with `token`.
    pub fn disable_region(&mut self, token: RegionToken)
        requires
            token@ < old(self).hardware().region_count(),
        ensures
            region_updated(old(self).hardware(), final(self).hardware(), token@, Region::Disabled),
    {
        let mut token = token;
        self.inner.set_region(&mut token, &Region::Disabled);
    }

    /// Enable the MPU
    ///
    /// `privileged_sw_may_access_default_map` controls whether
    /// accesses to memory not belonging to any enabled MPU region
    /// by privileged software is allowed according to the default
    /// map (`true`), or if it will cause a fault (`false`). The
    /// bit corresponds to the `PRIVDEFENA` bit in the `MPU_CTRL`
    /// register in ARM documentation.
    ///
    /// Setting the `enable_mpu_in_nmi_and_hardfault` will enable the MPU
    /// in the Non-Maskable Interrupt and HardFault handlers. It corresponds
    /// to the `HFNMIENA` bit in the `MPU_CTRL` register in ARM documentation.
    pub fn enable(
        &mut self,
        privileged_sw_may_access_default_map: bool,
        enable_mpu_in_nmi_and_hardfault: bool,
    )
        ensures
            control_updated(
                old(self).hardware(),
                final(self).hardware(),
                final(self).hardware().control_register(),
            ),
            final(self).hardware().control_register()@ == control_bits(
                true,
                enable_mpu_in_nmi_and_hardfault,
                privileged_sw_may_access_default_map,
            ),
            final(self).hardware().control_register().enable_bit(),
            final(self).hardware().control_register().hfnmiena_bit()
                == enable_mpu_in_nmi_and_hardfault,
            final(self).hardware().control_register().privdefena_bit()
                == privileged_sw_may_access_default_map,
    {
        let ctrl = Control::enabled_with(
            enable_mpu_in_nmi_and_hardfault,
            privileged_sw_may_access_default_map,
        );
        self.inner.set_control(ctrl);
    }

    /// Disable the MPU
    pub fn disable(&mut self)
        ensures
            control_updated(
                old(self).hardware(),
                final(self).hardware(),
                final(self).hardware().control_register(),
            ),
            final(self).hardware().control_register()@ == 0,
            !final(self).hardware().control_register().enable_bit(),
    {
        let ctrl = Control::default();
        assert(0u32 & 1 != 1) by (bit_vector);
        self.inner.set_control(ctrl);
    }

    /// Whether the MPU is enabled.
    pub fn enabled(&self) -> (r: bool)
        ensures
            r == self.hardware().control_register().enable_bit(),
    {
        self.inner.control().enable()
    }

    /// Whether the PRIVDEFENA bit is set.
    pub fn privdefena(&self) -> (r: bool)
        ensures
            r == self.hardware().control_register().privdefena_bit(),
    {
        self.inner.control().privdefena()
    }

    /// Whether the HFNMIENA bit is set.
    pub fn hfnmiena(&self) -> (r: bool)
        ensures
            r == self.hardware().control_register().hfnmiena_bit(),
    {
        self.inner.control().hfnmiena()
    }

    /// Get the number of MPU regions supported by
    /// this MPU.
    pub fn regions(&self) -> (r: u8)
        ensures
            r == self.hardware().region_count(),
    {
        self.inner.regions()
    }
}

/// Enabling a group with [`AllocMpu::enable_group`] keeps the enabled regions
/// apart: when no two enabled regions overlap before a successful call, none
/// overlap after it.
pub proof fn lemma_enable_group_keeps_regions_disjoint<M: MpuImpl, const N: usize>(
    before: M,
    after: M,
    group: RegionGroup<N>,
    index: AttributeIndex,
)
    requires
        enabled_regions_disjoint(before),
        !exists|i: int, j: int| #[trigger] overlapping_pair(group.ranges(), i, j),
        !exists|k: nat, m: int| #[trigger] clashes_with_enabled(before, group.ranges(), k, m),
        disabled_regions(before, before.region_count()).len() >= N,
        group_enabled(
            before,
            after,
            group,
            disabled_regions(before, before.region_count()).take(N as int),
            index,
        ),
    ensures
        enabled_regions_disjoint(after),
{
    let count = before.region_count();
    let numbers = disabled_regions(before, count).take(N as int);
    let ranges = group.ranges();
    lemma_disabled_regions(before, count, count);
    assert forall|i: nat, j: nat|
        i < after.region_count() && j < after.region_count() && i != j implies match (
            #[trigger] after.region_at(i),
            #[trigger] after.region_at(j),
        ) {
            (Region::Enabled(a), Region::Enabled(b)) => !a.range.overlaps_range(b.range),
            _ => true,
        } by {
        if numbers.contains(i) && numbers.contains(j) {
            let a = choose|a: int| 0 <= a < numbers.len() && numbers[a] == i;
            let b = choose|b: int| 0 <= b < numbers.len() && numbers[b] == j;
            assert(a != b);
            assert(group.config(a, index).range == ranges[a]);
            assert(group.config(b, index).range == ranges[b]);
            if a < b {
                assert(!overlapping_pair(ranges, a, b));
            } else {
                assert(!overlapping_pair(ranges, b, a));
            }
        } else if numbers.contains(i) {
            let a = choose|a: int| 0 <= a < numbers.len() && numbers[a] == i;
            assert(group.config(a, index).range == ranges[a]);
            assert(!clashes_with_enabled(before, ranges, j, a));
        } else if numbers.contains(j) {
            let b = choose|b: int| 0 <= b < numbers.len() && numbers[b] == j;
            assert(group.config(b, index).range == ranges[b]);
            assert(!clashes_with_enabled(before, ranges, i, b));
        } else {
            assert(after.region_at(i) == before.region_at(i));
            assert(after.region_at(j) == before.region_at(j));
        }
    }
}

/// The ranges of a group are those of its regions, in order.
pub proof fn lemma_group_ranges<const N: usize>(group: RegionGroup<N>, m: int)
    requires
        0 <= m < N,
    ensures
        group.ranges().len() == N,
        match group {
            RegionGroup::Normal { regions, .. } => group.ranges()[m] == regions@[m].range,
            RegionGroup::Device { regions, .. } => group.ranges()[m] == regions@[m].range,
        },
{
}

/// After a successful [`AllocMpu::enable_group`], the attribute slot the
/// group uses holds the group's own memory attributes: for a normal group,
/// its outer attributes as outer and its inner attributes as inner; for a
/// device group, its device attributes. Each allocated region is enabled
/// with the range, access permissions and execute-never setting of the
/// corresponding region of the group, that attribute slot, and the
/// shareability of that region for a normal group, or outer shareability for
/// a device group.
pub proof fn lemma_group_enabled_configuration<M: MpuImpl, const N: usize>(
    before: M,
    after: M,
    group: RegionGroup<N>,
    numbers: Seq<nat>,
    index: AttributeIndex,
    m: int,
)
    requires
        group_enabled(before, after, group, numbers, index),
        0 <= m < N,
    ensures
        match group {
            RegionGroup::Normal { outer, inner, regions } => {
                &&& after.attribute_at(index@) == (MemoryAttributes::Normal { outer: outer, inner: inner })
                &&& after.region_at(numbers[m]) matches Region::Enabled(c)
                &&& c.range == regions@[m].range
                &&& c.attribute_index == index
                &&& c.shareability == regions@[m].shareability
                &&& c.access_permissions == regions@[m].access_permissions
                &&& c.execute_never == regions@[m].execute_never
            },
            RegionGroup::Device { attributes, regions } => {
                &&& after.attribute_at(index@) == MemoryAttributes::Device(attributes)
                &&& after.region_at(numbers[m]) matches Region::Enabled(c)
                &&& c.range == regions@[m].range
                &&& c.attribute_index == index
                &&& c.shareability == Shareability::OuterShareable
                &&& c.access_permissions == regions@[m].access_permissions
                &&& c.execute_never == regions@[m].execute_never
            },
        },
{
    assert(after.region_at(numbers[m]) == Region::Enabled(group.config(m, index)));
}

/// After a successful [`AllocMpu::enable_group`], the writes made are, in
/// order, one write of the group's attribute slot with what it now holds,
/// then one write of each allocated region, in the group's order, with what
/// it now holds; the earlier writes are kept.
pub proof fn lemma_group_enabled_writes<M: MpuImpl, const N: usize>(
    before: M,
    after: M,
    group: RegionGroup<N>,
    numbers: Seq<nat>,
    index: AttributeIndex,
)
    requires
        group_enabled(before, after, group, numbers, index),
    ensures
        after.writes().len() == before.writes().len() + 1 + N,
        forall|i: int|
            0 <= i < before.writes().len() ==> #[trigger] after.writes()[i] == before.writes()[i],
        after.writes()[before.writes().len() as int] == MpuWrite::Attributes(
            index@ as u8,
            after.attribute_at(index@),
        ),
        forall|m: int|
            0 <= m < N ==> #[trigger] after.writes()[before.writes().len() + 1 + m]
                == MpuWrite::Region(numbers[m] as u8, after.region_at(numbers[m])),
{
    let gw = group_writes(group, numbers, index);
    assert forall|m: int| 0 <= m < N implies #[trigger] after.writes()[before.writes().len() + 1
        + m] == MpuWrite::Region(numbers[m] as u8, after.region_at(numbers[m])) by {
        assert(after.writes()[before.writes().len() + 1 + m] == gw[1 + m]);
    }
}

/// The range named as overlapping in a clash is the range of the enabled
/// region it clashes with.
pub proof fn lemma_enabled_range<M: MpuImpl>(mpu: M, k: nat)
    ensures
        mpu.region_at(k) matches Region::Enabled(c) ==> enabled_range(mpu, k) == c.range,
{
}

/// The overlapping pair reported for a group is the first in the order of
/// its first region, then its second: no earlier pair of distinct regions of
/// the group overlaps.
pub proof fn lemma_first_overlapping_pair(ranges: Seq<RegionRange>, i: int, j: int)
    requires
        first_overlapping_pair(ranges, i, j),
    ensures
        0 <= i < j < ranges.len(),
        ranges[i].overlaps_range(ranges[j]),
        forall|a: int, b: int|
            0 <= a < b < ranges.len() && (a < i || (a == i && b < j)) ==> !#[trigger] ranges[a].overlaps_range(
                ranges[b],
            ),
{
    assert forall|a: int, b: int|
        0 <= a < b < ranges.len() && (a < i || (a == i && b < j)) implies !#[trigger] ranges[a].overlaps_range(
            ranges[b],
        ) by {
        if ranges[a].overlaps_range(ranges[b]) {
            assert(overlapping_pair(ranges, a, b));
        }
    }
}

/// The clash reported for a group is the first in the order of the enabled
/// region, then the group's region: no earlier enabled region overlaps any of
/// the group's ranges, and the same enabled region overlaps no earlier range
/// of the group.
pub proof fn lemma_first_clash<M: MpuImpl>(mpu: M, ranges: Seq<RegionRange>, k: nat, m: int)
    requires
        first_clash(mpu, ranges, k, m),
    ensures
        k < mpu.region_count(),
        0 <= m < ranges.len(),
        mpu.region_at(k) matches Region::Enabled(c) && ranges[m].overlaps_range(c.range),
        forall|a: nat, b: int|
            #![trigger mpu.region_at(a), ranges[b]]
            a < mpu.region_count() && 0 <= b < ranges.len() && (a < k || (a == k && b < m))
                ==> !(match mpu.region_at(a) {
                Region::Enabled(c) => ranges[b].overlaps_range(c.range),
                Region::Disabled => false,
            }),
{
    assert forall|a: nat, b: int|
        #![trigger mpu.region_at(a), ranges[b]]
        a < mpu.region_count() && 0 <= b < ranges.len() && (a < k || (a == k && b < m)) implies !(
        match mpu.region_at(a) {
            Region::Enabled(c) => ranges[b].overlaps_range(c.range),
            Region::Disabled => false,
        }) by {
        if clashes_with_enabled(mpu, ranges, a, b) {
        }
    }
}

/// Attributes are exhausted exactly when every one of the eight slots holds
/// other attributes and is used by some enabled region.
pub proof fn lemma_attributes_exhausted<M: MpuImpl>(mpu: M, attrs: MemoryAttributes)
    ensures
        attributes_exhausted(mpu, attrs) <==> forall|s: nat|
            s < 8 ==> #[trigger] mpu.attribute_at(s) != attrs && exists|k: nat|
                k < mpu.region_count() && (match #[trigger] mpu.region_at(k) {
                    Region::Enabled(c) => c.attribute_index@ == s,
                    Region::Disabled => false,
                }),
{
    if attributes_exhausted(mpu, attrs) {
        assert forall|s: nat| s < 8 implies #[trigger] mpu.attribute_at(s) != attrs && exists|k: nat|
            k < mpu.region_count() && (match #[trigger] mpu.region_at(k) {
                Region::Enabled(c) => c.attribute_index@ == s,
                Region::Disabled => false,
            }) by {
            assert(slot_in_use(mpu, s));
            let k = choose|k: nat| k < mpu.region_count() && #[trigger] region_uses_slot(mpu, k, s);
            assert(region_uses_slot(mpu, k, s));
        }
    }
    let every_slot_used = forall|s: nat|
        s < 8 ==> #[trigger] mpu.attribute_at(s) != attrs && exists|k: nat|
            k < mpu.region_count() && (match #[trigger] mpu.region_at(k) {
                Region::Enabled(c) => c.attribute_index@ == s,
                Region::Disabled => false,
            });
    if every_slot_used {
        assert forall|s: nat| #![trigger mpu.attribute_at(s)] s < 8 implies (mpu.attribute_at(s) != attrs
            && slot_in_use(mpu, s)) by {
            assert(mpu.attribute_at(s) != attrs);
            let k = choose|k: nat|
                k < mpu.region_count() && (match #[trigger] mpu.region_at(k) {
                    Region::Enabled(c) => c.attribute_index@ == s,
                    Region::Disabled => false,
                });
            assert(region_uses_slot(mpu, k, s));
        }
    }
}

/// Two regions of a group overlap exactly when their ranges have an address
/// in common; adjacent ranges do not overlap.
pub proof fn lemma_group_overlap_is_shared_address<const N: usize>(
    group: RegionGroup<N>,
    i: int,
    j: int,
)
    requires
        0 <= i < N,
        0 <= j < N,
        group.ranges()[i].well_formed(),
        group.ranges()[j].well_formed(),
    ensures
        overlapping_pair(group.ranges(), i, j) <==> i < j && exists|x: int|
            #![trigger group.ranges()[i].contains_address(x)]
            group.ranges()[i].start_address() <= x <= group.ranges()[i].end_address()
                && group.ranges()[j].start_address() <= x <= group.ranges()[j].end_address(),
{
    let a = group.ranges()[i];
    let b = group.ranges()[j];
    if a.overlaps_range(b) {
        let x = if a.start_address() <= b.start_address() {
            b.start_address() as int
        } else {
            a.start_address() as int
        };
        assert(a.contains_address(x));
    }
}

/// A region of a group clashes with region `k` of an MPU exactly when region
/// `k` is enabled and its range has an address in common with the group's
/// region.
pub proof fn lemma_clash_is_shared_address<M: MpuImpl, const N: usize>(
    mpu: M,
    group: RegionGroup<N>,
    k: nat,
    m: int,
)
    requires
        0 <= m < N,
        group.ranges()[m].well_formed(),
        mpu.region_at(k) matches Region::Enabled(c) ==> c.range.well_formed(),
    ensures
        clashes_with_enabled(mpu, group.ranges(), k, m) <==> {
            &&& k < mpu.region_count()
            &&& mpu.region_at(k) matches Region::Enabled(c)
            &&& exists|x: int|
                #![trigger c.range.contains_address(x)]
                c.range.start_address() <= x <= c.range.end_address()
                    && group.ranges()[m].start_address() <= x <= group.ranges()[m].end_address()
        },
{
    if let Region::Enabled(c) = mpu.region_at(k) {
        let a = group.ranges()[m];
        if a.overlaps_range(c.range) {
            let x = if a.start_address() <= c.range.start_address() {
                c.range.start_address() as int
            } else {
                a.start_address() as int
            };
            assert(c.range.contains_address(x));
        }
    }
}

/// The disabled regions below `upto` are exactly the regions below `upto`
/// that are disabled.
pub proof fn lemma_disabled_regions_complete<M: MpuImpl>(mpu: M, upto: nat, k: nat)
    ensures
        disabled_regions(mpu, upto).contains(k) <==> k < upto && mpu.region_at(k) is Disabled,
    decreases upto,
{
    if upto > 0 {
        lemma_disabled_regions_complete(mpu, (upto - 1) as nat, k);
        let below = disabled_regions(mpu, (upto - 1) as nat);
        if mpu.region_at((upto - 1) as nat) is Disabled {
            assert(below.push((upto - 1) as nat)[below.len() as int] == (upto - 1) as nat);
            if below.contains(k) {
                let i = choose|i: int| 0 <= i < below.len() && below[i] == k;
                assert(below.push((upto - 1) as nat)[i] == k);
            }
            let pushed = below.push((upto - 1) as nat);
            if pushed.contains(k) {
                let i = choose|i: int| 0 <= i < pushed.len() && #[trigger] pushed[i] == k;
                if i < below.len() {
                    assert(below[i] == k);
                }
            }
        }
    }
}

/// The attribute slot chosen for attributes `attrs` is the lowest slot that
/// holds `attrs`, when some slot does; otherwise it is the lowest slot that no
/// enabled region uses, every lower slot being used by some enabled region.
pub proof fn lemma_attribute_slot_choice<M: MpuImpl>(mpu: M, attrs: MemoryAttributes, slot: nat)
    requires
        attribute_slot_for(mpu, attrs, slot),
    ensures
        slot < 8,
        (exists|s: nat| s < 8 && #[trigger] mpu.attribute_at(s) == attrs) ==> {
            &&& mpu.attribute_at(slot) == attrs
            &&& forall|s: nat| s < slot ==> #[trigger] mpu.attribute_at(s) != attrs
        },
        (forall|s: nat| s < 8 ==> #[trigger] mpu.attribute_at(s) != attrs) ==> {
            &&& forall|k: nat|
                k < mpu.region_count() ==> !(match #[trigger] mpu.region_at(k) {
                    Region::Enabled(c) => c.attribute_index@ == slot,
                    Region::Disabled => false,
                })
            &&& forall|s: nat|
                s < slot ==> #[trigger] mpu.attribute_at(s) != attrs && exists|k: nat|
                    k < mpu.region_count() && (match #[trigger] mpu.region_at(k) {
                        Region::Enabled(c) => c.attribute_index@ == s,
                        Region::Disabled => false,
                    })
        },
{
    let nothing_matches = forall|s: nat| s < 8 ==> #[trigger] mpu.attribute_at(s) != attrs;
    if nothing_matches {
        assert forall|k: nat| k < mpu.region_count() implies !(match #[trigger] mpu.region_at(k) {
            Region::Enabled(c) => c.attribute_index@ == slot,
            Region::Disabled => false,
        }) by {
            if region_uses_slot(mpu, k, slot) {
            }
        }
        assert forall|s: nat| s < slot implies #[trigger] mpu.attribute_at(s) != attrs && exists|
            k: nat,
        |
            k < mpu.region_count() && (match #[trigger] mpu.region_at(k) {
                Region::Enabled(c) => c.attribute_index@ == s,
                Region::Disabled => false,
            }) by {
            assert(slot_in_use(mpu, s));
            let k = choose|k: nat| k < mpu.region_count() && #[trigger] region_uses_slot(mpu, k, s);
            assert(region_uses_slot(mpu, k, s));
        }
    }
}

} // verus!
