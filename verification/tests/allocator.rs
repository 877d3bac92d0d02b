use thumbv8m_mpu::{
    AccessPermissions, AllocMpu, AttributeIndex, Control, DeviceMemoryAttributes, DeviceRegion,
    MemoryAttributes, MpuImpl, NormalMemoryAttributes, NormalRegion, Region, RegionGroup,
    RegionGroupError, RegionRange, RegionToken, Shareability,
};

const REGIONS: usize = 8;

struct MockMpu<const N: usize> {
    ctrl: Control,
    attributes: [MemoryAttributes; 8],
    regions: [Region; N],
    region_writes: [usize; N],
}

impl<const N: usize> MockMpu<N> {
    fn new() -> Self {
        assert!(N == 8 || N == 16);
        Self {
            ctrl: Control::default(),
            attributes: [MemoryAttributes::non_cacheable(); 8],
            regions: [Region::Disabled; N],
            region_writes: [0; N],
        }
    }
}

impl<const N: usize> MpuImpl for MockMpu<N> {
    fn regions(&self) -> u8 {
        N as u8
    }

    fn attributes(&self, index: AttributeIndex) -> MemoryAttributes {
        self.attributes[index.get() as usize]
    }

    fn set_attributes(&mut self, index: AttributeIndex, attrs: MemoryAttributes) {
        self.attributes[index.get() as usize] = attrs;
    }

    fn control(&self) -> Control {
        self.ctrl
    }

    fn set_control(&mut self, control: Control) {
        self.ctrl = control;
    }

    fn region(&self, token: &RegionToken) -> Region {
        self.regions[token.get() as usize]
    }

    fn set_region(&mut self, token: &mut RegionToken, region: &Region) {
        self.regions[token.get() as usize] = *region;
        self.region_writes[token.get() as usize] += 1;
    }
}

fn nonoverlapping_ranges<const N: usize>() -> [RegionRange; N] {
    core::array::from_fn(|i| {
        let i = i as u32;
        RegionRange::new(i * 64..i * 64 + 32).unwrap()
    })
}

#[test]
fn alloc_all_regions() {
    let mut mpu = AllocMpu::new(MockMpu::<REGIONS>::new());

    let ranges: [_; REGIONS] = nonoverlapping_ranges();

    let group = RegionGroup::Normal {
        outer: NormalMemoryAttributes::NonCacheable,
        inner: NormalMemoryAttributes::NonCacheable,
        regions: ranges.map(|range| NormalRegion {
            range,
            access_permissions: AccessPermissions::AnyReadWrite,
            execute_never: false,
            shareability: Shareability::InnerShareable,
        }),
    };

    mpu.enable_group(group).unwrap();
}

#[test]
fn overalloc_regions_fails_and_does_not_write() {
    let mut mpu = AllocMpu::new(MockMpu::<REGIONS>::new());

    let ranges: [_; REGIONS + 1] = nonoverlapping_ranges();

    let group = RegionGroup::Normal {
        outer: NormalMemoryAttributes::NonCacheable,
        inner: NormalMemoryAttributes::NonCacheable,
        regions: ranges.map(|range| NormalRegion {
            range,
            access_permissions: AccessPermissions::AnyReadWrite,
            execute_never: false,
            shareability: Shareability::InnerShareable,
        }),
    };

    assert_eq!(
        mpu.enable_group(group),
        Err(RegionGroupError::RegionsExhausted)
    );

    for token in 0..REGIONS {
        assert!(!mpu.inner().regions[token].is_enabled());
        assert!(mpu.inner().region_writes[token] == 0);
    }
}

fn dev_region(range: RegionRange) -> DeviceRegion {
    DeviceRegion {
        range,
        access_permissions: AccessPermissions::AnyReadOnly,
        execute_never: true,
    }
}

fn nor_region(range: RegionRange) -> NormalRegion {
    NormalRegion {
        range,
        access_permissions: AccessPermissions::AnyReadOnly,
        execute_never: false,
        shareability: Shareability::NonShareable,
    }
}

fn fully_allocated_attrs() -> (AllocMpu<MockMpu<16>>, [RegionRange; 16], RegionToken) {
    // This can only happen if the MPU supports more than 8 regions.
    let mut mpu = AllocMpu::new(MockMpu::<16>::new());

    let ranges: [_; 16] = nonoverlapping_ranges();

    let [r0, r1, r2, r3, r4, r5, r6, tail @ ..] = ranges;

    let g0 = RegionGroup::Device {
        attributes: DeviceMemoryAttributes::NoneAllowed,
        regions: [dev_region(r0)],
    };

    let g1 = RegionGroup::Device {
        attributes: DeviceMemoryAttributes::NonGathering,
        regions: [dev_region(r1)],
    };

    let g2 = RegionGroup::Device {
        attributes: DeviceMemoryAttributes::NonGatheringNonReordering,
        regions: [dev_region(r2)],
    };

    let g3 = RegionGroup::Device {
        attributes: DeviceMemoryAttributes::All,
        regions: [dev_region(r3)],
    };

    let g4 = RegionGroup::Normal {
        outer: NormalMemoryAttributes::NonCacheable,
        inner: NormalMemoryAttributes::NonCacheable,
        regions: [nor_region(r4)],
    };

    let g5 = RegionGroup::Normal {
        outer: NormalMemoryAttributes::WriteBackNonTransient {
            allocate_reads: false,
            allocate_writes: false,
        },
        inner: NormalMemoryAttributes::NonCacheable,
        regions: [nor_region(r5)],
    };

    let g6 = RegionGroup::Normal {
        outer: NormalMemoryAttributes::WriteBackNonTransient {
            allocate_reads: true,
            allocate_writes: false,
        },
        inner: NormalMemoryAttributes::NonCacheable,
        regions: tail.map(nor_region),
    };

    let g7 = RegionGroup::Normal {
        outer: NormalMemoryAttributes::WriteBackNonTransient {
            allocate_reads: false,
            allocate_writes: true,
        },
        inner: NormalMemoryAttributes::NonCacheable,
        regions: [nor_region(r6)],
    };

    mpu.enable_group(g0).unwrap();
    mpu.enable_group(g1).unwrap();
    mpu.enable_group(g2).unwrap();
    mpu.enable_group(g3).unwrap();
    mpu.enable_group(g4).unwrap();
    mpu.enable_group(g5).unwrap();
    mpu.enable_group(g6).unwrap();
    let mut g7_tokens = mpu.enable_group(g7).unwrap();
    assert_eq!(g7_tokens.len(), 1);
    let g7_token = g7_tokens.remove(0);

    (mpu, ranges, g7_token)
}

#[test]
fn overalloc_attrs_fails() {
    let (mut mpu, [.., range], _) = fully_allocated_attrs();

    let g8 = RegionGroup::Normal {
        outer: NormalMemoryAttributes::WriteBackNonTransient {
            allocate_reads: true,
            allocate_writes: true,
        },
        inner: NormalMemoryAttributes::NonCacheable,
        regions: [NormalRegion {
            range,
            access_permissions: AccessPermissions::AnyReadOnly,
            execute_never: false,
            shareability: Shareability::InnerShareable,
        }],
    };

    assert_eq!(
        mpu.enable_group(g8),
        Err(RegionGroupError::AttributesExhausted)
    );

    for token in 0..16 {
        assert!(mpu.inner().regions[token].is_enabled());
        assert!(mpu.inner().region_writes[token] == 1);
    }
}

#[test]
fn freeing_attr_works() {
    let (mut mpu, _, g7) = fully_allocated_attrs();
    mpu.disable_region(g7);

    let range = RegionRange::new(32 * 100..32 * 101).unwrap();
    let g8 = RegionGroup::Normal {
        outer: NormalMemoryAttributes::WriteBackNonTransient {
            allocate_reads: true,
            allocate_writes: true,
        },
        inner: NormalMemoryAttributes::NonCacheable,
        regions: [NormalRegion {
            range,
            access_permissions: AccessPermissions::AnyReadOnly,
            execute_never: false,
            shareability: Shareability::InnerShareable,
        }],
    };

    let tokens = mpu.enable_group(g8).unwrap();
    assert_eq!(tokens.len(), 1);
    assert_eq!(tokens[0].get(), 15);

    for token in 0..15 {
        assert!(mpu.inner().regions[token].is_enabled());
        assert!(mpu.inner().region_writes[token] == 1);
    }

    assert!(mpu.inner().regions[15].is_enabled());
    assert!(mpu.inner().region_writes[15] == 3);
}

#[test]
fn inter_group_overlaps_not_allowed() {
    let mut mpu = AllocMpu::new(MockMpu::<REGIONS>::new());

    let [range] = nonoverlapping_ranges();

    let region = DeviceRegion {
        range: range.clone(),
        access_permissions: AccessPermissions::AnyReadOnly,
        execute_never: true,
    };

    let g0 = RegionGroup::Device {
        regions: [region.clone()],
        attributes: DeviceMemoryAttributes::NoneAllowed,
    };

    let g1 = RegionGroup::Device {
        regions: [region.clone()],
        attributes: DeviceMemoryAttributes::NoneAllowed,
    };

    assert!(mpu.enable_group(g0).is_ok());
    assert_eq!(
        mpu.enable_group(g1),
        Err(RegionGroupError::OverlappingRanges {
            requested: range.clone(),
            overlapping: range.clone()
        })
    )
}

#[test]
fn intra_group_overlaps_not_allowed() {
    let mut mpu = AllocMpu::new(MockMpu::<REGIONS>::new());

    let [range] = nonoverlapping_ranges();

    let region = DeviceRegion {
        range: range.clone(),
        access_permissions: AccessPermissions::AnyReadOnly,
        execute_never: true,
    };

    let group = RegionGroup::Device {
        regions: [region.clone(), region.clone()],
        attributes: DeviceMemoryAttributes::NoneAllowed,
    };

    assert_eq!(
        mpu.enable_group(group),
        Err(RegionGroupError::OverlappingRanges {
            requested: range.clone(),
            overlapping: range.clone(),
        })
    )
}

#[test]
fn group_takes_lowest_disabled_regions_and_shares_attributes() {
    let mut mpu = AllocMpu::new(MockMpu::<REGIONS>::new());
    let ranges: [_; 4] = nonoverlapping_ranges();
    let [r0, r1, r2, r3] = ranges;

    let first = mpu
        .enable_group(RegionGroup::non_cacheable([dev_region(r0), dev_region(r1)]))
        .unwrap();
    assert_eq!(first.iter().map(|t| t.get()).collect::<Vec<_>>(), vec![0, 1]);

    let mut first = first;
    mpu.disable_region(first.remove(0));

    let second = mpu
        .enable_group(RegionGroup::non_cacheable([dev_region(r2), dev_region(r3)]))
        .unwrap();
    assert_eq!(second.iter().map(|t| t.get()).collect::<Vec<_>>(), vec![0, 2]);

    // Both groups use the attributes in slot 0.
    for token in [0usize, 1, 2] {
        match mpu.inner().regions[token] {
            Region::Enabled(config) => {
                assert_eq!(config.attribute_index.get(), 0);
                assert_eq!(config.shareability, Shareability::OuterShareable);
            }
            Region::Disabled => panic!("region {token} should be enabled"),
        }
    }
    assert_eq!(mpu.inner().attributes[0], MemoryAttributes::non_cacheable());
}

#[test]
fn failed_group_leaves_attributes_alone() {
    let mut mpu = AllocMpu::new(MockMpu::<REGIONS>::new());
    let ranges: [_; REGIONS + 1] = nonoverlapping_ranges();
    let group = RegionGroup::Normal {
        outer: NormalMemoryAttributes::WriteThroughTransient(
            thumbv8m_mpu::TransientAllocations::AllocateBoth,
        ),
        inner: NormalMemoryAttributes::NonCacheable,
        regions: ranges.map(nor_region),
    };
    assert_eq!(
        mpu.enable_group(group),
        Err(RegionGroupError::RegionsExhausted)
    );
    for slot in 0..8 {
        assert_eq!(mpu.inner().attributes[slot], MemoryAttributes::non_cacheable());
    }
}

#[test]
fn alloc_enable_and_disable() {
    let mut mpu = AllocMpu::new(MockMpu::<REGIONS>::new());
    mpu.enable(false, true);
    assert!(mpu.enabled());
    assert!(mpu.hfnmiena());
    assert!(!mpu.privdefena());
    assert_eq!(mpu.inner().ctrl.raw_value(), 0b011);
    mpu.disable();
    assert!(!mpu.enabled());
    assert_eq!(mpu.inner().ctrl.raw_value(), 0);
    assert_eq!(mpu.regions(), REGIONS as u8);
}
