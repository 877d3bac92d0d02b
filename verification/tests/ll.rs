use thumbv8m_mpu::{
    AccessPermissions, AttributeIndex, Control, DeviceMemoryAttributes, LlMpu, MemoryAttributes,
    MpuImpl, Region, RegionConfig, RegionRange, RegionToken, Shareability,
};

const REGIONS: usize = 8;

struct MockMpu<const N: usize> {
    ctrl: Control,
    attributes: [MemoryAttributes; 8],
    regions: [Region; N],
    region_writes: [usize; N],
}

impl<const N: usize> MockMpu<N> {
    fn new() -> Self {
        assert!(N == 8 || N == 16);
        Self {
            ctrl: Control::default(),
            attributes: [MemoryAttributes::non_cacheable(); 8],
            regions: [Region::Disabled; N],
            region_writes: [0; N],
        }
    }
}

impl<const N: usize> MpuImpl for MockMpu<N> {
    fn regions(&self) -> u8 {
        N as u8
    }

    fn attributes(&self, index: AttributeIndex) -> MemoryAttributes {
        self.attributes[index.get() as usize]
    }

    fn set_attributes(&mut self, index: AttributeIndex, attrs: MemoryAttributes) {
        self.attributes[index.get() as usize] = attrs;
    }

    fn control(&self) -> Control {
        self.ctrl
    }

    fn set_control(&mut self, control: Control) {
        self.ctrl = control;
    }

    fn region(&self, token: &RegionToken) -> Region {
        self.regions[token.get() as usize]
    }

    fn set_region(&mut self, token: &mut RegionToken, region: &Region) {
        self.regions[token.get() as usize] = *region;
        self.region_writes[token.get() as usize] += 1;
    }
}

fn nonoverlapping_ranges() -> impl Iterator<Item = RegionRange> {
    (0u32..).map(|i| RegionRange::new(i * 64..i * 64 + 32).unwrap())
}

#[test]
fn can_assign_all() {
    let mut mpu = LlMpu::new(MockMpu::<REGIONS>::new());
    let mut tokens = mpu.tokens::<REGIONS>();

    for (token, range) in tokens.iter_mut().zip(nonoverlapping_ranges()) {
        let region = &Region::Enabled(RegionConfig {
            range,
            shareability: Shareability::InnerShareable,
            attribute_index: AttributeIndex::new(0).unwrap(),
            access_permissions: AccessPermissions::AnyReadOnly,
            execute_never: true,
        });
        mpu.set_region(token, region).unwrap();
    }

    for token in tokens.iter() {
        assert!(mpu.region(token).is_enabled());
    }
}

#[test]
fn disable_region() {
    let mut mpu = LlMpu::new(MockMpu::<REGIONS>::new());
    let mut tokens = mpu.tokens::<REGIONS>();

    for (token, range) in tokens.iter_mut().zip(nonoverlapping_ranges()) {
        let region = &Region::Enabled(RegionConfig {
            range,
            shareability: Shareability::InnerShareable,
            attribute_index: AttributeIndex::new(0).unwrap(),
            access_permissions: AccessPermissions::AnyReadOnly,
            execute_never: true,
        });
        mpu.set_region(token, region).unwrap();
    }

    mpu.set_region(&mut tokens[4], &Region::Disabled).unwrap();

    for token in tokens.iter() {
        if token.get() == 4 {
            assert!(
                !mpu.region(token).is_enabled(),
                "expected region {token:?} to be disabled",
            );
        } else {
            assert!(
                mpu.region(token).is_enabled(),
                "expected region {token:?} to be enabled",
            );
        }
    }
}

#[test]
fn cannot_assign_overlapping() {
    let mut mpu = LlMpu::new(MockMpu::<REGIONS>::new());
    let mut tokens = mpu.tokens::<REGIONS>();
    let mut t1 = tokens.remove(1);
    let mut t0 = tokens.remove(0);

    let range = nonoverlapping_ranges().next().unwrap();

    let region = Region::Enabled(RegionConfig {
        range,
        shareability: Shareability::InnerShareable,
        attribute_index: AttributeIndex::new(0).unwrap(),
        access_permissions: AccessPermissions::AnyReadOnly,
        execute_never: true,
    });

    mpu.set_region(&mut t0, &region).unwrap();
    assert!(mpu.set_region(&mut t1, &region).is_err());
}

#[test]
fn can_set_all_attributes() {
    let mut mpu = LlMpu::new(MockMpu::<REGIONS>::new());

    let config = MemoryAttributes::Device(DeviceMemoryAttributes::NonGatheringNonReordering);

    for index in 0..7u8 {
        let index = AttributeIndex::new(index).unwrap();
        mpu.set_attributes(index, config.clone());
    }

    for index in 0..7u8 {
        let index = AttributeIndex::new(index).unwrap();
        assert_eq!(mpu.attributes(index), config);
    }
}

// Slightly silly test, but why not
#[test]
fn enable() {
    let mut mpu = LlMpu::new(MockMpu::<8>::new());

    mpu.enable(true, true);

    assert!(mpu.enabled());
    assert!(mpu.hfnmiena());
    assert!(mpu.privdefena());
}

#[test]
fn setting_same_region_twice_is_ok_and_overlap_leaves_region_unchanged() {
    let mut mpu = LlMpu::new(MockMpu::<REGIONS>::new());
    assert!(!mpu.took_tokens());
    let mut tokens = mpu.tokens::<REGIONS>();
    assert!(mpu.took_tokens());
    let mut two = tokens.remove(2);
    let mut one = tokens.remove(1);
    assert_eq!(one.get(), 1);
    assert_eq!(two.get(), 2);

    let config_static = RegionConfig {
        range: RegionRange::new(0x1000..0x1400).unwrap(),
        attribute_index: AttributeIndex::new(0).unwrap(),
        shareability: Shareability::OuterShareable,
        access_permissions: AccessPermissions::AnyReadWrite,
        execute_never: false,
    };
    let config_dynamic = RegionConfig {
        range: RegionRange::new(0x2000..0x2400).unwrap(),
        attribute_index: AttributeIndex::new(1).unwrap(),
        shareability: Shareability::InnerShareable,
        access_permissions: AccessPermissions::PrivilegedReadOnly,
        execute_never: true,
    };
    let mut overlapping = config_static;
    overlapping.range = RegionRange::new_inclusive(0x1020..=0x13FF).unwrap();

    mpu.set_region(&mut one, &Region::Enabled(config_static)).unwrap();
    // Setting the same region twice is OK.
    mpu.set_region(&mut one, &Region::Enabled(config_static)).unwrap();
    mpu.set_region(&mut two, &Region::Enabled(config_dynamic)).unwrap();

    // Creating overlapping, enabled regions is not, and the failed call
    // leaves the region as it was.
    let err = mpu
        .set_region(&mut two, &Region::Enabled(overlapping))
        .unwrap_err();
    assert_eq!(err.region, 1);
    assert_eq!(err.config, config_static);
    assert_eq!(mpu.region(&two), Region::Enabled(config_dynamic));

    // Disabled regions never overlap.
    mpu.set_region(&mut two, &Region::Disabled).unwrap();
    assert_eq!(mpu.region(&two), Region::Disabled);
    mpu.disable();
    assert!(!mpu.enabled());
    assert_eq!(mpu.regions(), REGIONS as u8);
}
