use thumbv8m_mpu::regs::{
    attributes_from_mair, decode_region, mair_register_index, mair_with_attributes, BaseAddress,
    LimitAddress, Type,
};
use thumbv8m_mpu::{
    AccessPermissions, AttributeIndex, Control, DeviceMemoryAttributes, MemoryAttributes,
    NormalMemoryAttributes, Region, RegionConfig, RegionRange, Shareability, TransientAllocations,
};

fn all_normal() -> Vec<NormalMemoryAttributes> {
    let mut v = vec![NormalMemoryAttributes::NonCacheable];
    for t in [
        TransientAllocations::AllocateWrites,
        TransientAllocations::AllocateReads,
        TransientAllocations::AllocateBoth,
    ] {
        v.push(NormalMemoryAttributes::WriteThroughTransient(t));
        v.push(NormalMemoryAttributes::WriteBackTransient(t));
    }
    for r in [false, true] {
        for w in [false, true] {
            v.push(NormalMemoryAttributes::WriteThroughNonTransient {
                allocate_reads: r,
                allocate_writes: w,
            });
            v.push(NormalMemoryAttributes::WriteBackNonTransient {
                allocate_reads: r,
                allocate_writes: w,
            });
        }
    }
    v
}

fn all_attributes() -> Vec<MemoryAttributes> {
    let mut v = vec![
        MemoryAttributes::Device(DeviceMemoryAttributes::NoneAllowed),
        MemoryAttributes::Device(DeviceMemoryAttributes::NonGatheringNonReordering),
        MemoryAttributes::Device(DeviceMemoryAttributes::NonGathering),
        MemoryAttributes::Device(DeviceMemoryAttributes::All),
    ];
    for outer in all_normal() {
        for inner in all_normal() {
            v.push(MemoryAttributes::Normal { outer, inner });
        }
    }
    v
}

#[test]
fn attribute_encodings() {
    assert_eq!(MemoryAttributes::non_cacheable().encode(), 0x00);
    assert_eq!(
        MemoryAttributes::Device(DeviceMemoryAttributes::All).encode(),
        0x0C
    );
    assert_eq!(
        MemoryAttributes::Device(DeviceMemoryAttributes::NonGatheringNonReordering).encode(),
        0x04
    );
    assert_eq!(
        MemoryAttributes::Device(DeviceMemoryAttributes::NonGathering).encode(),
        0x08
    );
    assert_eq!(
        MemoryAttributes::Normal {
            outer: NormalMemoryAttributes::NonCacheable,
            inner: NormalMemoryAttributes::NonCacheable,
        }
        .encode(),
        0x44
    );
    assert_eq!(
        MemoryAttributes::Normal {
            outer: NormalMemoryAttributes::WriteBackNonTransient {
                allocate_reads: true,
                allocate_writes: true,
            },
            inner: NormalMemoryAttributes::WriteThroughTransient(
                TransientAllocations::AllocateWrites
            ),
        }
        .encode(),
        0xF1
    );
    assert_eq!(
        NormalMemoryAttributes::WriteThroughNonTransient {
            allocate_reads: true,
            allocate_writes: false,
        }
        .encode(),
        0b1010
    );
    assert_eq!(TransientAllocations::AllocateReads.encode(), 0b10);
}

#[test]
fn attribute_decode_of_encode_is_identity() {
    let all = all_attributes();
    assert_eq!(all.len(), 4 + 15 * 15);
    let mut seen = std::collections::HashSet::new();
    for a in all {
        let byte = a.encode();
        assert!(seen.insert(byte), "two attributes encode to {byte:#x}");
        assert_eq!(MemoryAttributes::decode(byte), a);
    }
}

#[test]
fn attribute_encode_of_decode_is_identity() {
    for byte in 0u8..=255 {
        let (upper, lower) = (byte >> 4, byte & 0xF);
        let valid = (upper == 0 && lower & 0b11 == 0) || (upper != 0 && lower != 0);
        assert_eq!(MemoryAttributes::is_encoding(byte), valid);
        if valid {
            assert_eq!(MemoryAttributes::decode(byte).encode(), byte);
        }
    }
    assert_eq!(
        MemoryAttributes::decode(0x08),
        MemoryAttributes::Device(DeviceMemoryAttributes::NonGathering)
    );
    assert_eq!(
        MemoryAttributes::decode(0x5A),
        MemoryAttributes::Normal {
            outer: NormalMemoryAttributes::WriteBackTransient(TransientAllocations::AllocateWrites),
            inner: NormalMemoryAttributes::WriteThroughNonTransient {
                allocate_reads: true,
                allocate_writes: false,
            },
        }
    );
}

#[test]
fn control_flags() {
    let c = Control::enabled_with(false, true);
    assert_eq!(c.raw_value(), 0b101);
    assert!(c.enable());
    assert!(!c.hfnmiena());
    assert!(c.privdefena());
    let c = Control::new_with_raw_value(0xFFFF_FFF0).with_hfnmiena(true);
    assert_eq!(c.raw_value(), 0xFFFF_FFF2);
    let c = c.with_hfnmiena(false).with_enable(true);
    assert_eq!(c.raw_value(), 0xFFFF_FFF1);
    assert_eq!(Control::default().raw_value(), 0);
}

#[test]
fn attribute_index_range() {
    for v in 0..8u8 {
        assert_eq!(AttributeIndex::new(v).unwrap().get(), v);
    }
    assert!(AttributeIndex::new(8).is_none());
    assert!(AttributeIndex::new(255).is_none());
}

#[test]
fn raw_values() {
    assert_eq!(Shareability::InnerShareable.raw_value(), 0b11);
    assert_eq!(Shareability::new_with_raw_value(0b10), Some(Shareability::OuterShareable));
    assert_eq!(Shareability::new_with_raw_value(0b01), None);
    assert_eq!(AccessPermissions::new_with_raw_value(0b10), AccessPermissions::PrivilegedReadOnly);
    assert_eq!(AccessPermissions::AnyReadWrite.raw_value(), 0b01);
    assert_eq!(DeviceMemoryAttributes::new_with_raw_value(1), DeviceMemoryAttributes::NonGatheringNonReordering);
}

#[test]
fn type_register() {
    let t = Type::new_with_raw_value(0x0000_1001);
    assert_eq!(t.dregion(), 16);
    assert!(t.separate());
    assert_eq!(Type::new_with_raw_value(0x0000_0800).dregion(), 8);
}

#[test]
fn region_register_encoding() {
    let config = RegionConfig {
        range: RegionRange::new(0x2000_0000..0x2000_0400).unwrap(),
        shareability: Shareability::InnerShareable,
        attribute_index: AttributeIndex::new(5).unwrap(),
        access_permissions: AccessPermissions::PrivilegedReadOnly,
        execute_never: true,
    };
    let base = BaseAddress::for_config(&config);
    assert_eq!(base.raw_value(), 0x2000_0000 | (0b11 << 3) | (0b10 << 1) | 1);
    let limit = LimitAddress::for_region(&Region::Enabled(config));
    assert_eq!(limit.raw_value(), 0x2000_03E0 | (5 << 1) | 1);
    assert_eq!(decode_region(base, limit), Region::Enabled(config));

    let disabled = LimitAddress::for_region(&Region::Disabled);
    assert_eq!(disabled.raw_value(), 0);
    assert_eq!(decode_region(base, disabled), Region::Disabled);
}

#[test]
fn region_register_decoding() {
    let base = BaseAddress::new_with_raw_value(0x0800_0000 | (0b00 << 3) | (0b01 << 1));
    let limit = LimitAddress::new_with_raw_value(0x0800_FFE0 | (2 << 1) | 1);
    assert_eq!(base.base_address(), 0x0800_0000);
    assert_eq!(limit.limit_address(), 0x0800_FFFF);
    assert_eq!(limit.attr_index().get(), 2);
    let region = decode_region(base, limit);
    match region {
        Region::Enabled(config) => {
            assert_eq!(config.range.get(), 0x0800_0000..=0x0800_FFFF);
            assert_eq!(config.shareability, Shareability::NonShareable);
            assert_eq!(config.access_permissions, AccessPermissions::AnyReadWrite);
            assert!(!config.execute_never);
            assert_eq!(config.attribute_index.get(), 2);
        }
        Region::Disabled => panic!("region should be enabled"),
    }
}

#[test]
fn mair_read_after_write() {
    let reg: u32 = 0x4433_2211;
    let idx = AttributeIndex::new(6).unwrap();
    assert_eq!(mair_register_index(idx), 1);
    let attrs = MemoryAttributes::Normal {
        outer: NormalMemoryAttributes::NonCacheable,
        inner: NormalMemoryAttributes::WriteBackTransient(TransientAllocations::AllocateBoth),
    };
    let written = mair_with_attributes(reg, idx, attrs);
    assert_eq!(written, 0x4447_2211);
    assert_eq!(attributes_from_mair(written, idx), attrs);
    let other = AttributeIndex::new(4).unwrap();
    assert_eq!(
        attributes_from_mair(written, other),
        MemoryAttributes::Normal {
            outer: NormalMemoryAttributes::WriteThroughTransient(TransientAllocations::AllocateWrites),
            inner: NormalMemoryAttributes::WriteThroughTransient(TransientAllocations::AllocateWrites),
        }
    );
}

#[test]
fn normal_decode_ignores_upper_nibble() {
    assert_eq!(
        NormalMemoryAttributes::decode(0x15),
        NormalMemoryAttributes::WriteBackTransient(TransientAllocations::AllocateWrites)
    );
    assert_eq!(
        NormalMemoryAttributes::decode(0xF4),
        NormalMemoryAttributes::NonCacheable
    );
    for v in 1u8..=255 {
        if v & 0xF != 0 {
            assert_eq!(NormalMemoryAttributes::decode(v).encode(), v & 0xF);
        }
    }
}
