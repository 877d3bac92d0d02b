use thumbv8m_mpu::{RegionRange, RegionRangeError};

#[test]
fn aligned_valid_len_region() {
    assert!(RegionRange::new_inclusive(0..=31).is_ok());
}

#[test]
fn aligned_valid_len_region_exclusive() {
    assert!(RegionRange::new(0..32).is_ok());
}

#[test]
fn aligned_invalid_len_region() {
    assert_eq!(
        RegionRange::new_inclusive(0..=32),
        Err(RegionRangeError::EndMisaligned)
    );
}

#[test]
fn aligned_invalid_len_region_exclusive() {
    assert_eq!(
        RegionRange::new(0..33),
        Err(RegionRangeError::EndMisaligned)
    );
}

#[test]
fn misaligned_invalid_len_region() {
    assert_eq!(
        RegionRange::new_inclusive(1..=32),
        Err(RegionRangeError::StartMisaligned)
    );
}

#[test]
fn misaligned_invalid_len_exclusive() {
    assert_eq!(
        RegionRange::new(1..33),
        Err(RegionRangeError::StartMisaligned)
    );
}

#[test]
fn start_greater_than_end() {
    assert_eq!(
        RegionRange::new_inclusive(32..=31),
        Err(RegionRangeError::EndBeforeStart)
    );
}

#[test]
fn start_greater_than_end_exclusive() {
    assert_eq!(
        RegionRange::new(32..32),
        Err(RegionRangeError::EndBeforeStart)
    );
}

#[test]
fn region_from_aligned_struct() {
    // A 32-byte block at a region-aligned address.
    let region = RegionRange::for_block(0x2000_0040, 32);

    assert!(region
        .get()
        .start()
        .is_multiple_of(RegionRange::REQUIRED_ALIGNMENT));

    let diff = region.get().end() - region.get().start();
    assert_eq!(diff, 31)
}

#[test]
fn range_bounds_are_kept() {
    let region = RegionRange::new(0x100..0x200).unwrap();
    assert_eq!(region.get(), 0x100..=0x1FF);
    let region = RegionRange::new_inclusive(0xFFFF_FFE0..=u32::MAX).unwrap();
    assert_eq!(region.get(), 0xFFFF_FFE0..=u32::MAX);
}

#[test]
fn empty_exclusive_range_at_zero_is_misaligned() {
    assert_eq!(RegionRange::new(0..0), Err(RegionRangeError::EndMisaligned));
}

#[test]
fn overlapping_ranges() {
    let a = RegionRange::new(0..64).unwrap();
    let b = RegionRange::new(32..96).unwrap();
    let c = RegionRange::new(64..128).unwrap();
    assert!(a.overlaps(&b));
    assert!(b.overlaps(&a));
    assert!(a.overlaps(&a));
    assert!(!a.overlaps(&c));
    assert!(!c.overlaps(&a));
    assert!(b.overlaps(&c));
}

#[test]
fn alignment_mask_tells_aligned_addresses() {
    assert_eq!(RegionRange::ALIGNMENT_MASK, 0xFFFF_FFE0);
    for a in [0u32, 16, 31, 32, 48, 64, 0x2000_0010, 0xFFFF_FFE0, u32::MAX] {
        let aligned = a & RegionRange::ALIGNMENT_MASK == a;
        assert_eq!(aligned, a % RegionRange::REQUIRED_ALIGNMENT == 0);
        assert_eq!(
            RegionRange::new_inclusive(a..=(a | 31)) == Err(RegionRangeError::StartMisaligned),
            !aligned
        );
    }
}

#[test]
fn block_at_top_of_address_space() {
    let region = RegionRange::for_block(0xFFFF_FF00, 0x100);
    assert_eq!(region.get(), 0xFFFF_FF00..=u32::MAX);
    assert_eq!(RegionRange::new_inclusive(region.get()), Ok(region));
}
