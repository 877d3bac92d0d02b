//! The layout of the MPU's registers, and the conversion between region
//! configurations and memory attributes and the values of those registers.
use vstd::prelude::*;

use crate::attributes::{MemoryAttributes, bit_of, is_attribute_encoding};
use crate::outside::u27_new;
use crate::range::RegionRange;
use crate::region::{
    AccessPermissions, AttributeIndex, Region, RegionConfig, Shareability,
    access_permissions_from_bits, shareability_from_bits,
};

verus! {

/// The value of the MPU control register (`MPU_CTRL`).
#[derive(Debug, Clone, Copy, PartialEq, Eq, Structural)]
pub struct Control {
    raw: u32,
}

impl View for Control {
    type V = u32;

    closed spec fn view(&self) -> u32 {
        self.raw
    }
}

/// The raw value of a control register whose only set bits are the given
/// `ENABLE` (bit 0), `HFNMIENA` (bit 1) and `PRIVDEFENA` (bit 2) bits.
pub open spec fn control_bits(enable: bool, hfnmiena: bool, privdefena: bool) -> u32 {
    (bit_of(enable) + 2 * bit_of(hfnmiena) + 4 * bit_of(privdefena)) as u32
}

impl Default for Control {
    fn default() -> (r: Self)
        ensures
            r@ == 0,
    {
        Control { raw: 0 }
    }
}

impl Control {
    /// Whether the `ENABLE` bit (bit 0) is set.
    pub open spec fn enable_bit(self) -> bool {
        self@ & 1 == 1
    }

    /// Whether the `HFNMIENA` bit (bit 1) is set.
    pub open spec fn hfnmiena_bit(self) -> bool {
        self@ & 2 == 2
    }

    /// Whether the `PRIVDEFENA` bit (bit 2) is set.
    pub open spec fn privdefena_bit(self) -> bool {
        self@ & 4 == 4
    }

    /// Two control values with the same raw value are the same value.
    pub proof fn lemma_view_determines_control(a: Control, b: Control)
        requires
            a@ == b@,
        ensures
            a == b,
    {
    }

    /// The control register value with raw value `raw`.
    pub fn new_with_raw_value(raw: u32) -> (r: Self)
        ensures
            r@ == raw,
    {
        Control { raw }
    }

    /// The raw value of this control register value.
    pub fn raw_value(&self) -> (r: u32)
        ensures
            r == self@,
    {
        self.raw
    }

    /// Whether the MPU is enabled.
    pub fn enable(&self) -> (r: bool)
        ensures
            r == self.enable_bit(),
    {
        self.raw & 1 == 1
    }

    /// Whether the MPU is enabled in the HardFault and NMI handlers.
    pub fn hfnmiena(&self) -> (r: bool)
        ensures
            r == self.hfnmiena_bit(),
    {
        self.raw & 2 == 2
    }

    /// Whether privileged software may use the default memory map.
    pub fn privdefena(&self) -> (r: bool)
        ensures
            r == self.privdefena_bit(),
    {
        self.raw & 4 == 4
    }

    /// This value with the `ENABLE` bit set to `value`.
    pub fn with_enable(self, value: bool) -> (r: Self)
        ensures
            r@ == (if value { self@ | 1 } else { self@ & !1u32 }),
    {
        Control { raw: if value { self.raw | 1 } else { self.raw & !1u32 } }
    }

    /// This value with the `HFNMIENA` bit set to `value`.
    pub fn with_hfnmiena(self, value: bool) -> (r: Self)
        ensures
            r@ == (if value { self@ | 2 } else { self@ & !2u32 }),
    {
        Control { raw: if value { self.raw | 2 } else { self.raw & !2u32 } }
    }

    /// This value with the `PRIVDEFENA` bit set to `value`.
    pub fn with_privdefena(self, value: bool) -> (r: Self)
        ensures
            r@ == (if value { self@ | 4 } else { self@ & !4u32 }),
    {
        Control { raw: if value { self.raw | 4 } else { self.raw & !4u32 } }
    }

    /// The control value that enables the MPU with the given
    /// `HFNMIENA` and `PRIVDEFENA` bits, and has no other bit set.
    pub fn enabled_with(hfnmiena: bool, privdefena: bool) -> (r: Self)
        ensures
            r@ == control_bits(true, hfnmiena, privdefena),
            r.enable_bit(),
            r.hfnmiena_bit() == hfnmiena,
            r.privdefena_bit() == privdefena,
    {
        let r = Control::default().with_enable(true).with_hfnmiena(hfnmiena).with_privdefena(
            privdefena,
        );
        let h = hfnmiena;
        let p = privdefena;
        let raw = r.raw;
        assert(raw == (if h { 2u32 } else { 0u32 }) + (if p { 4u32 } else { 0u32 }) + 1 && raw & 1
            == 1 && (raw & 2 == 2) == h && (raw & 4 == 4) == p) by (bit_vector)
            requires
                raw == (if p { (if h { 0u32 | 1 | 2 } else { (0u32 | 1) & !2u32 }) | 4 } else {
                    (if h { 0u32 | 1 | 2 } else { (0u32 | 1) & !2u32 }) & !4u32
                }),
        ;
        r
    }
}

/// The value of the MPU type register (`MPU_TYPE`).
#[derive(Debug, Clone, Copy, PartialEq, Eq, Structural)]
pub struct Type {
    raw: u32,
}

impl Type {
    /// The type register value with raw value `raw`.
    pub fn new_with_raw_value(raw: u32) -> (r: Self)
        ensures
            r.raw_spec() == raw,
    {
        Type { raw }
    }

    /// The raw value.
    pub closed spec fn raw_spec(self) -> u32 {
        self.raw
    }

    /// The number of regions the MPU supports (`DREGION`, bits 8 to 15).
    pub fn dregion(&self) -> (r: u8)
        ensures
            r == (self.raw_spec() / 256) % 256,
    {
        let r = ((self.raw >> 8) & 0xFF) as u8;
        let raw = self.raw;
        assert(((raw >> 8u32) & 0xFFu32) == (raw / 256) % 256) by (bit_vector);
        r
    }

    /// Whether the MPU has separate instruction and data regions (bit 0).
    pub fn separate(&self) -> (r: bool)
        ensures
            r == (self.raw_spec() % 2 == 1),
    {
        let raw = self.raw;
        assert((raw & 1u32 == 1u32) == (raw % 2 == 1)) by (bit_vector);
        self.raw & 1 == 1
    }
}

/// The value of a region base address register (`MPU_RBAR`).
#[derive(Debug, Clone, Copy, PartialEq, Eq, Structural)]
pub struct BaseAddress {
    raw: u32,
}

impl View for BaseAddress {
    type V = u32;

    closed spec fn view(&self) -> u32 {
        self.raw
    }
}

/// The value of a region limit address register (`MPU_RLAR`).
#[derive(Debug, Clone, Copy, PartialEq, Eq, Structural)]
pub struct LimitAddress {
    raw: u32,
}

impl View for LimitAddress {
    type V = u32;

    closed spec fn view(&self) -> u32 {
        self.raw
    }
}

/// The base address register value for a region with configuration
/// `config`: the start address in bits 5 to 31, the shareability in bits 3
/// and 4, the access permissions in bits 1 and 2, and execute-never in bit 0.
pub open spec fn base_register_value(config: RegionConfig) -> u32 {
    (32 * (config.range.start_address() / 32) + 8 * config.shareability.bits() + 2
        * config.access_permissions.bits() + bit_of(config.execute_never)) as u32
}

/// The limit address register value for `region`: for an enabled region, the
/// end address in bits 5 to 31, the attribute index in bits 1 to 3 and the
/// enable bit 0 set; for a disabled region, zero.
pub open spec fn limit_register_value(region: Region) -> u32 {
    match region {
        Region::Disabled => 0,
        Region::Enabled(config) => (32 * (config.range.end_address() / 32) + 2
            * config.attribute_index@ + 1) as u32,
    }
}

/// Whether the register values `rbar` and `rlar` describe a region: a
/// disabled one, or an enabled one with a valid shareability and a base no
/// higher than the limit.
pub open spec fn registers_describe_region(rbar: u32, rlar: u32) -> bool {
    rlar % 2 == 1 ==> (rbar / 8) % 4 != 1 && rbar / 32 <= rlar / 32
}

/// The region that the register values `rbar` and `rlar` describe.
pub open spec fn region_of_registers(rbar: u32, rlar: u32) -> Region {
    if rlar % 2 == 1 {
        Region::Enabled(
            RegionConfig {
                range: RegionRange::from_bounds(
                    (32 * (rbar / 32)) as u32,
                    (32 * (rlar / 32) + 31) as u32,
                ),
                shareability: shareability_from_bits(((rbar / 8) % 4) as u8),
                attribute_index: AttributeIndex::from_value(((rlar / 2) % 8) as u8),
                access_permissions: access_permissions_from_bits(((rbar / 2) % 4) as u8),
                execute_never: rbar % 2 == 1,
            },
        )
    } else {
        Region::Disabled
    }
}

impl BaseAddress {
    /// The base address register value with raw value `raw`.
    pub fn new_with_raw_value(raw: u32) -> (r: Self)
        ensures
            r@ == raw,
    {
        BaseAddress { raw }
    }

    /// The raw value.
    pub fn raw_value(&self) -> (r: u32)
        ensures
            r == self@,
    {
        self.raw
    }

    /// The base address register value for a region with configuration
    /// `config`.
    pub fn for_config(config: &RegionConfig) -> (r: Self)
        ensures
            r@ == base_register_value(*config),
    {
        let start = config.range.first();
        assert(start >> 5u32 < 0x800_0000u32) by (bit_vector);
        let base = u27_new(start >> 5);
        let sh = config.shareability.raw_value() as u32;
        let ap = config.access_permissions.raw_value() as u32;
        let xn: u32 = if config.execute_never { 1 } else { 0 };
        let raw = (base << 5) | (sh << 3) | (ap << 1) | xn;
        assert(raw == 32 * (start / 32) + 8 * sh + 2 * ap + xn) by (bit_vector)
            requires
                base == start >> 5u32,
                sh <= 3,
                ap <= 3,
                xn <= 1,
                raw == (base << 5u32) | (sh << 3u32) | (ap << 1u32) | xn,
        ;
        BaseAddress { raw }
    }

    /// The start address held in bits 5 to 31 (`BASE`), shifted back into
    /// place.
    pub fn base_address(&self) -> (r: u32)
        ensures
            r == 32 * (self@ / 32),
    {
        let raw = self.raw;
        assert((raw >> 5u32) << 5u32 == 32 * (raw / 32)) by (bit_vector);
        (self.raw >> 5) << 5
    }

    /// The shareability held in bits 3 and 4 (`SH`), if those bits encode
    /// one.
    pub fn shareability(&self) -> (r: Option<Shareability>)
        ensures
            r is None <==> (self@ / 8) % 4 == 1,
            r matches Some(s) ==> s == shareability_from_bits(((self@ / 8) % 4) as u8),
    {
        let raw = self.raw;
        assert((raw >> 3u32) & 3u32 == (raw / 8) % 4) by (bit_vector);
        Shareability::new_with_raw_value(((self.raw >> 3) & 0b11) as u8)
    }

    /// The access permissions held in bits 1 and 2 (`AP`).
    pub fn access_permissions(&self) -> (r: AccessPermissions)
        ensures
            r == access_permissions_from_bits(((self@ / 2) % 4) as u8),
    {
        let raw = self.raw;
        assert((raw >> 1u32) & 3u32 == (raw / 2) % 4) by (bit_vector);
        AccessPermissions::new_with_raw_value(((self.raw >> 1) & 0b11) as u8)
    }

    /// Whether bit 0 (`XN`, execute never) is set.
    pub fn execute_never(&self) -> (r: bool)
        ensures
            r == (self@ % 2 == 1),
    {
        let raw = self.raw;
        assert((raw & 1u32 == 1u32) == (raw % 2 == 1)) by (bit_vector);
        self.raw & 1 == 1
    }
}

impl LimitAddress {
    /// The limit address register value with raw value `raw`.
    pub fn new_with_raw_value(raw: u32) -> (r: Self)
        ensures
            r@ == raw,
    {
        LimitAddress { raw }
    }

    /// The raw value.
    pub fn raw_value(&self) -> (r: u32)
        ensures
            r == self@,
    {
        self.raw
    }

    /// The limit address register value for `region`. The reserved bit 4 is
    /// left clear.
    pub fn for_region(region: &Region) -> (r: Self)
        ensures
            r@ == limit_register_value(*region),
    {
        match region {
            Region::Enabled(config) => {
                let end = config.range.last();
                assert(end >> 5u32 < 0x800_0000u32) by (bit_vector);
                let limit = u27_new(end >> 5);
                let index = config.attribute_index.get() as u32;
                let raw = (limit << 5) | (0u32 << 4) | (index << 1) | 1;
                assert(raw == 32 * (end / 32) + 2 * index + 1) by (bit_vector)
                    requires
                        limit == end >> 5u32,
                        index < 8,
                        raw == (limit << 5u32) | (0u32 << 4u32) | (index << 1u32) | 1u32,
                ;
                LimitAddress { raw }
            },
            Region::Disabled => LimitAddress { raw: 0 },
        }
    }

    /// The last address of the region: the limit held in bits 5 to 31
    /// (`LIMIT`), shifted back into place, with the low five bits set.
    pub fn limit_address(&self) -> (r: u32)
        ensures
            r == 32 * (self@ / 32) + 31,
    {
        let raw = self.raw;
        assert(((raw >> 5u32) << 5u32) | 31u32 == 32 * (raw / 32) + 31) by (bit_vector);
        ((self.raw >> 5) << 5) | 0x1F
    }

    /// The attribute index held in bits 1 to 3 (`AttrIndx`).
    pub fn attr_index(&self) -> (r: AttributeIndex)
        ensures
            r@ == (self@ / 2) % 8,
    {
        let raw = self.raw;
        assert((raw >> 1u32) & 7u32 == (raw / 2) % 8) by (bit_vector);
        let v = ((self.raw >> 1) & 0b111) as u8;
        match AttributeIndex::new(v) {
            Some(index) => index,
            None => {
                assert(false);
                AttributeIndex::new(0).unwrap()
            }
        }
    }

    /// Whether the enable bit 0 (`EN`) is set.
    pub fn enable(&self) -> (r: bool)
        ensures
            r == (self@ % 2 == 1),
    {
        let raw = self.raw;
        assert((raw & 1u32 == 1u32) == (raw % 2 == 1)) by (bit_vector);
        self.raw & 1 == 1
    }
}

/// Whether the base and limit address register values describe a region,
/// that is, whether [`decode_region`] accepts them.
pub fn describes_region(base: BaseAddress, limit: LimitAddress) -> (r: bool)
    ensures
        r == registers_describe_region(base@, limit@),
{
    let rbar = base.raw;
    let rlar = limit.raw;
    assert((rbar >> 3u32) & 3u32 == (rbar / 8) % 4 && rbar >> 5u32 == rbar / 32 && rlar >> 5u32
        == rlar / 32 && (rlar & 1u32 == 1u32) == (rlar % 2 == 1)) by (bit_vector);
    !(rlar & 1 == 1) || ((rbar >> 3) & 0b11 != 0b01 && (rbar >> 5) <= (rlar >> 5))
}

/// The region that the base and limit address register values describe.
pub fn decode_region(base: BaseAddress, limit: LimitAddress) -> (r: Region)
    requires
        registers_describe_region(base@, limit@),
    ensures
        r == region_of_registers(base@, limit@),
{
    if limit.enable() {
        let start = base.base_address();
        let end = limit.limit_address();
        let shareability = match base.shareability() {
            Some(s) => s,
            None => {
                assert(false);
                Shareability::NonShareable
            }
        };
        proof {
            RegionRange::lemma_from_bounds(start, end);
            AttributeIndex::lemma_from_value(((limit@ / 2) % 8) as u8);
        }
        let range = RegionRange::new_unchecked(start, end);
        let attribute_index = limit.attr_index();
        proof {
            RegionRange::lemma_bounds_determine_range(
                range,
                RegionRange::from_bounds(start, end),
            );
            AttributeIndex::lemma_view_determines_index(
                attribute_index,
                AttributeIndex::from_value(((limit@ / 2) % 8) as u8),
            );
        }
        Region::Enabled(
            RegionConfig {
                range,
                attribute_index,
                shareability,
                access_permissions: base.access_permissions(),
                execute_never: base.execute_never(),
            },
        )
    } else {
        Region::Disabled
    }
}

/// Reading back the registers written for a region gives that region: the
/// values written describe a region, and the region they describe is the
/// one written. A disabled region reads back as disabled whatever the base
/// address register holds.
pub proof fn lemma_region_registers_roundtrip(region: Region, rbar: u32)
    requires
        region matches Region::Enabled(config) ==> config.range.well_formed()
            && config.attribute_index@ < 8,
        region matches Region::Enabled(config) ==> rbar == base_register_value(config),
    ensures
        registers_describe_region(rbar, limit_register_value(region)),
        region_of_registers(rbar, limit_register_value(region)) == region,
{
    match region {
        Region::Disabled => {},
        Region::Enabled(config) => {
            let start = config.range.start_address();
            let end = config.range.end_address();
            let sh = config.shareability.bits();
            let ap = config.access_permissions.bits();
            let xn = bit_of(config.execute_never);
            let idx = config.attribute_index@;
            let rlar = limit_register_value(region);
            assert(rbar == start + 8 * sh + 2 * ap + xn);
            assert(rbar / 32 == start / 32 && (rbar / 8) % 4 == sh && (rbar / 2) % 4 == ap && rbar
                % 2 == xn) by (nonlinear_arith)
                requires
                    rbar == start + 8 * sh + 2 * ap + xn,
                    start % 32 == 0,
                    sh <= 3,
                    ap <= 3,
                    xn <= 1,
            ;
            assert(rlar == end - 31 + 2 * idx + 1);
            assert(rlar / 32 == end / 32 && rlar % 2 == 1 && (rlar / 2) % 8 == idx) by (
            nonlinear_arith)
                requires
                    rlar == end - 31 + 2 * idx + 1,
                    end % 32 == 31,
                    idx < 8,
            ;
            RegionRange::lemma_from_bounds(start, (32 * (rlar / 32) + 31) as u32);
            RegionRange::lemma_bounds_determine_range(
                config.range,
                RegionRange::from_bounds(start, (32 * (rlar / 32) + 31) as u32),
            );
            AttributeIndex::lemma_from_value(idx as u8);
            AttributeIndex::lemma_view_determines_index(
                config.attribute_index,
                AttributeIndex::from_value(idx as u8),
            );
        },
    }
}

/// The byte held in slot `slot` (0 to 3) of a Memory Attribute Indirection
/// register value `reg`: bits `8 * slot` to `8 * slot + 7`.
pub open spec fn mair_byte(reg: u32, slot: u32) -> u8 {
    ((reg >> (8 * slot) as u32) & 0xFF) as u8
}

/// The Memory Attribute Indirection register value `reg` with the byte in
/// slot `slot` (0 to 3) replaced by `byte`.
pub open spec fn mair_with_byte(reg: u32, slot: u32, byte: u8) -> u32 {
    (reg & !(0xFFu32 << (8 * slot) as u32)) | ((byte as u32) << (8 * slot) as u32)
}

/// Which of the two Memory Attribute Indirection registers holds the
/// attributes at `index`.
pub fn mair_register_index(index: AttributeIndex) -> (r: usize)
    ensures
        r == index@ / 4,
        r < 2,
{
    (index.get() / 4) as usize
}

/// Whether the slot for `index` of the Memory Attribute Indirection register
/// value `reg` holds an encoding of memory attributes, that is, whether
/// [`attributes_from_mair`] accepts `reg` and `index`.
pub fn mair_holds_attributes(reg: u32, index: AttributeIndex) -> (r: bool)
    ensures
        r == is_attribute_encoding(mair_byte(reg, (index@ % 4) as u32)),
{
    let num = index.get();
    let shift = ((num % 4) * 8) as u32;
    let value = (reg >> shift) as u8;
    assert((reg >> shift) as u8 == (reg >> shift) & 0xFF) by (bit_vector);
    MemoryAttributes::is_encoding(value)
}

/// The memory attributes at `index`, read from the value `reg` of the Memory
/// Attribute Indirection register that holds them.
pub fn attributes_from_mair(reg: u32, index: AttributeIndex) -> (r: MemoryAttributes)
    requires
        is_attribute_encoding(mair_byte(reg, (index@ % 4) as u32)),
    ensures
        r.bits() == mair_byte(reg, (index@ % 4) as u32),
{
    let num = index.get();
    let shift = ((num % 4) * 8) as u32;
    let value = (reg >> shift) as u8;
    assert((reg >> shift) as u8 == (reg >> shift) & 0xFF) by (bit_vector);
    MemoryAttributes::decode(value)
}

/// The value `reg` of the Memory Attribute Indirection register that holds
/// the attributes at `index`, with those attributes replaced by `attrs`.
pub fn mair_with_attributes(reg: u32, index: AttributeIndex, attrs: MemoryAttributes) -> (r: u32)
    ensures
        r == mair_with_byte(reg, (index@ % 4) as u32, attrs.bits()),
{
    let num = index.get();
    let shift = ((num % 4) * 8) as u32;
    let mask: u32 = 0xFF << shift;
    reg & !mask | ((attrs.encode() as u32) << shift)
}

/// Writing a byte into one slot of a Memory Attribute Indirection register
/// value and reading that slot back gives the byte; the other slots keep
/// their bytes.
pub proof fn lemma_mair_read_after_write(reg: u32, slot: u32, other: u32, byte: u8)
    requires
        slot < 4,
        other < 4,
    ensures
        mair_byte(mair_with_byte(reg, slot, byte), slot) == byte,
        other != slot ==> mair_byte(mair_with_byte(reg, slot, byte), other) == mair_byte(
            reg,
            other,
        ),
{
    let s = (8 * slot) as u32;
    let t = (8 * other) as u32;
    let b = byte as u32;
    assert(((((reg & !(0xFFu32 << s)) | (b << s)) >> s) & 0xFF) == b) by (bit_vector)
        requires
            s == 0 || s == 8 || s == 16 || s == 24,
            b <= 0xFF,
    ;
    assert(s != t ==> ((((reg & !(0xFFu32 << s)) | (b << s)) >> t) & 0xFF) == (reg >> t) & 0xFF)
        by (bit_vector)
        requires
            s == 0 || s == 8 || s == 16 || s == 24,
            t == 0 || t == 8 || t == 16 || t == 24,
            b <= 0xFF,
    ;
}

/// The ARMv8-M layout of the control register: `ENABLE` is bit 0,
/// `HFNMIENA` bit 1 and `PRIVDEFENA` bit 2.
pub proof fn lemma_control_bit_layout(c: Control, enable: bool, hfnmiena: bool, privdefena: bool)
    ensures
        c.enable_bit() == (c@ % 2 == 1),
        c.hfnmiena_bit() == ((c@ / 2) % 2 == 1),
        c.privdefena_bit() == ((c@ / 4) % 2 == 1),
        control_bits(enable, hfnmiena, privdefena) % 2 == (if enable { 1int } else { 0 }),
        (control_bits(enable, hfnmiena, privdefena) / 2) % 2 == (if hfnmiena { 1int } else { 0 }),
        (control_bits(enable, hfnmiena, privdefena) / 4) % 2 == (if privdefena { 1int } else { 0 }),
        control_bits(enable, hfnmiena, privdefena) < 8,
{
    let v = c@;
    assert((v & 1 == 1) == (v % 2 == 1)) by (bit_vector);
    assert((v & 2 == 2) == ((v / 2) % 2 == 1)) by (bit_vector);
    assert((v & 4 == 4) == ((v / 4) % 2 == 1)) by (bit_vector);
}

/// The ARMv8-M layout of the base and limit address registers written for a
/// region: in `RBAR`, the start address in bits 5 to 31, the `SH` field in
/// bits 3 and 4 (`00` non-shareable, `10` outer, `11` inner), the `AP` field
/// in bits 1 and 2 (`00` privileged read-write, `01` any read-write, `10`
/// privileged read-only, `11` any read-only) and execute-never in bit 0; in
/// `RLAR`, the end address in bits 5 to 31, the attribute index in bits 1 to
/// 3, and the enable bit 0, which only an enabled region sets.
pub proof fn lemma_region_register_layout(config: RegionConfig)
    requires
        config.range.well_formed(),
        config.attribute_index@ < 8,
    ensures
        32 * (base_register_value(config) / 32) == config.range.start_address(),
        (base_register_value(config) / 8) % 4 == match config.shareability {
            Shareability::NonShareable => 0b00int,
            Shareability::OuterShareable => 0b10,
            Shareability::InnerShareable => 0b11,
        },
        (base_register_value(config) / 2) % 4 == match config.access_permissions {
            AccessPermissions::PrivilegedReadWrite => 0b00int,
            AccessPermissions::AnyReadWrite => 0b01,
            AccessPermissions::PrivilegedReadOnly => 0b10,
            AccessPermissions::AnyReadOnly => 0b11,
        },
        base_register_value(config) % 2 == (if config.execute_never { 1int } else { 0 }),
        32 * (limit_register_value(Region::Enabled(config)) / 32) + 31
            == config.range.end_address(),
        (limit_register_value(Region::Enabled(config)) / 2) % 8 == config.attribute_index@,
        limit_register_value(Region::Enabled(config)) % 2 == 1,
        limit_register_value(Region::Disabled) % 2 == 0,
{
    let start = config.range.start_address();
    let end = config.range.end_address();
    let sh = config.shareability.bits();
    let ap = config.access_permissions.bits();
    let xn = bit_of(config.execute_never);
    let idx = config.attribute_index@;
    let rbar = base_register_value(config);
    let rlar = limit_register_value(Region::Enabled(config));
    assert(rbar == start + 8 * sh + 2 * ap + xn);
    assert(32 * (rbar / 32) == start && (rbar / 8) % 4 == sh && (rbar / 2) % 4 == ap && rbar % 2
        == xn) by (nonlinear_arith)
        requires
            rbar == start + 8 * sh + 2 * ap + xn,
            start % 32 == 0,
            sh <= 3,
            ap <= 3,
            xn <= 1,
    ;
    assert(rlar == end - 31 + 2 * idx + 1);
    assert(32 * (rlar / 32) + 31 == end && rlar % 2 == 1 && (rlar / 2) % 8 == idx) by (
    nonlinear_arith)
        requires
            rlar == end - 31 + 2 * idx + 1,
            end % 32 == 31,
            idx < 8,
    ;
}

/// The ARMv8-M layout of a Memory Attribute Indirection register: slot 0 is
/// bits 0 to 7, slot 1 bits 8 to 15, slot 2 bits 16 to 23, slot 3 bits 24 to
/// 31; and the attributes at index `i` lie in register `i / 4`, slot `i % 4`.
pub proof fn lemma_mair_layout(reg: u32)
    ensures
        mair_byte(reg, 0) == reg % 0x100,
        mair_byte(reg, 1) == (reg / 0x100) % 0x100,
        mair_byte(reg, 2) == (reg / 0x1_0000) % 0x100,
        mair_byte(reg, 3) == reg / 0x100_0000,
{
    assert((reg >> 0u32) & 0xFF == reg % 0x100) by (bit_vector);
    assert((reg >> 8u32) & 0xFF == (reg / 0x100) % 0x100) by (bit_vector);
    assert((reg >> 16u32) & 0xFF == (reg / 0x1_0000) % 0x100) by (bit_vector);
    assert((reg >> 24u32) & 0xFF == reg / 0x100_0000) by (bit_vector);
}

} // verus!
