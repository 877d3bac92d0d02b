//! Memory attributes of MPU regions and their 8-bit encoding in the
//! Memory Attribute Indirection registers.
use vstd::prelude::*;

use crate::outside::u2_from_u8;

verus! {

/// Cache allocation behaviour for transient memory attributes.
///
/// For more information on what allocations mean, see
/// [NormalMemoryAttributes](./enum.NormalMemoryAttributes.html#allocating).
#[derive(Debug, Clone, Copy, PartialEq, Eq, Structural)]
pub enum TransientAllocations {
    /// Writes allocate cache lines.
    AllocateWrites,
    /// Reads allocate cache lines.
    AllocateReads,
    /// Both reads and writes allocate cache lines.
    AllocateBoth,
}

/// Attributes for a normal region.
///
/// # Allocating
/// Allocating means that a certain operation (read or write)
/// to the region will cause a cache-line to be allocated
/// for the addresses that this operation is performed on.
#[derive(Debug, Clone, Copy, PartialEq, Eq, Structural)]
pub enum NormalMemoryAttributes {
    /// Transient (i.e. little-used) write-through memory.
    WriteThroughTransient(TransientAllocations),
    /// Non-cacheable normal memory.
    NonCacheable,
    /// Transient (i.e. little-used) write-back memory.
    WriteBackTransient(TransientAllocations),
    /// Non-transient (i.e. often-used) write-through memory.
    WriteThroughNonTransient {
        /// Whether reads allocate cache lines.
        allocate_reads: bool,
        /// Whether writes allocate cache lines.
        allocate_writes: bool,
    },
    /// Non-transient (i.e. often-used) write-back memory.
    WriteBackNonTransient {
        /// Whether reads allocate cache lines.
        allocate_reads: bool,
        /// Whether writes allocate cache lines.
        allocate_writes: bool,
    },
}

/// Memory attributes for regions of device memory.
#[derive(Debug, Clone, Copy, PartialEq, Eq, Structural)]
pub enum DeviceMemoryAttributes {
    /// The device memory has the Non Gathering, Non Reordering,
    /// and Non Early Write Acknowledgement attributes.
    NoneAllowed,
    /// The device memory has the Non Gathering, Non Reordering,
    /// and Early Write Acknowledgement attributes.
    NonGatheringNonReordering,
    /// The device memory has the Non Gathering, Reordering and
    /// Early Write Acknowledgement attributes.
    NonGathering,
    /// The device memory has the Gathering, Reordering, and
    /// Early Write Acknowledgement attributes.
    All,
}

/// The memory attributes of a region.
#[derive(Debug, Clone, Copy, PartialEq, Eq, Structural)]
pub enum MemoryAttributes {
    /// The memory in this region is a device memory.
    Device(DeviceMemoryAttributes),
    /// The memory in this region is a normal memory.
    Normal {
        /// The attributes of the outer (inter-bus-master
        /// caching) memory.
        outer: NormalMemoryAttributes,
        /// The attributes of the inner (single-core
        /// caching) memory.
        inner: NormalMemoryAttributes,
    },
}

/// The value of a boolean as a single bit.
pub open spec fn bit_of(b: bool) -> u8 {
    if b { 1 } else { 0 }
}

impl TransientAllocations {
    /// The 2-bit allocation hint of these allocations.
    pub open spec fn bits(self) -> u8 {
        match self {
            TransientAllocations::AllocateWrites => 1,
            TransientAllocations::AllocateReads => 2,
            TransientAllocations::AllocateBoth => 3,
        }
    }

    /// Encode these allocations as their 2-bit allocation hint.
    pub fn encode(&self) -> (r: u8)
        ensures
            r == self.bits(),
    {
        match self {
            TransientAllocations::AllocateWrites => 0b01,
            TransientAllocations::AllocateReads => 0b10,
            TransientAllocations::AllocateBoth => 0b11,
        }
    }

    /// Decode a 2-bit allocation hint. The hint `0` does not describe
    /// transient allocations.
    pub fn decode(value: u8) -> (r: Self)
        requires
            1 <= value <= 3,
        ensures
            r.bits() == value,
    {
        match value {
            0b01 => TransientAllocations::AllocateWrites,
            0b10 => TransientAllocations::AllocateReads,
            _ => TransientAllocations::AllocateBoth,
        }
    }
}

impl NormalMemoryAttributes {
    /// The 4-bit attribute nibble of these normal memory attributes:
    /// the cache policy in the upper two bits, the allocation hint
    /// in the lower two.
    pub open spec fn bits(self) -> u8 {
        match self {
            NormalMemoryAttributes::WriteThroughTransient(t) => t.bits(),
            NormalMemoryAttributes::NonCacheable => 4,
            NormalMemoryAttributes::WriteBackTransient(t) => (4 + t.bits()) as u8,
            NormalMemoryAttributes::WriteThroughNonTransient { allocate_reads, allocate_writes } =>
                (8 + 2 * bit_of(allocate_reads) + bit_of(allocate_writes)) as u8,
            NormalMemoryAttributes::WriteBackNonTransient { allocate_reads, allocate_writes } =>
                (12 + 2 * bit_of(allocate_reads) + bit_of(allocate_writes)) as u8,
        }
    }

    /// Encode these attributes as their 4-bit attribute nibble.
    pub fn encode(&self) -> (r: u8)
        ensures
            r == self.bits(),
    {
        let (lower, upper): (u8, u8) = match *self {
            NormalMemoryAttributes::WriteThroughTransient(transient) => (0b00, transient.encode()),
            NormalMemoryAttributes::NonCacheable => (0b01, 0b00),
            NormalMemoryAttributes::WriteBackTransient(transient) => (0b01, transient.encode()),
            NormalMemoryAttributes::WriteThroughNonTransient { allocate_reads, allocate_writes } => {
                let r: u8 = if allocate_reads { 1 } else { 0 };
                let w: u8 = if allocate_writes { 1 } else { 0 };
                (0b10, (r << 1) | w)
            },
            NormalMemoryAttributes::WriteBackNonTransient { allocate_reads, allocate_writes } => {
                let r: u8 = if allocate_reads { 1 } else { 0 };
                let w: u8 = if allocate_writes { 1 } else { 0 };
                (0b11, (r << 1) | w)
            },
        };
        assert(forall|l: u8, u: u8|
            l <= 3 && u <= 3 ==> #[trigger] ((l << 2u8) | u) == 4 * l + u) by (bit_vector);
        assert(forall|r: u8, w: u8|
            r <= 1 && w <= 1 ==> #[trigger] ((r << 1u8) | w) == 2 * r + w) by (bit_vector);
        (lower << 2) | upper
    }

    /// Decode the 4-bit attribute nibble in the low four bits of `value`;
    /// the upper four bits are ignored. The nibble `0` does not describe
    /// normal memory attributes.
    pub fn decode(value: u8) -> (r: Self)
        requires
            value % 16 != 0,
        ensures
            r.bits() == value % 16,
    {
        let (upper, lower) = ((value >> 2) & 0b11, value & 0b11);
        assert(upper == (value % 16) / 4 && lower == value % 4 && value % 4 == (value % 16) % 4)
            by (bit_vector)
            requires
                upper == (value >> 2u8) & 3u8,
                lower == value & 3u8,
        ;
        assert(((lower & 2u8) == 2u8) == (lower >= 2) && ((lower & 1u8) == 1u8) == (lower % 2
            == 1)) by (bit_vector)
            requires
                lower <= 3,
        ;
        if upper == 0b00 {
            NormalMemoryAttributes::WriteThroughTransient(TransientAllocations::decode(lower))
        } else if upper == 0b01 {
            if lower == 0b00 {
                NormalMemoryAttributes::NonCacheable
            } else {
                NormalMemoryAttributes::WriteBackTransient(TransientAllocations::decode(lower))
            }
        } else if upper == 0b10 {
            NormalMemoryAttributes::WriteThroughNonTransient {
                allocate_reads: (lower & 0b10) == 0b10,
                allocate_writes: (lower & 0b01) == 0b01,
            }
        } else {
            NormalMemoryAttributes::WriteBackNonTransient {
                allocate_reads: (lower & 0b10) == 0b10,
                allocate_writes: (lower & 0b01) == 0b01,
            }
        }
    }
}

impl DeviceMemoryAttributes {
    /// The 2-bit encoding of these device memory attributes.
    pub open spec fn bits(self) -> u8 {
        match self {
            DeviceMemoryAttributes::NoneAllowed => 0,
            DeviceMemoryAttributes::NonGatheringNonReordering => 1,
            DeviceMemoryAttributes::NonGathering => 2,
            DeviceMemoryAttributes::All => 3,
        }
    }

    /// The raw 2-bit value of these attributes.
    pub fn raw_value(&self) -> (r: u8)
        ensures
            r == self.bits(),
    {
        match self {
            DeviceMemoryAttributes::NoneAllowed => 0b00,
            DeviceMemoryAttributes::NonGatheringNonReordering => 0b01,
            DeviceMemoryAttributes::NonGathering => 0b10,
            DeviceMemoryAttributes::All => 0b11,
        }
    }

    /// The attributes whose raw 2-bit value is `value`.
    pub fn new_with_raw_value(value: u8) -> (r: Self)
        requires
            value <= 3,
        ensures
            r.bits() == value,
    {
        match value {
            0b00 => DeviceMemoryAttributes::NoneAllowed,
            0b01 => DeviceMemoryAttributes::NonGatheringNonReordering,
            0b10 => DeviceMemoryAttributes::NonGathering,
            _ => DeviceMemoryAttributes::All,
        }
    }
}

/// Whether `value` is the encoding of some [`MemoryAttributes`]: a device
/// attribute (upper nibble zero, device type in bits 2 and 3, bits 0 and 1
/// zero) or a pair of normal attributes (both nibbles non-zero).
pub open spec fn is_attribute_encoding(value: u8) -> bool {
    let upper = value / 16;
    let lower = value % 16;
    (upper == 0 && lower % 4 == 0) || (upper != 0 && lower != 0)
}

impl MemoryAttributes {
    /// Memory attributes describing fully non-cacheable memory,
    /// i.e. memory that is shared with a DMA peripheral.
    pub fn non_cacheable() -> (r: Self)
        ensures
            r == MemoryAttributes::Device(DeviceMemoryAttributes::NoneAllowed),
    {
        MemoryAttributes::Device(DeviceMemoryAttributes::NoneAllowed)
    }

    /// The 8-bit encoding of these attributes in a Memory Attribute
    /// Indirection register: for device memory `0b0000_dd00`, with the device
    /// type `dd` in bits 2 and 3; for normal memory the outer attributes in
    /// the upper nibble and the inner ones in the lower nibble.
    pub open spec fn bits(self) -> u8 {
        match self {
            MemoryAttributes::Device(attr) => (4 * attr.bits()) as u8,
            MemoryAttributes::Normal { outer, inner } => (16 * outer.bits() + inner.bits()) as u8,
        }
    }

    /// Encode these attributes as their 8-bit encoding.
    pub fn encode(&self) -> (r: u8)
        ensures
            r == self.bits(),
    {
        let (upper, lower): (u8, u8) = match self {
            MemoryAttributes::Device(attr) => {
                let d = attr.raw_value();
                assert(d << 2u8 == 4 * d) by (bit_vector)
                    requires
                        d <= 3,
                ;
                (0b0000, d << 2)
            },
            MemoryAttributes::Normal { outer, inner } => (outer.encode(), inner.encode()),
        };
        proof {
            lemma_normal_bits_range_all();
        }
        assert(forall|u: u8, l: u8|
            u <= 15 && l <= 15 ==> #[trigger] ((u << 4u8) | l) == 16 * u + l) by (bit_vector);
        (upper << 4) | lower
    }

    /// Whether `value` is the encoding of some memory attributes, that is,
    /// whether [`MemoryAttributes::decode`] accepts it.
    pub fn is_encoding(value: u8) -> (r: bool)
        ensures
            r == is_attribute_encoding(value),
    {
        let upper = value >> 4;
        let lower = value & 0xF;
        assert(upper == value / 16 && lower == value % 16) by (bit_vector)
            requires
                upper == value >> 4u8,
                lower == value & 15u8,
        ;
        assert((lower & 3u8 == 0) == (lower % 4 == 0)) by (bit_vector);
        (upper == 0 && lower & 0b11 == 0) || (upper != 0 && lower != 0)
    }

    /// Decode an 8-bit attribute encoding.
    pub fn decode(value: u8) -> (r: Self)
        requires
            is_attribute_encoding(value),
        ensures
            r.bits() == value,
    {
        let (upper, lower) = ((value >> 4) & 0xF, value & 0xF);
        assert(upper == value / 16 && lower == value % 16) by (bit_vector)
            requires
                upper == (value >> 4u8) & 15u8,
                lower == value & 15u8,
        ;
        if upper == 0b0000 {
            let device = lower >> 2;
            assert(device == lower / 4) by (bit_vector)
                requires
                    device == lower >> 2u8,
            ;
            MemoryAttributes::Device(DeviceMemoryAttributes::new_with_raw_value(u2_from_u8(device)))
        } else {
            MemoryAttributes::Normal {
                outer: NormalMemoryAttributes::decode(upper),
                inner: NormalMemoryAttributes::decode(lower),
            }
        }
    }
}

proof fn lemma_normal_bits_range(a: NormalMemoryAttributes)
    ensures
        1 <= a.bits() <= 15,
{
}

proof fn lemma_normal_bits_range_all()
    ensures
        forall|a: NormalMemoryAttributes| 1 <= #[trigger] a.bits() <= 15,
{
    assert forall|a: NormalMemoryAttributes| 1 <= #[trigger] a.bits() <= 15 by {
        lemma_normal_bits_range(a);
    }
}

/// Different normal memory attributes have different attribute nibbles.
pub proof fn lemma_normal_bits_injective(a: NormalMemoryAttributes, b: NormalMemoryAttributes)
    requires
        a.bits() == b.bits(),
    ensures
        a == b,
{
}

/// Every memory attribute encodes to a byte that [`MemoryAttributes::decode`]
/// accepts.
pub proof fn lemma_encoding_is_valid(a: MemoryAttributes)
    ensures
        is_attribute_encoding(a.bits()),
{
    match a {
        MemoryAttributes::Device(_) => {},
        MemoryAttributes::Normal { outer, inner } => {
            lemma_normal_bits_range(outer);
            lemma_normal_bits_range(inner);
        },
    }
}

/// Different memory attributes have different encodings. Together with the
/// contracts of [`MemoryAttributes::encode`] and [`MemoryAttributes::decode`],
/// decoding the encoding of `a` gives back `a`.
pub proof fn lemma_encoding_injective(a: MemoryAttributes, b: MemoryAttributes)
    requires
        a.bits() == b.bits(),
    ensures
        a == b,
{
    match (a, b) {
        (MemoryAttributes::Normal { outer: o1, inner: i1 }, MemoryAttributes::Normal {
            outer: o2,
            inner: i2,
        }) => {
            lemma_normal_bits_range(o1);
            lemma_normal_bits_range(i1);
            lemma_normal_bits_range(o2);
            lemma_normal_bits_range(i2);
            assert(o1.bits() == o2.bits());
            lemma_normal_bits_injective(o1, o2);
            lemma_normal_bits_injective(i1, i2);
        },
        (MemoryAttributes::Normal { outer, inner }, MemoryAttributes::Device(_)) => {
            lemma_normal_bits_range(outer);
            lemma_normal_bits_range(inner);
        },
        (MemoryAttributes::Device(_), MemoryAttributes::Normal { outer, inner }) => {
            lemma_normal_bits_range(outer);
            lemma_normal_bits_range(inner);
        },
        _ => {},
    }
}

/// The ARMv8-M encoding of transient allocation hints: bit 1 says that reads
/// allocate cache lines, bit 0 that writes do, and at least one of them is
/// set.
pub proof fn lemma_transient_allocation_bits(t: TransientAllocations)
    ensures
        1 <= t.bits() <= 3,
        ((t.bits() / 2) % 2 == 1) <==> (t == TransientAllocations::AllocateReads || t
            == TransientAllocations::AllocateBoth),
        (t.bits() % 2 == 1) <==> (t == TransientAllocations::AllocateWrites || t
            == TransientAllocations::AllocateBoth),
{
}

/// The ARMv8-M encoding of a normal memory attribute nibble: bits 3 and 2
/// give the policy (`00` write-through transient, `01` write-back transient
/// or, with no allocation, non-cacheable, `10` write-through non-transient,
/// `11` write-back non-transient), bit 1 says that reads allocate, bit 0 that
/// writes allocate.
pub proof fn lemma_normal_attribute_bits(a: NormalMemoryAttributes)
    ensures
        a == NormalMemoryAttributes::NonCacheable ==> a.bits() == 0b0100,
        a matches NormalMemoryAttributes::WriteThroughTransient(t) ==> a.bits() / 4 == 0b00
            && a.bits() % 4 == t.bits(),
        a matches NormalMemoryAttributes::WriteBackTransient(t) ==> a.bits() / 4 == 0b01
            && a.bits() % 4 == t.bits(),
        a matches NormalMemoryAttributes::WriteThroughNonTransient { allocate_reads, allocate_writes }
            ==> a.bits() / 4 == 0b10 && ((a.bits() / 2) % 2 == 1) == allocate_reads && (a.bits()
            % 2 == 1) == allocate_writes,
        a matches NormalMemoryAttributes::WriteBackNonTransient { allocate_reads, allocate_writes }
            ==> a.bits() / 4 == 0b11 && ((a.bits() / 2) % 2 == 1) == allocate_reads && (a.bits()
            % 2 == 1) == allocate_writes,
{
}

/// The ARMv8-M Memory Attribute Indirection byte of memory attributes: for
/// device memory `0b0000_dd00` with `dd` `00` for nGnRnE, `01` for nGnRE,
/// `10` for nGRE and `11` for GRE; for normal memory the outer attributes in
/// the upper nibble and the inner attributes in the lower nibble.
pub proof fn lemma_memory_attribute_byte(a: MemoryAttributes)
    ensures
        a == MemoryAttributes::Device(DeviceMemoryAttributes::NoneAllowed) ==> a.bits() == 0x00,
        a == MemoryAttributes::Device(DeviceMemoryAttributes::NonGatheringNonReordering)
            ==> a.bits() == 0x04,
        a == MemoryAttributes::Device(DeviceMemoryAttributes::NonGathering) ==> a.bits() == 0x08,
        a == MemoryAttributes::Device(DeviceMemoryAttributes::All) ==> a.bits() == 0x0C,
        a matches MemoryAttributes::Normal { outer, inner } ==> a.bits() / 16 == outer.bits()
            && a.bits() % 16 == inner.bits(),
{
    if let MemoryAttributes::Normal { outer, inner } = a {
        lemma_normal_bits_range(outer);
        lemma_normal_bits_range(inner);
    }
}

} // verus!
