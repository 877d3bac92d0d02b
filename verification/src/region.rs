//! Region configurations and the tokens that give access to a region.
use vstd::prelude::*;

use crate::outside::u3_try_new;
use crate::range::RegionRange;

verus! {

/// The shareability of a memory region.
///
/// This enum does not have a fully-shared variant:
/// to configure a region to be fully shared, configure
/// its [`MemoryAttributes`](crate::MemoryAttributes) to one of the
/// [`MemoryAttributes::Device`](crate::MemoryAttributes::Device) variants.
#[derive(Debug, Clone, Copy, PartialEq, Eq, Structural)]
pub enum Shareability {
    /// Non-shareable regions are only accessed by
    /// the core itself, and do not require any sort
    /// of bus-master synchronization.
    NonShareable,
    /// Inner shareable regions are accessed by the
    /// core itself, and other bus-masters
    /// that are part of the same inner domain.
    InnerShareable,
    /// Outer shareable regions are accessed by the
    /// core itself, other bus-masters that are
    /// part of the same inner domain, and other
    /// bus-masters that are part of other inner
    /// domains.
    OuterShareable,
}

impl Shareability {
    /// The 2-bit encoding of this shareability (`0b01` encodes none).
    pub open spec fn bits(self) -> u8 {
        match self {
            Shareability::NonShareable => 0b00,
            Shareability::InnerShareable => 0b11,
            Shareability::OuterShareable => 0b10,
        }
    }

    /// The raw 2-bit value of this shareability.
    pub fn raw_value(&self) -> (r: u8)
        ensures
            r == self.bits(),
    {
        match self {
            Shareability::NonShareable => 0b00,
            Shareability::InnerShareable => 0b11,
            Shareability::OuterShareable => 0b10,
        }
    }

    /// The shareability whose raw 2-bit value is `value`, if there is one.
    pub fn new_with_raw_value(value: u8) -> (r: Option<Self>)
        requires
            value <= 3,
        ensures
            value == 1 <==> r is None,
            r matches Some(s) ==> s.bits() == value && s == shareability_from_bits(value),
    {
        match value {
            0b00 => Some(Shareability::NonShareable),
            0b11 => Some(Shareability::InnerShareable),
            0b10 => Some(Shareability::OuterShareable),
            _ => None,
        }
    }
}

/// The shareability encoded by the 2-bit value `bits` (`0b01` encodes none;
/// it is mapped to an arbitrary value here).
pub open spec fn shareability_from_bits(bits: u8) -> Shareability {
    if bits == 0 {
        Shareability::NonShareable
    } else if bits == 3 {
        Shareability::InnerShareable
    } else {
        Shareability::OuterShareable
    }
}

/// The access permissions encoded by the low two bits of `bits`.
pub open spec fn access_permissions_from_bits(bits: u8) -> AccessPermissions {
    if bits % 4 == 0 {
        AccessPermissions::PrivilegedReadWrite
    } else if bits % 4 == 1 {
        AccessPermissions::AnyReadWrite
    } else if bits % 4 == 2 {
        AccessPermissions::PrivilegedReadOnly
    } else {
        AccessPermissions::AnyReadOnly
    }
}

/// Access permissions for a region.
#[derive(Debug, Clone, Copy, PartialEq, Eq, Structural)]
pub enum AccessPermissions {
    /// Only privileged code may perform read and
    /// write accesses to the region.
    PrivilegedReadWrite,
    /// Any code may perform read and write accesses
    /// to the region.
    AnyReadWrite,
    /// Only privileged code may perform read accesses
    /// to the region.
    PrivilegedReadOnly,
    /// Any code may perform read accesses to the region.
    AnyReadOnly,
}

impl AccessPermissions {
    /// The 2-bit encoding of these permissions.
    pub open spec fn bits(self) -> u8 {
        match self {
            AccessPermissions::PrivilegedReadWrite => 0b00,
            AccessPermissions::AnyReadWrite => 0b01,
            AccessPermissions::PrivilegedReadOnly => 0b10,
            AccessPermissions::AnyReadOnly => 0b11,
        }
    }

    /// The raw 2-bit value of these permissions.
    pub fn raw_value(&self) -> (r: u8)
        ensures
            r == self.bits(),
    {
        match self {
            AccessPermissions::PrivilegedReadWrite => 0b00,
            AccessPermissions::AnyReadWrite => 0b01,
            AccessPermissions::PrivilegedReadOnly => 0b10,
            AccessPermissions::AnyReadOnly => 0b11,
        }
    }

    /// The permissions whose raw 2-bit value is `value`.
    pub fn new_with_raw_value(value: u8) -> (r: Self)
        requires
            value <= 3,
        ensures
            r.bits() == value,
            r == access_permissions_from_bits(value),
    {
        match value {
            0b00 => AccessPermissions::PrivilegedReadWrite,
            0b01 => AccessPermissions::AnyReadWrite,
            0b10 => AccessPermissions::PrivilegedReadOnly,
            _ => AccessPermissions::AnyReadOnly,
        }
    }
}

/// The index of a specific [`MemoryAttributes`](crate::MemoryAttributes) configuration.
///
/// This index refers to an offset in one of the Memory Attribute Indirection
/// registers in the MPU. This offset is then used to configure the Memory
/// Attributes for all enabled memory regions whose `index` field is set to
/// the corresponding [`AttributeIndex`].
#[derive(Debug, Clone, Copy, PartialEq, Eq, Structural)]
pub struct AttributeIndex(u8);

impl View for AttributeIndex {
    type V = nat;

    closed spec fn view(&self) -> nat {
        self.0 as nat
    }
}

impl AttributeIndex {
    /// Every attribute index is below 8.
    #[verifier::type_invariant]
    closed spec fn below_eight(self) -> bool {
        self.0 < 8
    }

    /// Create a new [`AttributeIndex`] from the provided
    /// `u8`. This will return `None` if `value > 7`.
    pub fn new(value: u8) -> (r: Option<Self>)
        ensures
            r is Some <==> value <= 7,
            r matches Some(i) ==> i@ == value,
    {
        if let Some(v) = u3_try_new(value) {
            Some(AttributeIndex(v))
        } else {
            None
        }
    }

    /// Get the value of this [`AttributeIndex`].
    pub fn get(&self) -> (r: u8)
        ensures
            r == self@,
            r < 8,
    {
        proof {
            use_type_invariant(self);
        }
        self.0
    }

    /// The index with value `value`, as a mathematical value.
    pub closed spec fn from_value(value: u8) -> AttributeIndex {
        AttributeIndex(value)
    }

    /// The value of [`AttributeIndex::from_value`] is the given one.
    pub proof fn lemma_from_value(value: u8)
        ensures
            #[trigger] AttributeIndex::from_value(value)@ == value,
    {
    }

    /// Two indices with the same value are the same index.
    pub proof fn lemma_view_determines_index(a: AttributeIndex, b: AttributeIndex)
        requires
            a@ == b@,
        ensures
            a == b,
    {
    }
}

/// An MPU region configuration.
#[derive(Debug, Clone, Copy, PartialEq, Eq, Structural)]
pub struct RegionConfig {
    /// The range of addresses in this region.
    pub range: RegionRange,
    /// The ways in which a region is shared.
    ///
    /// For a config whose [`AttributeIndex`] configuration points
    /// to a [`MemoryAttributes::Device`](crate::MemoryAttributes::Device),
    /// this value is ignored. Regions with that attribute are always fully shared.
    pub shareability: Shareability,
    /// The index of the [`MemoryAttributes`](crate::MemoryAttributes) that should be
    /// assigned to this region.
    pub attribute_index: AttributeIndex,
    /// The access permissions for this region.
    pub access_permissions: AccessPermissions,
    /// Whether it should be possible to execute memory from
    /// this region, provided that is readable.
    pub execute_never: bool,
}

/// An MPU-configurable region.
#[derive(Debug, Clone, Copy, PartialEq, Eq, Structural)]
pub enum Region {
    /// The region is disabled.
    Disabled,
    /// The region is enabled, and has the specified
    /// configuration.
    Enabled(RegionConfig),
}

impl Default for Region {
    fn default() -> (r: Self)
        ensures
            r == Region::Disabled,
    {
        Region::Disabled
    }
}

impl Region {
    /// Get whether this region is enabled.
    pub fn is_enabled(&self) -> (r: bool)
        ensures
            r == (*self is Enabled),
    {
        match self {
            Region::Enabled(_) => true,
            Region::Disabled => false,
        }
    }
}

/// A token providing access to configure a specific
/// region.
#[derive(Debug, PartialEq, Eq, Structural)]
pub struct RegionToken(u8);

impl View for RegionToken {
    type V = nat;

    closed spec fn view(&self) -> nat {
        self.0 as nat
    }
}

impl RegionToken {
    /// The token for the region with number `index`.
    pub(crate) fn new(index: u8) -> (r: Self)
        ensures
            r@ == index,
    {
        RegionToken(index)
    }

    /// Get the raw index of this token.
    pub fn get(&self) -> (r: u8)
        ensures
            r == self@,
    {
        self.0
    }
}

/// The ARMv8-M encoding of access permissions (the `AP` field): `00`
/// privileged read-write, `01` read-write at any privilege, `10` privileged
/// read-only, `11` read-only at any privilege; decoding a field gives the
/// permissions it encodes.
pub proof fn lemma_access_permissions_encoding(p: AccessPermissions, field: u8)
    ensures
        p == AccessPermissions::PrivilegedReadWrite <==> p.bits() == 0b00,
        p == AccessPermissions::AnyReadWrite <==> p.bits() == 0b01,
        p == AccessPermissions::PrivilegedReadOnly <==> p.bits() == 0b10,
        p == AccessPermissions::AnyReadOnly <==> p.bits() == 0b11,
        field == 0b00 ==> access_permissions_from_bits(field) == AccessPermissions::PrivilegedReadWrite,
        field == 0b01 ==> access_permissions_from_bits(field) == AccessPermissions::AnyReadWrite,
        field == 0b10 ==> access_permissions_from_bits(field) == AccessPermissions::PrivilegedReadOnly,
        field == 0b11 ==> access_permissions_from_bits(field) == AccessPermissions::AnyReadOnly,
{
}

/// The ARMv8-M encoding of shareability (the `SH` field): `00`
/// non-shareable, `10` outer shareable, `11` inner shareable (`01` encodes
/// none); decoding a field gives the shareability it encodes.
pub proof fn lemma_shareability_encoding(s: Shareability, field: u8)
    ensures
        s == Shareability::NonShareable <==> s.bits() == 0b00,
        s == Shareability::OuterShareable <==> s.bits() == 0b10,
        s == Shareability::InnerShareable <==> s.bits() == 0b11,
        field == 0b00 ==> shareability_from_bits(field) == Shareability::NonShareable,
        field == 0b10 ==> shareability_from_bits(field) == Shareability::OuterShareable,
        field == 0b11 ==> shareability_from_bits(field) == Shareability::InnerShareable,
{
}

} // verus!
