//! Address ranges of MPU regions.
use vstd::prelude::*;

use core::ops::{Range, RangeInclusive};

use crate::outside::range_inclusive_bounds;

verus! {

/// The reason that a range was not a valid region range.
#[derive(Debug, Clone, Copy, PartialEq, Eq, Structural)]
pub enum RegionRangeError {
    /// The start address of the range does not have
    /// an alignment of [`RegionRange::REQUIRED_ALIGNMENT`].
    StartMisaligned,
    /// The end address of the range does not have the
    /// correct alignment.
    EndMisaligned,
    /// The end of the range is before the start of the range.
    EndBeforeStart,
}

/// The range of a region.
///
/// This is an inclusive range of addresses `start..=end` for which
/// `start % 32 == 0` and `end % 32 == 31` hold.
#[derive(Debug, Clone, Copy, PartialEq, Eq, Structural)]
pub struct RegionRange {
    start: u32,
    end: u32,
}

/// The first error that makes `start..=end` an invalid region range, if any:
/// a start that is not a multiple of 32, then an end that is not one less
/// than a multiple of 32, then an end before the start.
pub open spec fn range_error(start: u32, end: u32) -> Option<RegionRangeError> {
    if start % 32 != 0 {
        Some(RegionRangeError::StartMisaligned)
    } else if end % 32 != 31 {
        Some(RegionRangeError::EndMisaligned)
    } else if end < start {
        Some(RegionRangeError::EndBeforeStart)
    } else {
        None
    }
}

impl RegionRange {
    /// The required alignment for an address.
    pub const REQUIRED_ALIGNMENT: u32 = 32;

    /// A bitmask that can be used to determine if
    /// an address is aligned, or to create an aligned address
    /// from a potentially-unaligned address.
    pub const ALIGNMENT_MASK: u32 = 0xFFFF_FFE0;

    /// The first address of the range.
    pub closed spec fn start_address(self) -> u32 {
        self.start
    }

    /// The last address of the range (inclusive).
    pub closed spec fn end_address(self) -> u32 {
        self.end
    }

    /// The invariant of every region range: an aligned start, an end one
    /// below an aligned address, and the end not before the start.
    #[verifier::type_invariant]
    pub open spec fn well_formed(self) -> bool {
        range_error(self.start_address(), self.end_address()) is None
    }

    /// Whether `address` lies in this range.
    pub open spec fn contains_address(self, address: int) -> bool {
        self.start_address() <= address <= self.end_address()
    }

    /// Whether this range and `other` share at least one address.
    pub open spec fn overlaps_range(self, other: RegionRange) -> bool {
        self.start_address() <= other.end_address() && other.start_address() <= self.end_address()
    }

    /// The range with bounds `start..=end`, as a mathematical value.
    pub closed spec fn from_bounds(start: u32, end: u32) -> RegionRange {
        RegionRange { start, end }
    }

    /// The bounds of [`RegionRange::from_bounds`] are the given ones.
    pub proof fn lemma_from_bounds(start: u32, end: u32)
        ensures
            #[trigger] RegionRange::from_bounds(start, end).start_address() == start,
            RegionRange::from_bounds(start, end).end_address() == end,
    {
    }

    /// Two ranges with the same bounds are the same range.
    pub proof fn lemma_bounds_determine_range(a: RegionRange, b: RegionRange)
        requires
            a.start_address() == b.start_address(),
            a.end_address() == b.end_address(),
        ensures
            a == b,
    {
    }

    /// Make a range from bounds that form a valid region range.
    pub(crate) fn new_unchecked(start: u32, end: u32) -> (r: Self)
        requires
            range_error(start, end) is None,
        ensures
            r.start_address() == start,
            r.end_address() == end,
    {
        RegionRange { start, end }
    }

    /// Create a new region from the provided address range.
    ///
    /// The region covers `range.start..=last`, where `last` is
    /// `range.end - 1`, or `0` when `range.end` is `0`. This function returns
    /// [`RegionRangeError::StartMisaligned`] if `range.start` is not a
    /// multiple of 32, else [`RegionRangeError::EndMisaligned`] if `last + 1`
    /// is not a multiple of 32 (so an empty range `0..0` gives this error),
    /// else [`RegionRangeError::EndBeforeStart`] if `last < range.start`
    /// (an empty range `a..a` with `a` a non-zero multiple of 32).
    pub fn new(range: Range<u32>) -> (r: Result<Self, RegionRangeError>)
        ensures
            ({
                let end = if range.end == 0 { 0 } else { (range.end - 1) as u32 };
                match range_error(range.start, end) {
                    Some(e) => r == Err::<Self, RegionRangeError>(e),
                    None => r matches Ok(rr) && rr.start_address() == range.start
                        && rr.end_address() == end,
                }
            }),
    {
        Self::new_inclusive(RangeInclusive::new(range.start, range.end.saturating_sub(1)))
    }

    /// Create a new region from the provided address range.
    ///
    /// This function returns an error if `range.start()` is not a multiple
    /// of 32, or if `range.end().wrapping_add(1)` is not a multiple of 32,
    /// or if `range.end() < range.start()`.
    pub fn new_inclusive(range: RangeInclusive<u32>) -> (r: Result<Self, RegionRangeError>)
        ensures
            match range_error(range@.start, range@.end) {
                Some(e) => r == Err::<Self, RegionRangeError>(e),
                None => r matches Ok(rr) && rr.start_address() == range@.start
                    && rr.end_address() == range@.end,
            },
    {
        let (start, end) = range_inclusive_bounds(range);
        // If `end != u32::MAX`, this will not overflow.
        // If `end == u32::MAX` (a correct ending), this will wrap to `0`,
        // which is a multiple of 32.
        let range_end_aligned = end.wrapping_add(1).is_multiple_of(32);
        assert(range_end_aligned == (end % 32 == 31)) by {
            if end == u32::MAX {
                assert(end % 32 == 31);
            }
        }
        if !start.is_multiple_of(Self::REQUIRED_ALIGNMENT) {
            return Err(RegionRangeError::StartMisaligned);
        } else if !range_end_aligned {
            return Err(RegionRangeError::EndMisaligned);
        } else if end < start {
            return Err(RegionRangeError::EndBeforeStart);
        }
        Ok(RegionRange { start, end })
    }

    /// The range that a block of `size` bytes occupies when it starts at the
    /// region-aligned address `start_address`.
    pub fn for_block(start_address: u32, size: u32) -> (r: Self)
        requires
            start_address % 32 == 0,
            size % 32 == 0,
            size > 0,
            start_address + size <= 0x1_0000_0000,
        ensures
            r.start_address() == start_address,
            r.end_address() == start_address + size - 1,
    {
        let last_address = start_address + (size - 1);
        RegionRange { start: start_address, end: last_address }
    }

    /// The first address of the range.
    pub(crate) fn first(&self) -> (r: u32)
        ensures
            r == self.start_address(),
    {
        self.start
    }

    /// The last address of the range (inclusive).
    pub(crate) fn last(&self) -> (r: u32)
        ensures
            r == self.end_address(),
    {
        self.end
    }

    /// Get the raw range underpinning this region range.
    pub fn get(&self) -> (r: RangeInclusive<u32>)
        ensures
            r@.start == self.start_address(),
            r@.end == self.end_address(),
            !r@.exhausted,
    {
        RangeInclusive::new(self.start, self.end)
    }

    /// Check whether this region overlaps with another.
    pub fn overlaps(&self, other: &Self) -> (r: bool)
        ensures
            r == self.overlaps_range(*other),
    {
        // Manual implementation of currently-unstable `RangeInclusive::is_overlapping`
        (self.start <= other.end) && (other.start <= self.end)
    }
}

/// Two region ranges overlap exactly when some address lies in both; in
/// particular overlapping is symmetric and every range overlaps itself.
pub proof fn lemma_overlap_iff_common_address(a: RegionRange, b: RegionRange)
    requires
        a.well_formed(),
        b.well_formed(),
    ensures
        a.overlaps_range(b) <==> exists|x: int| a.contains_address(x) && b.contains_address(x),
        a.overlaps_range(b) <==> exists|x: int|
            #![trigger a.contains_address(x)]
            a.start_address() <= x <= a.end_address() && b.start_address() <= x
                <= b.end_address(),
        a.overlaps_range(b) == b.overlaps_range(a),
        a.overlaps_range(a),
{
    if a.overlaps_range(b) {
        let x = if a.start_address() <= b.start_address() {
            b.start_address() as int
        } else {
            a.start_address() as int
        };
        assert(a.contains_address(x) && b.contains_address(x));
    }
}

/// An address is unchanged by [`RegionRange::ALIGNMENT_MASK`] exactly when it
/// has the alignment [`RegionRange::REQUIRED_ALIGNMENT`] that a region's
/// start address needs, and masking any address gives the closest aligned
/// address at or below it.
pub proof fn lemma_alignment_mask(address: u32)
    ensures
        (address & RegionRange::ALIGNMENT_MASK == address) <==> address
            % RegionRange::REQUIRED_ALIGNMENT == 0,
        (address & RegionRange::ALIGNMENT_MASK) % RegionRange::REQUIRED_ALIGNMENT == 0,
        address & RegionRange::ALIGNMENT_MASK <= address,
        address - (address & RegionRange::ALIGNMENT_MASK) < RegionRange::REQUIRED_ALIGNMENT,
{
    assert((address & 0xFFFF_FFE0u32 == address) <==> address % 32 == 0) by (bit_vector);
    assert((address & 0xFFFF_FFE0u32) % 32 == 0) by (bit_vector);
    assert(address & 0xFFFF_FFE0u32 <= address) by (bit_vector);
    assert(address - (address & 0xFFFF_FFE0u32) < 32) by (bit_vector);
}

/// What makes a range invalid, as the constructors document: a start that
/// is not a multiple of 32 is reported first, then an end that is not one
/// below a multiple of 32, then an end before the start; a range with none of
/// these faults is valid.
pub proof fn lemma_range_error(start: u32, end: u32)
    ensures
        range_error(start, end) == Some(RegionRangeError::StartMisaligned) <==> start % 32 != 0,
        range_error(start, end) == Some(RegionRangeError::EndMisaligned) <==> start % 32 == 0
            && (end + 1) % 32 != 0,
        range_error(start, end) == Some(RegionRangeError::EndBeforeStart) <==> start % 32 == 0
            && (end + 1) % 32 == 0 && end < start,
        range_error(start, end) is None <==> start % 32 == 0 && (end + 1) % 32 == 0 && start
            <= end,
{
}

} // verus!
