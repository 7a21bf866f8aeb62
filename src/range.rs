//! Half-open address ranges and page alignment.
use vstd::prelude::*;

verus! {

/// Size in bytes of a translation granule (4 KiB pages).
pub const PAGE_SIZE: usize = 4096;

/// A half-open range `[start, end)` of addresses, at byte granularity.
#[derive(Clone, Copy, Debug, PartialEq, Eq, Structural)]
pub struct AddressRange {
    pub start: usize,
    pub end: usize,
}

impl AddressRange {
    /// The range is well formed: its start does not lie after its end.
    pub open spec fn wf(self) -> bool {
        self.start <= self.end
    }

    pub open spec fn is_empty(self) -> bool {
        self.start >= self.end
    }

    pub open spec fn contains(self, addr: int) -> bool {
        self.start <= addr < self.end
    }

    /// The two ranges share at least one address.
    pub open spec fn overlaps(self, other: AddressRange) -> bool {
        self.start < other.end && other.start < self.end && !self.is_empty() && !other.is_empty()
    }

    /// Every address of `self` lies in `other`.
    pub open spec fn within(self, other: AddressRange) -> bool {
        other.start <= self.start && self.end <= other.end
    }

    pub open spec fn is_page_aligned(self) -> bool {
        self.start % PAGE_SIZE == 0 && self.end % PAGE_SIZE == 0
    }

    pub fn new(start: usize, end: usize) -> (r: AddressRange)
        ensures
            r.start == start,
            r.end == end,
    {
        AddressRange { start, end }
    }

    pub fn page_aligned(&self) -> (r: bool)
        ensures
            r == self.is_page_aligned(),
    {
        self.start % PAGE_SIZE == 0 && self.end % PAGE_SIZE == 0
    }

    pub fn overlaps_range(&self, other: &AddressRange) -> (r: bool)
        ensures
            r == self.overlaps(*other),
    {
        self.start < other.end && other.start < self.end && self.start < self.end && other.start
            < other.end
    }

    pub fn contains_addr(&self, addr: usize) -> (r: bool)
        ensures
            r == self.contains(addr as int),
    {
        self.start <= addr && addr < self.end
    }
}

} // verus!
