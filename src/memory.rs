//! The policy layer above the page table: device memory is mapped lazily and trusted only once a
//! fault on it has been validated against a fresh device description.
use vstd::prelude::*;
use crate::attributes::AttributeProfile;
use crate::page_table::{
    MappedRegion, MappingError, PageTable, has_lazy_region, map_effect, map_result,
    profile_at, promote_effect, region_at, regions_wf, lemma_map_effect_wf, lemma_region_at,
    lemma_map_twice, lemma_map_keeps_mapped, lemma_promote_exact,
};
use crate::range::AddressRange;

verus! {

/// Why the tracker refused a request.
#[derive(Clone, Copy, Debug, PartialEq, Eq, Structural)]
pub enum TrackerError {
    /// The range ends before it starts.
    InvalidRange,
    /// The page table refused the mapping.
    Mapping(MappingError),
    /// The faulting address lies in no lazily mapped device region.
    NotLazy,
    /// The device description read at fault time does not match the region that was
    /// registered: the mapping cannot be trusted.
    DescriptionMismatch,
}

/// The reason that boot cannot go on.
#[derive(Clone, Copy, Debug, PartialEq, Eq, Structural)]
pub enum RebootReason {
    /// A mapping, validation or scan step failed.
    InternalError,
}

/// The outcome of registering `range` as device memory over the regions `s`.
pub open spec fn mmio_result(s: Seq<MappedRegion>, range: AddressRange) -> Result<(), TrackerError> {
    if range.start > range.end {
        Err(TrackerError::InvalidRange)
    } else {
        match map_result(s, range, AttributeProfile::DeviceLazy) {
            Ok(()) => Ok(()),
            Err(e) => Err(TrackerError::Mapping(e)),
        }
    }
}

/// The regions after registering `range` as device memory over `s`.
pub open spec fn mmio_effect(s: Seq<MappedRegion>, range: AddressRange) -> Seq<MappedRegion> {
    if range.start > range.end {
        s
    } else {
        map_effect(s, range, AttributeProfile::DeviceLazy)
    }
}

/// The outcome of validating a fault at `addr` against the freshly read description `desc`.
pub open spec fn fault_result(s: Seq<MappedRegion>, addr: int, desc: AddressRange) -> Result<
    (),
    TrackerError,
> {
    match region_at(s, addr) {
        Some(m) => if m.profile != AttributeProfile::DeviceLazy {
            Err(TrackerError::NotLazy)
        } else if m.range != desc {
            Err(TrackerError::DescriptionMismatch)
        } else {
            Ok(())
        },
        None => Err(TrackerError::NotLazy),
    }
}

/// The lifecycle of a device page: once lazy, no mapping request changes it, and a fault step
/// changes it only by promoting the exact range it validated; once valid, it stays valid under
/// both. So a page is valid device memory only after a matching fault validation, and no step
/// moves it back.
pub proof fn lemma_device_lifecycle(
    s: Seq<MappedRegion>,
    range: AddressRange,
    p: AttributeProfile,
    desc: AddressRange,
    addr: int,
)
    requires
        regions_wf(s),
        range.wf(),
        profile_at(s, addr) == Some(AttributeProfile::DeviceLazy) || profile_at(s, addr) == Some(
            AttributeProfile::DeviceValidated,
        ),
    ensures
        profile_at(map_effect(s, range, p), addr) == profile_at(s, addr),
        profile_at(mmio_effect(s, range), addr) == profile_at(s, addr),
        has_lazy_region(s, desc) && !desc.contains(addr) ==> profile_at(promote_effect(s, desc), addr)
            == profile_at(s, addr),
        has_lazy_region(s, desc) && desc.contains(addr) ==> profile_at(promote_effect(s, desc), addr)
            == Some(AttributeProfile::DeviceValidated),
        has_lazy_region(s, desc) && profile_at(s, addr) == Some(AttributeProfile::DeviceValidated)
            ==> profile_at(promote_effect(s, desc), addr) == Some(
            AttributeProfile::DeviceValidated,
        ),
{
    lemma_map_keeps_mapped(s, range, p, addr);
    lemma_map_keeps_mapped(s, range, AttributeProfile::DeviceLazy, addr);
    if has_lazy_region(s, desc) {
        lemma_promote_exact(s, desc, addr);
    }
}

/// Tracks the ranges claimed in the page table, and is the one user of its mapping operations.
pub struct MemoryTracker {
    page_table: PageTable,
}

impl View for MemoryTracker {
    type V = Seq<MappedRegion>;

    closed spec fn view(&self) -> Seq<MappedRegion> {
        self.page_table@
    }
}

impl MemoryTracker {
    pub closed spec fn wf(&self) -> bool {
        self.page_table.wf()
    }

    /// The records of a well-formed tracker are well formed.
    pub proof fn lemma_wf(&self)
        requires
            self.wf(),
        ensures
            regions_wf(self@),
    {
        self.page_table.lemma_wf_regions();
    }

    /// Takes over a page table; what it already maps stays claimed.
    pub fn new(page_table: PageTable) -> (r: MemoryTracker)
        requires
            page_table.wf(),
        ensures
            r.wf(),
            r@ == page_table@,
    {
        MemoryTracker { page_table }
    }

    /// Registers `range` as device memory, mapped lazily: its pages stay invalid until a fault on
    /// them has been validated.
    pub fn map_mmio_range(&mut self, range: AddressRange) -> (r: Result<(), TrackerError>)
        requires
            old(self).wf(),
        ensures
            final(self).wf(),
            r == mmio_result(old(self)@, range),
            final(self)@ == mmio_effect(old(self)@, range),
            r.is_ok() ==> forall|a: int|
                range.contains(a) ==> profile_at(final(self)@, a) == Some(
                    AttributeProfile::DeviceLazy,
                ),
    {
        if range.start > range.end {
            return Err(TrackerError::InvalidRange);
        }
        let ghost s = self.page_table@;
        proof {
            self.page_table.lemma_wf_regions();
        }
        let res = self.page_table.map_device_lazy(&range);
        proof {
            if res.is_ok() && !range.is_empty() {
                lemma_map_twice(s, range, AttributeProfile::DeviceLazy, AttributeProfile::DeviceLazy);
                lemma_map_effect_wf(s, range, AttributeProfile::DeviceLazy);
                let t = self.page_table@;
                let k = choose|k: int|
                    0 <= k < t.len() && t[k].profile == AttributeProfile::DeviceLazy
                        && range.within(t[k].range);
                assert forall|a: int| range.contains(a) implies profile_at(t, a) == Some(
                    AttributeProfile::DeviceLazy,
                ) by {
                    lemma_region_at(t, k, a);
                }
            }
        }
        match res {
            Ok(()) => Ok(()),
            Err(e) => Err(TrackerError::Mapping(e)),
        }
    }

    /// Services a fault at `addr` on lazily mapped device memory. `description` is the device's
    /// range as read again from the authoritative source at fault time. When it matches the
    /// registered region, that region, and nothing else, becomes valid device memory. Otherwise
    /// nothing changes, and a mismatch means the mapping must not be trusted.
    pub fn handle_mmio_fault(&mut self, addr: usize, description: &AddressRange) -> (r: Result<
        (),
        TrackerError,
    >)
        requires
            old(self).wf(),
        ensures
            final(self).wf(),
            r == fault_result(old(self)@, addr as int, *description),
            r.is_ok() ==> final(self)@ == promote_effect(old(self)@, *description),
            r.is_err() ==> final(self)@ == old(self)@,
    {
        let ghost s = self.page_table@;
        match self.page_table.region_at(addr) {
            None => Err(TrackerError::NotLazy),
            Some(m) => {
                if m.profile != AttributeProfile::DeviceLazy {
                    return Err(TrackerError::NotLazy);
                }
                if m.range != *description {
                    return Err(TrackerError::DescriptionMismatch);
                }
                proof {
                    self.page_table.lemma_wf_regions();
                    let i = choose|i: int| 0 <= i < s.len() && s[i].range.contains(addr as int);
                    assert(has_lazy_region(s, *description));
                }
                let res = self.page_table.promote_device_lazy(description);
                assert(res.is_ok());
                Ok(())
            },
        }
    }

    /// The profile of the page that holds `addr`, if it is mapped.
    pub fn profile_at(&self, addr: usize) -> (r: Option<AttributeProfile>)
        requires
            self.wf(),
        ensures
            r == profile_at(self@, addr as int),
    {
        self.page_table.profile_at(addr)
    }
}

/// A PCI host bridge's windows: its configuration space (CAM) and the range that BARs are
/// allocated from.
#[derive(Clone, Copy, Debug, PartialEq, Eq, Structural)]
pub struct PciInfo {
    pub cam_range: AddressRange,
    pub bar_range: AddressRange,
}

/// Maps the CAM and BAR range in the page table and MMIO guard.
pub fn map_mmio(pci_info: &PciInfo, memory: &mut MemoryTracker) -> (r: Result<(), RebootReason>)
    requires
        old(memory).wf(),
    ensures
        final(memory).wf(),
        r.is_ok() <==> (mmio_result(old(memory)@, pci_info.cam_range).is_ok() && mmio_result(
            mmio_effect(old(memory)@, pci_info.cam_range),
            pci_info.bar_range,
        ).is_ok()),
        r.is_err() ==> r == Err::<(), RebootReason>(RebootReason::InternalError),
        mmio_result(old(memory)@, pci_info.cam_range).is_ok() ==> final(memory)@ == mmio_effect(
            mmio_effect(old(memory)@, pci_info.cam_range),
            pci_info.bar_range,
        ),
        mmio_result(old(memory)@, pci_info.cam_range).is_err() ==> final(memory)@ == mmio_effect(
            old(memory)@,
            pci_info.cam_range,
        ),
{
    if memory.map_mmio_range(pci_info.cam_range).is_err() {
        return Err(RebootReason::InternalError);
    }
    if memory.map_mmio_range(pci_info.bar_range).is_err() {
        return Err(RebootReason::InternalError);
    }
    Ok(())
}

} // verus!
