use pvm_boot::attributes::AttributeProfile;
use pvm_boot::memory::{map_mmio, MemoryTracker, PciInfo, RebootReason, TrackerError};
use pvm_boot::page_table::{MappingError, PageTable};
use pvm_boot::range::AddressRange;

fn range(start: usize, end: usize) -> AddressRange {
    AddressRange::new(start, end)
}

fn tracker() -> MemoryTracker {
    let mut table = PageTable::default();
    assert_eq!(table.map_code(&range(0x8000_0000, 0x8010_0000)), Ok(()));
    MemoryTracker::new(table)
}

#[test]
fn mmio_range_starts_lazy() {
    let mut memory = tracker();
    assert_eq!(memory.map_mmio_range(range(0x1000_0000, 0x1000_2000)), Ok(()));
    assert_eq!(memory.profile_at(0x1000_0000), Some(AttributeProfile::DeviceLazy));
    assert_eq!(memory.profile_at(0x1000_1fff), Some(AttributeProfile::DeviceLazy));
    assert_eq!(memory.map_mmio_range(range(0x1000_0000, 0x1000_2000)), Ok(()));
    assert_eq!(memory.profile_at(0x1000_1000), Some(AttributeProfile::DeviceLazy));
}

#[test]
fn mmio_range_over_other_class_fails() {
    let mut memory = tracker();
    assert_eq!(
        memory.map_mmio_range(range(0x8000_0000, 0x8000_1000)),
        Err(TrackerError::Mapping(MappingError::AlreadyMapped))
    );
    assert_eq!(memory.profile_at(0x8000_0000), Some(AttributeProfile::Code));
}

#[test]
fn overlapping_mmio_ranges_extend_the_lazy_region() {
    let mut memory = tracker();
    assert_eq!(memory.map_mmio_range(range(0x1000_0000, 0x1000_2000)), Ok(()));
    assert_eq!(memory.map_mmio_range(range(0x1000_1000, 0x1000_3000)), Ok(()));
    assert_eq!(memory.profile_at(0x1000_2000), Some(AttributeProfile::DeviceLazy));
    assert_eq!(
        memory.handle_mmio_fault(0x1000_0000, &range(0x1000_0000, 0x1000_3000)),
        Ok(())
    );
    assert_eq!(memory.profile_at(0x1000_2fff), Some(AttributeProfile::DeviceValidated));
    assert_eq!(
        memory.map_mmio_range(range(0x1000_2000, 0x1000_4000)),
        Err(TrackerError::Mapping(MappingError::AlreadyMapped))
    );
}

#[test]
fn mmio_range_errors() {
    let mut memory = tracker();
    assert_eq!(memory.map_mmio_range(range(0x2000, 0x1000)), Err(TrackerError::InvalidRange));
    assert_eq!(
        memory.map_mmio_range(range(0x1000_0010, 0x1000_2000)),
        Err(TrackerError::Mapping(MappingError::Misaligned))
    );
    assert_eq!(
        memory.map_mmio_range(range(0x80_0000_0000, 0x80_0000_1000)),
        Err(TrackerError::Mapping(MappingError::OutOfRange))
    );
}

#[test]
fn matching_fault_promotes_only_that_range() {
    let mut memory = tracker();
    let first = range(0x1000_0000, 0x1000_2000);
    let second = range(0x1000_2000, 0x1000_3000);
    assert_eq!(memory.map_mmio_range(first), Ok(()));
    assert_eq!(memory.map_mmio_range(second), Ok(()));
    assert_eq!(memory.handle_mmio_fault(0x1000_1008, &first), Ok(()));
    assert_eq!(memory.profile_at(0x1000_0000), Some(AttributeProfile::DeviceValidated));
    assert_eq!(memory.profile_at(0x1000_1fff), Some(AttributeProfile::DeviceValidated));
    assert_eq!(memory.profile_at(0x1000_2000), Some(AttributeProfile::DeviceLazy));
    assert_eq!(memory.profile_at(0x8000_0000), Some(AttributeProfile::Code));
}

#[test]
fn mismatched_fault_is_fatal_and_promotes_nothing() {
    let mut memory = tracker();
    let bar = range(0x1000_0000, 0x1000_2000);
    assert_eq!(memory.map_mmio_range(bar), Ok(()));
    assert_eq!(
        memory.handle_mmio_fault(0x1000_0000, &range(0x1000_0000, 0x1000_1000)),
        Err(TrackerError::DescriptionMismatch)
    );
    assert_eq!(memory.profile_at(0x1000_0000), Some(AttributeProfile::DeviceLazy));
}

#[test]
fn fault_outside_lazy_memory() {
    let mut memory = tracker();
    assert_eq!(
        memory.handle_mmio_fault(0x2000_0000, &range(0x2000_0000, 0x2000_1000)),
        Err(TrackerError::NotLazy)
    );
    assert_eq!(
        memory.handle_mmio_fault(0x8000_0000, &range(0x8000_0000, 0x8010_0000)),
        Err(TrackerError::NotLazy)
    );
    let bar = range(0x1000_0000, 0x1000_1000);
    assert_eq!(memory.map_mmio_range(bar), Ok(()));
    assert_eq!(memory.handle_mmio_fault(0x1000_0000, &bar), Ok(()));
    assert_eq!(memory.handle_mmio_fault(0x1000_0000, &bar), Err(TrackerError::NotLazy));
}

#[test]
fn map_mmio_maps_cam_and_bar() {
    let mut memory = tracker();
    let info = PciInfo { cam_range: range(0x4000_0000, 0x5000_0000), bar_range: range(0x5000_0000, 0x6000_0000) };
    assert_eq!(map_mmio(&info, &mut memory), Ok(()));
    assert_eq!(memory.profile_at(0x4000_0000), Some(AttributeProfile::DeviceLazy));
    assert_eq!(memory.profile_at(0x5fff_ffff), Some(AttributeProfile::DeviceLazy));
}

#[test]
fn map_mmio_failure_is_internal_error() {
    let mut memory = tracker();
    let info = PciInfo { cam_range: range(0x4000_0000, 0x5000_0000), bar_range: range(0x8000_0000, 0x9000_0000) };
    assert_eq!(map_mmio(&info, &mut memory), Err(RebootReason::InternalError));
    assert_eq!(memory.profile_at(0x4000_0000), Some(AttributeProfile::DeviceLazy));
}
