use pvm_boot::attributes::AttributeProfile;
use pvm_boot::memory::{MemoryTracker, TrackerError};
use pvm_boot::page_table::{MappingError, PageTable};
use pvm_boot::pci::{
    check_block_devices, find_virtio_devices, first_memory_bar, register_function, BarSlot, PciFunction, ScanError,
    VIRTIO_BLOCK,
};
use pvm_boot::range::AddressRange;

fn function(device: u8, vendor_id: u16, device_id: u16, start: usize, end: usize) -> PciFunction {
    PciFunction {
        bus: 0,
        device,
        function: 0,
        vendor_id,
        device_id,
        class: 1,
        subclass: 0,
        prog_if: 0,
        revision: 0,
        header_type: 0,
        bar_range: AddressRange::new(start, end),
    }
}

fn tracker() -> MemoryTracker {
    MemoryTracker::new(PageTable::default())
}

#[test]
fn one_block_function() {
    let mut memory = tracker();
    let bus = vec![function(1, 0x1af4, 0x1042, 0x1000_0000, 0x1000_1000)];
    let records = find_virtio_devices(&bus, &mut memory).unwrap();
    assert_eq!(records.len(), 1);
    assert_eq!(records[0].device_type, VIRTIO_BLOCK);
    assert!(records[0].is_block());
    assert_eq!(records[0].bar_range, AddressRange::new(0x1000_0000, 0x1000_1000));
    assert_eq!(memory.profile_at(0x1000_0000), Some(AttributeProfile::DeviceLazy));
    assert_eq!(memory.map_mmio_range(AddressRange::new(0x1000_0000, 0x1000_1000)), Ok(()));
    let checked = check_block_devices(records, &vec![true]).unwrap();
    assert_eq!(checked.len(), 1);
}

#[test]
fn empty_bus() {
    let mut memory = tracker();
    let records = find_virtio_devices(&Vec::new(), &mut memory).unwrap();
    assert!(records.is_empty());
    assert_eq!(memory.profile_at(0), None);
    assert_eq!(memory.map_mmio_range(AddressRange::new(0, 0x80_0000_0000)), Ok(()));
}

#[test]
fn failed_block_read_is_fatal() {
    let mut memory = tracker();
    let bus = vec![
        function(1, 0x1af4, 0x1041, 0x1000_0000, 0x1000_1000),
        function(2, 0x1af4, 0x1001, 0x1000_1000, 0x1000_2000),
    ];
    let records = find_virtio_devices(&bus, &mut memory).unwrap();
    assert_eq!(records.len(), 2);
    assert_eq!(check_block_devices(records.clone(), &vec![true, false]), Err(ScanError::BlockSelfTestFailed));
    assert_eq!(check_block_devices(records, &vec![false, true]).unwrap().len(), 2);
}

#[test]
fn non_virtio_functions_are_skipped_in_order() {
    let mut memory = tracker();
    let bus = vec![
        function(0, 0x8086, 0x1237, 0x2000_0000, 0x2000_1000),
        function(1, 0x1af4, 0x1041, 0x1000_0000, 0x1000_1000),
        function(2, 0x1af4, 0x0999, 0x3000_0000, 0x3000_1000),
        function(3, 0x1af4, 0x1042, 0x1000_1000, 0x1000_2000),
    ];
    let records = find_virtio_devices(&bus, &mut memory).unwrap();
    assert_eq!(records.len(), 2);
    assert_eq!(records[0].device, 1);
    assert_eq!(records[0].device_type, 1);
    assert_eq!(records[1].device, 3);
    assert_eq!(records[1].device_type, VIRTIO_BLOCK);
    assert_eq!(memory.profile_at(0x2000_0000), None);
    assert_eq!(memory.profile_at(0x3000_0000), None);
}

#[test]
fn bar_mapping_failure_stops_the_scan() {
    let mut table = PageTable::default();
    assert_eq!(table.map_data(&AddressRange::new(0x1000_1000, 0x1000_2000)), Ok(()));
    let mut memory = MemoryTracker::new(table);
    let bus = vec![
        function(1, 0x1af4, 0x1042, 0x1000_0000, 0x1000_1000),
        function(2, 0x1af4, 0x1042, 0x1000_1000, 0x1000_2000),
        function(3, 0x1af4, 0x1042, 0x1000_2000, 0x1000_3000),
    ];
    assert_eq!(
        find_virtio_devices(&bus, &mut memory),
        Err(ScanError::Mapping(TrackerError::Mapping(MappingError::AlreadyMapped)))
    );
    assert_eq!(memory.profile_at(0x1000_0000), Some(AttributeProfile::DeviceLazy));
    assert_eq!(memory.profile_at(0x1000_2000), None);
}

#[test]
fn register_function_by_type() {
    let mut memory = tracker();
    let f = function(4, 0x1af4, 0x1042, 0x1000_0000, 0x1000_1000);
    assert_eq!(register_function(&f, None, &mut memory), Ok(None));
    assert_eq!(memory.profile_at(0x1000_0000), None);
    let rec = register_function(&f, Some(3), &mut memory).unwrap().unwrap();
    assert_eq!(rec.device_type, 3);
    assert!(!rec.is_block());
    assert_eq!(memory.profile_at(0x1000_0000), Some(AttributeProfile::DeviceLazy));
}

#[test]
fn first_memory_bar_choice() {
    let io = BarSlot { is_memory: false, address: 0x1000, size: 0x100 };
    let unused = BarSlot { is_memory: true, address: 0, size: 0 };
    let mem = BarSlot { is_memory: true, address: 0x1000_0000, size: 0x1000 };
    let later = BarSlot { is_memory: true, address: 0x2000_0000, size: 0x4000 };
    assert_eq!(first_memory_bar(&vec![]), None);
    assert_eq!(first_memory_bar(&vec![io, unused]), None);
    assert_eq!(
        first_memory_bar(&vec![io, unused, mem, later]),
        Some(AddressRange::new(0x1000_0000, 0x1000_1000))
    );
    let wraps = BarSlot { is_memory: true, address: u64::MAX - 0xfff, size: 0x2000 };
    assert_eq!(first_memory_bar(&vec![wraps, mem]), None);
}

#[test]
fn virtio_id_table() {
    let mut memory = tracker();
    let ids: [(u16, u16); 8] = [
        (0x1af4, 0x1000),
        (0x1af4, 0x1002),
        (0x1af4, 0x1009),
        (0x1af4, 0x1045),
        (0x1af4, 0x1050),
        (0x1af4, 0x100a),
        (0x1af4, 0x104e),
        (0x1b36, 0x1001),
    ];
    let bus: Vec<PciFunction> = ids
        .iter()
        .enumerate()
        .map(|(i, (v, d))| function(i as u8, *v, *d, 0, 0))
        .collect();
    let records = find_virtio_devices(&bus, &mut memory).unwrap();
    let types: Vec<(u8, u8)> = records.iter().map(|r| (r.device, r.device_type)).collect();
    assert_eq!(types, vec![(0, 1), (1, 13), (2, 9), (3, 13), (4, 16)]);
}
