use pvm_boot::attributes::{is_leaf_pte, AttributeProfile, TABLE_OR_PAGE};
use pvm_boot::page_table::{tcr_el1_matches, MappingError, PageTable};
use pvm_boot::range::AddressRange;

fn range(start: usize, end: usize) -> AddressRange {
    AddressRange::new(start, end)
}

#[test]
fn disjoint_ranges_keep_their_profiles() {
    let mut table = PageTable::default();
    assert_eq!(table.map_code(&range(0x8000_0000, 0x8000_4000)), Ok(()));
    assert_eq!(table.map_data(&range(0x8000_4000, 0x8001_0000)), Ok(()));
    assert_eq!(table.profile_at(0x8000_0000), Some(AttributeProfile::Code));
    assert_eq!(table.profile_at(0x8000_3fff), Some(AttributeProfile::Code));
    assert_eq!(table.profile_at(0x8000_4000), Some(AttributeProfile::Data));
    assert_eq!(table.profile_at(0x8000_ffff), Some(AttributeProfile::Data));
    assert_eq!(table.profile_at(0x8001_0000), None);
    assert_eq!(table.profile_at(0x7fff_ffff), None);
}

#[test]
fn every_profile_maps_and_reads_back() {
    let mut table = PageTable::default();
    assert_eq!(table.map_code(&range(0x1000, 0x2000)), Ok(()));
    assert_eq!(table.map_rodata(&range(0x2000, 0x3000)), Ok(()));
    assert_eq!(table.map_data(&range(0x3000, 0x4000)), Ok(()));
    assert_eq!(table.map_data_dbm(&range(0x4000, 0x5000)), Ok(()));
    assert_eq!(table.map_device_lazy(&range(0x5000, 0x6000)), Ok(()));
    assert_eq!(table.map_device(&range(0x6000, 0x7000)), Ok(()));
    assert_eq!(table.profile_at(0x1800), Some(AttributeProfile::Code));
    assert_eq!(table.profile_at(0x2800), Some(AttributeProfile::RoData));
    assert_eq!(table.profile_at(0x3800), Some(AttributeProfile::Data));
    assert_eq!(table.profile_at(0x4800), Some(AttributeProfile::DataDbm));
    assert_eq!(table.profile_at(0x5800), Some(AttributeProfile::DeviceLazy));
    assert_eq!(table.profile_at(0x6800), Some(AttributeProfile::DeviceValidated));
}

#[test]
fn same_range_with_other_profile_is_already_mapped() {
    let mut table = PageTable::default();
    assert_eq!(table.map_data(&range(0x10000, 0x20000)), Ok(()));
    assert_eq!(table.map_code(&range(0x10000, 0x20000)), Err(MappingError::AlreadyMapped));
    assert_eq!(table.profile_at(0x10000), Some(AttributeProfile::Data));
}

#[test]
fn same_range_with_same_profile_is_idempotent() {
    let mut table = PageTable::default();
    assert_eq!(table.map_rodata(&range(0x10000, 0x20000)), Ok(()));
    assert_eq!(table.map_rodata(&range(0x10000, 0x20000)), Ok(()));
    assert_eq!(table.map_rodata(&range(0x11000, 0x12000)), Ok(()));
    assert_eq!(table.profile_at(0x1ffff), Some(AttributeProfile::RoData));
}

#[test]
fn partial_overlap_with_other_profile_is_already_mapped() {
    let mut table = PageTable::default();
    assert_eq!(table.map_data(&range(0x10000, 0x20000)), Ok(()));
    assert_eq!(table.map_code(&range(0x1f000, 0x21000)), Err(MappingError::AlreadyMapped));
    assert_eq!(table.profile_at(0x20000), None);
    assert_eq!(table.profile_at(0x1f000), Some(AttributeProfile::Data));
}

#[test]
fn partial_overlap_with_same_profile_extends() {
    let mut table = PageTable::default();
    assert_eq!(table.map_data(&range(0x10000, 0x20000)), Ok(()));
    assert_eq!(table.map_data(&range(0x1f000, 0x21000)), Ok(()));
    assert_eq!(table.profile_at(0x20000), Some(AttributeProfile::Data));
    assert_eq!(table.profile_at(0x10000), Some(AttributeProfile::Data));
    assert_eq!(table.profile_at(0x21000), None);
}

#[test]
fn range_over_two_same_profile_regions_merges() {
    let mut table = PageTable::default();
    assert_eq!(table.map_rodata(&range(0x10000, 0x12000)), Ok(()));
    assert_eq!(table.map_rodata(&range(0x13000, 0x15000)), Ok(()));
    assert_eq!(table.map_code(&range(0x20000, 0x21000)), Ok(()));
    assert_eq!(table.map_rodata(&range(0x11000, 0x14000)), Ok(()));
    for addr in [0x10000, 0x12000, 0x12fff, 0x14fff] {
        assert_eq!(table.profile_at(addr), Some(AttributeProfile::RoData));
    }
    assert_eq!(table.profile_at(0x15000), None);
    assert_eq!(table.profile_at(0x20000), Some(AttributeProfile::Code));
    assert_eq!(
        table.region_at(0x12000).map(|m| m.range),
        Some(range(0x10000, 0x15000))
    );
    assert_eq!(table.map_rodata(&range(0x10000, 0x15000)), Ok(()));
    assert_eq!(table.map_code(&range(0x14000, 0x16000)), Err(MappingError::AlreadyMapped));
}

#[test]
fn misaligned_range_is_refused() {
    let mut table = PageTable::default();
    assert_eq!(table.map_data(&range(0x1001, 0x2000)), Err(MappingError::Misaligned));
    assert_eq!(table.map_data(&range(0x1000, 0x2001)), Err(MappingError::Misaligned));
    assert_eq!(table.profile_at(0x1800), None);
}

#[test]
fn range_beyond_span_is_refused() {
    let mut table = PageTable::default();
    assert_eq!(
        table.map_data(&range(0x7f_ffff_f000, 0x80_0000_1000)),
        Err(MappingError::OutOfRange)
    );
    assert_eq!(table.map_data(&range(0x7f_ffff_f000, 0x80_0000_0000)), Ok(()));
}

#[test]
fn empty_range_maps_nothing() {
    let mut table = PageTable::default();
    assert_eq!(table.map_code(&range(0x3000, 0x3000)), Ok(()));
    assert_eq!(table.profile_at(0x3000), None);
}

#[test]
fn promotion_needs_an_exact_lazy_region() {
    let mut table = PageTable::default();
    assert_eq!(table.map_device_lazy(&range(0x9000_0000, 0x9000_2000)), Ok(()));
    assert_eq!(table.promote_device_lazy(&range(0x9000_0000, 0x9000_1000)), Err(MappingError::NotLazy));
    assert_eq!(table.promote_device_lazy(&range(0x9000_0000, 0x9000_2000)), Ok(()));
    assert_eq!(table.profile_at(0x9000_1000), Some(AttributeProfile::DeviceValidated));
    assert_eq!(table.promote_device_lazy(&range(0x9000_0000, 0x9000_2000)), Err(MappingError::NotLazy));
}

#[test]
fn leaf_classification() {
    assert!(is_leaf_pte(TABLE_OR_PAGE, 3));
    assert!(is_leaf_pte(TABLE_OR_PAGE | 0x1, 3));
    assert!(!is_leaf_pte(0x1, 3));
    for level in 0..3 {
        assert!(is_leaf_pte(0x1, level));
        assert!(is_leaf_pte(0, level));
        assert!(!is_leaf_pte(TABLE_OR_PAGE | 0x1, level));
    }
}

#[test]
fn activation_check_detects_missing_code_mapping() {
    let mut table = PageTable::default();
    let code = range(0x8000_0000, 0x8002_0000);
    assert!(!table.maps_code(&code));
    assert_eq!(table.map_data(&code), Ok(()));
    assert!(!table.maps_code(&code));
    let mut other = PageTable::default();
    assert_eq!(other.map_code(&range(0x8000_0000, 0x8001_0000)), Ok(()));
    assert!(!other.maps_code(&code));
    assert_eq!(other.map_code(&range(0x7000_0000, 0x7001_0000)), Ok(()));
    let mut good = PageTable::default();
    assert_eq!(good.map_code(&range(0x8000_0000, 0x8004_0000)), Ok(()));
    assert!(good.maps_code(&code));
}

#[test]
fn attribute_bits_are_distinct() {
    let all = [
        AttributeProfile::Code,
        AttributeProfile::RoData,
        AttributeProfile::Data,
        AttributeProfile::DataDbm,
        AttributeProfile::DeviceLazy,
        AttributeProfile::DeviceValidated,
    ];
    for (i, a) in all.iter().enumerate() {
        for (j, b) in all.iter().enumerate() {
            assert_eq!(i == j, a.bits() == b.bits());
        }
    }
    assert_eq!(AttributeProfile::Code.bits(), 0x0000_0000_0000_0b85);
    assert_eq!(AttributeProfile::Data.bits(), 0x0060_0000_0000_0b05);
    assert_eq!(AttributeProfile::DeviceLazy.bits(), 0x00e0_0000_0000_0000);
    assert_eq!(AttributeProfile::DeviceValidated.bits(), 0x00e0_0000_0000_0001);
}

#[test]
fn tcr_el1_configuration() {
    assert!(tcr_el1_matches(25));
    assert!(tcr_el1_matches(0x8000_0000_0000_0000 | 25));
    assert!(!tcr_el1_matches(24));
    assert!(!tcr_el1_matches((1 << 14) | 25));
}
