//! Closed set of protection-attribute profiles and their hardware descriptor bits.
use vstd::prelude::*;

verus! {

/// Descriptor is valid for translation.
pub const VALID: u64 = 0x1;

/// Descriptor selects a table (shallower levels) or a page (deepest level).
pub const TABLE_OR_PAGE: u64 = 0x2;

/// Memory type index 0: device nGnRE memory (all type bits clear).
pub const DEVICE_NGNRE: u64 = 0x0;

/// Memory type index 1, inner shareable: normal write-back memory.
pub const NORMAL: u64 = 0x304;

/// Access permission: read-only.
pub const READ_ONLY: u64 = 0x80;

/// The mapping belongs to the current address space identifier only.
pub const NON_GLOBAL: u64 = 0x800;

/// Dirty-bit management: hardware may make a read-only clean page writable.
pub const DBM: u64 = 0x8_0000_0000_0000;

/// Privileged and unprivileged execute-never.
pub const EXECUTE_NEVER: u64 = 0x60_0000_0000_0000;

/// Spare software bit, used to mark a device mapping that still awaits validation.
pub const MMIO_LAZY_MAP_FLAG: u64 = 0x80_0000_0000_0000;

/// The deepest translation level, where a descriptor maps a single page.
pub const LEAF_PTE_LEVEL: usize = 3;

/// The protection attributes that a mapped page can carry. Each variant stands for one fixed
/// combination of descriptor bits; callers cannot assemble other combinations.
#[derive(Clone, Copy, Debug, PartialEq, Eq, Structural)]
pub enum AttributeProfile {
    /// Read-only, executable normal memory.
    Code,
    /// Read-only, non-executable normal memory.
    RoData,
    /// Read-write, non-executable normal memory.
    Data,
    /// Read-only non-executable normal memory that hardware may make writable once dirty.
    DataDbm,
    /// Non-executable device memory, invalid until validated, carrying the lazy marker.
    DeviceLazy,
    /// The lazy device combination with the valid bit set.
    DeviceValidated,
}

pub open spec fn memory_bits() -> u64 {
    VALID | NORMAL | NON_GLOBAL
}

/// The descriptor bits of each profile.
pub open spec fn profile_bits(p: AttributeProfile) -> u64 {
    match p {
        AttributeProfile::Code => memory_bits() | READ_ONLY,
        AttributeProfile::Data => memory_bits() | EXECUTE_NEVER,
        AttributeProfile::RoData => memory_bits() | EXECUTE_NEVER | READ_ONLY,
        AttributeProfile::DataDbm => memory_bits() | EXECUTE_NEVER | READ_ONLY | DBM,
        AttributeProfile::DeviceLazy => MMIO_LAZY_MAP_FLAG | DEVICE_NGNRE | EXECUTE_NEVER,
        AttributeProfile::DeviceValidated => MMIO_LAZY_MAP_FLAG | DEVICE_NGNRE | EXECUTE_NEVER
            | VALID,
    }
}

impl AttributeProfile {
    /// The descriptor bits of this profile; the one place where profiles become bits.
    pub fn bits(self) -> (r: u64)
        ensures
            r == profile_bits(self),
    {
        match self {
            AttributeProfile::Code => VALID | NORMAL | NON_GLOBAL | READ_ONLY,
            AttributeProfile::Data => VALID | NORMAL | NON_GLOBAL | EXECUTE_NEVER,
            AttributeProfile::RoData => VALID | NORMAL | NON_GLOBAL | EXECUTE_NEVER | READ_ONLY,
            AttributeProfile::DataDbm => VALID | NORMAL | NON_GLOBAL | EXECUTE_NEVER | READ_ONLY
                | DBM,
            AttributeProfile::DeviceLazy => MMIO_LAZY_MAP_FLAG | DEVICE_NGNRE | EXECUTE_NEVER,
            AttributeProfile::DeviceValidated => MMIO_LAZY_MAP_FLAG | DEVICE_NGNRE | EXECUTE_NEVER
                | VALID,
        }
    }
}

/// No profile selects a table or page: profiles describe what a leaf maps, not its kind.
pub proof fn lemma_profile_bits_not_table(p: AttributeProfile)
    ensures
        profile_bits(p) & TABLE_OR_PAGE == 0,
{
    match p {
        AttributeProfile::Code => {
            assert((0x1u64 | 0x304u64 | 0x800u64 | 0x80u64) & 0x2u64 == 0) by (bit_vector);
        },
        AttributeProfile::Data => {
            assert((0x1u64 | 0x304u64 | 0x800u64 | 0x60_0000_0000_0000u64) & 0x2u64 == 0)
                by (bit_vector);
        },
        AttributeProfile::RoData => {
            assert((0x1u64 | 0x304u64 | 0x800u64 | 0x60_0000_0000_0000u64 | 0x80u64) & 0x2u64
                == 0) by (bit_vector);
        },
        AttributeProfile::DataDbm => {
            assert((0x1u64 | 0x304u64 | 0x800u64 | 0x60_0000_0000_0000u64 | 0x80u64
                | 0x8_0000_0000_0000u64) & 0x2u64 == 0) by (bit_vector);
        },
        AttributeProfile::DeviceLazy => {
            assert((0x80_0000_0000_0000u64 | 0x0u64 | 0x60_0000_0000_0000u64) & 0x2u64 == 0)
                by (bit_vector);
        },
        AttributeProfile::DeviceValidated => {
            assert((0x80_0000_0000_0000u64 | 0x0u64 | 0x60_0000_0000_0000u64 | 0x1u64)
                & 0x2u64 == 0) by (bit_vector);
        },
    }
}

/// Whether a descriptor with the given flag bits, found at the given translation level, maps
/// memory directly (a page at the deepest level, a block above it) rather than pointing to a
/// further table.
pub open spec fn is_leaf(flags: u64, level: usize) -> bool {
    if flags & TABLE_OR_PAGE == TABLE_OR_PAGE {
        level == LEAF_PTE_LEVEL
    } else {
        level < LEAF_PTE_LEVEL
    }
}

/// Checks whether a PTE at given level is a page or block descriptor.
pub fn is_leaf_pte(flags: u64, level: usize) -> (r: bool)
    ensures
        r == is_leaf(flags, level),
{
    if flags & TABLE_OR_PAGE == TABLE_OR_PAGE {
        level == LEAF_PTE_LEVEL
    } else {
        level < LEAF_PTE_LEVEL
    }
}

/// At the deepest level every descriptor with the page selector set is a leaf; above it every
/// descriptor with the selector clear is a leaf and none with it set is.
pub proof fn lemma_leaf_classification(flags: u64, level: usize)
    ensures
        flags & TABLE_OR_PAGE == TABLE_OR_PAGE && level == LEAF_PTE_LEVEL ==> is_leaf(flags, level),
        flags & TABLE_OR_PAGE != TABLE_OR_PAGE && level < LEAF_PTE_LEVEL ==> is_leaf(flags, level),
        flags & TABLE_OR_PAGE == TABLE_OR_PAGE && level < LEAF_PTE_LEVEL ==> !is_leaf(flags, level),
{
}

} // verus!
