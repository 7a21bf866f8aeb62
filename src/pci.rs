//! Walk of PCI bus 0 for VirtIO functions, registering each one's BAR range as lazily mapped
//! device memory before anything touches the device.
use vstd::prelude::*;
use virtio_drivers::transport::pci::bus::{DeviceFunctionInfo, HeaderType};
use virtio_drivers::transport::pci::virtio_device_type;
use crate::memory::{MemoryTracker, TrackerError, mmio_effect, mmio_result};
use crate::attributes::AttributeProfile;
use crate::page_table::{MappedRegion, VA_SPAN, conflicts, lemma_map_twice, overlaps_any, regions_wf};
use crate::range::AddressRange;

verus! {

/// PCI vendor id of VirtIO devices.
pub const VIRTIO_VENDOR_ID: u16 = 0x1af4;

/// VirtIO device type of block devices.
pub const VIRTIO_BLOCK: u8 = 2;

/// The VirtIO device type that a vendor and device id pair stands for, if any: seven legacy
/// ("transitional") device ids, then modern ids at 0x1040 plus the device type, where type 5 is
/// reported as the memory balloon (13).
pub open spec fn virtio_type_of(vendor_id: u16, device_id: u16) -> Option<u8> {
    if vendor_id != VIRTIO_VENDOR_ID {
        None
    } else if device_id == 0x1000 {
        Some(1u8)
    } else if device_id == 0x1001 {
        Some(2u8)
    } else if device_id == 0x1002 {
        Some(13u8)
    } else if device_id == 0x1003 {
        Some(3u8)
    } else if device_id == 0x1004 {
        Some(8u8)
    } else if device_id == 0x1005 {
        Some(4u8)
    } else if device_id == 0x1009 {
        Some(9u8)
    } else if device_id < 0x1040 {
        None
    } else {
        let v = device_id - 0x1040;
        if v == 5 {
            Some(13u8)
        } else if (1 <= v <= 13) || (16 <= v <= 24) {
            Some(v as u8)
        } else {
            None
        }
    }
}

/// One function found on the bus, as read from its configuration space.
#[derive(Clone, Copy, Debug, PartialEq, Eq, Structural)]
pub struct PciFunction {
    pub bus: u8,
    pub device: u8,
    pub function: u8,
    pub vendor_id: u16,
    pub device_id: u16,
    pub class: u8,
    pub subclass: u8,
    pub prog_if: u8,
    pub revision: u8,
    pub header_type: u8,
    /// The addresses that the function's BARs decode.
    pub bar_range: AddressRange,
}

/// A VirtIO function found by a scan.
#[derive(Clone, Copy, Debug, PartialEq, Eq, Structural)]
pub struct PciDeviceRecord {
    pub bus: u8,
    pub device: u8,
    pub function: u8,
    pub vendor_id: u16,
    pub device_id: u16,
    /// The VirtIO device type.
    pub device_type: u8,
    pub bar_range: AddressRange,
}

impl PciDeviceRecord {
    pub open spec fn spec_is_block(self) -> bool {
        self.device_type == VIRTIO_BLOCK
    }

    pub fn is_block(&self) -> (r: bool)
        ensures
            r == self.spec_is_block(),
    {
        self.device_type == VIRTIO_BLOCK
    }
}

/// Why a scan ended without a device list.
#[derive(Clone, Copy, Debug, PartialEq, Eq, Structural)]
pub enum ScanError {
    /// Registering a function's BAR range failed.
    Mapping(TrackerError),
    /// A block device failed its single-block read: boot cannot go on.
    BlockSelfTestFailed,
}

/// One BAR of a function, as read from its configuration space.
#[derive(Clone, Copy, Debug, PartialEq, Eq, Structural)]
pub struct BarSlot {
    /// Memory (rather than I/O) BAR.
    pub is_memory: bool,
    pub address: u64,
    pub size: u32,
}

/// A BAR that decodes some memory.
pub open spec fn decodes_memory(b: BarSlot) -> bool {
    b.is_memory && b.size > 0
}

/// The index of the first BAR from `i` on that decodes memory.
pub open spec fn first_memory_from(bars: Seq<BarSlot>, i: int) -> Option<int>
    decreases bars.len() - i,
{
    if i < 0 || i >= bars.len() {
        None
    } else if decodes_memory(bars[i]) {
        Some(i)
    } else {
        first_memory_from(bars, i + 1)
    }
}

/// The range that a BAR decodes, if it fits in the address space.
pub open spec fn bar_range_of(b: BarSlot) -> Option<AddressRange> {
    if b.address + b.size <= u64::MAX && (b.address as usize) as u64 == b.address && ((b.address
        + b.size) as usize) as u64 == b.address + b.size {
        Some(AddressRange { start: b.address as usize, end: (b.address + b.size) as usize })
    } else {
        None
    }
}

/// The range decoded by the first memory BAR of a function, in the order the BARs were read;
/// `None` when no BAR decodes memory or that one does not fit in the address space.
pub fn first_memory_bar(bars: &Vec<BarSlot>) -> (r: Option<AddressRange>)
    ensures
        r == match first_memory_from(bars@, 0) {
            Some(i) => bar_range_of(bars@[i]),
            None => None,
        },
{
    let mut i: usize = 0;
    while i < bars.len()
        invariant
            0 <= i <= bars@.len(),
            first_memory_from(bars@, 0) == first_memory_from(bars@, i as int),
        decreases bars@.len() - i,
    {
        let b = bars[i];
        if b.is_memory && b.size > 0 {
            if b.address > u64::MAX - b.size as u64 {
                return None;
            }
            let end: u64 = b.address + b.size as u64;
            let start_addr = b.address as usize;
            let end_addr = end as usize;
            if start_addr as u64 != b.address || end_addr as u64 != end {
                return None;
            }
            return Some(AddressRange { start: start_addr, end: end_addr });
        }
        i = i + 1;
    }
    None
}

/// Relies on virtio_drivers' `virtio_device_type`: it reads the vendor and device ids alone and
/// maps them through its table of legacy and modern device ids, never reporting the invalid
/// type; the type's discriminant is the VirtIO device type number.
#[verifier::external_body]
fn device_type_of(f: &PciFunction) -> (r: Option<u8>)
    ensures
        r == virtio_type_of(f.vendor_id, f.device_id),
{
    let info = DeviceFunctionInfo {
        vendor_id: f.vendor_id,
        device_id: f.device_id,
        class: f.class,
        subclass: f.subclass,
        prog_if: f.prog_if,
        revision: f.revision,
        header_type: HeaderType::from(f.header_type),
    };
    virtio_device_type(&info).map(|t| t as u8)
}

pub open spec fn record_of(f: PciFunction, device_type: u8) -> PciDeviceRecord {
    PciDeviceRecord {
        bus: f.bus,
        device: f.device,
        function: f.function,
        vendor_id: f.vendor_id,
        device_id: f.device_id,
        device_type,
        bar_range: f.bar_range,
    }
}

/// The outcome of handling one function whose VirtIO type is `device_type`: no record for a
/// function that is not VirtIO, else a record once its BAR range is registered.
pub open spec fn function_result(
    s: Seq<MappedRegion>,
    f: PciFunction,
    device_type: Option<u8>,
) -> Result<Option<PciDeviceRecord>, TrackerError> {
    match device_type {
        None => Ok(None),
        Some(t) => match mmio_result(s, f.bar_range) {
            Ok(()) => Ok(Some(record_of(f, t))),
            Err(e) => Err(e),
        },
    }
}

pub open spec fn function_effect(s: Seq<MappedRegion>, f: PciFunction, device_type: Option<u8>) -> Seq<
    MappedRegion,
> {
    match device_type {
        None => s,
        Some(t) => mmio_effect(s, f.bar_range),
    }
}

/// Scanning the functions `bus` in order from the regions `s`: the records found and the regions
/// afterwards, or the first registration error and the regions at that point.
pub open spec fn scan_prefix(s: Seq<MappedRegion>, bus: Seq<PciFunction>) -> (
    Result<Seq<PciDeviceRecord>, TrackerError>,
    Seq<MappedRegion>,
)
    decreases bus.len(),
{
    if bus.len() == 0 {
        (Ok(Seq::empty()), s)
    } else {
        let (r, s1) = scan_prefix(s, bus.drop_last());
        let f = bus.last();
        let t = virtio_type_of(f.vendor_id, f.device_id);
        match r {
            Err(e) => (Err(e), s1),
            Ok(recs) => match function_result(s1, f, t) {
                Ok(None) => (Ok(recs), s1),
                Ok(Some(rec)) => (Ok(recs.push(rec)), function_effect(s1, f, t)),
                Err(e) => (Err(e), function_effect(s1, f, t)),
            },
        }
    }
}

/// Once a scan has failed on a prefix of the functions, the rest changes neither the error nor
/// the regions.
proof fn lemma_scan_error_sticks_step(s: Seq<MappedRegion>, bus: Seq<PciFunction>, k: int)
    requires
        0 <= k <= bus.len(),
        scan_prefix(s, bus.subrange(0, k)).0.is_err(),
    ensures
        scan_prefix(s, bus) == scan_prefix(s, bus.subrange(0, k)),
    decreases bus.len() - k,
{
    if k < bus.len() {
        assert(bus.subrange(0, k + 1).drop_last() == bus.subrange(0, k));
        lemma_scan_error_sticks_step(s, bus, k + 1);
    } else {
        assert(bus.subrange(0, k) == bus);
    }
}
/// An empty bus gives no record and maps nothing.
pub proof fn lemma_scan_empty_bus(s: Seq<MappedRegion>)
    ensures
        scan_prefix(s, Seq::empty()) == (Ok::<Seq<PciDeviceRecord>, TrackerError>(Seq::empty()), s),
{
}

/// A bus with one VirtIO function whose page-aligned BAR range touches no mapped region gives
/// exactly that function's record, and asking again for that BAR range afterwards succeeds.
pub proof fn lemma_scan_single_function(s: Seq<MappedRegion>, f: PciFunction)
    requires
        regions_wf(s),
        virtio_type_of(f.vendor_id, f.device_id).is_some(),
        f.bar_range.wf(),
        f.bar_range.is_page_aligned(),
        f.bar_range.end <= VA_SPAN,
        !overlaps_any(s, f.bar_range),
    ensures
        scan_prefix(s, seq![f]).0 == Ok::<Seq<PciDeviceRecord>, TrackerError>(
            seq![record_of(f, virtio_type_of(f.vendor_id, f.device_id).unwrap())],
        ),
        mmio_result(scan_prefix(s, seq![f]).1, f.bar_range) == Ok::<(), TrackerError>(()),
{
    let b = seq![f];
    let t = virtio_type_of(f.vendor_id, f.device_id).unwrap();
    assert(b.drop_last() =~= Seq::<PciFunction>::empty());
    assert(b.last() == f);
    assert(b.len() == 1);
    assert(scan_prefix(s, b.drop_last()) == scan_prefix(s, Seq::<PciFunction>::empty()));
    assert(scan_prefix(s, b.drop_last()).0 == Ok::<Seq<PciDeviceRecord>, TrackerError>(
        Seq::empty(),
    ));
    assert(scan_prefix(s, b.drop_last()).1 == s);
    assert(!conflicts(s, f.bar_range, AttributeProfile::DeviceLazy));
    assert(mmio_result(s, f.bar_range) == Ok::<(), TrackerError>(()));
    assert(Seq::<PciDeviceRecord>::empty().push(record_of(f, t)) =~= seq![record_of(f, t)]);
    let s1 = mmio_effect(s, f.bar_range);
    assert(scan_prefix(s, b).1 == s1);
    if !f.bar_range.is_empty() {
        lemma_map_twice(s, f.bar_range, AttributeProfile::DeviceLazy, AttributeProfile::DeviceLazy);
    } else {
        assert(!conflicts(s1, f.bar_range, AttributeProfile::DeviceLazy));
    }
}

/// Handles one function whose VirtIO type is `device_type`: a function that is not VirtIO gives
/// no record; a VirtIO one has its BAR range registered as lazily mapped device memory before
/// its record is returned.
pub fn register_function(
    f: &PciFunction,
    device_type: Option<u8>,
    memory: &mut MemoryTracker,
) -> (r: Result<Option<PciDeviceRecord>, TrackerError>)
    requires
        old(memory).wf(),
    ensures
        final(memory).wf(),
        r == function_result(old(memory)@, *f, device_type),
        final(memory)@ == function_effect(old(memory)@, *f, device_type),
{
    match device_type {
        None => Ok(None),
        Some(t) => {
            match memory.map_mmio_range(f.bar_range) {
                Ok(()) => Ok(
                    Some(
                        PciDeviceRecord {
                            bus: f.bus,
                            device: f.device,
                            function: f.function,
                            vendor_id: f.vendor_id,
                            device_id: f.device_id,
                            device_type: t,
                            bar_range: f.bar_range,
                        },
                    ),
                ),
                Err(e) => Err(e),
            }
        },
    }
}

/// Finds VirtIO PCI devices: walks the functions of bus 0 in ascending order, and registers the
/// BAR range of each VirtIO function through the tracker before recording it.
pub fn find_virtio_devices(bus: &Vec<PciFunction>, memory: &mut MemoryTracker) -> (r: Result<
    Vec<PciDeviceRecord>,
    ScanError,
>)
    requires
        old(memory).wf(),
    ensures
        final(memory).wf(),
        final(memory)@ == scan_prefix(old(memory)@, bus@).1,
        match scan_prefix(old(memory)@, bus@).0 {
            Ok(recs) => (r matches Ok(v) && v@ == recs),
            Err(e) => r == Err::<Vec<PciDeviceRecord>, ScanError>(ScanError::Mapping(e)),
        },
{
    let ghost s0 = memory@;
    let mut records: Vec<PciDeviceRecord> = Vec::new();
    let mut i: usize = 0;
    while i < bus.len()
        invariant
            memory.wf(),
            0 <= i <= bus@.len(),
            s0 == old(memory)@,
            scan_prefix(s0, bus@.subrange(0, i as int)) == (
                Ok::<Seq<PciDeviceRecord>, TrackerError>(records@),
                memory@,
            ),
        decreases bus@.len() - i,
    {
        let f = bus[i];
        let t = device_type_of(&f);
        let ghost s1 = memory@;
        let res = register_function(&f, t, memory);
        assert(bus@.subrange(0, i + 1).drop_last() == bus@.subrange(0, i as int));
        assert(bus@.subrange(0, i + 1).last() == f);
        match res {
            Ok(None) => {},
            Ok(Some(rec)) => {
                records.push(rec);
            },
            Err(e) => {
                proof {
                    lemma_scan_error_sticks_step(s0, bus@, i + 1);
                }
                return Err(ScanError::Mapping(e));
            },
        }
        i = i + 1;
    }
    assert(bus@.subrange(0, bus@.len() as int) == bus@);
    Ok(records)
}

/// Whether some block device among `records` failed its read.
pub open spec fn block_test_failed(records: Seq<PciDeviceRecord>, reads: Seq<bool>) -> bool {
    exists|i: int| 0 <= i < records.len() && records[i].spec_is_block() && !reads[i]
}

/// Applies the self-test policy to a scan's records: `reads[i]` tells whether the single-block
/// read of the device behind `records[i]` succeeded (it is ignored for other device types). A
/// block device that failed is fatal: no partial device list is returned.
pub fn check_block_devices(records: Vec<PciDeviceRecord>, reads: &Vec<bool>) -> (r: Result<
    Vec<PciDeviceRecord>,
    ScanError,
>)
    requires
        reads@.len() == records@.len(),
    ensures
        block_test_failed(records@, reads@) ==> r == Err::<Vec<PciDeviceRecord>, ScanError>(
            ScanError::BlockSelfTestFailed,
        ),
        !block_test_failed(records@, reads@) ==> (r matches Ok(v) && v@ == records@),
{
    let mut i: usize = 0;
    while i < records.len()
        invariant
            reads@.len() == records@.len(),
            0 <= i <= records@.len(),
            forall|j: int| 0 <= j < i ==> !(records@[j].spec_is_block() && !reads@[j]),
        decreases records@.len() - i,
    {
        if records[i].is_block() && !reads[i] {
            return Err(ScanError::BlockSelfTestFailed);
        }
        i = i + 1;
    }
    Ok(records)
}

} // verus!
