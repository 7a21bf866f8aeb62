//! Guest-side memory management and device discovery for the early boot stage of a protected
//! virtual machine: an identity-mapped stage-1 page table with closed attribute profiles, a
//! tracker that maps device memory lazily and validates it on first touch, and a PCI bus scan
//! that registers the BARs of VirtIO functions through that tracker.
use vstd::prelude::*;

pub mod range;
pub mod attributes;
pub mod page_table;
pub mod memory;
pub mod pci;
pub mod compos;

verus! {

} // verus!
