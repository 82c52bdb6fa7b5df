//! Resolving the currently executing code to a flash partition.
//!
//! The raw hardware lookup — reading an entry of the address-translation
//! table from a register block — is an injected capability
//! ([`AddressTranslator`]); everything computed from the table entry and the
//! platform constants is verified here. [`SoftMmu`] is a verified translator
//! over an in-memory table, suitable for fixtures.

use vstd::prelude::*;

verus! {

/// Translates a code address to a physical flash address, or reports it
/// unresolvable. Production implementations perform the masked register
/// read; no behaviour is promised of them.
pub trait AddressTranslator {
    /// The physical flash address the given code address executes from.
    fn physical_address_of(&self, address: u32) -> Option<u32>;
}

/// Translation page size of 16 KiB.
pub const MMU_PAGE_16KB: u32 = 0x4000;

/// Translation page size of 32 KiB.
pub const MMU_PAGE_32KB: u32 = 0x8000;

/// Translation page size of 64 KiB.
pub const MMU_PAGE_64KB: u32 = 0x10000;

/// The translation page size the cache configuration register encodes:
/// 0 means 16 KiB, 1 means 32 KiB, anything else 64 KiB.
pub open spec fn spec_page_size_of(bits: u8) -> u32 {
    if bits == 0 {
        MMU_PAGE_16KB
    } else if bits == 1 {
        MMU_PAGE_32KB
    } else {
        MMU_PAGE_64KB
    }
}

/// Decodes the page-size field of the cache configuration register; reading
/// the register itself is the caller's (hardware-specific) part.
pub fn mmu_ll_get_page_size(bits: u8) -> (r: u32)
    ensures
        r == spec_page_size_of(bits),
        r == 0x4000 || r == 0x8000 || r == 0x10000,
{
    match bits {
        0 => MMU_PAGE_16KB,
        1 => MMU_PAGE_32KB,
        _ => MMU_PAGE_64KB,
    }
}

/// Index of the translation-table entry covering a code address: the
/// address's page bits under the platform's virtual-address mask.
pub fn mmu_ll_get_entry_id(vaddr: u32, vaddr_mask: u32) -> (r: u32)
    ensures
        r == (vaddr & vaddr_mask) >> 16u32,
{
    (vaddr & vaddr_mask) >> 16
}

/// Physical page base encoded in a translation-table entry: the entry's
/// payload bits shifted to a byte address.
pub fn mmu_ll_entry_id_to_paddr_base(entry: u32, valid_val_mask: u32) -> (r: u32)
    ensures
        r == (entry & valid_val_mask) << 16u32,
{
    (entry & valid_val_mask) << 16
}

/// Whether a translation-table entry is marked valid (its invalid bit is
/// clear).
#[allow(dead_code)]
pub fn mmu_ll_check_entry_valid(entry: u32, invalid_mask: u32) -> (r: bool)
    ensures
        r == ((entry & invalid_mask) == 0),
{
    (entry & invalid_mask) == 0
}

/// The shift code for a supported translation page size.
pub open spec fn spec_page_shift(page_size: u32) -> u32 {
    if page_size == 0x10000 {
        16u32
    } else if page_size == 0x8000 {
        15u32
    } else {
        14u32
    }
}

/// Converts a page count to bytes for the platform's page size. Only the
/// documented page sizes are configurations this code runs under.
pub fn mmu_hal_pages_to_bytes(page_size: u32, page_num: u32) -> (r: u32)
    requires
        page_size == 0x4000 || page_size == 0x8000 || page_size == 0x10000,
    ensures
        r == page_num << spec_page_shift(page_size),
{
    match page_size {
        0x10000 => page_num << 16,
        0x8000 => page_num << 15,
        _ => page_num << 14,
    }
}

/// `paddr` lies inside the partition `p = (offset, size)`.
pub open spec fn paddr_in_partition(p: (u32, u32), paddr: u32) -> bool {
    p.0 <= paddr < p.0 + p.1
}

/// Partition `i` is the first in `parts` whose range contains `pa`.
pub open spec fn resolves_to(parts: Seq<(u32, u32)>, pa: u32, i: int) -> bool {
    &&& 0 <= i < parts.len()
    &&& paddr_in_partition(parts[i], pa)
    &&& forall|j: int| 0 <= j < i ==> !paddr_in_partition(parts[j], pa)
}

/// The index of the partition containing the physical address the current
/// code was resolved to: the first `(offset, size)` whose range holds it.
pub fn esp_get_current_running_partition(partitions: &[(u32, u32)], paddr: u32) -> (r: Option<
    usize,
>)
    ensures
        (match r {
            Some(i) => resolves_to(partitions@, paddr, i as int),
            None => forall|j: int|
                0 <= j < partitions@.len() ==> !paddr_in_partition(partitions@[j], paddr),
        }),
{
    let mut i: usize = 0;
    while i < partitions.len()
        invariant
            i <= partitions@.len(),
            forall|j: int| 0 <= j < i ==> !paddr_in_partition(partitions@[j], paddr),
        decreases partitions@.len() - i,
    {
        let part = partitions[i];
        if paddr >= part.0 && paddr - part.0 < part.1 {
            return Some(i);
        }
        i += 1;
    }
    None
}

/// A synthetic address-translation table held in memory, with the platform
/// constants alongside it.
pub struct SoftMmu {
    pub vaddr_mask: u32,
    pub valid_val_mask: u32,
    pub page_size: u32,
    pub entries: Vec<u32>,
}

impl SoftMmu {
    /// The translation this table defines: index the entry by the masked
    /// page bits, rebase its payload, and keep the in-page offset.
    pub open spec fn spec_translate(&self, address: u32) -> Option<u32> {
        let id = (address & self.vaddr_mask) >> 16u32;
        if !(self.page_size == 0x4000 || self.page_size == 0x8000 || self.page_size == 0x10000) {
            None
        } else if id < self.entries@.len() {
            Some(
                ((self.entries@[id as int] & self.valid_val_mask) << 16u32) | (address % self
                    .page_size),
            )
        } else {
            None
        }
    }

    /// Looks an address up in the table.
    pub fn translate(&self, address: u32) -> (r: Option<u32>)
        ensures
            r == self.spec_translate(address),
    {
        if !(self.page_size == 0x4000 || self.page_size == 0x8000 || self.page_size == 0x10000) {
            return None;
        }
        let id = mmu_ll_get_entry_id(address, self.vaddr_mask);
        if (id as usize) < self.entries.len() {
            let base = mmu_ll_entry_id_to_paddr_base(self.entries[id as usize], self.valid_val_mask);
            let page_bytes = mmu_hal_pages_to_bytes(self.page_size, 1);
            proof {
                let ps = self.page_size;
                assert(ps == 0x4000 ==> 1u32 << spec_page_shift(ps) == ps) by (bit_vector);
                assert(ps == 0x8000 ==> 1u32 << spec_page_shift(ps) == ps) by (bit_vector);
                assert(ps == 0x10000 ==> 1u32 << spec_page_shift(ps) == ps) by (bit_vector);
            }
            let offset = address % page_bytes;
            Some(base | offset)
        } else {
            None
        }
    }
}

impl AddressTranslator for SoftMmu {
    fn physical_address_of(&self, address: u32) -> Option<u32> {
        self.translate(address)
    }
}

} // verus!
