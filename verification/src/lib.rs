//! A/B ("dual-bank") firmware update manager for devices that execute code in
//! place from addressable flash.
//!
//! The crate parses the on-flash partition table, resolves which partition the
//! running code occupies, streams a new image into the inactive partition
//! under a running CRC32, and commits the next-boot target through a pair of
//! redundant, sequence-numbered boot records, only ever rewriting one of the
//! two records per commit.

pub mod crc32;
pub mod flash;
pub mod helpers;
pub mod mmu_hal;
pub mod structs;

use crate::crc32::{calc_crc32, crc32_of};
use crate::flash::{store_bytes, FlashStorage};
use crate::helpers::{lemma_seq_to_part_surjective, seq_to_part, spec_seq_to_part};
use crate::mmu_hal::{esp_get_current_running_partition, resolves_to, AddressTranslator};
use crate::structs::{
    checked_entry, img_state_to_u32, parse_boot_entry, seq_crc_valid, slot_seq_of, slot_state_of,
    spec_img_state_to_u32, EspOtaSelectEntry, FlashProgress, OtaError, OtaImgState, PartitionInfo,
};
use vstd::bytes::{
    lemma_auto_spec_u32_to_from_le_bytes, spec_u32_from_le_bytes, spec_u32_to_le_bytes,
    u32_from_le_bytes, u32_to_le_bytes,
};
use vstd::prelude::*;
use vstd::slice::slice_subrange;

verus! {

/// Flash offset of the partition table.
pub const PART_OFFSET: u32 = 0x8000;

/// Size of the partition-table region in bytes.
pub const PART_SIZE: u32 = 0xc00;

/// Number of 32-byte records the partition-table region holds.
pub const PART_RECORD_COUNT: u32 = PART_SIZE / 32;

/// Partition subtype of the first OTA slot; slot `i` has subtype base + `i`.
pub const FIRST_OTA_PART_SUBTYPE: u8 = 0x10;

/// Every byte of `b` reads as erased flash (0xFF).
pub open spec fn is_erased(b: Seq<u8>) -> bool {
    forall|i: int| 0 <= i < b.len() ==> b[i] == 0xFFu8
}

/// The `k`-th 32-byte record of the partition table in flash contents `fm`.
pub open spec fn record_at(fm: Seq<u8>, k: int) -> Seq<u8> {
    fm.subrange(PART_OFFSET + 32 * k, PART_OFFSET + 32 * k + 32)
}

/// Little-endian word at bytes `i .. i + 4` of a table record.
pub open spec fn rec_word(rec: Seq<u8>, i: int) -> u32 {
    spec_u32_from_le_bytes(rec.subrange(i, i + 4))
}

/// State of the table scan after some prefix of the records: whether a
/// terminator record was seen, whether the OTA slot order was violated, the
/// OTA slots collected so far, and the boot-selector region found so far.
pub struct TableScan {
    pub done: bool,
    pub bad_order: bool,
    pub parts: Seq<(u32, u32)>,
    pub otadata: (u32, u32),
}

/// The scan state before any record is read.
pub open spec fn scan_init() -> TableScan {
    TableScan { done: false, bad_order: false, parts: Seq::empty(), otadata: (0u32, 0u32) }
}

/// Folds one 32-byte record into the scan: an all-0xFF record terminates the
/// scan; a record without the magic bytes is skipped; an app-type record
/// with an OTA subtype must carry the next consecutive slot index and is
/// collected; a data-type record with subtype 0 locates the boot-selector
/// region; anything else is ignored.
pub open spec fn scan_step(st: TableScan, rec: Seq<u8>) -> TableScan {
    if st.done || st.bad_order {
        st
    } else if is_erased(rec) {
        TableScan { done: true, ..st }
    } else if !(rec[0] == 0xAAu8 && rec[1] == 0x50u8) {
        st
    } else if rec[2] == 0x00u8 && rec[3] >= FIRST_OTA_PART_SUBTYPE {
        if rec[3] - FIRST_OTA_PART_SUBTYPE == st.parts.len() && st.parts.len() < 16 {
            TableScan { parts: st.parts.push((rec_word(rec, 4), rec_word(rec, 8))), ..st }
        } else {
            TableScan { bad_order: true, ..st }
        }
    } else if rec[2] == 0x01u8 && rec[3] == 0x00u8 {
        TableScan { otadata: (rec_word(rec, 4), rec_word(rec, 8)), ..st }
    } else {
        st
    }
}

/// The scan state after the first `k` records of the table in `fm`.
pub open spec fn scan_table(fm: Seq<u8>, k: int) -> TableScan
    decreases k,
{
    if k <= 0 {
        scan_init()
    } else {
        scan_step(scan_table(fm, k - 1), record_at(fm, k - 1))
    }
}

/// Once the scan has terminated or failed, later records change nothing.
pub proof fn lemma_scan_stable(fm: Seq<u8>, i: int, j: int)
    requires
        0 <= i <= j,
        scan_table(fm, i).done || scan_table(fm, i).bad_order,
    ensures
        scan_table(fm, j) == scan_table(fm, i),
    decreases j - i,
{
    if i < j {
        lemma_scan_stable(fm, i, j - 1);
    }
}

/// `p` records exactly what a full scan of the table collected.
pub open spec fn pinfo_matches_scan(p: PartitionInfo, st: TableScan) -> bool {
    &&& p.ota_partitions_count == st.parts.len()
    &&& p.partitions() == st.parts
    &&& p.otadata_offset == st.otadata.0
    &&& p.otadata_size == st.otadata.1
}

fn is_all_ff(bytes: &Vec<u8>) -> (r: bool)
    ensures
        r == is_erased(bytes@),
{
    let mut i: usize = 0;
    while i < bytes.len()
        invariant
            i <= bytes@.len(),
            forall|j: int| 0 <= j < i ==> bytes@[j] == 0xFFu8,
        decreases bytes@.len() - i,
    {
        if bytes[i] != 0xFF {
            return false;
        }
        i += 1;
    }
    true
}

/// `ns` is the sequence number the boot selector picks to select partition
/// `target` out of `n`: the smallest number strictly greater than `m` (the
/// larger of the two stored sequences) that maps to `target`. Being strictly
/// greater keeps the sequence counter monotonic, and rules out the reserved
/// 0 ("unset") on its own.
pub open spec fn is_next_seq(ns: u32, m: u32, target: int, n: int) -> bool {
    &&& ns > m
    &&& ns != 0
    &&& spec_seq_to_part(ns as int, n) == target
    &&& forall|s: u32| m < s < ns ==> #[trigger] spec_seq_to_part(s as int, n) != target
}

/// Flash contents `fm` after committing a boot record at slot offset `off`:
/// the sequence number, the image state, and the CRC32 (seed 0xFFFFFFFF) of
/// the sequence bytes are written in place; the label bytes, the rest of the
/// slot, and everything outside the slot stay as they were.
pub open spec fn commit_record(fm: Seq<u8>, off: int, seq: u32, state: OtaImgState) -> Seq<u8> {
    store_bytes(
        store_bytes(
            store_bytes(fm, off, spec_u32_to_le_bytes(seq)),
            off + 24,
            spec_u32_to_le_bytes(spec_img_state_to_u32(state)),
        ),
        off + 28,
        spec_u32_to_le_bytes(crc32_of(spec_u32_to_le_bytes(seq), 0xFFFFFFFFu32)),
    )
}

/// A sequence number committed by `commit_record` reads back unchanged:
/// the record re-parses to the same sequence and image state, and its CRC
/// validates, so the sequence is never reset to 0 on the way back in.
pub proof fn lemma_boot_record_roundtrip(
    fm: Seq<u8>,
    off: int,
    seq: u32,
    state: OtaImgState,
    e: EspOtaSelectEntry,
)
    requires
        0 <= off,
        off + 32 <= fm.len(),
        checked_entry(commit_record(fm, off, seq, state).subrange(off, off + 32), e),
    ensures
        e.seq == seq,
        e.ota_state == state,
        seq_crc_valid(e.seq, e.crc),
{
    lemma_auto_spec_u32_to_from_le_bytes();
    let slot = commit_record(fm, off, seq, state).subrange(off, off + 32);
    assert(slot.subrange(0, 4) =~= spec_u32_to_le_bytes(seq));
    assert(slot.subrange(24, 28) =~= spec_u32_to_le_bytes(spec_img_state_to_u32(state)));
    assert(slot.subrange(28, 32) =~= spec_u32_to_le_bytes(
        crc32_of(spec_u32_to_le_bytes(seq), 0xFFFFFFFFu32),
    ));
}

/// As long as the sequence space is not within `n` of exhaustion, a fresh
/// sequence number selecting any requested target exists, so a commit never
/// fails for want of one.
pub proof fn lemma_next_seq_exists(m: u32, target: int, n: int)
    requires
        1 <= n,
        0 <= target < n,
        m + n <= u32::MAX,
    ensures
        exists|s: u32| m < s && #[trigger] spec_seq_to_part(s as int, n) == target,
{
    lemma_seq_to_part_surjective(n, m + 1, target);
    let s0 = choose|s0: int|
        m + 1 <= s0 < m + 1 + n && #[trigger] spec_seq_to_part(s0, n) == target;
    assert(spec_seq_to_part(s0 as u32 as int, n) == target);
}

/// The 32 bytes of boot-selector slot 1 in flash contents `fm`.
pub open spec fn slot1_bytes(pinfo: PartitionInfo, fm: Seq<u8>) -> Seq<u8> {
    fm.subrange(pinfo.slot1_offset(), pinfo.slot1_offset() + 32)
}

/// The 32 bytes of boot-selector slot 2 in flash contents `fm`.
pub open spec fn slot2_bytes(pinfo: PartitionInfo, fm: Seq<u8>) -> Seq<u8> {
    fm.subrange(pinfo.slot2_offset(), pinfo.slot2_offset() + 32)
}

/// The larger of the two CRC-validated sequence numbers stored in `fm`.
pub open spec fn stored_max_seq(pinfo: PartitionInfo, fm: Seq<u8>) -> u32 {
    let s1 = slot_seq_of(slot1_bytes(pinfo, fm));
    let s2 = slot_seq_of(slot2_bytes(pinfo, fm));
    if s1 > s2 {
        s1
    } else {
        s2
    }
}

/// The slot a commit overwrites: the one holding the smaller validated
/// sequence, the second slot when they tie. The other slot is never
/// touched, so a power loss mid-commit always leaves one good record.
pub open spec fn commit_slot_offset(pinfo: PartitionInfo, fm: Seq<u8>) -> int {
    let s1 = slot_seq_of(slot1_bytes(pinfo, fm));
    let s2 = slot_seq_of(slot2_bytes(pinfo, fm));
    if s1 >= s2 {
        pinfo.slot2_offset()
    } else {
        pinfo.slot1_offset()
    }
}

/// No usable sequence number at or above the larger stored one maps to
/// `target`: the 32-bit sequence space is effectively exhausted.
pub open spec fn seq_space_exhausted(pinfo: PartitionInfo, fm: Seq<u8>, target: int) -> bool {
    forall|s: u32|
        s > stored_max_seq(pinfo, fm) ==> #[trigger] spec_seq_to_part(
            s as int,
            pinfo.ota_partitions_count as int,
        ) != target
}

/// `post` is `pre` with a boot record selecting `target` committed: a fresh
/// sequence number chosen by `is_next_seq` over the stored ones, written
/// with its CRC and `state` into the smaller-sequence slot only.
pub open spec fn committed(
    pinfo: PartitionInfo,
    pre: Seq<u8>,
    post: Seq<u8>,
    target: int,
    state: OtaImgState,
) -> bool {
    exists|ns: u32|
        #[trigger] is_next_seq(
            ns,
            stored_max_seq(pinfo, pre),
            target,
            pinfo.ota_partitions_count as int,
        ) && post == commit_record(pre, commit_slot_offset(pinfo, pre), ns, state)
}

/// The CRC32 (seed 0) of the `p.flash_size` bytes at `p`'s target partition
/// start in `fm` equals `p.target_crc`: what `ota_verify` re-reads and
/// checks.
pub open spec fn image_crc_ok(pinfo: PartitionInfo, fm: Seq<u8>, p: FlashProgress) -> bool {
    let start = pinfo.partitions()[p.target_partition as int].0 as int;
    if p.flash_size == 0 {
        crc32_of(Seq::<u8>::empty(), 0) == p.target_crc
    } else {
        crc32_of(fm.subrange(start, start + p.flash_size), 0) == p.target_crc
    }
}

/// The 32 bytes of boot-selector slot `slot` (1 or 2) in `fm`.
pub open spec fn slot_n_bytes(pinfo: PartitionInfo, fm: Seq<u8>, slot: int) -> Seq<u8> {
    if slot == 1 {
        slot1_bytes(pinfo, fm)
    } else {
        slot2_bytes(pinfo, fm)
    }
}

/// The CRC-validated sequence number stored in slot `slot` (1 or 2)
/// selects partition `cur`.
pub open spec fn slot_selects(pinfo: PartitionInfo, fm: Seq<u8>, slot: int, cur: int) -> bool {
    spec_seq_to_part(
        slot_seq_of(slot_n_bytes(pinfo, fm, slot)) as int,
        pinfo.ota_partitions_count as int,
    ) == cur
}

/// Slot `slot` is the one a reader picks as current for the running
/// partition `cur`: the first of the two slots whose validated sequence
/// selects it, slot 1 taking priority over slot 2.
pub open spec fn current_slot_for(pinfo: PartitionInfo, fm: Seq<u8>, slot: int, cur: int) -> bool {
    if slot_selects(pinfo, fm, 1, cur) {
        slot == 1
    } else {
        slot_selects(pinfo, fm, 2, cur) && slot == 2
    }
}

/// `post` is `pre` with slot `slot`'s image-state field — which lies within
/// the device — rewritten to `state`, and nothing else.
pub open spec fn state_patched(
    pinfo: PartitionInfo,
    pre: Seq<u8>,
    post: Seq<u8>,
    slot: int,
    state: OtaImgState,
) -> bool {
    let off = if slot == 1 {
        pinfo.slot1_offset()
    } else {
        pinfo.slot2_offset()
    };
    &&& off + 28 <= pre.len()
    &&& post == store_bytes(pre, off + 24, spec_u32_to_le_bytes(spec_img_state_to_u32(state)))
}

/// Outcome of marking the current slot: if its stored state is already
/// `EspOtaImgValid` nothing is written, otherwise just its image-state field
/// becomes `state`.
pub open spec fn mark_outcome(
    pinfo: PartitionInfo,
    pre: Seq<u8>,
    post: Seq<u8>,
    slot: int,
    state: OtaImgState,
) -> bool {
    if slot_state_of(slot_n_bytes(pinfo, pre, slot)) == OtaImgState::EspOtaImgValid {
        post == pre
    } else {
        state_patched(pinfo, pre, post, slot, state)
    }
}

/// The current boot-selector slot was marked: for one resolved running
/// partition, the first slot whose validated sequence selects it — slot 1
/// before slot 2 — had (only) its image-state field rewritten, unless it
/// was already confirmed valid.
pub open spec fn marked_current(
    pinfo: PartitionInfo,
    pre: Seq<u8>,
    post: Seq<u8>,
    state: OtaImgState,
) -> bool {
    exists|pa: u32, cur: int|
        #[trigger] resolves_to(pinfo.partitions(), pa, cur) && (if slot_selects(
            pinfo,
            pre,
            1,
            cur,
        ) {
            mark_outcome(pinfo, pre, post, 1, state)
        } else {
            slot_selects(pinfo, pre, 2, cur) && mark_outcome(pinfo, pre, post, 2, state)
        })
}

/// A committed boot record reads back exactly as committed: the overwritten
/// slot re-parses to a CRC-valid sequence number strictly above both
/// previously stored ones that selects `target`, with `state` beside it.
pub proof fn lemma_commit_read_back(
    pinfo: PartitionInfo,
    pre: Seq<u8>,
    post: Seq<u8>,
    target: int,
    state: OtaImgState,
    e: EspOtaSelectEntry,
)
    requires
        committed(pinfo, pre, post, target, state),
        0 <= commit_slot_offset(pinfo, pre),
        commit_slot_offset(pinfo, pre) + 32 <= pre.len(),
        checked_entry(
            post.subrange(commit_slot_offset(pinfo, pre), commit_slot_offset(pinfo, pre) + 32),
            e,
        ),
    ensures
        e.seq > stored_max_seq(pinfo, pre),
        spec_seq_to_part(e.seq as int, pinfo.ota_partitions_count as int) == target,
        e.ota_state == state,
        seq_crc_valid(e.seq, e.crc),
{
    let off = commit_slot_offset(pinfo, pre);
    let n = pinfo.ota_partitions_count as int;
    let ns = choose|ns: u32|
        #[trigger] is_next_seq(ns, stored_max_seq(pinfo, pre), target, n) && post == commit_record(
            pre,
            off,
            ns,
            state,
        );
    lemma_boot_record_roundtrip(pre, off, ns, state, e);
}

/// The update engine: owns the storage device, the address-translation
/// capability, the discovered partition layout, and at most one open
/// transfer session.
pub struct Ota<S, T> where S: FlashStorage, T: AddressTranslator {
    pub flash: S,
    pub translator: T,
    pub code_address: u32,
    pub progress: Option<FlashProgress>,
    pub pinfo: PartitionInfo,
}

impl<S, T> Ota<S, T> where S: FlashStorage, T: AddressTranslator {
    /// An open session's bookkeeping is internally consistent: its target
    /// slot exists, no more bytes remain than the image holds, and the
    /// cursor sits exactly past the bytes already written.
    pub open spec fn progress_wf(&self, p: FlashProgress) -> bool {
        &&& p.target_partition < self.pinfo.ota_partitions_count
        &&& p.remaining <= p.flash_size
        &&& p.flash_offset == self.pinfo.partitions()[p.target_partition as int].0 + (p.flash_size
            - p.remaining)
    }

    /// Well-formedness: between 2 and 16 discovered OTA slots, and any open
    /// session consistent.
    pub open spec fn wf(&self) -> bool {
        &&& 2 <= self.pinfo.ota_partitions_count <= 16
        &&& (match self.progress {
            Some(p) => self.progress_wf(p),
            None => true,
        })
    }

    /// Reads the partition table and the boot-selector location, and checks
    /// that at least two OTA slots exist.
    pub fn new(flash: S, translator: T, code_address: u32) -> (r: Result<Ota<S, T>, OtaError>)
        ensures
            (match r {
                Ok(ota) => {
                    let st = scan_table(flash.contents(), PART_RECORD_COUNT as int);
                    &&& ota.wf()
                    &&& ota.progress is None
                    &&& ota.flash.contents() == flash.contents()
                    &&& ota.translator == translator
                    &&& ota.code_address == code_address
                    &&& !st.bad_order
                    &&& st.parts.len() >= 2
                    &&& pinfo_matches_scan(ota.pinfo, st)
                },
                Err(e) => {
                    let st = scan_table(flash.contents(), PART_RECORD_COUNT as int);
                    ||| e == OtaError::FlashRWError
                    ||| (e == OtaError::WrongOTAPartitionOrder && st.bad_order)
                    ||| (e == OtaError::NotEnoughPartitions && !st.bad_order && st.parts.len() < 2)
                },
            }),
    {
        let mut flash = flash;
        let pinfo = match Self::read_partitions(&mut flash) {
            Ok(p) => p,
            Err(e) => {
                return Err(e);
            },
        };
        if pinfo.ota_partitions_count < 2 {
            return Err(OtaError::NotEnoughPartitions);
        }
        Ok(Ota { flash, translator, code_address, progress: None, pinfo })
    }

    /// Scans the fixed partition-table region record by record, collecting
    /// OTA slots and the boot-selector region.
    #[verifier::loop_isolation(false)]
    fn read_partitions(flash: &mut S) -> (r: Result<PartitionInfo, OtaError>)
        ensures
            final(flash).contents() == old(flash).contents(),
            (match r {
                Ok(p) => {
                    let st = scan_table(old(flash).contents(), PART_RECORD_COUNT as int);
                    &&& !st.bad_order
                    &&& p.ota_partitions_count <= 16
                    &&& pinfo_matches_scan(p, st)
                },
                Err(e) => {
                    ||| e == OtaError::FlashRWError
                    ||| (e == OtaError::WrongOTAPartitionOrder && scan_table(
                        old(flash).contents(),
                        PART_RECORD_COUNT as int,
                    ).bad_order)
                },
            }),
    {
        let ghost fm = flash.contents();
        let mut parts: [(u32, u32); 16] = [(0, 0); 16];
        let mut count: usize = 0;
        let mut od_off: u32 = 0;
        let mut od_size: u32 = 0;
        let mut k: u32 = 0;
        while k < PART_RECORD_COUNT
            invariant
                k <= PART_RECORD_COUNT,
                count <= 16,
                flash.contents() == fm,
                ({
                    let st = scan_table(fm, k as int);
                    &&& !st.done
                    &&& !st.bad_order
                    &&& st.parts == parts@.take(count as int)
                    &&& st.otadata == (od_off, od_size)
                }),
            decreases PART_RECORD_COUNT - k,
        {
            let ghost st = scan_table(fm, k as int);
            let bytes = match flash.read(PART_OFFSET + k * 32, 32) {
                Ok(b) => b,
                Err(_) => {
                    return Err(OtaError::FlashRWError);
                },
            };
            proof {
                assert(bytes@ =~= record_at(fm, k as int));
                assert(scan_table(fm, k + 1) == scan_step(st, record_at(fm, k as int)));
            }
            if is_all_ff(&bytes) {
                proof {
                    lemma_scan_stable(fm, k + 1, PART_RECORD_COUNT as int);
                }
                return Ok(
                    PartitionInfo {
                        ota_partitions: parts,
                        ota_partitions_count: count,
                        otadata_offset: od_off,
                        otadata_size: od_size,
                    },
                );
            }
            if bytes[0] == 0xAA && bytes[1] == 0x50 {
                let p_type = bytes[2];
                let p_subtype = bytes[3];
                if p_type == 0x00 && p_subtype >= FIRST_OTA_PART_SUBTYPE {
                    let idx = p_subtype - FIRST_OTA_PART_SUBTYPE;
                    if (idx as usize) != count || count >= 16 {
                        proof {
                            lemma_scan_stable(fm, k + 1, PART_RECORD_COUNT as int);
                        }
                        return Err(OtaError::WrongOTAPartitionOrder);
                    }
                    let p_off = u32_from_le_bytes(slice_subrange(bytes.as_slice(), 4, 8));
                    let p_size = u32_from_le_bytes(slice_subrange(bytes.as_slice(), 8, 12));
                    parts[count] = (p_off, p_size);
                    count += 1;
                    proof {
                        assert(scan_table(fm, k + 1).parts =~= parts@.take(count as int));
                    }
                } else if p_type == 0x01 && p_subtype == 0x00 {
                    let p_off = u32_from_le_bytes(slice_subrange(bytes.as_slice(), 4, 8));
                    let p_size = u32_from_le_bytes(slice_subrange(bytes.as_slice(), 8, 12));
                    od_off = p_off;
                    od_size = p_size;
                }
            }
            k += 1;
        }
        Ok(
            PartitionInfo {
                ota_partitions: parts,
                ota_partitions_count: count,
                otadata_offset: od_off,
                otadata_size: od_size,
            },
        )
    }

    /// Reads both boot-selector records and validates each one's CRC; an
    /// invalid record's sequence number reads as 0.
    pub fn get_ota_boot_entries(&mut self) -> (r: Result<
        (EspOtaSelectEntry, EspOtaSelectEntry),
        OtaError,
    >)
        requires
            old(self).wf(),
        ensures
            final(self).wf(),
            final(self).flash.contents() == old(self).flash.contents(),
            final(self).progress == old(self).progress,
            final(self).pinfo == old(self).pinfo,
            final(self).translator == old(self).translator,
            final(self).code_address == old(self).code_address,
            (match r {
                Ok((e1, e2)) => {
                    let fm = old(self).flash.contents();
                    &&& old(self).pinfo.slot1_offset() + 32 <= fm.len()
                    &&& old(self).pinfo.slot2_offset() + 32 <= fm.len()
                    &&& checked_entry(slot1_bytes(old(self).pinfo, fm), e1)
                    &&& checked_entry(slot2_bytes(old(self).pinfo, fm), e2)
                },
                Err(e) => e == OtaError::FlashRWError,
            }),
    {
        let o1 = self.pinfo.otadata_offset;
        let half = self.pinfo.otadata_size >> 1;
        proof {
            let x = self.pinfo.otadata_size;
            assert(x >> 1 == x / 2) by (bit_vector);
        }
        let o2 = match o1.checked_add(half) {
            Some(v) => v,
            None => {
                return Err(OtaError::FlashRWError);
            },
        };
        let b1 = match self.flash.read(o1, 32) {
            Ok(b) => b,
            Err(_) => {
                return Err(OtaError::FlashRWError);
            },
        };
        let b2 = match self.flash.read(o2, 32) {
            Ok(b) => b,
            Err(_) => {
                return Err(OtaError::FlashRWError);
            },
        };
        let mut e1 = parse_boot_entry(b1.as_slice());
        e1.check_crc();
        let mut e2 = parse_boot_entry(b2.as_slice());
        e2.check_crc();
        Ok((e1, e2))
    }

    /// Rewrites just the image-state field of the given boot-selector slot
    /// (1 or 2) in place; any other slot number is rejected.
    pub fn set_ota_state(&mut self, slot: u8, state: OtaImgState) -> (r: Result<(), OtaError>)
        requires
            old(self).wf(),
        ensures
            final(self).wf(),
            final(self).progress == old(self).progress,
            final(self).pinfo == old(self).pinfo,
            final(self).translator == old(self).translator,
            final(self).code_address == old(self).code_address,
            (match r {
                Ok(()) => {
                    let off = if slot == 1 {
                        old(self).pinfo.slot1_offset()
                    } else {
                        old(self).pinfo.slot2_offset()
                    };
                    &&& (slot == 1 || slot == 2)
                    &&& off + 28 <= final(self).flash.contents().len()
                    &&& final(self).flash.contents() == store_bytes(
                        old(self).flash.contents(),
                        off + 24,
                        spec_u32_to_le_bytes(spec_img_state_to_u32(state)),
                    )
                },
                Err(e) => {
                    let off = if slot == 1 {
                        old(self).pinfo.slot1_offset()
                    } else {
                        old(self).pinfo.slot2_offset()
                    };
                    ||| (e == OtaError::CannotFindCurrentBootPartition && !(slot == 1 || slot == 2)
                        && final(self).flash.contents() == old(self).flash.contents())
                    ||| (e == OtaError::FlashRWError && (slot == 1 || slot == 2)
                        && final(self).flash.contents().len() == old(self).flash.contents().len()
                        && (forall|i: int|
                        0 <= i < old(self).flash.contents().len() && !(off + 24 <= i < off + 28)
                            ==> final(self).flash.contents()[i] == old(self).flash.contents()[i]))
                },
            }),
    {
        let off = match slot {
            1 => self.pinfo.otadata_offset,
            2 => {
                proof {
                    let x = self.pinfo.otadata_size;
                    assert(x >> 1 == x / 2) by (bit_vector);
                }
                match self.pinfo.otadata_offset.checked_add(self.pinfo.otadata_size >> 1) {
                    Some(v) => v,
                    None => {
                        return Err(OtaError::FlashRWError);
                    },
                }
            },
            _ => {
                return Err(OtaError::CannotFindCurrentBootPartition);
            },
        };
        let state_off = match off.checked_add(24) {
            Some(v) => v,
            None => {
                return Err(OtaError::FlashRWError);
            },
        };
        let state_bytes = u32_to_le_bytes(img_state_to_u32(state));
        match self.flash.write(state_off, state_bytes.as_slice()) {
            Ok(()) => Ok(()),
            Err(_) => Err(OtaError::FlashRWError),
        }
    }

    /// Selects `target` for next boot: reads both slots, picks the smallest
    /// usable sequence number above the stored ones that maps to `target`,
    /// and rewrites only the slot holding the smaller sequence (the second
    /// slot when they tie) with the new sequence, `state`, and the
    /// sequence's CRC.
    pub fn set_target_ota_boot_partition(&mut self, target: usize, state: OtaImgState) -> (r:
        Result<(), OtaError>)
        requires
            old(self).wf(),
            target < old(self).pinfo.ota_partitions_count,
        ensures
            final(self).wf(),
            final(self).progress == old(self).progress,
            final(self).pinfo == old(self).pinfo,
            final(self).translator == old(self).translator,
            final(self).code_address == old(self).code_address,
            final(self).flash.contents().len() == old(self).flash.contents().len(),
            forall|i: int|
                0 <= i < old(self).flash.contents().len() && !(commit_slot_offset(
                    old(self).pinfo,
                    old(self).flash.contents(),
                ) <= i < commit_slot_offset(old(self).pinfo, old(self).flash.contents()) + 32)
                    ==> final(self).flash.contents()[i] == old(self).flash.contents()[i],
            (match r {
                Ok(()) => {
                    &&& commit_slot_offset(old(self).pinfo, old(self).flash.contents()) + 32
                        <= final(self).flash.contents().len()
                    &&& committed(
                        old(self).pinfo,
                        old(self).flash.contents(),
                        final(self).flash.contents(),
                        target as int,
                        state,
                    )
                },
                Err(e) => {
                    ||| e == OtaError::FlashRWError
                    ||| (e == OtaError::CannotFindCurrentBootPartition
                        && final(self).flash.contents() == old(self).flash.contents()
                        && seq_space_exhausted(old(self).pinfo, old(self).flash.contents(), target as int))
                },
            }),
    {
        let ghost pre = self.flash.contents();
        let (slot1, slot2) = match self.get_ota_boot_entries() {
            Ok(es) => es,
            Err(_) => {
                return Err(OtaError::FlashRWError);
            },
        };
        let (seq1, seq2) = (slot1.seq, slot2.seq);
        let m = if seq1 > seq2 {
            seq1
        } else {
            seq2
        };
        let target_seq = match Self::next_boot_seq(m, target, self.pinfo.ota_partitions_count) {
            Some(ns) => ns,
            None => {
                return Err(OtaError::CannotFindCurrentBootPartition);
            },
        };
        let base = if seq1 >= seq2 {
            proof {
                let x = self.pinfo.otadata_size;
                assert(x >> 1 == x / 2) by (bit_vector);
            }
            match self.pinfo.otadata_offset.checked_add(self.pinfo.otadata_size >> 1) {
                Some(v) => v,
                None => {
                    return Err(OtaError::FlashRWError);
                },
            }
        } else {
            self.pinfo.otadata_offset
        };
        let state_off = match base.checked_add(24) {
            Some(v) => v,
            None => {
                return Err(OtaError::FlashRWError);
            },
        };
        let crc_off = match base.checked_add(28) {
            Some(v) => v,
            None => {
                return Err(OtaError::FlashRWError);
            },
        };
        let seq_bytes = u32_to_le_bytes(target_seq);
        let target_crc = calc_crc32(seq_bytes.as_slice(), 0xFFFFFFFF);
        if let Err(_) = self.flash.write(base, seq_bytes.as_slice()) {
            return Err(OtaError::FlashRWError);
        }
        let state_bytes = u32_to_le_bytes(img_state_to_u32(state));
        if let Err(_) = self.flash.write(state_off, state_bytes.as_slice()) {
            return Err(OtaError::FlashRWError);
        }
        let crc_bytes = u32_to_le_bytes(target_crc);
        if let Err(_) = self.flash.write(crc_off, crc_bytes.as_slice()) {
            return Err(OtaError::FlashRWError);
        }
        proof {
            assert(committed(old(self).pinfo, pre, self.flash.contents(), target as int, state)) by {
                assert(is_next_seq(
                    target_seq,
                    stored_max_seq(old(self).pinfo, pre),
                    target as int,
                    old(self).pinfo.ota_partitions_count as int,
                ));
                assert(self.flash.contents() == commit_record(
                    pre,
                    commit_slot_offset(old(self).pinfo, pre),
                    target_seq,
                    state,
                ));
            }
        }
        Ok(())
    }

    /// The discovered OTA slots as a value, for the partition search.
    fn get_partitions(&self) -> (v: Vec<(u32, u32)>)
        requires
            self.wf(),
        ensures
            v@ == self.pinfo.partitions(),
    {
        let mut v: Vec<(u32, u32)> = Vec::new();
        let mut i: usize = 0;
        while i < self.pinfo.ota_partitions_count
            invariant
                i <= self.pinfo.ota_partitions_count <= 16,
                v@ == self.pinfo.ota_partitions@.take(i as int),
            decreases self.pinfo.ota_partitions_count - i,
        {
            v.push(self.pinfo.ota_partitions[i]);
            proof {
                assert(self.pinfo.ota_partitions@.take(i + 1) =~= self.pinfo.ota_partitions@.take(
                    i as int,
                ).push(self.pinfo.ota_partitions@[i as int]));
            }
            i += 1;
        }
        v
    }

    /// The index of the partition the running code was resolved into, or
    /// `None` when the translator cannot place it or no partition holds it.
    pub fn get_currently_booted_partition(&self) -> (r: Option<usize>)
        requires
            self.wf(),
        ensures
            (match r {
                Some(i) => {
                    &&& i < self.pinfo.ota_partitions_count
                    &&& exists|pa: u32| resolves_to(self.pinfo.partitions(), pa, i as int)
                },
                None => true,
            }),
    {
        match self.translator.physical_address_of(self.code_address) {
            Some(paddr) => {
                let parts = self.get_partitions();
                let r = esp_get_current_running_partition(parts.as_slice(), paddr);
                proof {
                    if let Some(i) = r {
                        assert(resolves_to(self.pinfo.partitions(), paddr, i as int));
                    }
                }
                r
            },
            None => None,
        }
    }

    /// The round-robin successor of the currently running partition: the
    /// slot a new image is streamed into.
    pub fn get_next_ota_partition(&self) -> (r: Option<usize>)
        requires
            self.wf(),
        ensures
            (match r {
                Some(i) => {
                    &&& i < self.pinfo.ota_partitions_count
                    &&& exists|c: int, pa: u32|
                        resolves_to(self.pinfo.partitions(), pa, c) && i == (c + 1) % (
                        self.pinfo.ota_partitions_count as int)
                },
                None => true,
            }),
    {
        match self.get_currently_booted_partition() {
            Some(c) => Some((c + 1) % self.pinfo.ota_partitions_count),
            None => None,
        }
    }

    /// Opens a transfer session for a `size`-byte image expected to checksum
    /// to `target_crc`, aimed at the next round-robin partition (partition 0
    /// when the running one cannot be resolved), cursor at its start. Any
    /// previously open session is discarded.
    pub fn ota_begin(&mut self, size: u32, target_crc: u32) -> (r: Result<(), OtaError>)
        requires
            old(self).wf(),
        ensures
            final(self).wf(),
            final(self).flash.contents() == old(self).flash.contents(),
            final(self).pinfo == old(self).pinfo,
            final(self).translator == old(self).translator,
            final(self).code_address == old(self).code_address,
            r is Ok,
            (match final(self).progress {
                Some(p) => {
                    &&& p.last_crc == 0
                    &&& p.flash_size == size
                    &&& p.remaining == size
                    &&& p.target_crc == target_crc
                    &&& p.target_partition < old(self).pinfo.ota_partitions_count
                    &&& p.flash_offset == old(self).pinfo.partitions()[p.target_partition as int].0
                    &&& (p.target_partition == 0 || (exists|c: int, pa: u32|
                        resolves_to(old(self).pinfo.partitions(), pa, c) && p.target_partition == (
                        c + 1) % (old(self).pinfo.ota_partitions_count as int)))
                },
                None => false,
            }),
    {
        let next_part = match self.get_next_ota_partition() {
            Some(i) => i,
            None => 0,
        };
        let ota_offset = self.pinfo.ota_partitions[next_part].0;
        self.progress = Some(
            FlashProgress {
                last_crc: 0,
                flash_size: size,
                remaining: size,
                flash_offset: ota_offset,
                target_partition: next_part,
                target_crc,
            },
        );
        Ok(())
    }

    /// Result of a successful `ota_write_chunk` call on the session `pre`
    /// held: `w = min(|chunk|, remaining)` bytes of `chunk` went to flash at
    /// the cursor, the running CRC absorbed exactly those bytes seeded by
    /// its previous value, cursor and remaining moved by `w`, and the call
    /// reports whether the transfer is now complete.
    pub open spec fn wrote_chunk(&self, pre: Self, chunk: Seq<u8>, done: bool) -> bool {
        match pre.progress {
            Some(p) => {
                let w = if chunk.len() <= p.remaining {
                    chunk.len() as int
                } else {
                    p.remaining as int
                };
                &&& self.progress == Some(
                    FlashProgress {
                        last_crc: crc32_of(chunk.take(w), p.last_crc),
                        flash_offset: (p.flash_offset + w) as u32,
                        remaining: (p.remaining - w) as u32,
                        ..p
                    },
                )
                &&& self.flash.contents() == store_bytes(
                    pre.flash.contents(),
                    p.flash_offset as int,
                    chunk.take(w),
                )
                &&& done == (p.remaining == w)
            },
            None => false,
        }
    }

    /// Streams the next chunk of the image: writes `min(|chunk|, remaining)`
    /// bytes at the cursor and folds exactly the bytes written into the
    /// running CRC, so chunk boundaries never affect the checksum. Returns
    /// `Ok(true)` once nothing remains. A failed device write leaves the
    /// session untouched for this call.
    pub fn ota_write_chunk(&mut self, chunk: &[u8]) -> (r: Result<bool, OtaError>)
        requires
            old(self).wf(),
        ensures
            final(self).wf(),
            final(self).pinfo == old(self).pinfo,
            final(self).translator == old(self).translator,
            final(self).code_address == old(self).code_address,
            final(self).flash.contents().len() == old(self).flash.contents().len(),
            (match old(self).progress {
                Some(p) => p.remaining == 0 ==> r is Ok,
                None => true,
            }),
            (match r {
                Ok(done) => final(self).wrote_chunk(*old(self), chunk@, done),
                Err(e) => {
                    &&& final(self).progress == old(self).progress
                    &&& (e == OtaError::OtaNotStarted <==> old(self).progress is None)
                    &&& (e == OtaError::OtaNotStarted || e == OtaError::FlashRWError)
                    &&& (e == OtaError::OtaNotStarted ==> final(self).flash.contents() == old(
                        self,
                    ).flash.contents())
                    &&& (match old(self).progress {
                        Some(p) => forall|i: int|
                            0 <= i < old(self).flash.contents().len() && !(p.flash_offset <= i
                                < p.flash_offset + chunk@.len()) ==> final(self).flash.contents()[i]
                                == old(self).flash.contents()[i],
                        None => true,
                    })
                },
            }),
    {
        let p = match self.progress {
            Some(p) => p,
            None => {
                return Err(OtaError::OtaNotStarted);
            },
        };
        if p.remaining == 0 {
            proof {
                assert(chunk@.take(0) =~= Seq::<u8>::empty());
                crate::crc32::lemma_crc32_empty(p.last_crc);
                assert(self.flash.contents() =~= store_bytes(
                    self.flash.contents(),
                    p.flash_offset as int,
                    chunk@.take(0),
                ));
            }
            return Ok(true);
        }
        let write_size: u32 = if (chunk.len() as u64) < (p.remaining as u64) {
            chunk.len() as u32
        } else {
            p.remaining
        };
        let new_off = match p.flash_offset.checked_add(write_size) {
            Some(v) => v,
            None => {
                return Err(OtaError::FlashRWError);
            },
        };
        let data = slice_subrange(chunk, 0, write_size as usize);
        if let Err(_) = self.flash.write(p.flash_offset, data) {
            return Err(OtaError::FlashRWError);
        }
        let new_crc = calc_crc32(data, p.last_crc);
        let new_remaining = p.remaining - write_size;
        self.progress = Some(
            FlashProgress {
                last_crc: new_crc,
                flash_offset: new_off,
                remaining: new_remaining,
                ..p
            },
        );
        proof {
            assert(data@ =~= chunk@.take(write_size as int));
        }
        Ok(new_remaining == 0)
    }

    /// Re-reads the full image from the target partition in small bounded
    /// chunks, recomputing its CRC32 from seed 0, and reports whether it
    /// equals the session's target CRC.
    #[verifier::loop_isolation(false)]
    pub fn ota_verify(&mut self) -> (r: Result<bool, OtaError>)
        requires
            old(self).wf(),
        ensures
            final(self).wf(),
            final(self).flash.contents() == old(self).flash.contents(),
            final(self).progress == old(self).progress,
            final(self).pinfo == old(self).pinfo,
            final(self).translator == old(self).translator,
            final(self).code_address == old(self).code_address,
            (match old(self).progress {
                Some(p) => p.flash_size == 0 ==> r is Ok,
                None => true,
            }),
            (match r {
                Ok(b) => (match old(self).progress {
                    Some(p) => {
                        let start =
                            old(self).pinfo.partitions()[p.target_partition as int].0 as int;
                        &&& (p.flash_size > 0 ==> start + p.flash_size <= old(
                            self,
                        ).flash.contents().len())
                        &&& b == image_crc_ok(old(self).pinfo, old(self).flash.contents(), p)
                    },
                    None => false,
                }),
                Err(e) => {
                    &&& (e == OtaError::OtaNotStarted <==> old(self).progress is None)
                    &&& (e == OtaError::OtaNotStarted || e == OtaError::FlashRWError)
                },
            }),
    {
        let p = match self.progress {
            Some(p) => p,
            None => {
                return Err(OtaError::OtaNotStarted);
            },
        };
        let ghost fm = self.flash.contents();
        let start = self.pinfo.ota_partitions[p.target_partition].0;
        let mut offset = start;
        let mut remaining = p.flash_size;
        let mut calc: u32 = 0;
        while remaining > 0
            invariant
                self.wf(),
                self.flash.contents() == fm,
                self.progress == old(self).progress,
                self.pinfo == old(self).pinfo,
                self.translator == old(self).translator,
                self.code_address == old(self).code_address,
                remaining <= p.flash_size,
                offset == start + (p.flash_size - remaining),
                remaining == p.flash_size ==> calc == 0,
                remaining < p.flash_size ==> {
                    &&& start + (p.flash_size - remaining) <= fm.len()
                    &&& calc == crc32_of(fm.subrange(start as int, offset as int), 0)
                },
            decreases remaining,
        {
            let n = if remaining < 256 {
                remaining
            } else {
                256
            };
            let data = match self.flash.read(offset, n) {
                Ok(d) => d,
                Err(_) => {
                    return Err(OtaError::FlashRWError);
                },
            };
            let prev = calc;
            calc = calc_crc32(data.as_slice(), prev);
            proof {
                if remaining == p.flash_size {
                    crate::crc32::lemma_crc32_empty(0);
                } else {
                    crate::crc32::lemma_crc32_concat(
                        fm.subrange(start as int, offset as int),
                        fm.subrange(offset as int, offset + n),
                        0,
                    );
                    assert(fm.subrange(start as int, offset as int) + fm.subrange(
                        offset as int,
                        offset + n,
                    ) =~= fm.subrange(start as int, offset + n));
                }
            }
            offset = match offset.checked_add(n) {
                Some(v) => v,
                None => {
                    return Err(OtaError::FlashRWError);
                },
            };
            remaining -= n;
        }
        proof {
            if p.flash_size == 0 {
                crate::crc32::lemma_crc32_empty(0);
            }
        }
        Ok(calc == p.target_crc)
    }

    /// Finalizes the transfer: optionally re-reads and checks the image
    /// (`OtaVerifyError` on mismatch), checks the accumulated CRC against
    /// the target (`WrongCRC` on mismatch), and only then commits a boot
    /// record for the target partition — `EspOtaImgNew` when rollback is
    /// enabled, `EspOtaImgUndefined` otherwise — and closes the session.
    /// Nothing is committed on any failure.
    pub fn ota_flush(&mut self, verify: bool, rollback: bool) -> (r: Result<(), OtaError>)
        requires
            old(self).wf(),
        ensures
            final(self).wf(),
            final(self).pinfo == old(self).pinfo,
            final(self).translator == old(self).translator,
            final(self).code_address == old(self).code_address,
            final(self).flash.contents().len() == old(self).flash.contents().len(),
            forall|i: int|
                0 <= i < old(self).flash.contents().len() && !(commit_slot_offset(
                    old(self).pinfo,
                    old(self).flash.contents(),
                ) <= i < commit_slot_offset(old(self).pinfo, old(self).flash.contents()) + 32)
                    ==> final(self).flash.contents()[i] == old(self).flash.contents()[i],
            (match old(self).progress {
                Some(p) => (!verify && p.last_crc != p.target_crc) ==> (r matches Err(e)
                    && e == OtaError::WrongCRC),
                None => true,
            }),
            (match r {
                Ok(()) => (match old(self).progress {
                    Some(p) => {
                        &&& p.last_crc == p.target_crc
                        &&& commit_slot_offset(old(self).pinfo, old(self).flash.contents()) + 32
                            <= final(self).flash.contents().len()
                        &&& (verify ==> image_crc_ok(old(self).pinfo, old(self).flash.contents(), p))
                        &&& committed(
                            old(self).pinfo,
                            old(self).flash.contents(),
                            final(self).flash.contents(),
                            p.target_partition as int,
                            if rollback {
                                OtaImgState::EspOtaImgNew
                            } else {
                                OtaImgState::EspOtaImgUndefined
                            },
                        )
                        &&& final(self).progress is None
                    },
                    None => false,
                }),
                Err(e) => {
                    &&& final(self).progress == old(self).progress
                    &&& (e == OtaError::OtaNotStarted <==> old(self).progress is None)
                    &&& (match e {
                        OtaError::OtaNotStarted => final(self).flash.contents() == old(
                            self,
                        ).flash.contents(),
                        OtaError::OtaVerifyError => {
                            &&& verify
                            &&& (match old(self).progress {
                                Some(p) => !image_crc_ok(old(self).pinfo, old(self).flash.contents(), p),
                                None => false,
                            })
                            &&& final(self).flash.contents() == old(self).flash.contents()
                        },
                        OtaError::WrongCRC => {
                            &&& (match old(self).progress {
                                Some(p) => {
                                    &&& p.last_crc != p.target_crc
                                    &&& (verify ==> image_crc_ok(
                                        old(self).pinfo,
                                        old(self).flash.contents(),
                                        p,
                                    ))
                                },
                                None => false,
                            })
                            &&& final(self).flash.contents() == old(self).flash.contents()
                        },
                        OtaError::FlashRWError => true,
                        OtaError::CannotFindCurrentBootPartition => {
                            &&& final(self).flash.contents() == old(self).flash.contents()
                            &&& (match old(self).progress {
                                Some(p) => {
                                    &&& p.last_crc == p.target_crc
                                    &&& (verify ==> image_crc_ok(
                                        old(self).pinfo,
                                        old(self).flash.contents(),
                                        p,
                                    ))
                                    &&& seq_space_exhausted(
                                        old(self).pinfo,
                                        old(self).flash.contents(),
                                        p.target_partition as int,
                                    )
                                },
                                None => false,
                            })
                        },
                        _ => false,
                    })
                },
            }),
    {
        let p = match self.progress {
            Some(p) => p,
            None => {
                return Err(OtaError::OtaNotStarted);
            },
        };
        if verify {
            let ok = match self.ota_verify() {
                Ok(b) => b,
                Err(_) => {
                    return Err(OtaError::FlashRWError);
                },
            };
            if !ok {
                return Err(OtaError::OtaVerifyError);
            }
        }
        if p.target_crc != p.last_crc {
            return Err(OtaError::WrongCRC);
        }
        let img_state = if rollback {
            OtaImgState::EspOtaImgNew
        } else {
            OtaImgState::EspOtaImgUndefined
        };
        match self.set_target_ota_boot_partition(p.target_partition, img_state) {
            Ok(()) => {
                self.progress = None;
                Ok(())
            },
            Err(e) => Err(e),
        }
    }

    /// Finds which boot-selector slot holds the record selecting the
    /// partition the running code resolved into, together with that record.
    fn get_current_slot(&mut self) -> (r: Result<(u8, EspOtaSelectEntry), OtaError>)
        requires
            old(self).wf(),
        ensures
            final(self).wf(),
            final(self).flash.contents() == old(self).flash.contents(),
            final(self).progress == old(self).progress,
            final(self).pinfo == old(self).pinfo,
            final(self).translator == old(self).translator,
            final(self).code_address == old(self).code_address,
            (match r {
                Ok((slot, e)) => {
                    let fm = old(self).flash.contents();
                    &&& (slot == 1 || slot == 2)
                    &&& checked_entry(slot_n_bytes(old(self).pinfo, fm, slot as int), e)
                    &&& exists|pa: u32, cur: int|
                        #[trigger] resolves_to(old(self).pinfo.partitions(), pa, cur)
                            && current_slot_for(old(self).pinfo, fm, slot as int, cur)
                },
                Err(e) => e == OtaError::FlashRWError
                    || e == OtaError::CannotFindCurrentBootPartition,
            }),
    {
        let (slot1, slot2) = match self.get_ota_boot_entries() {
            Ok(es) => es,
            Err(_) => {
                return Err(OtaError::FlashRWError);
            },
        };
        let current = match self.get_currently_booted_partition() {
            Some(c) => c,
            None => {
                return Err(OtaError::CannotFindCurrentBootPartition);
            },
        };
        let n = self.pinfo.ota_partitions_count;
        let slot1_part = seq_to_part(slot1.seq, n);
        let slot2_part = seq_to_part(slot2.seq, n);
        let ghost fm = self.flash.contents();
        let ghost pa = choose|pa: u32|
            resolves_to(self.pinfo.partitions(), pa, current as int);
        if current == slot1_part {
            proof {
                assert(resolves_to(self.pinfo.partitions(), pa, current as int));
                assert(current_slot_for(self.pinfo, fm, 1, current as int));
            }
            Ok((1, slot1))
        } else if current == slot2_part {
            proof {
                assert(resolves_to(self.pinfo.partitions(), pa, current as int));
                assert(current_slot_for(self.pinfo, fm, 2, current as int));
            }
            Ok((2, slot2))
        } else {
            Err(OtaError::CannotFindCurrentBootPartition)
        }
    }

    /// The stored image state of the boot-selector record selecting the
    /// currently running partition.
    pub fn get_ota_image_state(&mut self) -> (r: Result<OtaImgState, OtaError>)
        requires
            old(self).wf(),
        ensures
            final(self).wf(),
            final(self).flash.contents() == old(self).flash.contents(),
            final(self).progress == old(self).progress,
            final(self).pinfo == old(self).pinfo,
            final(self).translator == old(self).translator,
            final(self).code_address == old(self).code_address,
            (match r {
                Ok(st) => {
                    let fm = old(self).flash.contents();
                    exists|pa: u32, cur: int|
                        #[trigger] resolves_to(old(self).pinfo.partitions(), pa, cur) && (
                        if slot_selects(old(self).pinfo, fm, 1, cur) {
                            st == slot_state_of(slot1_bytes(old(self).pinfo, fm))
                        } else {
                            slot_selects(old(self).pinfo, fm, 2, cur) && st == slot_state_of(
                                slot2_bytes(old(self).pinfo, fm),
                            )
                        })
                },
                Err(e) => e == OtaError::FlashRWError
                    || e == OtaError::CannotFindCurrentBootPartition,
            }),
    {
        let ghost fm = self.flash.contents();
        match self.get_current_slot() {
            Ok((slot, entry)) => {
                proof {
                    let (pa, cur) = choose|pa: u32, cur: int|
                        #[trigger] resolves_to(self.pinfo.partitions(), pa, cur)
                            && current_slot_for(self.pinfo, fm, slot as int, cur);
                    assert(resolves_to(self.pinfo.partitions(), pa, cur));
                }
                Ok(entry.ota_state)
            },
            Err(e) => Err(e),
        }
    }

    /// After a successful post-boot self-test: rewrites the current slot's
    /// image state to `EspOtaImgValid`, unless it already is.
    pub fn ota_mark_app_valid(&mut self) -> (r: Result<(), OtaError>)
        requires
            old(self).wf(),
        ensures
            final(self).wf(),
            final(self).progress == old(self).progress,
            final(self).pinfo == old(self).pinfo,
            final(self).translator == old(self).translator,
            final(self).code_address == old(self).code_address,
            final(self).flash.contents().len() == old(self).flash.contents().len(),
            (match r {
                Ok(()) => marked_current(
                    old(self).pinfo,
                    old(self).flash.contents(),
                    final(self).flash.contents(),
                    OtaImgState::EspOtaImgValid,
                ),
                Err(e) => {
                    &&& (e == OtaError::FlashRWError
                        || e == OtaError::CannotFindCurrentBootPartition)
                    &&& (e == OtaError::CannotFindCurrentBootPartition
                        ==> final(self).flash.contents() == old(self).flash.contents())
                    &&& ((forall|i: int|
                        0 <= i < old(self).flash.contents().len()
                            && !(old(self).pinfo.slot1_offset() + 24 <= i < old(
                            self,
                        ).pinfo.slot1_offset() + 28)
                            ==> final(self).flash.contents()[i] == old(self).flash.contents()[i])
                        || (forall|i: int|
                        0 <= i < old(self).flash.contents().len()
                            && !(old(self).pinfo.slot2_offset() + 24 <= i < old(
                            self,
                        ).pinfo.slot2_offset() + 28)
                            ==> final(self).flash.contents()[i] == old(self).flash.contents()[i]))
                },
            }),
    {
        self.mark_current_slot(OtaImgState::EspOtaImgValid)
    }

    /// After a failed post-boot self-test: rewrites the current slot's image
    /// state to `EspOtaImgInvalid` so the previous image boots again, unless
    /// the slot is already confirmed `EspOtaImgValid`.
    pub fn ota_mark_app_invalid_rollback(&mut self) -> (r: Result<(), OtaError>)
        requires
            old(self).wf(),
        ensures
            final(self).wf(),
            final(self).progress == old(self).progress,
            final(self).pinfo == old(self).pinfo,
            final(self).translator == old(self).translator,
            final(self).code_address == old(self).code_address,
            final(self).flash.contents().len() == old(self).flash.contents().len(),
            (match r {
                Ok(()) => marked_current(
                    old(self).pinfo,
                    old(self).flash.contents(),
                    final(self).flash.contents(),
                    OtaImgState::EspOtaImgInvalid,
                ),
                Err(e) => {
                    &&& (e == OtaError::FlashRWError
                        || e == OtaError::CannotFindCurrentBootPartition)
                    &&& (e == OtaError::CannotFindCurrentBootPartition
                        ==> final(self).flash.contents() == old(self).flash.contents())
                    &&& ((forall|i: int|
                        0 <= i < old(self).flash.contents().len()
                            && !(old(self).pinfo.slot1_offset() + 24 <= i < old(
                            self,
                        ).pinfo.slot1_offset() + 28)
                            ==> final(self).flash.contents()[i] == old(self).flash.contents()[i])
                        || (forall|i: int|
                        0 <= i < old(self).flash.contents().len()
                            && !(old(self).pinfo.slot2_offset() + 24 <= i < old(
                            self,
                        ).pinfo.slot2_offset() + 28)
                            ==> final(self).flash.contents()[i] == old(self).flash.contents()[i]))
                },
            }),
    {
        self.mark_current_slot(OtaImgState::EspOtaImgInvalid)
    }

    /// Shared body of the two mark operations: resolve the current slot and
    /// patch its image-state field to `state` unless it is already valid.
    fn mark_current_slot(&mut self, state: OtaImgState) -> (r: Result<(), OtaError>)
        requires
            old(self).wf(),
        ensures
            final(self).wf(),
            final(self).progress == old(self).progress,
            final(self).pinfo == old(self).pinfo,
            final(self).translator == old(self).translator,
            final(self).code_address == old(self).code_address,
            final(self).flash.contents().len() == old(self).flash.contents().len(),
            (match r {
                Ok(()) => marked_current(
                    old(self).pinfo,
                    old(self).flash.contents(),
                    final(self).flash.contents(),
                    state,
                ),
                Err(e) => {
                    &&& (e == OtaError::FlashRWError
                        || e == OtaError::CannotFindCurrentBootPartition)
                    &&& (e == OtaError::CannotFindCurrentBootPartition
                        ==> final(self).flash.contents() == old(self).flash.contents())
                    &&& ((forall|i: int|
                        0 <= i < old(self).flash.contents().len()
                            && !(old(self).pinfo.slot1_offset() + 24 <= i < old(
                            self,
                        ).pinfo.slot1_offset() + 28)
                            ==> final(self).flash.contents()[i] == old(self).flash.contents()[i])
                        || (forall|i: int|
                        0 <= i < old(self).flash.contents().len()
                            && !(old(self).pinfo.slot2_offset() + 24 <= i < old(
                            self,
                        ).pinfo.slot2_offset() + 28)
                            ==> final(self).flash.contents()[i] == old(self).flash.contents()[i]))
                },
            }),
    {
        let ghost fm = self.flash.contents();
        let (slot_num, entry) = match self.get_current_slot() {
            Ok(t) => t,
            Err(e) => {
                return Err(e);
            },
        };
        if entry.ota_state != OtaImgState::EspOtaImgValid {
            match self.set_ota_state(slot_num, state) {
                Ok(()) => {},
                Err(_) => {
                    return Err(OtaError::FlashRWError);
                },
            }
        }
        proof {
            let (pa, cur) = choose|pa: u32, cur: int|
                #[trigger] resolves_to(old(self).pinfo.partitions(), pa, cur)
                    && current_slot_for(old(self).pinfo, fm, slot_num as int, cur);
            assert(resolves_to(old(self).pinfo.partitions(), pa, cur));
            assert(mark_outcome(old(self).pinfo, fm, self.flash.contents(), slot_num as int, state));
        }
        Ok(())
    }

    /// Bytes written so far and the image's total size; `(0, 0)` when no
    /// session is open.
    pub fn get_ota_progress(&self) -> (r: (u32, u32))
        requires
            self.wf(),
        ensures
            (match self.progress {
                Some(p) => r.0 == p.flash_size - p.remaining && r.1 == p.flash_size,
                None => r == (0u32, 0u32),
            }),
    {
        match self.progress {
            Some(p) => (p.flash_size - p.remaining, p.flash_size),
            None => (0, 0),
        }
    }

    /// Searches upward from just above `m` for the smallest fresh sequence
    /// number that maps to `target`; `None` only when the 32-bit sequence
    /// space is exhausted.
    fn next_boot_seq(m: u32, target: usize, n: usize) -> (r: Option<u32>)
        requires
            1 <= n,
            target < n,
        ensures
            (match r {
                Some(ns) => is_next_seq(ns, m, target as int, n as int),
                None => forall|s: u32|
                    s > m ==> #[trigger] spec_seq_to_part(s as int, n as int) != target,
            }),
    {
        let mut c: u32 = match m.checked_add(1) {
            Some(v) => v,
            None => {
                return None;
            },
        };
        loop
            invariant
                m < c,
                1 <= n,
                target < n,
                forall|s: u32|
                    m < s < c ==> #[trigger] spec_seq_to_part(s as int, n as int) != target,
            decreases u32::MAX - c,
        {
            if seq_to_part(c, n) == target {
                return Some(c);
            }
            c = match c.checked_add(1) {
                Some(v) => v,
                None => {
                    return None;
                },
            };
        }
    }
}

} // verus!
