//! Core data model: the error taxonomy, image lifecycle states, the in-memory
//! transfer-session record, the discovered partition layout, and the on-flash
//! boot-selector entry with its CRC-guarded sequence number.

use crate::crc32::{calc_crc32, crc32_of};
use vstd::bytes::{spec_u32_from_le_bytes, spec_u32_to_le_bytes, u32_from_le_bytes, u32_to_le_bytes};
use vstd::prelude::*;
use vstd::slice::slice_subrange;

verus! {

/// Every failure the update engine can surface; no internal retries happen.
#[derive(Debug, PartialEq, Eq, Structural, Clone, Copy)]
pub enum OtaError {
    /// Fewer than 2 OTA partitions were found at construction; fatal.
    NotEnoughPartitions,
    /// An operation that needs an open transfer session found none.
    OtaNotStarted,
    /// The storage device failed a read or write, or the access would run
    /// past the 32-bit flash address space.
    FlashRWError,
    /// The accumulated payload checksum did not match the target at flush.
    WrongCRC,
    /// OTA subtype indices in the partition table were not consecutive from
    /// 0, or more slots were listed than the table can hold; fatal.
    WrongOTAPartitionOrder,
    /// Re-reading the written image produced a checksum mismatch.
    OtaVerifyError,
    /// Address resolution or boot-record matching failed, or the sequence
    /// counter space is exhausted; unrecoverable environment inconsistency.
    CannotFindCurrentBootPartition,
}

/// Lifecycle state of a flashed image, stored in each boot-selector record.
#[derive(Debug, PartialEq, Eq, Structural, Clone, Copy)]
pub enum OtaImgState {
    EspOtaImgNew,
    EspOtaImgPendingVerify,
    EspOtaImgValid,
    EspOtaImgInvalid,
    EspOtaImgAborted,
    EspOtaImgUndefined,
}

/// The 32-bit on-flash encoding of an image state.
pub open spec fn spec_img_state_to_u32(s: OtaImgState) -> u32 {
    match s {
        OtaImgState::EspOtaImgNew => 0x0,
        OtaImgState::EspOtaImgPendingVerify => 0x1,
        OtaImgState::EspOtaImgValid => 0x2,
        OtaImgState::EspOtaImgInvalid => 0x3,
        OtaImgState::EspOtaImgAborted => 0x4,
        OtaImgState::EspOtaImgUndefined => 0xFFFFFFFF,
    }
}

/// Decodes a stored image state; unrecognized words (erased flash reads as
/// 0xFFFFFFFF) decode to `EspOtaImgUndefined`.
pub open spec fn spec_img_state_from_u32(x: u32) -> OtaImgState {
    if x == 0x0 {
        OtaImgState::EspOtaImgNew
    } else if x == 0x1 {
        OtaImgState::EspOtaImgPendingVerify
    } else if x == 0x2 {
        OtaImgState::EspOtaImgValid
    } else if x == 0x3 {
        OtaImgState::EspOtaImgInvalid
    } else if x == 0x4 {
        OtaImgState::EspOtaImgAborted
    } else {
        OtaImgState::EspOtaImgUndefined
    }
}

pub fn img_state_to_u32(s: OtaImgState) -> (r: u32)
    ensures
        r == spec_img_state_to_u32(s),
{
    match s {
        OtaImgState::EspOtaImgNew => 0x0,
        OtaImgState::EspOtaImgPendingVerify => 0x1,
        OtaImgState::EspOtaImgValid => 0x2,
        OtaImgState::EspOtaImgInvalid => 0x3,
        OtaImgState::EspOtaImgAborted => 0x4,
        OtaImgState::EspOtaImgUndefined => 0xFFFFFFFF,
    }
}

pub fn img_state_from_u32(x: u32) -> (r: OtaImgState)
    ensures
        r == spec_img_state_from_u32(x),
{
    if x == 0x0 {
        OtaImgState::EspOtaImgNew
    } else if x == 0x1 {
        OtaImgState::EspOtaImgPendingVerify
    } else if x == 0x2 {
        OtaImgState::EspOtaImgValid
    } else if x == 0x3 {
        OtaImgState::EspOtaImgInvalid
    } else if x == 0x4 {
        OtaImgState::EspOtaImgAborted
    } else {
        OtaImgState::EspOtaImgUndefined
    }
}

/// Encoding then decoding an image state gives it back.
pub proof fn lemma_img_state_roundtrip(s: OtaImgState)
    ensures
        spec_img_state_from_u32(spec_img_state_to_u32(s)) == s,
{
}

/// In-memory state of one streaming transfer: the flash cursor, the bytes
/// still owed, and the running and target checksums.
#[derive(Debug, Clone, Copy)]
pub struct FlashProgress {
    pub last_crc: u32,
    pub flash_offset: u32,
    pub flash_size: u32,
    pub remaining: u32,
    pub target_partition: usize,
    pub target_crc: u32,
}

/// The partition layout discovered from the on-flash table: a bounded array
/// of OTA slots with an explicit count, plus the boot-selector region.
#[derive(Debug, Clone, Copy)]
pub struct PartitionInfo {
    pub ota_partitions: [(u32, u32); 16],
    pub ota_partitions_count: usize,
    pub otadata_offset: u32,
    pub otadata_size: u32,
}

impl PartitionInfo {
    /// The discovered OTA slots, in table order.
    pub open spec fn partitions(self) -> Seq<(u32, u32)> {
        self.ota_partitions@.take(self.ota_partitions_count as int)
    }

    /// Flash offset of the first boot-selector record.
    pub open spec fn slot1_offset(self) -> int {
        self.otadata_offset as int
    }

    /// Flash offset of the second boot-selector record, at the half-way
    /// point of the boot-selector region.
    pub open spec fn slot2_offset(self) -> int {
        self.otadata_offset + (self.otadata_size as int) / 2
    }
}

/// One boot-selector record as stored on flash: a sequence number, an unused
/// label, the image state, and a CRC over the sequence number alone.
#[derive(Debug, Clone, Copy)]
pub struct EspOtaSelectEntry {
    pub seq: u32,
    pub seq_label: [u8; 20],
    pub ota_state: OtaImgState,
    pub crc: u32,
}

/// The stored CRC field matches the CRC32 (seed 0xFFFFFFFF) of the stored
/// sequence number's four little-endian bytes.
pub open spec fn seq_crc_valid(seq: u32, crc: u32) -> bool {
    crc32_of(spec_u32_to_le_bytes(seq), 0xFFFFFFFFu32) == crc
}

impl EspOtaSelectEntry {
    /// Validates the record's CRC; on mismatch the sequence number is reset
    /// to 0 ("unset") so that it is never used as a real sequence.
    pub fn check_crc(&mut self)
        ensures
            *final(self) == (if seq_crc_valid(old(self).seq, old(self).crc) {
                *old(self)
            } else {
                EspOtaSelectEntry { seq: 0, ..*old(self) }
            }),
    {
        let seq_bytes = u32_to_le_bytes(self.seq);
        let crc_calc = calc_crc32(seq_bytes.as_slice(), 0xFFFFFFFF);
        if crc_calc != self.crc {
            self.seq = 0;
        }
    }
}

/// `e` holds exactly the fields encoded in the 32-byte record `b`:
/// sequence (little-endian), label, image state, CRC.
pub open spec fn parsed_entry(b: Seq<u8>, e: EspOtaSelectEntry) -> bool
    recommends
        b.len() == 32,
{
    &&& e.seq == spec_u32_from_le_bytes(b.subrange(0, 4))
    &&& e.seq_label@ == b.subrange(4, 24)
    &&& e.ota_state == spec_img_state_from_u32(spec_u32_from_le_bytes(b.subrange(24, 28)))
    &&& e.crc == spec_u32_from_le_bytes(b.subrange(28, 32))
}

/// The sequence number a reader trusts from the 32-byte record `b`: the
/// stored one when its CRC validates, 0 ("unset") otherwise.
pub open spec fn slot_seq_of(b: Seq<u8>) -> u32 {
    let s = spec_u32_from_le_bytes(b.subrange(0, 4));
    if seq_crc_valid(s, spec_u32_from_le_bytes(b.subrange(28, 32))) {
        s
    } else {
        0
    }
}

/// The image state stored in the 32-byte record `b`.
pub open spec fn slot_state_of(b: Seq<u8>) -> OtaImgState {
    spec_img_state_from_u32(spec_u32_from_le_bytes(b.subrange(24, 28)))
}

/// `e` is the record `b` as a reader trusts it: all fields as stored, except
/// that a sequence number whose CRC does not validate reads as 0.
pub open spec fn checked_entry(b: Seq<u8>, e: EspOtaSelectEntry) -> bool
    recommends
        b.len() == 32,
{
    &&& e.seq == slot_seq_of(b)
    &&& e.seq_label@ == b.subrange(4, 24)
    &&& e.ota_state == slot_state_of(b)
    &&& e.crc == spec_u32_from_le_bytes(b.subrange(28, 32))
}

/// Decodes one 32-byte boot-selector record, fields as stored.
pub fn parse_boot_entry(bytes: &[u8]) -> (e: EspOtaSelectEntry)
    requires
        bytes@.len() == 32,
    ensures
        parsed_entry(bytes@, e),
{
    let seq = u32_from_le_bytes(slice_subrange(bytes, 0, 4));
    let state_raw = u32_from_le_bytes(slice_subrange(bytes, 24, 28));
    let crc = u32_from_le_bytes(slice_subrange(bytes, 28, 32));
    let mut seq_label = [0u8; 20];
    let mut i: usize = 0;
    while i < 20
        invariant
            i <= 20,
            bytes@.len() == 32,
            forall|j: int| 0 <= j < i ==> seq_label@[j] == bytes@[4 + j],
        decreases 20 - i,
    {
        seq_label[i] = bytes[4 + i];
        i += 1;
    }
    proof {
        assert(seq_label@ =~= bytes@.subrange(4, 24));
    }
    EspOtaSelectEntry { seq, seq_label, ota_state: img_state_from_u32(state_raw), crc }
}

} // verus!
