use esp_hal_ota::crc32::calc_crc32;
use esp_hal_ota::flash::RamFlash;
use esp_hal_ota::helpers::seq_to_part;
use esp_hal_ota::mmu_hal::SoftMmu;
use esp_hal_ota::structs::{OtaError, OtaImgState};
use esp_hal_ota::Ota;

const FLASH_SIZE: usize = 0x4_0000;
const PART0: u32 = 0x1_0000;
const PART1: u32 = 0x2_0000;
const PART_SIZE: u32 = 0x1_0000;
const OTADATA: u32 = 0x3_0000;
const OTADATA_SIZE: u32 = 0x2000;
const SLOT1: usize = OTADATA as usize;
const SLOT2: usize = (OTADATA + OTADATA_SIZE / 2) as usize;
const CODE_ADDR: u32 = 0x42_0123;

fn table_record(p_type: u8, subtype: u8, offset: u32, size: u32) -> [u8; 32] {
    let mut r = [0u8; 32];
    r[0] = 0xAA;
    r[1] = 0x50;
    r[2] = p_type;
    r[3] = subtype;
    r[4..8].copy_from_slice(&offset.to_le_bytes());
    r[8..12].copy_from_slice(&size.to_le_bytes());
    r
}

fn put_record(data: &mut [u8], index: usize, record: [u8; 32]) {
    let at = 0x8000 + 32 * index;
    data[at..at + 32].copy_from_slice(&record);
}

/// Erased flash holding a table with two OTA slots and a boot-selector
/// region.
fn fixture_data() -> Vec<u8> {
    let mut data = vec![0xFFu8; FLASH_SIZE];
    put_record(&mut data, 0, table_record(0x00, 0x10, PART0, PART_SIZE));
    put_record(&mut data, 1, table_record(0x00, 0x11, PART1, PART_SIZE));
    put_record(&mut data, 2, table_record(0x01, 0x00, OTADATA, OTADATA_SIZE));
    data
}

fn write_slot(data: &mut [u8], off: usize, seq: u32, state: u32) {
    data[off..off + 4].copy_from_slice(&seq.to_le_bytes());
    data[off + 24..off + 28].copy_from_slice(&state.to_le_bytes());
    let crc = calc_crc32(&seq.to_le_bytes(), 0xFFFFFFFF);
    data[off + 28..off + 32].copy_from_slice(&crc.to_le_bytes());
}

/// A translation table whose entry for `CODE_ADDR` points at physical page
/// `page`.
fn mmu_with_page(page: u32) -> SoftMmu {
    let mut entries = vec![0u32; 0x43];
    entries[0x42] = page;
    SoftMmu { vaddr_mask: 0x7F_FFFF, valid_val_mask: 0xFF, page_size: 0x1_0000, entries }
}

/// An update engine over the fixture, with the running code resolving into
/// partition 0.
fn fixture_ota() -> Ota<RamFlash, SoftMmu> {
    Ota::new(RamFlash::from_vec(fixture_data()), mmu_with_page(1), CODE_ADDR).unwrap()
}

fn new_err(flash: RamFlash) -> OtaError {
    match Ota::new(flash, mmu_with_page(1), CODE_ADDR) {
        Ok(_) => panic!("construction unexpectedly succeeded"),
        Err(e) => e,
    }
}

#[test]
fn new_discovers_partition_layout() {
    let ota = fixture_ota();
    assert_eq!(ota.pinfo.ota_partitions_count, 2);
    assert_eq!(ota.pinfo.ota_partitions[0], (PART0, PART_SIZE));
    assert_eq!(ota.pinfo.ota_partitions[1], (PART1, PART_SIZE));
    assert_eq!(ota.pinfo.otadata_offset, OTADATA);
    assert_eq!(ota.pinfo.otadata_size, OTADATA_SIZE);
}

#[test]
fn record_with_wrong_magic_is_skipped() {
    let mut data = vec![0xFFu8; FLASH_SIZE];
    put_record(&mut data, 0, table_record(0x00, 0x10, PART0, PART_SIZE));
    let mut bad = table_record(0x00, 0x11, 0x5555, 0x5555);
    bad[0] = 0x00;
    put_record(&mut data, 1, bad);
    put_record(&mut data, 2, table_record(0x00, 0x11, PART1, PART_SIZE));
    put_record(&mut data, 3, table_record(0x01, 0x00, OTADATA, OTADATA_SIZE));
    let ota = Ota::new(RamFlash::from_vec(data), mmu_with_page(1), CODE_ADDR).unwrap();
    assert_eq!(ota.pinfo.ota_partitions_count, 2);
    assert_eq!(ota.pinfo.ota_partitions[1], (PART1, PART_SIZE));
}

#[test]
fn all_ff_record_terminates_parsing() {
    let mut data = fixture_data();
    // Record 3 stays erased (the terminator); a further OTA record after it
    // must be ignored.
    put_record(&mut data, 4, table_record(0x00, 0x12, 0x5555, 0x5555));
    let ota = Ota::new(RamFlash::from_vec(data), mmu_with_page(1), CODE_ADDR).unwrap();
    assert_eq!(ota.pinfo.ota_partitions_count, 2);
}

#[test]
fn out_of_order_subtypes_are_rejected() {
    let mut data = vec![0xFFu8; FLASH_SIZE];
    put_record(&mut data, 0, table_record(0x00, 0x10, PART0, PART_SIZE));
    put_record(&mut data, 1, table_record(0x00, 0x12, PART1, PART_SIZE));
    assert_eq!(new_err(RamFlash::from_vec(data)), OtaError::WrongOTAPartitionOrder);
}

#[test]
fn fewer_than_two_slots_is_rejected() {
    let mut data = vec![0xFFu8; FLASH_SIZE];
    put_record(&mut data, 0, table_record(0x00, 0x10, PART0, PART_SIZE));
    put_record(&mut data, 1, table_record(0x01, 0x00, OTADATA, OTADATA_SIZE));
    assert_eq!(new_err(RamFlash::from_vec(data)), OtaError::NotEnoughPartitions);
}

#[test]
fn too_small_device_reports_flash_error() {
    assert_eq!(new_err(RamFlash::new_erased(0x100)), OtaError::FlashRWError);
}

#[test]
fn commit_picks_fresh_sequence_and_spares_other_slot() {
    // Slots hold sequences (5, 7); selecting the partition sequence 7 maps
    // to must pick a sequence above 7 that still maps there, and overwrite
    // only the slot holding 5.
    let mut data = fixture_data();
    write_slot(&mut data, SLOT1, 5, 0xFFFF_FFFF);
    write_slot(&mut data, SLOT2, 7, 0xFFFF_FFFF);
    let mut ota = Ota::new(RamFlash::from_vec(data.clone()), mmu_with_page(1), CODE_ADDR).unwrap();
    let target = seq_to_part(7, 2);
    ota.set_target_ota_boot_partition(target, OtaImgState::EspOtaImgNew).unwrap();

    // The slot that held 7 is byte-for-byte untouched.
    assert_eq!(&ota.flash.data[SLOT2..SLOT2 + 32], &data[SLOT2..SLOT2 + 32]);

    let (e1, e2) = ota.get_ota_boot_entries().unwrap();
    assert_eq!(e2.seq, 7);
    assert!(e1.seq > 7);
    assert_eq!(seq_to_part(e1.seq, 2), target);
    assert_eq!(e1.seq, 9);
    assert_eq!(e1.ota_state, OtaImgState::EspOtaImgNew);
}

#[test]
fn boot_record_round_trips_through_flash() {
    // Both slots start erased (a tie at sequence 0), so the commit lands in
    // the second slot.
    let mut ota = fixture_ota();
    ota.set_target_ota_boot_partition(1, OtaImgState::EspOtaImgPendingVerify).unwrap();
    let (e1, e2) = ota.get_ota_boot_entries().unwrap();
    // The sequence read back is the committed one (its CRC validated, or it
    // would have been reset to 0), with the committed state beside it.
    assert_eq!(e2.seq, 2);
    assert_eq!(seq_to_part(e2.seq, 2), 1);
    assert_eq!(e2.ota_state, OtaImgState::EspOtaImgPendingVerify);
    assert_eq!(e1.seq, 0);
}

#[test]
fn tied_sequences_commit_into_second_slot() {
    // Factory state: both slots CRC-invalid, both sequences reading as 0.
    // The tie resolves toward the second slot; the first stays byte-for-byte
    // as it was.
    let data = fixture_data();
    let mut ota = Ota::new(RamFlash::from_vec(data.clone()), mmu_with_page(1), CODE_ADDR).unwrap();
    ota.set_target_ota_boot_partition(1, OtaImgState::EspOtaImgNew).unwrap();
    assert_eq!(&ota.flash.data[SLOT1..SLOT1 + 32], &data[SLOT1..SLOT1 + 32]);
    let (e1, e2) = ota.get_ota_boot_entries().unwrap();
    assert_eq!(e1.seq, 0);
    assert_eq!(e2.seq, 2);

    // An exact tie of two CRC-valid records resolves the same way.
    let mut data2 = fixture_data();
    write_slot(&mut data2, SLOT1, 4, 0xFFFF_FFFF);
    write_slot(&mut data2, SLOT2, 4, 0xFFFF_FFFF);
    let mut ota2 =
        Ota::new(RamFlash::from_vec(data2.clone()), mmu_with_page(1), CODE_ADDR).unwrap();
    ota2.set_target_ota_boot_partition(0, OtaImgState::EspOtaImgNew).unwrap();
    assert_eq!(&ota2.flash.data[SLOT1..SLOT1 + 32], &data2[SLOT1..SLOT1 + 32]);
    let (f1, f2) = ota2.get_ota_boot_entries().unwrap();
    assert_eq!(f1.seq, 4);
    assert_eq!(f2.seq, 5);
    assert_eq!(seq_to_part(f2.seq, 2), 0);
}

#[test]
fn chunked_transfer_truncates_and_checksums_like_one_shot() {
    // A 100-byte image fed as 60 + 60 bytes: the second call truncates to
    // 40, exactly 100 bytes reach flash, and the running CRC equals the
    // one-shot CRC32 of the first 100 bytes.
    let image: Vec<u8> = (0u32..120).map(|i| (i * 13 % 251) as u8).collect();
    let crc = crc32fast::hash(&image[..100]);
    let mut ota = fixture_ota();
    ota.ota_begin(100, crc).unwrap();
    assert_eq!(ota.ota_write_chunk(&image[0..60]).unwrap(), false);
    assert_eq!(ota.ota_write_chunk(&image[60..120]).unwrap(), true);

    // Running code is in partition 0, so the stream lands in partition 1.
    let base = PART1 as usize;
    assert_eq!(&ota.flash.data[base..base + 100], &image[..100]);
    assert_eq!(ota.flash.data[base + 100], 0xFF);
    assert_eq!(ota.get_ota_progress(), (100, 100));

    // The accumulated CRC matches the target, so the flush commits.
    ota.ota_flush(false, true).unwrap();
    assert!(ota.get_ota_progress() == (0, 0));
}

#[test]
fn write_chunk_without_session_is_rejected() {
    let mut ota = fixture_ota();
    assert_eq!(ota.ota_write_chunk(&[1, 2, 3]).unwrap_err(), OtaError::OtaNotStarted);
    assert_eq!(ota.ota_verify().unwrap_err(), OtaError::OtaNotStarted);
    assert_eq!(ota.ota_flush(false, true).unwrap_err(), OtaError::OtaNotStarted);
    assert_eq!(ota.get_ota_progress(), (0, 0));
}

#[test]
fn flush_with_wrong_crc_commits_nothing() {
    let image: Vec<u8> = (0u32..100).map(|i| (i * 31 % 251) as u8).collect();
    let right = crc32fast::hash(&image);
    let mut data = fixture_data();
    write_slot(&mut data, SLOT1, 5, 0xFFFF_FFFF);
    write_slot(&mut data, SLOT2, 7, 0xFFFF_FFFF);
    let mut ota = Ota::new(RamFlash::from_vec(data), mmu_with_page(1), CODE_ADDR).unwrap();

    ota.ota_begin(100, right ^ 0xDEAD).unwrap();
    assert_eq!(ota.ota_write_chunk(&image).unwrap(), true);
    let slots_before =
        (ota.flash.data[SLOT1..SLOT1 + 32].to_vec(), ota.flash.data[SLOT2..SLOT2 + 32].to_vec());
    assert_eq!(ota.ota_flush(false, true).unwrap_err(), OtaError::WrongCRC);
    // Both boot-selector slots are byte-for-byte unchanged.
    assert_eq!(&ota.flash.data[SLOT1..SLOT1 + 32], &slots_before.0[..]);
    assert_eq!(&ota.flash.data[SLOT2..SLOT2 + 32], &slots_before.1[..]);
}

#[test]
fn verify_reproduces_streaming_checksum() {
    // A partition filled with a known pattern re-reads to the same CRC32
    // the streaming computation produced.
    let image: Vec<u8> = (0u32..600).map(|i| (i * 17 % 241) as u8).collect();
    let crc = crc32fast::hash(&image);
    let mut ota = fixture_ota();
    ota.ota_begin(600, crc).unwrap();
    assert_eq!(ota.ota_write_chunk(&image[0..250]).unwrap(), false);
    assert_eq!(ota.ota_write_chunk(&image[250..500]).unwrap(), false);
    assert_eq!(ota.ota_write_chunk(&image[500..600]).unwrap(), true);
    assert_eq!(ota.ota_verify().unwrap(), true);
    ota.ota_flush(true, false).unwrap();
}

#[test]
fn flush_with_failed_verify_reports_verify_error() {
    let image: Vec<u8> = (0u32..64).map(|i| i as u8).collect();
    let mut ota = fixture_ota();
    // The target CRC matches nothing that was written.
    ota.ota_begin(64, 0x1234_5678).unwrap();
    assert_eq!(ota.ota_write_chunk(&image).unwrap(), true);
    assert_eq!(ota.ota_verify().unwrap(), false);
    assert_eq!(ota.ota_flush(true, true).unwrap_err(), OtaError::OtaVerifyError);
}

#[test]
fn unresolvable_code_address_defaults_transfer_to_partition_zero() {
    // Entry 0x42 points at page 0x7F, outside every partition.
    let mut ota =
        Ota::new(RamFlash::from_vec(fixture_data()), mmu_with_page(0x7F), CODE_ADDR).unwrap();
    assert_eq!(ota.get_currently_booted_partition(), None);
    assert_eq!(ota.get_next_ota_partition(), None);
    ota.ota_begin(16, 0).unwrap();
    let p = ota.progress.unwrap();
    assert_eq!(p.target_partition, 0);
    assert_eq!(p.flash_offset, PART0);
}

#[test]
fn current_partition_follows_translation_table() {
    let ota = fixture_ota();
    assert_eq!(ota.get_currently_booted_partition(), Some(0));
    assert_eq!(ota.get_next_ota_partition(), Some(1));
    let ota2 = Ota::new(RamFlash::from_vec(fixture_data()), mmu_with_page(2), CODE_ADDR).unwrap();
    assert_eq!(ota2.get_currently_booted_partition(), Some(1));
    assert_eq!(ota2.get_next_ota_partition(), Some(0));
}

#[test]
fn unresolvable_code_address_fails_marking() {
    let mut ota =
        Ota::new(RamFlash::from_vec(fixture_data()), mmu_with_page(0x7F), CODE_ADDR).unwrap();
    assert_eq!(ota.ota_mark_app_valid().unwrap_err(), OtaError::CannotFindCurrentBootPartition);
    assert_eq!(ota.get_ota_image_state().unwrap_err(), OtaError::CannotFindCurrentBootPartition);
}

#[test]
fn mark_app_valid_patches_current_slot_state() {
    // Slot 1's sequence maps to partition 0, where the code runs.
    let mut data = fixture_data();
    write_slot(&mut data, SLOT1, 5, 0xFFFF_FFFF);
    write_slot(&mut data, SLOT2, 6, 0xFFFF_FFFF);
    assert_eq!(seq_to_part(5, 2), 0);
    let mut ota = Ota::new(RamFlash::from_vec(data), mmu_with_page(1), CODE_ADDR).unwrap();

    assert_eq!(ota.get_ota_image_state().unwrap(), OtaImgState::EspOtaImgUndefined);
    ota.ota_mark_app_valid().unwrap();
    assert_eq!(ota.get_ota_image_state().unwrap(), OtaImgState::EspOtaImgValid);
    // The other slot's state field is untouched.
    assert_eq!(&ota.flash.data[SLOT2 + 24..SLOT2 + 28], &[0xFF, 0xFF, 0xFF, 0xFF]);
}

#[test]
fn first_matching_slot_takes_priority() {
    // Sequences 5 and 7 both map to partition 0 with two slots, where the
    // code runs; the first slot wins, so its state is reported and marking
    // patches it, not the second.
    let mut data = fixture_data();
    write_slot(&mut data, SLOT1, 5, 0xFFFF_FFFF);
    write_slot(&mut data, SLOT2, 7, 0x2);
    let mut ota = Ota::new(RamFlash::from_vec(data.clone()), mmu_with_page(1), CODE_ADDR).unwrap();
    assert_eq!(seq_to_part(5, 2), 0);
    assert_eq!(seq_to_part(7, 2), 0);
    assert_eq!(ota.get_ota_image_state().unwrap(), OtaImgState::EspOtaImgUndefined);
    ota.ota_mark_app_valid().unwrap();
    assert_eq!(ota.get_ota_image_state().unwrap(), OtaImgState::EspOtaImgValid);
    // The second slot is byte-for-byte untouched.
    assert_eq!(&ota.flash.data[SLOT2..SLOT2 + 32], &data[SLOT2..SLOT2 + 32]);
}

#[test]
fn mark_app_invalid_skips_already_valid_slot() {
    let mut data = fixture_data();
    write_slot(&mut data, SLOT1, 5, 0x2);
    write_slot(&mut data, SLOT2, 6, 0xFFFF_FFFF);
    let before = data.clone();
    let mut ota = Ota::new(RamFlash::from_vec(data), mmu_with_page(1), CODE_ADDR).unwrap();
    assert_eq!(ota.get_ota_image_state().unwrap(), OtaImgState::EspOtaImgValid);
    // A slot already confirmed valid is never rewritten.
    ota.ota_mark_app_invalid_rollback().unwrap();
    assert_eq!(&ota.flash.data[..], &before[..]);
}

#[test]
fn mark_app_invalid_rolls_back_unconfirmed_slot() {
    let mut data = fixture_data();
    write_slot(&mut data, SLOT1, 5, 0x0);
    write_slot(&mut data, SLOT2, 6, 0xFFFF_FFFF);
    let mut ota = Ota::new(RamFlash::from_vec(data), mmu_with_page(1), CODE_ADDR).unwrap();
    assert_eq!(ota.get_ota_image_state().unwrap(), OtaImgState::EspOtaImgNew);
    ota.ota_mark_app_invalid_rollback().unwrap();
    assert_eq!(ota.get_ota_image_state().unwrap(), OtaImgState::EspOtaImgInvalid);
}

#[test]
fn set_ota_state_rejects_other_slot_numbers() {
    let mut ota = fixture_ota();
    assert_eq!(
        ota.set_ota_state(3, OtaImgState::EspOtaImgValid).unwrap_err(),
        OtaError::CannotFindCurrentBootPartition
    );
    ota.set_ota_state(1, OtaImgState::EspOtaImgAborted).unwrap();
    ota.set_ota_state(2, OtaImgState::EspOtaImgAborted).unwrap();
    assert_eq!(&ota.flash.data[SLOT1 + 24..SLOT1 + 28], &4u32.to_le_bytes());
    assert_eq!(&ota.flash.data[SLOT2 + 24..SLOT2 + 28], &4u32.to_le_bytes());
}

#[test]
fn overlapping_session_discards_previous_progress() {
    // Starting a new transfer while one is open silently abandons the
    // earlier session's in-memory progress.
    let mut ota = fixture_ota();
    ota.ota_begin(100, 0x1111).unwrap();
    ota.ota_write_chunk(&[7u8; 64]).unwrap();
    assert_eq!(ota.get_ota_progress(), (64, 100));
    ota.ota_begin(32, 0x2222).unwrap();
    assert_eq!(ota.get_ota_progress(), (0, 32));
    let p = ota.progress.unwrap();
    assert_eq!(p.last_crc, 0);
    assert_eq!(p.target_crc, 0x2222);
}

#[test]
fn empty_chunk_writes_nothing() {
    let mut ota = fixture_ota();
    ota.ota_begin(4, 0).unwrap();
    assert_eq!(ota.ota_write_chunk(&[]).unwrap(), false);
    assert_eq!(ota.get_ota_progress(), (0, 4));
}
