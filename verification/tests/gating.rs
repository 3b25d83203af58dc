use saguaro_gatekeeper::constants::{
    DATA_OFFSET, FULL_BITMAP_SIZE_BYTES, INITIAL_BITMAP_SIZE_BYTES, SLOTS_PER_EPOCH,
};
use saguaro_gatekeeper::errors::GatekeeperError;
use saguaro_gatekeeper::lifecycle::create;
use saguaro_gatekeeper::mutate::{has_duplicate, has_duplicate_pairwise, has_duplicate_sorted, mutate};
use saguaro_gatekeeper::epoch::slot_offset;
use saguaro_gatekeeper::query::is_slot_gated_fast;
use saguaro_gatekeeper::record::{is_valid_record, read_stored_epoch, read_stored_nonce};

const TAG: [u8; 8] = [0xAA, 0xBB, 0xCC, 0xDD, 0xEE, 0xFF, 0x01, 0x02];

#[test]
fn create_initial_record_layout() {
    let d = create(100, 254, &TAG);
    assert_eq!(d.len(), DATA_OFFSET + INITIAL_BITMAP_SIZE_BYTES);
    assert_eq!(&d[0..8], &TAG);
    // epoch 100 little endian
    assert_eq!(d[8], 100);
    assert_eq!(d[9], 0);
    assert_eq!(d[10], 254);
    assert_eq!(d[11], 0);
    // length field: 9000 = 0x2328 little endian
    assert_eq!(&d[12..16], &[0x28, 0x23, 0x00, 0x00]);
    assert!(d[16..].iter().all(|&b| b == 0));
}

#[test]
fn epoch_start_scenario() {
    assert_eq!(SLOTS_PER_EPOCH, 432000);
    assert_eq!(saguaro_gatekeeper::epoch::epoch_start(100), 43_200_000);
    assert_eq!(FULL_BITMAP_SIZE_BYTES, 54000);
}

#[test]
fn gate_five_slots_and_query() {
    // epoch 100 starts at 43,200,000; five gated slots read back gated and
    // a neighbour reads back ungated.
    let mut d = create(100, 254, &TAG);
    let gate = vec![43200100u64, 43200200, 43200300, 43200400, 43200500];
    let summary = mutate(&mut d, 100, &gate, &vec![]).unwrap();
    assert_eq!(summary.slots_added, 5);
    assert_eq!(summary.slots_removed, 0);
    assert_eq!(summary.net_change, 5);
    assert!(is_slot_gated_fast(&d, 100, 43200100));
    assert!(is_slot_gated_fast(&d, 100, 43200200));
    assert!(is_slot_gated_fast(&d, 100, 43200300));
    assert!(is_slot_gated_fast(&d, 100, 43200400));
    assert!(is_slot_gated_fast(&d, 100, 43200500));
    assert!(!is_slot_gated_fast(&d, 100, 43200099));
}

#[test]
fn gate_then_ungate_round_trip() {
    let mut d = create(7, 1, &TAG);
    let slot = 7u64 * SLOTS_PER_EPOCH + 4242;
    mutate(&mut d, 7, &vec![slot], &vec![]).unwrap();
    assert!(is_slot_gated_fast(&d, 7, slot));
    let summary = mutate(&mut d, 7, &vec![], &vec![slot]).unwrap();
    assert_eq!(summary.slots_removed, 1);
    assert!(!is_slot_gated_fast(&d, 7, slot));
}

#[test]
fn ungate_of_ungated_slot_is_silent_noop() {
    let mut d = create(3, 9, &TAG);
    let slot = 3u64 * SLOTS_PER_EPOCH + 17;
    let before = d.clone();
    let summary = mutate(&mut d, 3, &vec![], &vec![slot]).unwrap();
    assert_eq!(summary.slots_removed, 0);
    assert_eq!(summary.slots_added, 0);
    assert_eq!(d, before);
    // and a second time, still a no-op
    let summary2 = mutate(&mut d, 3, &vec![], &vec![slot]).unwrap();
    assert_eq!(summary2.slots_removed, 0);
    assert_eq!(d, before);
}

#[test]
fn duplicate_in_gate_batch_rejected_without_changes() {
    let mut d = create(2, 5, &TAG);
    let slot = 2u64 * SLOTS_PER_EPOCH + 99;
    let before = d.clone();
    let r = mutate(&mut d, 2, &vec![slot, slot], &vec![]);
    assert_eq!(r.unwrap_err(), GatekeeperError::DuplicateSlots);
    assert_eq!(d, before);
}

#[test]
fn gating_an_already_gated_slot_is_a_conflict() {
    let mut d = create(2, 5, &TAG);
    let slot = 2u64 * SLOTS_PER_EPOCH + 99;
    mutate(&mut d, 2, &vec![slot], &vec![]).unwrap();
    let before = d.clone();
    let r = mutate(&mut d, 2, &vec![slot], &vec![]);
    assert_eq!(r.unwrap_err(), GatekeeperError::DuplicateSlots);
    assert_eq!(d, before);
    // but gating it while ungating it in the same call is accepted:
    // ungates apply first.
    let summary = mutate(&mut d, 2, &vec![slot], &vec![slot]).unwrap();
    assert_eq!(summary.slots_added, 1);
    assert_eq!(summary.slots_removed, 1);
    assert_eq!(summary.net_change, 0);
    assert!(is_slot_gated_fast(&d, 2, slot));
}

#[test]
fn batch_of_101_slots_is_rejected_whole() {
    let mut d = create(100, 254, &TAG);
    let start = 100u64 * SLOTS_PER_EPOCH;
    let gate: Vec<u64> = (0..101).map(|i| start + i).collect();
    let before = d.clone();
    let r = mutate(&mut d, 100, &gate, &vec![]);
    assert_eq!(r.unwrap_err(), GatekeeperError::TooManySlots);
    assert_eq!(d, before);
    // exactly 100 slots is fine
    let gate100: Vec<u64> = (0..100).map(|i| start + i).collect();
    let summary = mutate(&mut d, 100, &gate100, &vec![]).unwrap();
    assert_eq!(summary.slots_added, 100);
}

#[test]
fn slot_outside_window_or_capacity_is_rejected() {
    let mut d = create(100, 254, &TAG);
    let start = 100u64 * SLOTS_PER_EPOCH;
    let before = d.clone();
    // below the window
    let r = mutate(&mut d, 100, &vec![start - 1], &vec![]);
    assert_eq!(r.unwrap_err(), GatekeeperError::SlotOutOfRange);
    // beyond what the initial 9000-byte bitmap can track (72,000 slots)
    let r = mutate(&mut d, 100, &vec![start + 72_000], &vec![]);
    assert_eq!(r.unwrap_err(), GatekeeperError::SlotOutOfRange);
    // the last trackable slot of the initial bitmap is accepted
    assert!(mutate(&mut d, 100, &vec![start + 71_999], &vec![]).is_ok());
    assert_eq!(&d[0..16], &before[0..16]);
}

#[test]
fn epoch_mismatch_and_invalid_record_are_rejected() {
    let mut d = create(100, 254, &TAG);
    let slot = 101u64 * SLOTS_PER_EPOCH + 1;
    let r = mutate(&mut d, 101, &vec![slot], &vec![]);
    assert_eq!(r.unwrap_err(), GatekeeperError::EpochMismatch);

    let mut junk = vec![0u8; 10];
    let r = mutate(&mut junk, 0, &vec![5], &vec![]);
    assert_eq!(r.unwrap_err(), GatekeeperError::InvalidPda);

    // a record whose length field disagrees with its size is refused
    let mut skewed = create(0, 0, &TAG);
    skewed[12] = skewed[12].wrapping_add(1);
    let r = mutate(&mut skewed, 0, &vec![5], &vec![]);
    assert_eq!(r.unwrap_err(), GatekeeperError::InvalidPda);
}

#[test]
fn empty_batches_are_a_successful_noop() {
    let mut d = create(1, 0, &TAG);
    let before = d.clone();
    let summary = mutate(&mut d, 1, &vec![], &vec![]).unwrap();
    assert_eq!(summary.slots_added, 0);
    assert_eq!(summary.slots_removed, 0);
    assert_eq!(d, before);
}

#[test]
fn duplicate_detection_strategies_agree() {
    let clean: Vec<u64> = (0..80u64).map(|i| 1000 + 3 * i).collect();
    let mut dup = clean.clone();
    dup[77] = dup[5];
    let small_clean = vec![4u64, 2, 9];
    let small_dup = vec![4u64, 2, 4];
    for batch in [&clean, &dup, &small_clean, &small_dup] {
        let pairwise = has_duplicate_pairwise(batch);
        let sorted = has_duplicate_sorted(batch);
        assert_eq!(pairwise, sorted);
        assert_eq!(has_duplicate(batch), pairwise);
    }
    assert!(!has_duplicate_pairwise(&clean));
    assert!(has_duplicate_sorted(&dup));
}

#[test]
fn net_change_is_floored_at_zero() {
    let mut d = create(6, 0, &TAG);
    let start = 6u64 * SLOTS_PER_EPOCH;
    mutate(&mut d, 6, &vec![start + 1, start + 2], &vec![]).unwrap();
    let summary = mutate(&mut d, 6, &vec![], &vec![start + 1, start + 2]).unwrap();
    assert_eq!(summary.slots_added, 0);
    assert_eq!(summary.slots_removed, 2);
    assert_eq!(summary.net_change, 0);
}

#[test]
fn slot_offsets_are_window_checked() {
    let start = 100u64 * SLOTS_PER_EPOCH;
    assert_eq!(slot_offset(100, start), Some(0));
    assert_eq!(slot_offset(100, start + 431_999), Some(431_999));
    assert_eq!(slot_offset(100, start + 432_000), None);
    assert_eq!(slot_offset(100, start - 1), None);
    assert_eq!(slot_offset(0, 0), Some(0));
}

#[test]
fn header_reads_match_what_create_wrote() {
    let d = create(513, 77, &TAG);
    assert!(is_valid_record(&d));
    assert_eq!(read_stored_epoch(&d), 513);
    assert_eq!(read_stored_nonce(&d), 77);
    assert!(!is_valid_record(&vec![0u8; 4]));
}

#[test]
fn fast_query_fails_open_on_malformed_bytes() {
    // empty storage, short buffers, and out-of-window slots all read ungated
    assert!(!is_slot_gated_fast(&vec![], 0, 0));
    assert!(!is_slot_gated_fast(&vec![0xFF; 4], 0, 0));
    let d = create(5, 0, &TAG);
    // a slot before the epoch's window
    assert!(!is_slot_gated_fast(&d, 5, 5 * SLOTS_PER_EPOCH - 1));
    // a slot past the stored bytes
    assert!(!is_slot_gated_fast(&d, 5, 5 * SLOTS_PER_EPOCH + 72_000));
}
