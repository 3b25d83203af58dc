use saguaro_gatekeeper::bulk::{clear_payload, write_chunk};
use saguaro_gatekeeper::constants::{
    DATA_OFFSET, FULL_BITMAP_SIZE_BYTES, INITIAL_BITMAP_SIZE_BYTES, MAX_GROWTH_PER_CALL,
    SLOTS_PER_EPOCH,
};
use saguaro_gatekeeper::errors::GatekeeperError;
use saguaro_gatekeeper::expand::expand;
use saguaro_gatekeeper::lifecycle::create;
use saguaro_gatekeeper::mutate::mutate;
use saguaro_gatekeeper::query::is_slot_gated_fast;

const TAG: [u8; 8] = [0xAA, 0xBB, 0xCC, 0xDD, 0xEE, 0xFF, 0x01, 0x02];

#[test]
fn expansion_reaches_full_coverage_in_five_calls() {
    // From the initial 9000 bytes toward the full 54000, growing at most
    // 10240 bytes per call: 19240, 29480, 39720, 49960, 54000.
    let mut d = create(100, 254, &TAG);
    assert_eq!(INITIAL_BITMAP_SIZE_BYTES, 9000);
    assert_eq!(MAX_GROWTH_PER_CALL, 10240);
    let mut calls = 0;
    let mut cur = d.len() - DATA_OFFSET;
    let expected = [19240usize, 29480, 39720, 49960, 54000];
    while cur < FULL_BITMAP_SIZE_BYTES {
        cur = expand(&mut d, FULL_BITMAP_SIZE_BYTES).unwrap();
        assert_eq!(cur, expected[calls]);
        calls += 1;
    }
    assert_eq!(calls, 5);
    assert_eq!(d.len(), DATA_OFFSET + FULL_BITMAP_SIZE_BYTES);
    // length field committed: 54000 = 0xD2F0 little endian
    assert_eq!(&d[12..16], &[0xF0, 0xD2, 0x00, 0x00]);
}

#[test]
fn expansion_is_idempotent_and_monotonic() {
    let mut d = create(9, 3, &TAG);
    let slot = 9u64 * SLOTS_PER_EPOCH + 123;
    mutate(&mut d, 9, &vec![slot], &vec![]).unwrap();
    let mut prev = d.len();
    loop {
        let n = expand(&mut d, FULL_BITMAP_SIZE_BYTES).unwrap();
        assert!(d.len() >= prev);
        assert!(d.len() - DATA_OFFSET <= FULL_BITMAP_SIZE_BYTES);
        prev = d.len();
        if n == FULL_BITMAP_SIZE_BYTES {
            break;
        }
    }
    // repeated calls after reaching the target are byte-for-byte no-ops
    let snapshot = d.clone();
    assert_eq!(expand(&mut d, FULL_BITMAP_SIZE_BYTES).unwrap(), FULL_BITMAP_SIZE_BYTES);
    assert_eq!(d, snapshot);
    assert_eq!(expand(&mut d, 0).unwrap(), FULL_BITMAP_SIZE_BYTES);
    assert_eq!(d, snapshot);
    // bits gated before the expansion survived it
    assert!(is_slot_gated_fast(&d, 9, slot));
    // and the whole window is now trackable
    let last = 9u64 * SLOTS_PER_EPOCH + SLOTS_PER_EPOCH - 1;
    mutate(&mut d, 9, &vec![last], &vec![]).unwrap();
    assert!(is_slot_gated_fast(&d, 9, last));
}

#[test]
fn expansion_desired_size_is_capped_at_full_coverage() {
    let mut d = create(1, 0, &TAG);
    let mut cur = 0;
    for _ in 0..16 {
        cur = expand(&mut d, usize::MAX).unwrap();
        if cur == FULL_BITMAP_SIZE_BYTES {
            break;
        }
    }
    assert_eq!(cur, FULL_BITMAP_SIZE_BYTES);
    assert_eq!(d.len() - DATA_OFFSET, FULL_BITMAP_SIZE_BYTES);
}

#[test]
fn expansion_refuses_invalid_records() {
    let mut junk = vec![1u8; 8];
    let before = junk.clone();
    assert_eq!(expand(&mut junk, 54000).unwrap_err(), GatekeeperError::InvalidPda);
    assert_eq!(junk, before);
}

#[test]
fn chunk_writes_land_at_their_offset() {
    let mut d = create(4, 0, &TAG);
    // set the lowest bit of payload byte 100: slot offset 800
    let r = write_chunk(&mut d, 100, &vec![0x01]);
    assert!(r.is_ok());
    let start = 4u64 * SLOTS_PER_EPOCH;
    assert!(is_slot_gated_fast(&d, 4, start + 800));
    assert!(!is_slot_gated_fast(&d, 4, start + 801));
    // a chunk reaching past the record's end is refused whole
    let before = d.clone();
    let r = write_chunk(&mut d, INITIAL_BITMAP_SIZE_BYTES - 1, &vec![0xFF, 0xFF]);
    assert_eq!(r.unwrap_err(), GatekeeperError::SlotOutOfRange);
    assert_eq!(d, before);
    // an empty chunk is a no-op wherever it points
    assert!(write_chunk(&mut d, usize::MAX, &vec![]).is_ok());
    assert_eq!(d, before);
}

#[test]
fn clearing_the_payload_ungates_everything() {
    let mut d = create(4, 0, &TAG);
    let start = 4u64 * SLOTS_PER_EPOCH;
    mutate(&mut d, 4, &vec![start + 5, start + 6], &vec![]).unwrap();
    clear_payload(&mut d).unwrap();
    assert!(!is_slot_gated_fast(&d, 4, start + 5));
    assert!(!is_slot_gated_fast(&d, 4, start + 6));
    // header survives a clear
    assert_eq!(d[8], 4);
    assert_eq!(&d[0..8], &TAG);
    // too short to be a record
    let mut junk = vec![0u8; 3];
    assert_eq!(clear_payload(&mut junk).unwrap_err(), GatekeeperError::InvalidPda);
}
