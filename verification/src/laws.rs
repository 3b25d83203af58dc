//! Cross-component laws of the engine, each proved from the public
//! contracts of the functions it relates.

use vstd::prelude::*;
use vstd::arithmetic::div_mod::lemma_fundamental_div_mod;
use crate::constants::{
    DATA_OFFSET, FULL_BITMAP_SIZE_BYTES, INITIAL_BITMAP_SIZE_BYTES, MAX_SLOTS_PER_TRANSACTION,
    SLOTS_PER_EPOCH,
};
use crate::epoch::spec_epoch_start;
use crate::errors::GatekeeperError;
use crate::expand::{expand_step_len, expand_target};
use crate::mutate::{
    all_in_range, batch_verdict, gate_conflict, has_dup, max_trackable, mutate_verdict,
    mutated_bits,
};
use crate::query::fast_gated;
use crate::record::{
    gated_off, lemma_byte_from_bits, nth_bit, payload_len, stored_epoch, valid_record,
};

verus! {

proof fn lemma_offset_div(off: int, plen: int)
    requires
        0 <= off < 8 * plen,
    ensures
        0 <= off / 8 < plen,
        off == 8 * (off / 8) + off % 8,
        0 <= off % 8 < 8,
{
    lemma_fundamental_div_mod(off, 8);
    assert(off / 8 < plen) by (nonlinear_arith)
        requires
            off < 8 * plen,
            8 * (off / 8) + (off % 8) == off,
            0 <= off % 8 < 8,
    ;
}

/// Round trip, gate direction: after an accepted mutation that gates one
/// slot (inside the window and the record's current capacity), the fast
/// path answers "gated" for that slot.
pub proof fn lemma_gate_then_query(old_d: Seq<u8>, new_d: Seq<u8>, epoch: u16, slot: u64)
    requires
        valid_record(old_d),
        mutate_verdict(old_d, epoch, seq![slot], seq![]) is None,
        mutated_bits(old_d, new_d, epoch, seq![slot], seq![]),
    ensures
        fast_gated(new_d, epoch, slot),
{
    let lo = spec_epoch_start(epoch);
    let hi = max_trackable(old_d, epoch);
    assert(batch_verdict(seq![slot], lo, hi) is None);
    assert(seq![slot][0] == slot);
    assert(lo <= slot < hi);
    let off = slot - lo;
    assert(off < 8 * payload_len(old_d));
    lemma_offset_div(off, payload_len(old_d));
    assert(seq![slot].contains((lo + off) as u64));
    assert(gated_off(new_d, off));
    assert(DATA_OFFSET + off / 8 < new_d.len());
}

/// Round trip, ungate direction: after an accepted mutation that ungates
/// one slot, the fast path answers "not gated" for that slot.
pub proof fn lemma_ungate_then_query(old_d: Seq<u8>, new_d: Seq<u8>, epoch: u16, slot: u64)
    requires
        valid_record(old_d),
        mutate_verdict(old_d, epoch, seq![], seq![slot]) is None,
        mutated_bits(old_d, new_d, epoch, seq![], seq![slot]),
    ensures
        !fast_gated(new_d, epoch, slot),
{
    let lo = spec_epoch_start(epoch);
    let hi = max_trackable(old_d, epoch);
    assert(batch_verdict(seq![slot], lo, hi) is None);
    assert(seq![slot][0] == slot);
    assert(lo <= slot < hi);
    let off = slot - lo;
    assert(off < 8 * payload_len(old_d));
    lemma_offset_div(off, payload_len(old_d));
    assert(seq![slot].contains((lo + off) as u64));
    assert(!gated_off(new_d, off));
}

/// A single in-capacity ungate request is always accepted against a sound
/// record of the right epoch, whether or not the slot is gated.
pub proof fn lemma_single_ungate_accepted(d: Seq<u8>, epoch: u16, slot: u64)
    requires
        valid_record(d),
        stored_epoch(d) == epoch,
        payload_len(d) >= INITIAL_BITMAP_SIZE_BYTES,
        spec_epoch_start(epoch) <= slot < max_trackable(d, epoch),
    ensures
        mutate_verdict(d, epoch, seq![], seq![slot]) is None,
{
    let lo = spec_epoch_start(epoch);
    let hi = max_trackable(d, epoch);
    assert(seq![slot][0] == slot);
    assert(!has_dup(seq![slot]));
    assert(all_in_range(seq![slot], lo, hi)) by {
        assert forall|i: int| 0 <= i < 1 implies lo <= #[trigger] seq![slot][i] < hi by {
            assert(seq![slot][i] == slot);
        }
    }
    assert(!has_dup(Seq::<u64>::empty()));
    assert(!gate_conflict(d, epoch, seq![], seq![slot]));
}

/// Idempotence of ungating: an accepted mutation that ungates one slot
/// that was not gated leaves the record byte-for-byte unchanged.
pub proof fn lemma_ungate_ungated_is_noop(old_d: Seq<u8>, new_d: Seq<u8>, epoch: u16, slot: u64)
    requires
        valid_record(old_d),
        mutate_verdict(old_d, epoch, seq![], seq![slot]) is None,
        mutated_bits(old_d, new_d, epoch, seq![], seq![slot]),
        !gated_off(old_d, slot - spec_epoch_start(epoch)),
    ensures
        new_d == old_d,
{
    let lo = spec_epoch_start(epoch);
    let hi = max_trackable(old_d, epoch);
    assert(batch_verdict(seq![slot], lo, hi) is None);
    assert(seq![slot][0] == slot);
    assert(lo <= slot < hi);
    let plen = payload_len(old_d);
    assert forall|o: int| 0 <= o < 8 * plen implies gated_off(new_d, o) == gated_off(old_d, o) by {
        if seq![slot].contains((lo + o) as u64) {
            let k = choose|k: int| 0 <= k < 1 && seq![slot][k] == (lo + o) as u64;
            assert(slot == (lo + o) as u64);
            assert(o == slot - lo);
            assert(!gated_off(old_d, o));
            assert(!gated_off(new_d, o));
        }
    }
    assert forall|i: int| 0 <= i < old_d.len() implies new_d[i] == old_d[i] by {
        if i >= DATA_OFFSET {
            let a = i - DATA_OFFSET;
            assert forall|j: u8| j < 8 implies nth_bit(new_d[i], j) == nth_bit(old_d[i], j) by {
                let o = 8 * a + j;
                assert(o / 8 == a && o % 8 == j) by (nonlinear_arith)
                    requires
                        0 <= a,
                        0 <= j < 8,
                        o == 8 * a + j,
                ;
                assert(0 <= o < 8 * plen);
                assert(gated_off(new_d, o) == gated_off(old_d, o));
                assert(gated_off(new_d, o) == nth_bit(new_d[i], j));
                assert(gated_off(old_d, o) == nth_bit(old_d[i], j));
            }
            lemma_byte_from_bits(new_d[i], old_d[i]);
        }
    }
    assert(new_d =~= old_d);
}

/// A batch that gates the same slot twice is always rejected as a
/// duplicate: together with the mutation contract, no bit changes.
pub proof fn lemma_duplicate_gate_rejected(
    d: Seq<u8>,
    epoch: u16,
    gate: Seq<u64>,
    ungate: Seq<u64>,
)
    requires
        gate.len() <= MAX_SLOTS_PER_TRANSACTION,
        ungate.len() <= MAX_SLOTS_PER_TRANSACTION,
        valid_record(d),
        stored_epoch(d) == epoch,
        payload_len(d) >= INITIAL_BITMAP_SIZE_BYTES,
        batch_verdict(ungate, spec_epoch_start(epoch), max_trackable(d, epoch)) is None,
        has_dup(gate),
    ensures
        mutate_verdict(d, epoch, gate, ungate) == Some(GatekeeperError::DuplicateSlots),
{
    let (i, j): (int, int) = choose|i: int, j: int|
        0 <= i < j < gate.len() && gate[i] == gate[j];
    assert(gate.len() >= 2);
}

/// Expansion is monotonic, capped at full coverage, and idempotent: a step
/// never shrinks the payload, never passes full coverage, changes nothing
/// once the target is met, and a second step from the target stays there.
pub proof fn lemma_expand_monotonic_idempotent(cur: int, desired: int)
    requires
        0 <= cur <= FULL_BITMAP_SIZE_BYTES,
    ensures
        cur <= expand_step_len(cur, desired) <= FULL_BITMAP_SIZE_BYTES,
        cur >= expand_target(desired) ==> expand_step_len(cur, desired) == cur,
        expand_step_len(expand_target(desired), desired) == expand_target(desired),
{
}

/// A sound record never tracks more bits than the epoch has slots, so no
/// intermediate expansion state exceeds the window.
pub proof fn lemma_capacity_within_window(d: Seq<u8>)
    requires
        valid_record(d),
    ensures
        8 * payload_len(d) <= SLOTS_PER_EPOCH,
{
}

} // verus!
