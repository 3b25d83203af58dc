//! Batched gate/ungate mutation of a record: validation first, bits after.
//!
//! A mutation call carries one batch of slots to gate and one to ungate.
//! The whole call is all-or-nothing: every check runs before the first bit
//! is written, so a rejected call leaves the record untouched. Within an
//! accepted call every ungate is applied before any gate, an order callers
//! may rely on.

use vstd::prelude::*;
use crate::constants::{
    DATA_OFFSET, INITIAL_BITMAP_SIZE_BYTES, MAX_SLOTS_PER_TRANSACTION, SLOTS_PER_EPOCH,
};
use crate::epoch::{epoch_start, spec_epoch_start};
use crate::errors::GatekeeperError;
use crate::record::{
    gated_off, is_valid_record, payload_bit, payload_len, read_stored_epoch, set_payload_bit,
    stored_epoch, valid_record,
};

verus! {

/// Counts of what one mutation call changed, for change notifications.
/// `net_change` is added minus removed, floored at zero: an approximation
/// for observers, not the bitmap's true gated population.
#[derive(Clone, Copy, Debug, PartialEq, Eq, Structural)]
pub struct MutationSummary {
    /// Slots this call newly gated.
    pub slots_added: u16,
    /// Slots that were gated before and this call ungated.
    pub slots_removed: u16,
    /// Added minus removed, floored at zero.
    pub net_change: u16,
}

/// Whether some slot value occurs twice in a batch.
pub open spec fn has_dup(s: Seq<u64>) -> bool {
    exists|i: int, j: int| 0 <= i < j < s.len() && s[i] == s[j]
}

/// Whether every slot of a batch lies in `[lo, hi)`.
pub open spec fn all_in_range(s: Seq<u64>, lo: u64, hi: u64) -> bool {
    forall|i: int| 0 <= i < s.len() ==> lo <= #[trigger] s[i] < hi
}

/// Verdict on one batch: duplicates are reported first, then any slot
/// outside `[lo, hi)`.
pub open spec fn batch_verdict(s: Seq<u64>, lo: u64, hi: u64) -> Option<GatekeeperError> {
    if has_dup(s) {
        Some(GatekeeperError::DuplicateSlots)
    } else if !all_in_range(s, lo, hi) {
        Some(GatekeeperError::SlotOutOfRange)
    } else {
        None
    }
}

/// Pairwise duplicate scan: no allocation, suited to small batches.
pub fn has_duplicate_pairwise(slots: &Vec<u64>) -> (r: bool)
    ensures
        r == has_dup(slots@),
{
    let n = slots.len();
    let mut i: usize = 0;
    while i < n
        invariant
            i <= n,
            n == slots@.len(),
            forall|a: int, b: int| 0 <= a < b < slots@.len() && a < i ==> slots@[a] != slots@[b],
        decreases n - i,
    {
        let mut j: usize = i + 1;
        while j < n
            invariant
                i < n,
                i < j <= n,
                n == slots@.len(),
                forall|b: int| i < b < j ==> slots@[i as int] != slots@[b],
            decreases n - j,
        {
            if slots[i] == slots[j] {
                proof {
                    let ghost (wi, wj) = (i as int, j as int);
                    assert(0 <= wi && wi < wj && wj < slots@.len() && slots@[wi] == slots@[wj]);
                }
                return true;
            }
            j = j + 1;
        }
        i = i + 1;
    }
    false
}

/// Whether a batch prefix is strictly increasing.
pub open spec fn sorted_strict(s: Seq<u64>) -> bool {
    forall|a: int, b: int| 0 <= a < b < s.len() ==> s[a] < s[b]
}

/// Ordered-set duplicate scan for larger batches: keeps the slots seen so
/// far sorted and looks each new slot up before inserting it. Gives the
/// same verdict as the pairwise scan on every input.
pub fn has_duplicate_sorted(slots: &Vec<u64>) -> (r: bool)
    ensures
        r == has_dup(slots@),
{
    let mut seen: Vec<u64> = Vec::new();
    let n = slots.len();
    let mut i: usize = 0;
    while i < n
        invariant
            i <= n,
            n == slots@.len(),
            sorted_strict(seen@),
            forall|k: int| 0 <= k < i ==> seen@.contains(#[trigger] slots@[k]),
            forall|q: int| 0 <= q < seen@.len() ==> slots@.take(i as int).contains(#[trigger] seen@[q]),
            !has_dup(slots@.take(i as int)),
        decreases n - i,
    {
        let v = slots[i];
        let mut p: usize = 0;
        while p < seen.len() && seen[p] < v
            invariant
                p <= seen@.len(),
                forall|q: int| 0 <= q < p ==> seen@[q] < v,
            decreases seen@.len() - p,
        {
            p = p + 1;
        }
        if p < seen.len() && seen[p] == v {
            proof {
                assert(slots@.take(i as int).contains(seen@[p as int]));
                let k = choose|k: int|
                    0 <= k < i && slots@.take(i as int)[k] == seen@[p as int];
                assert(slots@[k] == slots@[i as int]);
                assert(has_dup(slots@));
            }
            return true;
        }
        proof {
            assert forall|q: int| 0 <= q < seen@.len() implies seen@[q] != v by {
                if q >= p {
                    assert(seen@[p as int] <= seen@[q]);
                }
            }
        }
        let ghost old_seen = seen@;
        seen.insert(p, v);
        proof {
            assert(seen@ == old_seen.insert(p as int, v));
            assert forall|a: int, b: int| 0 <= a < b < seen@.len() implies seen@[a] < seen@[b] by {
                assert(seen@[a] == if a < p {
                    old_seen[a]
                } else if a == p {
                    v
                } else {
                    old_seen[a - 1]
                });
                assert(seen@[b] == if b < p {
                    old_seen[b]
                } else if b == p {
                    v
                } else {
                    old_seen[b - 1]
                });
            }
            assert(slots@.take(i as int + 1) == slots@.take(i as int).push(slots@[i as int]));
            assert forall|k: int| 0 <= k < i + 1 implies seen@.contains(#[trigger] slots@[k]) by {
                if k < i {
                    assert(old_seen.contains(slots@[k]));
                    let q = choose|q: int| 0 <= q < old_seen.len() && old_seen[q] == slots@[k];
                    if q < p {
                        assert(seen@[q] == slots@[k]);
                    } else {
                        assert(seen@[q + 1] == slots@[k]);
                    }
                } else {
                    assert(seen@[p as int] == v);
                }
            }
            assert forall|q: int| 0 <= q < seen@.len() implies slots@.take(i as int + 1).contains(
                #[trigger] seen@[q],
            ) by {
                if q < p {
                    assert(old_seen[q] == seen@[q]);
                    let k = choose|k: int|
                        0 <= k < i && slots@.take(i as int)[k] == old_seen[q];
                    assert(slots@.take(i as int + 1)[k] == seen@[q]);
                } else if q == p {
                    assert(slots@.take(i as int + 1)[i as int] == v);
                } else {
                    assert(old_seen[q - 1] == seen@[q]);
                    let k = choose|k: int|
                        0 <= k < i && slots@.take(i as int)[k] == old_seen[q - 1];
                    assert(slots@.take(i as int + 1)[k] == seen@[q]);
                }
            }
            assert forall|a: int, b: int|
                0 <= a < b < i + 1 implies slots@[a] != slots@[b] by {
                if b == i {
                    assert(seen@.contains(slots@[a]));
                    if slots@[a] == v {
                        let q = choose|q: int| 0 <= q < seen@.len() && seen@[q] == slots@[a];
                        if q != p {
                            assert(old_seen[if q < p {
                                q
                            } else {
                                q - 1
                            }] == v);
                        }
                    }
                } else {
                    assert(slots@.take(i as int)[a] == slots@[a]);
                    assert(slots@.take(i as int)[b] == slots@[b]);
                    assert(!has_dup(slots@.take(i as int)));
                }
            }
        }
        i = i + 1;
    }
    proof {
        assert(slots@.take(n as int) == slots@);
    }
    false
}

/// Duplicate scan over one batch; small batches take the pairwise route,
/// large ones the ordered-set route. Both routes give the same verdict.
pub fn has_duplicate(slots: &Vec<u64>) -> (r: bool)
    ensures
        r == has_dup(slots@),
{
    if slots.len() <= 32 {
        has_duplicate_pairwise(slots)
    } else {
        has_duplicate_sorted(slots)
    }
}

fn all_slots_in_range(slots: &Vec<u64>, lo: u64, hi: u64) -> (r: bool)
    ensures
        r == all_in_range(slots@, lo, hi),
{
    let n = slots.len();
    let mut i: usize = 0;
    while i < n
        invariant
            i <= n,
            n == slots@.len(),
            forall|k: int| 0 <= k < i ==> lo <= #[trigger] slots@[k] < hi,
        decreases n - i,
    {
        let s = slots[i];
        if s < lo || s >= hi {
            return false;
        }
        i = i + 1;
    }
    true
}

/// Validates one batch against `[lo, hi)`: rejects a repeated slot first,
/// then any slot out of range; accepts exactly the clean batches.
pub fn validate_batch(slots: &Vec<u64>, lo: u64, hi: u64) -> (r: Result<(), GatekeeperError>)
    ensures
        match r {
            Ok(()) => batch_verdict(slots@, lo, hi) is None,
            Err(e) => batch_verdict(slots@, lo, hi) == Some(e),
        },
{
    if has_duplicate(slots) {
        return Err(GatekeeperError::DuplicateSlots);
    }
    if !all_slots_in_range(slots, lo, hi) {
        return Err(GatekeeperError::SlotOutOfRange);
    }
    Ok(())
}

/// Whether a batch contains a given slot value.
pub fn contains_slot(slots: &Vec<u64>, v: u64) -> (r: bool)
    ensures
        r == slots@.contains(v),
{
    let n = slots.len();
    let mut i: usize = 0;
    while i < n
        invariant
            i <= n,
            n == slots@.len(),
            forall|k: int| 0 <= k < i ==> slots@[k] != v,
        decreases n - i,
    {
        if slots[i] == v {
            return true;
        }
        i = i + 1;
    }
    false
}

/// One past the highest slot the record can currently track for `epoch`:
/// the window start plus one slot per payload bit, capped at the window end.
pub open spec fn max_trackable(d: Seq<u8>, epoch: u16) -> u64 {
    let bits = 8 * payload_len(d);
    let capped: int = if bits > SLOTS_PER_EPOCH {
        SLOTS_PER_EPOCH as int
    } else {
        bits
    };
    (spec_epoch_start(epoch) + capped) as u64
}

/// Whether some gate request hits a slot that would still be gated after
/// the ungate phase: gating such a slot is a duplicate-state conflict.
pub open spec fn gate_conflict(d: Seq<u8>, epoch: u16, gate: Seq<u64>, ungate: Seq<u64>) -> bool {
    exists|i: int|
        0 <= i < gate.len() && gated_off(d, gate[i] - spec_epoch_start(epoch)) && !ungate.contains(
            gate[i],
        )
}

/// Full verdict on one mutation call, in the order the checks run: batch
/// sizes, the empty no-op, record soundness, the record's epoch, minimum
/// payload size, the ungate batch, the batch of gate requests, and last
/// requests that conflict with already-gated slots.
pub open spec fn mutate_verdict(d: Seq<u8>, epoch: u16, gate: Seq<u64>, ungate: Seq<u64>) -> Option<
    GatekeeperError,
> {
    let lo = spec_epoch_start(epoch);
    let hi = max_trackable(d, epoch);
    if gate.len() > MAX_SLOTS_PER_TRANSACTION {
        Some(GatekeeperError::TooManySlots)
    } else if ungate.len() > MAX_SLOTS_PER_TRANSACTION {
        Some(GatekeeperError::TooManySlots)
    } else if gate.len() == 0 && ungate.len() == 0 {
        None
    } else if !valid_record(d) {
        Some(GatekeeperError::InvalidPda)
    } else if stored_epoch(d) != epoch {
        Some(GatekeeperError::EpochMismatch)
    } else if payload_len(d) < INITIAL_BITMAP_SIZE_BYTES {
        Some(GatekeeperError::InvalidPda)
    } else if batch_verdict(ungate, lo, hi) is Some {
        batch_verdict(ungate, lo, hi)
    } else if batch_verdict(gate, lo, hi) is Some {
        batch_verdict(gate, lo, hi)
    } else if gate_conflict(d, epoch, gate, ungate) {
        Some(GatekeeperError::DuplicateSlots)
    } else {
        None
    }
}

/// How an accepted mutation call changes the payload bits: a gated batch
/// slot reads back gated, an ungated one reads back ungated, and every
/// other bit and every header byte is untouched. Gates win over ungates
/// because the verdict admits no gate request left gated by the ungates.
pub open spec fn mutated_bits(
    old_d: Seq<u8>,
    new_d: Seq<u8>,
    epoch: u16,
    gate: Seq<u64>,
    ungate: Seq<u64>,
) -> bool {
    let lo = spec_epoch_start(epoch);
    &&& new_d.len() == old_d.len()
    &&& forall|i: int| 0 <= i < DATA_OFFSET ==> new_d[i] == old_d[i]
    &&& forall|o: int|
        0 <= o < 8 * payload_len(old_d) ==> gated_off(new_d, o) == (if gate.contains(
            (lo + o) as u64,
        ) {
            true
        } else if ungate.contains((lo + o) as u64) {
            false
        } else {
            gated_off(old_d, o)
        })
}

/// How many slots of a batch are gated in the record.
pub open spec fn count_gated(d: Seq<u8>, lo: u64, s: Seq<u64>) -> int
    decreases s.len(),
{
    if s.len() == 0 {
        0
    } else {
        count_gated(d, lo, s.drop_last()) + if gated_off(d, s.last() - lo) {
            1int
        } else {
            0int
        }
    }
}

proof fn lemma_take_succ_contains(s: Seq<u64>, i: int, v: u64)
    requires
        0 <= i < s.len(),
    ensures
        s.take(i + 1).contains(v) <==> (s.take(i).contains(v) || s[i] == v),
{
    if s.take(i + 1).contains(v) {
        let k = choose|k: int| 0 <= k < s.take(i + 1).len() && #[trigger] s.take(i + 1)[k] == v;
        if k < i {
            assert(s.take(i)[k] == v);
        }
    }
    if s.take(i).contains(v) {
        let k = choose|k: int| 0 <= k < s.take(i).len() && #[trigger] s.take(i)[k] == v;
        assert(s.take(i + 1)[k] == v);
    }
    if s[i] == v {
        assert(s.take(i + 1)[i] == v);
    }
}

proof fn lemma_count_gated_succ(d: Seq<u8>, lo: u64, s: Seq<u64>, i: int)
    requires
        0 <= i < s.len(),
    ensures
        count_gated(d, lo, s.take(i + 1)) == count_gated(d, lo, s.take(i)) + if gated_off(
            d,
            s[i] - lo,
        ) {
            1int
        } else {
            0int
        },
{
    assert(s.take(i + 1).drop_last() =~= s.take(i));
    assert(s.take(i + 1).last() == s[i]);
}

/// Applies one batched mutation: validates everything, then clears the
/// ungate bits, then sets the requested bits. All-or-nothing: on any error the
/// record is byte-for-byte unchanged, and the verdict says exactly which
/// error comes back on which input. On success the bits change exactly as
/// `mutated_bits` says, and the summary reports every gate request as added
/// and exactly the previously gated ungate requests as removed.
#[verifier::loop_isolation(false)]
pub fn mutate(
    d: &mut Vec<u8>,
    epoch: u16,
    slots_to_gate: &Vec<u64>,
    slots_to_ungate: &Vec<u64>,
) -> (r: Result<MutationSummary, GatekeeperError>)
    ensures
        r is Ok <==> mutate_verdict(old(d)@, epoch, slots_to_gate@, slots_to_ungate@) is None,
        match r {
            Ok(summary) => {
                &&& mutated_bits(old(d)@, final(d)@, epoch, slots_to_gate@, slots_to_ungate@)
                &&& valid_record(old(d)@) ==> valid_record(final(d)@)
                &&& summary.slots_added == slots_to_gate@.len()
                &&& summary.slots_removed == count_gated(
                    old(d)@,
                    spec_epoch_start(epoch),
                    slots_to_ungate@,
                )
                &&& summary.net_change == if summary.slots_added >= summary.slots_removed {
                    summary.slots_added - summary.slots_removed
                } else {
                    0
                }
            },
            Err(e) => {
                &&& final(d)@ == old(d)@
                &&& mutate_verdict(old(d)@, epoch, slots_to_gate@, slots_to_ungate@) == Some(e)
            },
        },
{
    if slots_to_gate.len() > MAX_SLOTS_PER_TRANSACTION {
        return Err(GatekeeperError::TooManySlots);
    }
    if slots_to_ungate.len() > MAX_SLOTS_PER_TRANSACTION {
        return Err(GatekeeperError::TooManySlots);
    }
    if slots_to_gate.len() == 0 && slots_to_ungate.len() == 0 {
        return Ok(MutationSummary { slots_added: 0, slots_removed: 0, net_change: 0 });
    }
    if !is_valid_record(d) {
        return Err(GatekeeperError::InvalidPda);
    }
    if read_stored_epoch(d) != epoch {
        return Err(GatekeeperError::EpochMismatch);
    }
    if d.len() - DATA_OFFSET < INITIAL_BITMAP_SIZE_BYTES {
        return Err(GatekeeperError::InvalidPda);
    }
    let lo = epoch_start(epoch);
    let plen = d.len() - DATA_OFFSET;
    let bits: u64 = 8 * (plen as u64);
    let capped: u64 = if bits > SLOTS_PER_EPOCH {
        SLOTS_PER_EPOCH
    } else {
        bits
    };
    let hi: u64 = lo + capped;
    proof {
        assert(hi == max_trackable(d@, epoch));
    }
    match validate_batch(slots_to_ungate, lo, hi) {
        Err(e) => {
            return Err(e);
        },
        Ok(()) => {},
    }
    match validate_batch(slots_to_gate, lo, hi) {
        Err(e) => {
            return Err(e);
        },
        Ok(()) => {},
    }
    // Conflict scan: a slot to gate that is gated now and not about to be
    // ungated aborts the call before any bit is written.
    let n_gate = slots_to_gate.len();
    let mut ci: usize = 0;
    while ci < n_gate
        invariant
            ci <= n_gate,
            n_gate == slots_to_gate@.len(),
            valid_record(d@),
            all_in_range(slots_to_gate@, lo, hi),
            lo == spec_epoch_start(epoch),
            hi == max_trackable(d@, epoch),
            capped == hi - lo,
            capped <= 8 * payload_len(d@),
            forall|k: int|
                0 <= k < ci ==> !(gated_off(d@, #[trigger] slots_to_gate@[k] - lo)
                    && !slots_to_ungate@.contains(slots_to_gate@[k])),
        decreases n_gate - ci,
    {
        let g = slots_to_gate[ci];
        let off = (g - lo) as usize;
        if payload_bit(d, off) {
            if !contains_slot(slots_to_ungate, g) {
                proof {
                    let ghost wi = ci as int;
                    assert(gated_off(d@, slots_to_gate@[wi] - lo) && !slots_to_ungate@.contains(
                        slots_to_gate@[wi],
                    ));
                    assert(gate_conflict(d@, epoch, slots_to_gate@, slots_to_ungate@));
                }
                return Err(GatekeeperError::DuplicateSlots);
            }
        }
        ci = ci + 1;
    }
    let ghost orig = d@;
    // Ungate phase.
    let n_ungate = slots_to_ungate.len();
    let mut removed: u16 = 0;
    let mut ui: usize = 0;
    while ui < n_ungate
        invariant
            ui <= n_ungate,
            n_ungate == slots_to_ungate@.len(),
            n_ungate <= MAX_SLOTS_PER_TRANSACTION,
            valid_record(d@),
            d@.len() == orig.len(),
            valid_record(orig),
            lo == spec_epoch_start(epoch),
            all_in_range(slots_to_ungate@, lo, hi),
            !has_dup(slots_to_ungate@),
            capped == hi - lo,
            capped <= 8 * payload_len(orig),
            forall|i: int| 0 <= i < DATA_OFFSET ==> d@[i] == orig[i],
            forall|o: int|
                0 <= o < 8 * payload_len(orig) ==> gated_off(d@, o) == (gated_off(orig, o)
                    && !slots_to_ungate@.take(ui as int).contains((lo + o) as u64)),
            removed == count_gated(orig, lo, slots_to_ungate@.take(ui as int)),
            removed <= ui,
        decreases n_ungate - ui,
    {
        let u = slots_to_ungate[ui];
        let off = (u - lo) as usize;
        proof {
            assert(lo <= u < hi);
            assert(off < 8 * payload_len(orig));
            assert((lo + off) as u64 == u);
            assert forall|k: int| 0 <= k < ui implies slots_to_ungate@[k] != u by {
                if slots_to_ungate@[k] == u {
                    let ghost wj = ui as int;
                    assert(0 <= k < wj && wj < slots_to_ungate@.len() && slots_to_ungate@[k]
                        == slots_to_ungate@[wj]);
                }
            }
            assert(!slots_to_ungate@.take(ui as int).contains(u)) by {
                if slots_to_ungate@.take(ui as int).contains(u) {
                    let k = choose|k: int|
                        0 <= k < ui && slots_to_ungate@.take(ui as int)[k] == u;
                    assert(slots_to_ungate@[k] == u);
                }
            }
        }
        let ghost pre = d@;
        proof {
            assert(forall|o: int|
                0 <= o < 8 * payload_len(orig) ==> #[trigger] gated_off(pre, o) == (gated_off(
                    orig,
                    o,
                ) && !slots_to_ungate@.take(ui as int).contains((lo + o) as u64)));
        }
        let was_gated = payload_bit(d, off);
        proof {
            assert(was_gated == gated_off(orig, off as int));
        }
        if was_gated {
            set_payload_bit(d, off, false);
            removed = removed + 1;
        }
        proof {
            lemma_count_gated_succ(orig, lo, slots_to_ungate@, ui as int);
            assert forall|o: int|
                0 <= o < 8 * payload_len(orig) implies gated_off(d@, o) == (gated_off(orig, o)
                    && !slots_to_ungate@.take(ui as int + 1).contains((lo + o) as u64)) by {
                lemma_take_succ_contains(slots_to_ungate@, ui as int, (lo + o) as u64);
                assert(lo + o <= u64::MAX);
                assert(gated_off(pre, o) == (gated_off(orig, o) && !slots_to_ungate@.take(
                    ui as int,
                ).contains((lo + o) as u64)));
                if o == off {
                    assert(slots_to_ungate@[ui as int] == (lo + o) as u64);
                    assert(slots_to_ungate@.take(ui as int + 1).contains((lo + o) as u64));
                    if was_gated {
                        assert(!gated_off(d@, o));
                    } else {
                        assert(gated_off(d@, o) == gated_off(pre, o));
                        assert(!gated_off(pre, o));
                    }
                } else {
                    assert((lo + o) as u64 != u);
                    assert(gated_off(d@, o) == gated_off(pre, o));
                }
            }
        }
        ui = ui + 1;
    }
    proof {
        assert(slots_to_ungate@.take(n_ungate as int) == slots_to_ungate@);
    }
    let ghost mid = d@;
    // Gate phase.
    let mut gi: usize = 0;
    while gi < n_gate
        invariant
            gi <= n_gate,
            n_gate == slots_to_gate@.len(),
            n_gate <= MAX_SLOTS_PER_TRANSACTION,
            valid_record(d@),
            d@.len() == mid.len(),
            mid.len() == orig.len(),
            valid_record(mid),
            lo == spec_epoch_start(epoch),
            all_in_range(slots_to_gate@, lo, hi),
            capped == hi - lo,
            capped <= 8 * payload_len(orig),
            forall|i: int| 0 <= i < DATA_OFFSET ==> d@[i] == mid[i],
            forall|o: int|
                0 <= o < 8 * payload_len(orig) ==> gated_off(d@, o) == (slots_to_gate@.take(
                    gi as int,
                ).contains((lo + o) as u64) || gated_off(mid, o)),
        decreases n_gate - gi,
    {
        let g = slots_to_gate[gi];
        let off = (g - lo) as usize;
        proof {
            assert(lo <= g < hi);
            assert(off < 8 * payload_len(orig));
            assert((lo + off) as u64 == g);
        }
        let ghost pre = d@;
        set_payload_bit(d, off, true);
        proof {
            assert forall|o: int|
                0 <= o < 8 * payload_len(orig) implies gated_off(d@, o) == (slots_to_gate@.take(
                    gi as int + 1,
                ).contains((lo + o) as u64) || gated_off(mid, o)) by {
                lemma_take_succ_contains(slots_to_gate@, gi as int, (lo + o) as u64);
                if o == off {
                    assert(slots_to_gate@[gi as int] == (lo + o) as u64);
                } else {
                    assert((lo + o) as u64 != g);
                    assert(gated_off(d@, o) == gated_off(pre, o));
                }
            }
        }
        gi = gi + 1;
    }
    proof {
        assert(slots_to_gate@.take(n_gate as int) == slots_to_gate@);
        assert(mutated_bits(orig, d@, epoch, slots_to_gate@, slots_to_ungate@)) by {
            assert forall|o: int|
                0 <= o < 8 * payload_len(orig) implies gated_off(d@, o) == (if slots_to_gate@.contains(
                    (lo + o) as u64,
                ) {
                    true
                } else if slots_to_ungate@.contains((lo + o) as u64) {
                    false
                } else {
                    gated_off(orig, o)
                }) by {
                assert(gated_off(d@, o) == (slots_to_gate@.contains((lo + o) as u64) || (gated_off(
                    orig,
                    o,
                ) && !slots_to_ungate@.contains((lo + o) as u64))));
            }
        }
    }
    let added: u16 = n_gate as u16;
    let net: u16 = if added >= removed {
        added - removed
    } else {
        0
    };
    Ok(MutationSummary { slots_added: added, slots_removed: removed, net_change: net })
}


} // verus!
