//! Epoch arithmetic: pure maps between absolute slots and window offsets.

use vstd::prelude::*;
use crate::constants::SLOTS_PER_EPOCH;

verus! {

/// First slot of an epoch's window. Never overflows: the largest epoch
/// times the window size stays far below `u64::MAX`.
pub open spec fn spec_epoch_start(epoch: u16) -> u64 {
    (epoch * SLOTS_PER_EPOCH) as u64
}

/// Whether an absolute slot lies inside an epoch's window.
pub open spec fn slot_in_window(epoch: u16, slot: u64) -> bool {
    spec_epoch_start(epoch) <= slot < spec_epoch_start(epoch) + SLOTS_PER_EPOCH
}

/// Computes the first slot of an epoch's window.
pub fn epoch_start(epoch: u16) -> (r: u64)
    ensures
        r == spec_epoch_start(epoch),
{
    (epoch as u64) * SLOTS_PER_EPOCH
}

/// Offset of a slot within an epoch's window, or `None` when the slot lies
/// outside it. All arithmetic is guarded; out-of-range is an answer, never
/// a wrap.
pub fn slot_offset(epoch: u16, slot: u64) -> (r: Option<u64>)
    ensures
        match r {
            Some(off) => slot_in_window(epoch, slot) && off == slot - spec_epoch_start(epoch),
            None => !slot_in_window(epoch, slot),
        },
{
    let start = epoch_start(epoch);
    if slot < start {
        return None;
    }
    let off = slot - start;
    if off >= SLOTS_PER_EPOCH {
        return None;
    }
    Some(off)
}

} // verus!
