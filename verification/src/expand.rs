//! Bounded, incremental growth of a record's payload toward full coverage.

use vstd::prelude::*;
use crate::constants::{DATA_OFFSET, FULL_BITMAP_SIZE_BYTES, MAX_GROWTH_PER_CALL};
use crate::errors::GatekeeperError;
use crate::record::{
    is_valid_record, payload_len, stored_epoch, stored_nonce, valid_record, write_stored_len,
};

verus! {

/// Payload size the record should reach: the caller's wish, capped at full
/// epoch coverage.
pub open spec fn expand_target(desired: int) -> int {
    if desired > FULL_BITMAP_SIZE_BYTES {
        FULL_BITMAP_SIZE_BYTES as int
    } else {
        desired
    }
}

/// Payload size one expansion call reaches from `cur` toward `desired`:
/// unchanged once the target is met, else grown by at most the per-call
/// quota.
pub open spec fn expand_step_len(cur: int, desired: int) -> int {
    let target = expand_target(desired);
    if cur >= target {
        cur
    } else if target - cur > MAX_GROWTH_PER_CALL {
        cur + MAX_GROWTH_PER_CALL
    } else {
        target
    }
}

/// The payload size the next expansion call will reach from `cur` bytes
/// toward `desired_len`. The host uses it to fund the storage deposit for
/// the new size before committing the resize: funding always precedes
/// growth, so a failed funding step leaves the size untouched.
pub fn expand_step_size(cur: usize, desired_len: usize) -> (r: usize)
    ensures
        r == expand_step_len(cur as int, desired_len as int),
        cur <= FULL_BITMAP_SIZE_BYTES ==> cur <= r <= FULL_BITMAP_SIZE_BYTES,
{
    let target = if desired_len > FULL_BITMAP_SIZE_BYTES {
        FULL_BITMAP_SIZE_BYTES
    } else {
        desired_len
    };
    if cur >= target {
        return cur;
    }
    let need = target - cur;
    if need > MAX_GROWTH_PER_CALL {
        cur + MAX_GROWTH_PER_CALL
    } else {
        target
    }
}

/// One bounded expansion step. Grows the payload by at most
/// `MAX_GROWTH_PER_CALL` bytes toward `desired_len` (itself capped at full
/// coverage), zero-fills exactly the new bytes, commits the new size to the
/// header's length field, and returns the payload size reached. A call made
/// at or past the target changes nothing; the payload never shrinks and
/// existing bytes are never touched. Callers reach full coverage by calling
/// again until the returned size equals their target.
pub fn expand(d: &mut Vec<u8>, desired_len: usize) -> (r: Result<usize, GatekeeperError>)
    ensures
        match r {
            Ok(new_len) => {
                &&& valid_record(old(d)@)
                &&& valid_record(final(d)@)
                &&& new_len == expand_step_len(payload_len(old(d)@), desired_len as int)
                &&& payload_len(final(d)@) == new_len
                &&& payload_len(old(d)@) <= new_len <= FULL_BITMAP_SIZE_BYTES
                &&& stored_epoch(final(d)@) == stored_epoch(old(d)@)
                &&& stored_nonce(final(d)@) == stored_nonce(old(d)@)
                &&& forall|i: int|
                    0 <= i < old(d)@.len() && !(12 <= i < 16) ==> final(d)@[i] == old(d)@[i]
                &&& forall|i: int| old(d)@.len() <= i < final(d)@.len() ==> final(d)@[i] == 0
                &&& payload_len(old(d)@) >= expand_target(desired_len as int) ==> final(d)@ == old(
                    d,
                )@
            },
            Err(e) => {
                &&& e == GatekeeperError::InvalidPda
                &&& !valid_record(old(d)@)
                &&& final(d)@ == old(d)@
            },
        },
        r is Ok <==> valid_record(old(d)@),
{
    if !is_valid_record(d) {
        return Err(GatekeeperError::InvalidPda);
    }
    let cur = d.len() - DATA_OFFSET;
    let target = if desired_len > FULL_BITMAP_SIZE_BYTES {
        FULL_BITMAP_SIZE_BYTES
    } else {
        desired_len
    };
    if cur >= target {
        return Ok(cur);
    }
    let need = target - cur;
    let grow = if need > MAX_GROWTH_PER_CALL {
        MAX_GROWTH_PER_CALL
    } else {
        need
    };
    let new_len = cur + grow;
    let ghost before = d@;
    let mut k: usize = 0;
    while k < grow
        invariant
            k <= grow,
            d@.len() == before.len() + k,
            forall|i: int| 0 <= i < before.len() ==> d@[i] == before[i],
            forall|i: int| before.len() <= i < d@.len() ==> d@[i] == 0,
        decreases grow - k,
    {
        d.push(0u8);
        k = k + 1;
    }
    let ghost grown = d@;
    write_stored_len(d, new_len);
    proof {
        assert forall|i: int| 0 <= i < before.len() && !(12 <= i < 16) implies d@[i] == before[i] by {
            assert(d@[i] == grown[i]);
        }
        assert forall|i: int| before.len() <= i < d@.len() implies d@[i] == 0 by {
            assert(d@[i] == grown[i]);
        }
    }
    Ok(new_len)
}

} // verus!
