//! Creation and closure of gate-bitmap records.

use vstd::prelude::*;
use vstd::arithmetic::div_mod::lemma_fundamental_div_mod;
use crate::constants::{DATA_OFFSET, INITIAL_BITMAP_SIZE_BYTES};
use crate::errors::GatekeeperError;
use crate::record::{
    gated_off, nth_bit, payload_len, stored_epoch, stored_nonce, valid_record, write_stored_len,
};

verus! {

proof fn lemma_zero_byte_bit(j: u8)
    by (bit_vector)
    requires
        j < 8,
    ensures
        !nth_bit(0u8, j),
{
}

/// Builds a fresh record for `epoch`: the given 8-byte tag, the header
/// fields, and an initial all-zero payload below full coverage. Every slot
/// starts ungated. The host decides whether a record may be created at the
/// derived handle; this only assembles the bytes.
pub fn create(epoch: u16, nonce: u8, tag: &[u8; 8]) -> (d: Vec<u8>)
    ensures
        valid_record(d@),
        d@.len() == DATA_OFFSET + INITIAL_BITMAP_SIZE_BYTES,
        stored_epoch(d@) == epoch,
        stored_nonce(d@) == nonce,
        d@[11] == 0,
        forall|i: int| 0 <= i < 8 ==> d@[i] == tag@[i],
        forall|o: int| 0 <= o < 8 * payload_len(d@) ==> !gated_off(d@, o),
{
    let mut d: Vec<u8> = Vec::new();
    let mut i: usize = 0;
    while i < 8
        invariant
            i <= 8,
            d@.len() == i,
            forall|j: int| 0 <= j < i ==> d@[j] == tag@[j],
        decreases 8 - i,
    {
        d.push(tag[i]);
        i = i + 1;
    }
    d.push((epoch % 256) as u8);
    d.push((epoch / 256) as u8);
    d.push(nonce);
    d.push(0u8);
    d.push(0u8);
    d.push(0u8);
    d.push(0u8);
    d.push(0u8);
    let ghost header = d@;
    proof {
        lemma_fundamental_div_mod(epoch as int, 256);
        assert(header[8] == (epoch % 256) as u8);
        assert(header[9] == (epoch / 256) as u8);
        assert(header[10] == nonce);
    }
    let mut k: usize = 0;
    while k < INITIAL_BITMAP_SIZE_BYTES
        invariant
            k <= INITIAL_BITMAP_SIZE_BYTES,
            d@.len() == DATA_OFFSET + k,
            d@.subrange(0, DATA_OFFSET as int) == header,
            forall|j: int| DATA_OFFSET <= j < d@.len() ==> d@[j] == 0,
        decreases INITIAL_BITMAP_SIZE_BYTES - k,
    {
        d.push(0u8);
        proof {
            assert(d@.subrange(0, DATA_OFFSET as int) == header);
        }
        k = k + 1;
    }
    let ghost before = d@;
    write_stored_len(&mut d, INITIAL_BITMAP_SIZE_BYTES);
    proof {
        assert forall|j: int| 0 <= j < DATA_OFFSET && !(12 <= j < 16) implies d@[j] == header[j] by {
            assert(d@[j] == before[j]);
            assert(header[j] == before.subrange(0, DATA_OFFSET as int)[j]);
        }
        assert forall|j: int| DATA_OFFSET <= j < d@.len() implies d@[j] == 0 by {
            assert(d@[j] == before[j]);
        }
        assert forall|o: int| 0 <= o < 8 * payload_len(d@) implies !gated_off(d@, o) by {
            lemma_fundamental_div_mod(o, 8);
            assert(o / 8 < payload_len(d@)) by (nonlinear_arith)
                requires
                    o < 8 * payload_len(d@),
                    8 * (o / 8) + (o % 8) == o,
                    0 <= o % 8 < 8,
            ;
            assert(d@[DATA_OFFSET + o / 8] == 0);
            lemma_zero_byte_bit((o % 8) as u8);
        }
        assert(d@[8] == header[8] && d@[9] == header[9] && d@[10] == header[10] && d@[11]
            == header[11]);
        assert forall|i: int| 0 <= i < 8 implies d@[i] == tag@[i] by {
            assert(d@[i] == header[i]);
            assert(header[i] == tag@[i]);
        }
        assert(stored_epoch(d@) == epoch);
        assert(stored_nonce(d@) == nonce);
    }
    d
}

/// Decides whether a record may be closed: the caller's epoch must match
/// the record's, and the record's epoch must lie strictly in the past.
pub open spec fn close_verdict(record_epoch: u16, epoch_to_close: u16, current_epoch: u64) -> Result<
    (),
    GatekeeperError,
> {
    if record_epoch != epoch_to_close {
        Err(GatekeeperError::EpochMismatch)
    } else if epoch_to_close as u64 >= current_epoch {
        Err(GatekeeperError::EpochNotFinished)
    } else {
        Ok(())
    }
}

/// Gate for reclaiming a record's storage. Succeeds exactly when the
/// requested epoch matches the record and has fully elapsed; the host
/// performs the actual reclaim only after this returns `Ok`.
pub fn close_check(record_epoch: u16, epoch_to_close: u16, current_epoch: u64) -> (r: Result<
    (),
    GatekeeperError,
>)
    ensures
        r == close_verdict(record_epoch, epoch_to_close, current_epoch),
{
    if record_epoch != epoch_to_close {
        return Err(GatekeeperError::EpochMismatch);
    }
    if epoch_to_close as u64 >= current_epoch {
        return Err(GatekeeperError::EpochNotFinished);
    }
    Ok(())
}

/// Closure succeeds exactly on a matching, strictly past epoch; a record
/// whose epoch has not elapsed is refused as still active.
pub proof fn lemma_close_only_past_epochs(record_epoch: u16, epoch_to_close: u16, current_epoch: u64)
    ensures
        close_verdict(record_epoch, epoch_to_close, current_epoch) is Ok <==> (record_epoch
            == epoch_to_close && (epoch_to_close as u64) < current_epoch),
        record_epoch == epoch_to_close && (epoch_to_close as u64) >= current_epoch
            ==> close_verdict(record_epoch, epoch_to_close, current_epoch) == Err::<
            (),
            GatekeeperError,
        >(GatekeeperError::EpochNotFinished),
{
}

} // verus!
