//! Bulk payload utilities: writing pre-computed bitmap bytes and clearing
//! the whole payload. Low-level companions to the batched mutation path.

use vstd::prelude::*;
use vstd::arithmetic::div_mod::lemma_fundamental_div_mod;
use crate::constants::{DATA_OFFSET, FULL_BITMAP_SIZE_BYTES};
use crate::errors::GatekeeperError;
use crate::record::{gated_off, nth_bit, payload_len};

verus! {

proof fn lemma_zero_byte_bit(j: u8)
    by (bit_vector)
    requires
        j < 8,
    ensures
        !nth_bit(0u8, j),
{
}

/// Writes a pre-computed chunk of bitmap bytes into the payload at byte
/// `offset`. An empty chunk is a no-op; a chunk larger than full coverage
/// or reaching past the record's end is rejected whole, with nothing
/// written.
#[verifier::loop_isolation(false)]
pub fn write_chunk(d: &mut Vec<u8>, offset: usize, chunk: &Vec<u8>) -> (r: Result<
    (),
    GatekeeperError,
>)
    ensures
        r is Ok <==> (chunk@.len() == 0 || (chunk@.len() <= FULL_BITMAP_SIZE_BYTES && DATA_OFFSET
            + offset + chunk@.len() <= old(d)@.len())),
        match r {
            Ok(()) => {
                &&& final(d)@.len() == old(d)@.len()
                &&& forall|i: int|
                    0 <= i < old(d)@.len() && !(DATA_OFFSET + offset <= i < DATA_OFFSET + offset
                        + chunk@.len()) ==> final(d)@[i] == old(d)@[i]
                &&& forall|k: int|
                    0 <= k < chunk@.len() ==> final(d)@[DATA_OFFSET + offset + k] == chunk@[k]
            },
            Err(e) => {
                &&& final(d)@ == old(d)@
                &&& e == GatekeeperError::SlotOutOfRange
            },
        },
{
    let n = chunk.len();
    if n == 0 {
        return Ok(());
    }
    if n > FULL_BITMAP_SIZE_BYTES {
        return Err(GatekeeperError::SlotOutOfRange);
    }
    if d.len() < DATA_OFFSET {
        return Err(GatekeeperError::SlotOutOfRange);
    }
    let space = d.len() - DATA_OFFSET;
    if offset > space || n > space - offset {
        return Err(GatekeeperError::SlotOutOfRange);
    }
    let ghost orig = d@;
    let mut k: usize = 0;
    while k < n
        invariant
            k <= n,
            d@.len() == orig.len(),
            forall|i: int|
                0 <= i < orig.len() && !(DATA_OFFSET + offset <= i < DATA_OFFSET + offset + k)
                    ==> d@[i] == orig[i],
            forall|j: int| 0 <= j < k ==> d@[DATA_OFFSET + offset + j] == chunk@[j],
        decreases n - k,
    {
        d[DATA_OFFSET + offset + k] = chunk[k];
        k = k + 1;
    }
    Ok(())
}

/// Zero-fills the whole payload, ungating every slot the record tracks.
/// The header is untouched; a buffer too short to be a record is refused.
#[verifier::loop_isolation(false)]
pub fn clear_payload(d: &mut Vec<u8>) -> (r: Result<(), GatekeeperError>)
    ensures
        r is Ok <==> old(d)@.len() >= DATA_OFFSET,
        match r {
            Ok(()) => {
                &&& final(d)@.len() == old(d)@.len()
                &&& forall|i: int| 0 <= i < DATA_OFFSET ==> final(d)@[i] == old(d)@[i]
                &&& forall|i: int| DATA_OFFSET <= i < final(d)@.len() ==> final(d)@[i] == 0
                &&& forall|o: int| 0 <= o < 8 * payload_len(final(d)@) ==> !gated_off(final(d)@, o)
            },
            Err(e) => {
                &&& final(d)@ == old(d)@
                &&& e == GatekeeperError::InvalidPda
            },
        },
{
    if d.len() < DATA_OFFSET {
        return Err(GatekeeperError::InvalidPda);
    }
    let n = d.len();
    let ghost orig = d@;
    let mut i: usize = DATA_OFFSET;
    while i < n
        invariant
            DATA_OFFSET <= i <= n,
            d@.len() == orig.len(),
            forall|j: int| 0 <= j < DATA_OFFSET ==> d@[j] == orig[j],
            forall|j: int| DATA_OFFSET <= j < i ==> d@[j] == 0,
        decreases n - i,
    {
        d[i] = 0;
        i = i + 1;
    }
    proof {
        assert forall|o: int| 0 <= o < 8 * payload_len(d@) implies !gated_off(d@, o) by {
            lemma_fundamental_div_mod(o, 8);
            assert(o / 8 < payload_len(d@)) by (nonlinear_arith)
                requires
                    o < 8 * payload_len(d@),
                    8 * (o / 8) + (o % 8) == o,
                    0 <= o % 8 < 8,
            ;
            assert(d@[DATA_OFFSET + o / 8] == 0);
            lemma_zero_byte_bit((o % 8) as u8);
        }
    }
    Ok(())
}

} // verus!
