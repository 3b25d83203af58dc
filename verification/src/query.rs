//! The fast-path validator: a minimal-read point query safe for untrusted
//! callers. It reads one byte of the record, never writes, never panics,
//! and treats every malformed or mismatched input as "not gated".

use vstd::prelude::*;
use crate::constants::DATA_OFFSET;
use crate::epoch::{epoch_start, spec_epoch_start};
use crate::errors::GatekeeperError;
use crate::record::nth_bit;

verus! {

/// What the minimal-read query answers on raw bytes: the slot sits at or
/// after the window start, its byte lies inside the record, and its bit is
/// set. A record too short to hold the byte reads as "not gated", so a
/// sound record (whose size matches its length field) answers "gated" only
/// for slots its payload actually tracks.
pub open spec fn fast_gated(d: Seq<u8>, epoch: u16, slot: u64) -> bool {
    let lo = spec_epoch_start(epoch);
    &&& slot >= lo
    &&& DATA_OFFSET + (slot - lo) / 8 < d.len()
    &&& nth_bit(d[DATA_OFFSET + (slot - lo) / 8], ((slot - lo) % 8) as u8)
}

/// Reads whether `slot` is gated in the record bytes, with every index
/// guarded: any slot before the window or beyond the stored bytes is
/// "not gated". Takes arbitrary bytes and never panics.
pub fn is_slot_gated_fast(d: &Vec<u8>, epoch: u16, slot: u64) -> (r: bool)
    ensures
        r == fast_gated(d@, epoch, slot),
{
    let lo = epoch_start(epoch);
    if slot < lo {
        return false;
    }
    let off = slot - lo;
    let byte_index = off / 8;
    let bit_index = (off % 8) as u8;
    let pos = (DATA_OFFSET as u64) + byte_index;
    if pos >= (d.len() as u64) {
        return false;
    }
    let b = d[pos as usize];
    (b >> bit_index) & 1 == 1
}

/// What the platform's deterministic handle derivation yields for a program
/// id, an owner, and an epoch: the 32-byte storage handle and its bump
/// nonce, or nothing in the statistically improbable case that no bump
/// yields a valid handle. A pure function of its three arguments.
pub uninterp spec fn handle_derivation(program_id: Seq<u8>, owner: Seq<u8>, epoch: u16) -> Option<
    (Seq<u8>, u8),
>;

/// Relies on `Pubkey::try_find_program_address` (solana-address, reached
/// through anchor_lang): a deterministic search over SHA-256 derivations of
/// the seeds — the fixed prefix `sandwich_validators`, the owner's 32 bytes
/// and the epoch's two little-endian bytes — against the program id; it
/// returns the first off-curve derived address with its bump, or `None`
/// when no bump works.
#[verifier::external_body]
fn derive_handle(program_id: &[u8; 32], owner: &[u8; 32], epoch: u16) -> (r: Option<([u8; 32], u8)>)
    ensures
        match r {
            Some((h, b)) => handle_derivation(program_id@, owner@, epoch) == Some((h@, b)),
            None => handle_derivation(program_id@, owner@, epoch) is None,
        },
{
    let pid = anchor_lang::prelude::Pubkey::new_from_array(*program_id);
    let epoch_bytes = epoch.to_le_bytes();
    let seeds: [&[u8]; 3] = [b"sandwich_validators", owner, &epoch_bytes];
    anchor_lang::prelude::Pubkey::try_find_program_address(&seeds, &pid).map(
        |pair: (anchor_lang::prelude::Pubkey, u8)| (pair.0.to_bytes(), pair.1),
    )
}

fn bytes32_eq(a: &[u8; 32], b: &[u8; 32]) -> (r: bool)
    ensures
        r == (a@ == b@),
{
    let mut i: usize = 0;
    while i < 32
        invariant
            i <= 32,
            forall|k: int| 0 <= k < i ==> a@[k] == b@[k],
        decreases 32 - i,
    {
        if a[i] != b[i] {
            return false;
        }
        i = i + 1;
    }
    proof {
        assert(a@ =~= b@);
    }
    true
}

/// The full fast-path answer: the handle the caller presented must equal
/// the one derived for (owner, epoch), and the slot's bit must be set. A
/// missing derivation or a mismatched handle reads as "not gated" whatever
/// the record holds.
pub open spec fn gate_verdict(
    program_id: Seq<u8>,
    owner: Seq<u8>,
    presented: Seq<u8>,
    epoch: u16,
    slot: u64,
    d: Seq<u8>,
) -> bool {
    match handle_derivation(program_id, owner, epoch) {
        Some((h, b)) => presented == h && fast_gated(d, epoch, slot),
        None => false,
    }
}

/// Answers "is this slot gated" for the hot path. `presented` is the
/// handle the caller's record claims; only a handle equal to the one
/// re-derived from `(owner, epoch)` can yield a "gated" verdict, so a
/// forged handle can never block an action. Fails open on every malformed
/// input and performs no writes.
pub fn is_gated(
    program_id: &[u8; 32],
    owner: &[u8; 32],
    presented: &[u8; 32],
    epoch: u16,
    slot: u64,
    d: &Vec<u8>,
) -> (r: bool)
    ensures
        r == gate_verdict(program_id@, owner@, presented@, epoch, slot, d@),
{
    match derive_handle(program_id, owner, epoch) {
        None => false,
        Some((h, _bump)) => {
            if !bytes32_eq(presented, &h) {
                false
            } else {
                is_slot_gated_fast(d, epoch, slot)
            }
        },
    }
}

/// The hot-path check as the dispatch surface reports it: `Ok` to proceed,
/// or the one gating error when the current slot is gated behind a valid
/// handle. Everything else fails open into `Ok`.
pub fn validate_slot(
    program_id: &[u8; 32],
    owner: &[u8; 32],
    presented: &[u8; 32],
    epoch: u16,
    slot: u64,
    d: &Vec<u8>,
) -> (r: Result<(), GatekeeperError>)
    ensures
        r is Ok <==> !gate_verdict(program_id@, owner@, presented@, epoch, slot, d@),
        r is Err ==> r == Err::<(), GatekeeperError>(GatekeeperError::SlotIsGated),
{
    if is_gated(program_id, owner, presented, epoch, slot, d) {
        Err(GatekeeperError::SlotIsGated)
    } else {
        Ok(())
    }
}

/// On a handle mismatch — or when no handle derives at all — the fast path
/// answers "not gated" regardless of the record's contents.
pub proof fn lemma_mismatched_handle_fails_open(
    program_id: Seq<u8>,
    owner: Seq<u8>,
    presented: Seq<u8>,
    epoch: u16,
    slot: u64,
    d: Seq<u8>,
)
    requires
        match handle_derivation(program_id, owner, epoch) {
            Some((h, b)) => presented != h,
            None => true,
        },
    ensures
        !gate_verdict(program_id, owner, presented, epoch, slot, d),
{
}

} // verus!
