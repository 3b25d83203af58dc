//! Binary layout of a gate-bitmap record and bit-level access to its payload.
//!
//! A record is a flat byte buffer: an 8-byte opaque tag, the epoch as a
//! little-endian `u16` at bytes 8..10, the derivation nonce at byte 10, one
//! padding byte, the payload length as a little-endian `u32` at bytes 12..16,
//! and the bit-packed payload from byte 16 on. Bit `i` of the payload
//! (least-significant bit first within each byte) stands for slot
//! `epoch_start + i`: set means gated.

use vstd::prelude::*;
use vstd::arithmetic::div_mod::lemma_fundamental_div_mod;
use crate::constants::{DATA_OFFSET, FULL_BITMAP_SIZE_BYTES};

verus! {

/// The epoch recorded in the header, read little-endian from bytes 8..10.
pub open spec fn stored_epoch(d: Seq<u8>) -> u16 {
    (d[8] + 256 * d[9]) as u16
}

/// The derivation nonce recorded in the header.
pub open spec fn stored_nonce(d: Seq<u8>) -> u8 {
    d[10]
}

/// The payload length recorded in the header, read little-endian from
/// bytes 12..16.
pub open spec fn stored_len(d: Seq<u8>) -> int {
    d[12] + 256 * d[13] + 65536 * d[14] + 16777216 * d[15]
}

/// Bytes available to the payload: everything past the fixed header.
pub open spec fn payload_len(d: Seq<u8>) -> int {
    d.len() - DATA_OFFSET
}

/// A structurally sound record: room for the header, a payload no larger
/// than full epoch coverage, and a length field that matches the actual
/// payload size. The capacity bound keeps `payload_len * 8` within the
/// epoch window at all times.
pub open spec fn valid_record(d: Seq<u8>) -> bool {
    &&& d.len() >= DATA_OFFSET
    &&& payload_len(d) <= FULL_BITMAP_SIZE_BYTES
    &&& stored_len(d) == payload_len(d)
}

/// Whether bit `i` (least-significant first) of byte `b` is set.
pub open spec fn nth_bit(b: u8, i: u8) -> bool {
    (b >> i) & 1 == 1
}

/// Whether payload bit `off` of the record is set, i.e. whether slot
/// `epoch_start + off` is gated.
pub open spec fn gated_off(d: Seq<u8>, off: int) -> bool {
    nth_bit(d[DATA_OFFSET + off / 8], (off % 8) as u8)
}

proof fn lemma_bit_or(b: u8, k: u8, j: u8)
    by (bit_vector)
    requires
        k < 8,
        j < 8,
    ensures
        nth_bit(b | (1u8 << k), j) == (nth_bit(b, j) || j == k),
{
}

proof fn lemma_bit_and_not(b: u8, k: u8, j: u8)
    by (bit_vector)
    requires
        k < 8,
        j < 8,
    ensures
        nth_bit(b & !(1u8 << k), j) == (nth_bit(b, j) && j != k),
{
}

proof fn lemma_byte_from_bits_listed(x: u8, y: u8)
    by (bit_vector)
    requires
        nth_bit(x, 0) == nth_bit(y, 0),
        nth_bit(x, 1) == nth_bit(y, 1),
        nth_bit(x, 2) == nth_bit(y, 2),
        nth_bit(x, 3) == nth_bit(y, 3),
        nth_bit(x, 4) == nth_bit(y, 4),
        nth_bit(x, 5) == nth_bit(y, 5),
        nth_bit(x, 6) == nth_bit(y, 6),
        nth_bit(x, 7) == nth_bit(y, 7),
    ensures
        x == y,
{
}

/// Two bytes that agree on all eight bits are equal.
pub proof fn lemma_byte_from_bits(x: u8, y: u8)
    requires
        forall|j: u8| j < 8 ==> nth_bit(x, j) == nth_bit(y, j),
    ensures
        x == y,
{
    lemma_byte_from_bits_listed(x, y);
}

/// Reads the epoch field of the header.
pub fn read_stored_epoch(d: &Vec<u8>) -> (r: u16)
    requires
        d@.len() >= DATA_OFFSET,
    ensures
        r == stored_epoch(d@),
{
    (d[8] as u16) + (d[9] as u16) * 256
}

/// Reads the nonce field of the header.
pub fn read_stored_nonce(d: &Vec<u8>) -> (r: u8)
    requires
        d@.len() >= DATA_OFFSET,
    ensures
        r == stored_nonce(d@),
{
    d[10]
}

/// Checks that a buffer is a structurally sound record.
pub fn is_valid_record(d: &Vec<u8>) -> (r: bool)
    ensures
        r == valid_record(d@),
{
    if d.len() < DATA_OFFSET {
        return false;
    }
    if d.len() - DATA_OFFSET > FULL_BITMAP_SIZE_BYTES {
        return false;
    }
    let len_field: usize = (d[12] as usize) + 256 * (d[13] as usize) + 65536 * (d[14] as usize)
        + 16777216 * (d[15] as usize);
    len_field == d.len() - DATA_OFFSET
}

/// Writes `len` into the header's length field, touching nothing else.
pub fn write_stored_len(d: &mut Vec<u8>, len: usize)
    requires
        old(d)@.len() >= DATA_OFFSET,
        len <= FULL_BITMAP_SIZE_BYTES,
    ensures
        final(d)@.len() == old(d)@.len(),
        stored_len(final(d)@) == len,
        forall|i: int| 0 <= i < final(d)@.len() && !(12 <= i < 16) ==> final(d)@[i] == old(d)@[i],
{
    d[12] = (len % 256) as u8;
    d[13] = ((len / 256) % 256) as u8;
    d[14] = 0;
    d[15] = 0;
    proof {
        lemma_fundamental_div_mod(len as int, 256);
    }
}

/// Reads payload bit `off`.
pub fn payload_bit(d: &Vec<u8>, off: usize) -> (r: bool)
    requires
        DATA_OFFSET + off / 8 < d@.len(),
    ensures
        r == gated_off(d@, off as int),
{
    let byte: u8 = d[DATA_OFFSET + off / 8];
    let k: u8 = (off % 8) as u8;
    (byte >> k) & 1 == 1
}

/// Sets or clears payload bit `off`, leaving every other bit and every
/// header byte as it was.
pub fn set_payload_bit(d: &mut Vec<u8>, off: usize, value: bool)
    requires
        valid_record(old(d)@),
        off < 8 * payload_len(old(d)@),
    ensures
        final(d)@.len() == old(d)@.len(),
        valid_record(final(d)@),
        stored_epoch(final(d)@) == stored_epoch(old(d)@),
        stored_nonce(final(d)@) == stored_nonce(old(d)@),
        forall|i: int|
            0 <= i < final(d)@.len() && i != DATA_OFFSET + (off as int) / 8 ==> final(d)@[i]
                == old(d)@[i],
        forall|o: int|
            0 <= o < 8 * payload_len(old(d)@) ==> gated_off(final(d)@, o) == (if o == off {
                value
            } else {
                gated_off(old(d)@, o)
            }),
{
    let ghost plen = payload_len(old(d)@);
    proof {
        lemma_fundamental_div_mod(off as int, 8);
        assert(off / 8 < plen) by (nonlinear_arith)
            requires
                off < 8 * plen,
                8 * (off as int / 8) + (off as int % 8) == off as int,
                0 <= off as int % 8 < 8,
        ;
    }
    let idx = DATA_OFFSET + off / 8;
    let k: u8 = (off % 8) as u8;
    let b = d[idx];
    let nb: u8 = if value {
        b | (1u8 << k)
    } else {
        b & !(1u8 << k)
    };
    d[idx] = nb;
    proof {
        assert forall|o: int| 0 <= o < 8 * payload_len(old(d)@) implies gated_off(d@, o) == (if o
            == off {
            value
        } else {
            gated_off(old(d)@, o)
        }) by {
            lemma_fundamental_div_mod(o, 8);
            assert(o / 8 < plen) by (nonlinear_arith)
                requires
                    o < 8 * plen,
                    8 * (o / 8) + (o % 8) == o,
                    0 <= o % 8 < 8,
            ;
            let j = (o % 8) as u8;
            if DATA_OFFSET + o / 8 == idx {
                if value {
                    lemma_bit_or(b, k, j);
                } else {
                    lemma_bit_and_not(b, k, j);
                }
                assert(o == off <==> (o / 8 == off as int / 8 && o % 8 == off as int % 8));
            } else {
                assert(d@[DATA_OFFSET + o / 8] == old(d)@[DATA_OFFSET + o / 8]);
            }
        }
    }
}

} // verus!
