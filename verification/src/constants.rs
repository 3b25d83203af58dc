//! Platform and format constants shared by every component.

use vstd::prelude::*;

verus! {

/// Number of slots in one epoch window.
pub const SLOTS_PER_EPOCH: u64 = 432000;

/// Bytes needed to track every slot of an epoch: one bit per slot.
pub const FULL_BITMAP_SIZE_BYTES: usize = 54000;

/// Payload size a freshly created record starts with, below full coverage.
pub const INITIAL_BITMAP_SIZE_BYTES: usize = 9000;

/// Upper bound on the number of slots one mutation batch may carry.
pub const MAX_SLOTS_PER_TRANSACTION: usize = 100;

/// Hard platform ceiling on how many bytes one expansion call may add.
pub const MAX_GROWTH_PER_CALL: usize = 10240;

/// Byte offset of the bitmap payload inside a record: an 8-byte record tag,
/// the epoch (2 bytes, little endian), the derivation nonce (1 byte), one
/// padding byte, and the payload length (4 bytes, little endian).
pub const DATA_OFFSET: usize = 16;

} // verus!
