//! Errors the engine can surface to its callers.

use vstd::prelude::*;

verus! {

/// Every failure a gate operation can report. The fast-path query never
/// surfaces any of these: it fails open instead.
#[derive(Clone, Copy, Debug, PartialEq, Eq, Structural)]
pub enum GatekeeperError {
    /// The current slot is gated and the protected action must not proceed.
    SlotIsGated,
    /// The epoch stored in the record does not match the caller's epoch.
    EpochMismatch,
    /// The record is absent, malformed, or not a gate-bitmap record.
    InvalidPda,
    /// The record's epoch has not fully elapsed, so it cannot be closed.
    EpochNotFinished,
    /// A batch carries more slots than one call may submit.
    TooManySlots,
    /// A slot repeats within one batch, or a gate request hits a slot that
    /// is already gated.
    DuplicateSlots,
    /// A slot lies outside the epoch window or beyond the bytes the bitmap
    /// currently tracks; arithmetic overflow folds into this.
    SlotOutOfRange,
}

impl GatekeeperError {
    /// A short human-readable description of the error.
    pub fn message(&self) -> (r: &'static str)
    {
        match self {
            GatekeeperError::SlotIsGated => "the current slot is gated and cannot be used",
            GatekeeperError::EpochMismatch => "epoch in the record does not match the requested epoch",
            GatekeeperError::InvalidPda => "the record is absent or is not a valid gate bitmap",
            GatekeeperError::EpochNotFinished => "the epoch has not finished yet and cannot be closed",
            GatekeeperError::TooManySlots => "the provided list of slots exceeds the maximum allowed size",
            GatekeeperError::DuplicateSlots => "slot numbers must be unique within an epoch",
            GatekeeperError::SlotOutOfRange => "slot number is outside the acceptable range",
        }
    }
}

} // verus!
