use saguaro_gatekeeper::errors::GatekeeperError;
use saguaro_gatekeeper::lifecycle::close_check;

#[test]
fn close_refuses_current_and_future_epochs() {
    // current epoch equal to the record's: still active
    assert_eq!(close_check(100, 100, 100).unwrap_err(), GatekeeperError::EpochNotFinished);
    // record epoch in the future of the clock: still active
    assert_eq!(close_check(100, 100, 99).unwrap_err(), GatekeeperError::EpochNotFinished);
    assert_eq!(close_check(100, 100, 0).unwrap_err(), GatekeeperError::EpochNotFinished);
}

#[test]
fn close_succeeds_on_strictly_past_epochs() {
    assert!(close_check(100, 100, 101).is_ok());
    assert!(close_check(0, 0, 1).is_ok());
    assert!(close_check(65535, 65535, 65536).is_ok());
}

#[test]
fn close_requires_matching_epochs() {
    assert_eq!(close_check(100, 99, 200).unwrap_err(), GatekeeperError::EpochMismatch);
    assert_eq!(close_check(99, 100, 200).unwrap_err(), GatekeeperError::EpochMismatch);
}

#[test]
fn error_messages_name_their_condition() {
    assert!(GatekeeperError::EpochNotFinished.message().contains("cannot be closed"));
    assert!(GatekeeperError::SlotIsGated.message().contains("gated"));
    assert!(GatekeeperError::DuplicateSlots.message().contains("unique"));
    assert!(GatekeeperError::TooManySlots.message().contains("maximum"));
    assert!(GatekeeperError::SlotOutOfRange.message().contains("range"));
    assert!(GatekeeperError::EpochMismatch.message().contains("epoch"));
    assert!(GatekeeperError::InvalidPda.message().contains("record"));
}
