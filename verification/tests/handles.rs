use anchor_lang::prelude::Pubkey;
use saguaro_gatekeeper::constants::SLOTS_PER_EPOCH;
use saguaro_gatekeeper::errors::GatekeeperError;
use saguaro_gatekeeper::lifecycle::create;
use saguaro_gatekeeper::mutate::mutate;
use saguaro_gatekeeper::query::{is_gated, validate_slot};

const TAG: [u8; 8] = [0xAA, 0xBB, 0xCC, 0xDD, 0xEE, 0xFF, 0x01, 0x02];

fn derive(program_id: &Pubkey, owner: &Pubkey, epoch: u16) -> (Pubkey, u8) {
    Pubkey::find_program_address(
        &[b"sandwich_validators", owner.as_ref(), &epoch.to_le_bytes()],
        program_id,
    )
}

#[test]
fn matching_handle_reports_gated_slots() {
    let program_id = Pubkey::new_from_array([7u8; 32]);
    let owner = Pubkey::new_from_array([9u8; 32]);
    let epoch: u16 = 100;
    let (pda, bump) = derive(&program_id, &owner, epoch);

    let mut d = create(epoch, bump, &TAG);
    let slot = (epoch as u64) * SLOTS_PER_EPOCH + 123;
    mutate(&mut d, epoch, &vec![slot], &vec![]).unwrap();

    let pid = program_id.to_bytes();
    let own = owner.to_bytes();
    let presented = pda.to_bytes();
    assert!(is_gated(&pid, &own, &presented, epoch, slot, &d));
    assert!(!is_gated(&pid, &own, &presented, epoch, slot + 1, &d));
    assert_eq!(
        validate_slot(&pid, &own, &presented, epoch, slot, &d).unwrap_err(),
        GatekeeperError::SlotIsGated
    );
    assert!(validate_slot(&pid, &own, &presented, epoch, slot + 1, &d).is_ok());
}

#[test]
fn mismatched_handle_always_reads_ungated() {
    let program_id = Pubkey::new_from_array([7u8; 32]);
    let owner = Pubkey::new_from_array([9u8; 32]);
    let epoch: u16 = 100;
    let (pda, bump) = derive(&program_id, &owner, epoch);

    let mut d = create(epoch, bump, &TAG);
    let slot = (epoch as u64) * SLOTS_PER_EPOCH + 123;
    mutate(&mut d, epoch, &vec![slot], &vec![]).unwrap();

    let pid = program_id.to_bytes();
    let own = owner.to_bytes();
    // presenting the owner key itself, or any forged handle, fails open
    assert!(!is_gated(&pid, &own, &own, epoch, slot, &d));
    let mut forged = pda.to_bytes();
    forged[31] = forged[31].wrapping_add(1);
    assert!(!is_gated(&pid, &own, &forged, epoch, slot, &d));
    assert!(validate_slot(&pid, &own, &forged, epoch, slot, &d).is_ok());
    // the handle for another epoch does not match either
    let (other_pda, _) = derive(&program_id, &owner, epoch + 1);
    assert!(!is_gated(&pid, &own, &other_pda.to_bytes(), epoch, slot, &d));
}
