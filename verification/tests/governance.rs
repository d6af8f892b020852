use stellar_swipe::governance::{
    add_signer, cancel_proposal, create_bridge_proposal, emergency_execute_proposal,
    execute_bridge_proposal, get_bridge_proposals, get_bridge_status, get_bridge_validators,
    get_governance_signers, get_pending_proposals, get_proposal_details, get_required_signatures,
    initialize_bridge, initialize_bridge_governance, is_signer, is_validator, remove_signer,
    rotate_bridge_signers, sign_bridge_proposal, BridgeSecurityConfig, BridgeStatus,
    GovernanceError, GovernanceStore, ProposalStatus, ProposalType, PROPOSAL_EXPIRY_SECONDS,
};
use stellar_swipe::types::Address;

const START: u64 = 1000;

fn addr(n: u128) -> Address {
    Address { is_contract: false, key_hi: 7, key_lo: n }
}

fn signers(count: u128, base: u128) -> Vec<Address> {
    (0..count).map(|i| addr(base + i)).collect()
}

fn security_config() -> BridgeSecurityConfig {
    BridgeSecurityConfig {
        max_transfer_amount: 1_000_000_000,
        daily_transfer_limit: 10_000_000_000,
        min_validator_signatures: 2,
        transfer_delay_seconds: 300,
    }
}

/// Five signers needing `required`, three validators needing two.
fn setup(required: u32) -> (GovernanceStore, Vec<Address>, Vec<Address>) {
    let mut store = GovernanceStore::new();
    let s = signers(5, 100);
    let v = signers(3, 200);
    initialize_bridge_governance(&mut store, 1, s.clone(), required).unwrap();
    initialize_bridge(&mut store, 1, v.clone(), 2, security_config()).unwrap();
    (store, s, v)
}

fn propose(store: &mut GovernanceStore, proposer: Address, t: ProposalType, what: &str) -> u64 {
    create_bridge_proposal(store, 1, proposer, t, String::from(what), START).unwrap()
}

#[test]
fn test_initialize_governance() {
    let mut store = GovernanceStore::new();
    let s = signers(5, 100);
    assert!(initialize_bridge_governance(&mut store, 1, s.clone(), 3).is_ok());
    assert_eq!(get_governance_signers(&store, 1).unwrap().len(), 5);
    assert_eq!(get_required_signatures(&store, 1).unwrap(), 3);
    // The first proposal gets id 1.
    let id = create_bridge_proposal(&mut store, 1, s[0], ProposalType::PauseBridge, String::from("p"), START);
    assert_eq!(id, Ok(1));
}

#[test]
fn test_initialize_governance_invalid_signatures() {
    let mut store = GovernanceStore::new();
    let s = signers(5, 100);
    assert_eq!(
        initialize_bridge_governance(&mut store, 1, s.clone(), 6),
        Err(GovernanceError::InvalidRequiredSignatures)
    );
    assert_eq!(
        initialize_bridge_governance(&mut store, 1, s, 0),
        Err(GovernanceError::InvalidRequiredSignatures)
    );
    assert_eq!(
        initialize_bridge_governance(&mut store, 1, Vec::new(), 1),
        Err(GovernanceError::SignersEmpty)
    );
    assert_eq!(get_required_signatures(&store, 1), Err(GovernanceError::GovernanceNotFound));
}

#[test]
fn test_initialize_bridge() {
    let mut store = GovernanceStore::new();
    let v = signers(3, 200);
    assert!(initialize_bridge(&mut store, 1, v.clone(), 2, security_config()).is_ok());
    assert_eq!(get_bridge_validators(&store, 1).unwrap().len(), 3);
    assert_eq!(get_bridge_status(&store, 1), Ok(BridgeStatus::Active));
    assert_eq!(
        initialize_bridge(&mut store, 2, v.clone(), 4, security_config()),
        Err(GovernanceError::InvalidMinValidatorSignatures)
    );
    assert_eq!(
        initialize_bridge(&mut store, 2, Vec::new(), 1, security_config()),
        Err(GovernanceError::ValidatorsEmpty)
    );
    assert_eq!(get_bridge_status(&store, 2), Err(GovernanceError::BridgeNotFound));
}

#[test]
fn test_create_proposal() {
    let (mut store, s, _) = setup(3);
    let id = propose(&mut store, s[0], ProposalType::AddValidator { validator: addr(999) }, "Add new validator");
    assert_eq!(id, 1);
    let p = get_proposal_details(&store, 1, id).unwrap();
    assert_eq!(p.id, 1);
    assert_eq!(p.proposer, s[0]);
    assert_eq!(p.status, ProposalStatus::Pending);
    assert_eq!(p.signatures, vec![s[0]]);
    assert_eq!(p.created_at, START);
    assert_eq!(p.expiry, START + PROPOSAL_EXPIRY_SECONDS);
    assert_eq!(p.description, "Add new validator");
}

#[test]
fn test_create_proposal_unauthorized() {
    let (mut store, _, _) = setup(3);
    let r = create_bridge_proposal(
        &mut store,
        1,
        addr(5555),
        ProposalType::AddValidator { validator: addr(999) },
        String::from("Add new validator"),
        START,
    );
    assert_eq!(r, Err(GovernanceError::NotAuthorizedSigner));
}

#[test]
fn proposal_validation_errors() {
    let (mut store, s, v) = setup(3);
    let make = |store: &mut GovernanceStore, t: ProposalType| {
        create_bridge_proposal(store, 1, s[0], t, String::from("x"), START)
    };
    assert_eq!(make(&mut store, ProposalType::AddValidator { validator: v[0] }), Err(GovernanceError::AlreadyAValidator));
    assert_eq!(make(&mut store, ProposalType::RemoveValidator { validator: addr(999) }), Err(GovernanceError::NotAValidator));
    assert_eq!(make(&mut store, ProposalType::UpdateRequiredSignatures { new_count: 6 }), Err(GovernanceError::InvalidSignatureCount));
    assert_eq!(make(&mut store, ProposalType::UpdateRequiredSignatures { new_count: 0 }), Err(GovernanceError::InvalidSignatureCount));
    assert_eq!(
        make(&mut store, ProposalType::EmergencyWithdraw { asset_id: String::from("XLM"), amount: 0, recipient: s[1] }),
        Err(GovernanceError::InvalidAmount)
    );
    // Nothing was proposed, so the next proposal still gets id 1.
    assert_eq!(make(&mut store, ProposalType::PauseBridge), Ok(1));
}

#[test]
fn remove_validator_refused_at_minimum() {
    let mut store = GovernanceStore::new();
    let s = signers(5, 100);
    let v = signers(2, 200);
    initialize_bridge_governance(&mut store, 1, s.clone(), 3).unwrap();
    initialize_bridge(&mut store, 1, v.clone(), 2, security_config()).unwrap();
    let r = create_bridge_proposal(&mut store, 1, s[0], ProposalType::RemoveValidator { validator: v[0] }, String::from("x"), START);
    assert_eq!(r, Err(GovernanceError::WouldDropBelowMinValidators));
}

#[test]
fn test_sign_proposal() {
    let (mut store, s, _) = setup(3);
    let id = propose(&mut store, s[0], ProposalType::AddValidator { validator: addr(999) }, "Add new validator");
    assert_eq!(sign_bridge_proposal(&mut store, 1, id, s[1], START), Ok(()));
    let p = get_proposal_details(&store, 1, id).unwrap();
    assert_eq!(p.signatures, vec![s[0], s[1]]);
    assert_eq!(p.status, ProposalStatus::Pending);
}

#[test]
fn test_sign_proposal_duplicate() {
    let (mut store, s, _) = setup(3);
    let id = propose(&mut store, s[0], ProposalType::AddValidator { validator: addr(999) }, "Add new validator");
    assert_eq!(sign_bridge_proposal(&mut store, 1, id, s[0], START), Err(GovernanceError::AlreadySigned));
}

#[test]
fn sign_by_outsider_refused() {
    let (mut store, s, _) = setup(3);
    let id = propose(&mut store, s[0], ProposalType::PauseBridge, "Pause");
    assert_eq!(sign_bridge_proposal(&mut store, 1, id, addr(5555), START), Err(GovernanceError::NotAuthorizedSigner));
    assert_eq!(sign_bridge_proposal(&mut store, 1, 42, s[1], START), Err(GovernanceError::ProposalNotFound));
    assert_eq!(sign_bridge_proposal(&mut store, 9, id, s[1], START), Err(GovernanceError::GovernanceNotFound));
}

#[test]
fn test_execute_proposal_add_validator() {
    let (mut store, s, _) = setup(3);
    let new_validator = addr(999);
    let id = propose(&mut store, s[0], ProposalType::AddValidator { validator: new_validator }, "Add new validator");
    sign_bridge_proposal(&mut store, 1, id, s[1], START).unwrap();
    sign_bridge_proposal(&mut store, 1, id, s[2], START).unwrap();
    let p = get_proposal_details(&store, 1, id).unwrap();
    assert_eq!(p.status, ProposalStatus::Executed);
    assert_eq!(p.executed_at, Some(START));
    let v = get_bridge_validators(&store, 1).unwrap();
    assert_eq!(v.len(), 4);
    assert!(v.contains(&new_validator));
}

#[test]
fn test_execute_proposal_remove_validator() {
    let (mut store, s, v) = setup(3);
    let gone = v[2];
    let id = propose(&mut store, s[0], ProposalType::RemoveValidator { validator: gone }, "Remove validator");
    sign_bridge_proposal(&mut store, 1, id, s[1], START).unwrap();
    sign_bridge_proposal(&mut store, 1, id, s[2], START).unwrap();
    assert_eq!(get_proposal_details(&store, 1, id).unwrap().status, ProposalStatus::Executed);
    let now = get_bridge_validators(&store, 1).unwrap();
    assert_eq!(now, vec![v[0], v[1]]);
    assert_eq!(is_validator(&store, 1, &gone), Ok(false));
}

#[test]
fn test_execute_proposal_pause_bridge() {
    let (mut store, s, _) = setup(3);
    let id = propose(&mut store, s[0], ProposalType::PauseBridge, "Pause bridge");
    sign_bridge_proposal(&mut store, 1, id, s[1], START).unwrap();
    sign_bridge_proposal(&mut store, 1, id, s[2], START).unwrap();
    assert_eq!(get_bridge_status(&store, 1), Ok(BridgeStatus::Paused));
}

#[test]
fn test_execute_proposal_unpause_bridge() {
    let (mut store, s, _) = setup(3);
    let pause = propose(&mut store, s[0], ProposalType::PauseBridge, "Pause bridge");
    sign_bridge_proposal(&mut store, 1, pause, s[1], START).unwrap();
    sign_bridge_proposal(&mut store, 1, pause, s[2], START).unwrap();
    assert_eq!(get_bridge_status(&store, 1), Ok(BridgeStatus::Paused));
    let id = propose(&mut store, s[0], ProposalType::UnpauseBridge, "Unpause bridge");
    sign_bridge_proposal(&mut store, 1, id, s[1], START).unwrap();
    sign_bridge_proposal(&mut store, 1, id, s[2], START).unwrap();
    assert_eq!(get_bridge_status(&store, 1), Ok(BridgeStatus::Active));
}

#[test]
fn test_execute_proposal_update_security_limits() {
    let (mut store, s, _) = setup(3);
    let new_limits = BridgeSecurityConfig {
        max_transfer_amount: 2_000_000_000,
        daily_transfer_limit: 20_000_000_000,
        min_validator_signatures: 3,
        transfer_delay_seconds: 600,
    };
    let id = propose(&mut store, s[0], ProposalType::UpdateSecurityLimits { new_limits }, "Update security limits");
    sign_bridge_proposal(&mut store, 1, id, s[1], START).unwrap();
    sign_bridge_proposal(&mut store, 1, id, s[2], START).unwrap();
    let b = store.bridges.iter().find(|b| b.bridge_id == 1).unwrap();
    assert_eq!(b.security_config.max_transfer_amount, 2_000_000_000);
    assert_eq!(b.security_config.daily_transfer_limit, 20_000_000_000);
}

#[test]
fn test_execute_proposal_update_required_signatures() {
    let (mut store, s, _) = setup(3);
    let id = propose(&mut store, s[0], ProposalType::UpdateRequiredSignatures { new_count: 4 }, "Update required signatures");
    sign_bridge_proposal(&mut store, 1, id, s[1], START).unwrap();
    sign_bridge_proposal(&mut store, 1, id, s[2], START).unwrap();
    assert_eq!(get_required_signatures(&store, 1), Ok(4));
}

#[test]
fn test_emergency_execute_proposal() {
    let (mut store, s, _) = setup(3);
    let id = propose(&mut store, s[0], ProposalType::PauseBridge, "Emergency pause");
    sign_bridge_proposal(&mut store, 1, id, s[1], START).unwrap();
    sign_bridge_proposal(&mut store, 1, id, s[2], START).unwrap();
    // The third signature already reached the threshold of three.
    assert_eq!(sign_bridge_proposal(&mut store, 1, id, s[3], START), Err(GovernanceError::ProposalNotPending));
    assert_eq!(get_proposal_details(&store, 1, id).unwrap().status, ProposalStatus::Executed);
}

#[test]
fn test_emergency_execute_insufficient_signatures() {
    let (mut store, s, _) = setup(5);
    let id = propose(&mut store, s[0], ProposalType::PauseBridge, "Emergency pause");
    sign_bridge_proposal(&mut store, 1, id, s[1], START).unwrap();
    sign_bridge_proposal(&mut store, 1, id, s[2], START).unwrap();
    // Three signatures meet the super-majority (5 * 75 / 100 = 3) but not the
    // bridge's own threshold of five, which the fast track still applies.
    assert_eq!(emergency_execute_proposal(&mut store, 1, id, START), Err(GovernanceError::InsufficientSignatures));
    assert_eq!(get_proposal_details(&store, 1, id).unwrap().status, ProposalStatus::Pending);
}

#[test]
fn emergency_needs_super_majority() {
    let (mut store, s, _) = setup(5);
    let id = propose(&mut store, s[0], ProposalType::PauseBridge, "Emergency pause");
    sign_bridge_proposal(&mut store, 1, id, s[1], START).unwrap();
    assert_eq!(emergency_execute_proposal(&mut store, 1, id, START), Err(GovernanceError::RequiresSuperMajority));
}

#[test]
fn emergency_runs_with_threshold_and_super_majority() {
    // Four signers needing four: 4 * 75 / 100 = 3 for the super-majority.
    let mut store = GovernanceStore::new();
    let s = signers(4, 100);
    initialize_bridge_governance(&mut store, 1, s.clone(), 4).unwrap();
    initialize_bridge(&mut store, 1, signers(3, 200), 2, security_config()).unwrap();
    let id = propose(&mut store, s[0], ProposalType::PauseBridge, "Emergency pause");
    sign_bridge_proposal(&mut store, 1, id, s[1], START).unwrap();
    sign_bridge_proposal(&mut store, 1, id, s[2], START).unwrap();
    assert_eq!(emergency_execute_proposal(&mut store, 1, id, START), Err(GovernanceError::InsufficientSignatures));
    sign_bridge_proposal(&mut store, 1, id, s[3], START).unwrap();
    assert_eq!(get_bridge_status(&store, 1), Ok(BridgeStatus::Paused));
}

#[test]
fn test_emergency_execute_non_emergency_proposal() {
    let (mut store, s, _) = setup(3);
    let id = propose(&mut store, s[0], ProposalType::AddValidator { validator: addr(999) }, "Add validator");
    sign_bridge_proposal(&mut store, 1, id, s[1], START).unwrap();
    sign_bridge_proposal(&mut store, 1, id, s[2], START).unwrap();
    // Already executed through the normal path.
    assert_eq!(emergency_execute_proposal(&mut store, 1, id, START), Err(GovernanceError::ProposalNotPending));
}

#[test]
fn emergency_refuses_ordinary_proposal() {
    let (mut store, s, _) = setup(5);
    let id = propose(&mut store, s[0], ProposalType::UnpauseBridge, "Unpause");
    for signer in &s[1..4] {
        sign_bridge_proposal(&mut store, 1, id, *signer, START).unwrap();
    }
    assert_eq!(emergency_execute_proposal(&mut store, 1, id, START), Err(GovernanceError::NotEmergencyProposal));
}

#[test]
fn test_cancel_proposal() {
    let (mut store, s, _) = setup(3);
    let id = propose(&mut store, s[0], ProposalType::AddValidator { validator: addr(999) }, "Add validator");
    assert_eq!(cancel_proposal(&mut store, 1, id, s[0]), Ok(()));
    assert_eq!(get_proposal_details(&store, 1, id).unwrap().status, ProposalStatus::Cancelled);
    assert_eq!(sign_bridge_proposal(&mut store, 1, id, s[1], START), Err(GovernanceError::ProposalNotPending));
    assert_eq!(cancel_proposal(&mut store, 1, id, s[0]), Err(GovernanceError::ProposalNotPending));
}

#[test]
fn test_cancel_proposal_not_proposer() {
    let (mut store, s, _) = setup(3);
    let id = propose(&mut store, s[0], ProposalType::AddValidator { validator: addr(999) }, "Add validator");
    assert_eq!(cancel_proposal(&mut store, 1, id, s[1]), Err(GovernanceError::OnlyProposerCanCancel));
}

#[test]
fn test_proposal_expiry() {
    let (mut store, s, _) = setup(3);
    let id = propose(&mut store, s[0], ProposalType::AddValidator { validator: addr(999) }, "Add validator");
    let late = START + PROPOSAL_EXPIRY_SECONDS + 1;
    assert_eq!(sign_bridge_proposal(&mut store, 1, id, s[1], late), Err(GovernanceError::ProposalExpired));
    assert_eq!(get_proposal_details(&store, 1, id).unwrap().status, ProposalStatus::Expired);
    // Exactly at the expiry it could still be signed.
    let id2 = propose(&mut store, s[0], ProposalType::PauseBridge, "Pause");
    assert_eq!(sign_bridge_proposal(&mut store, 1, id2, s[1], START + PROPOSAL_EXPIRY_SECONDS), Ok(()));
}

#[test]
fn test_get_pending_proposals() {
    let (mut store, s, _) = setup(3);
    for i in 0..3 {
        propose(&mut store, s[0], ProposalType::AddValidator { validator: addr(900 + i) }, "Add validator");
    }
    assert_eq!(get_pending_proposals(&store, 1).unwrap().len(), 3);
    cancel_proposal(&mut store, 1, 2, s[0]).unwrap();
    let ids: Vec<u64> = get_pending_proposals(&store, 1).unwrap().iter().map(|p| p.id).collect();
    assert_eq!(ids, vec![1, 3]);
}

#[test]
fn test_get_bridge_proposals() {
    let (mut store, s, _) = setup(3);
    for i in 0..5 {
        propose(&mut store, s[0], ProposalType::AddValidator { validator: addr(900 + i) }, "Add validator");
    }
    let ids: Vec<u64> = get_bridge_proposals(&store, 1, 3).unwrap().iter().map(|p| p.id).collect();
    assert_eq!(ids, vec![3, 4, 5]);
    assert_eq!(get_bridge_proposals(&store, 1, 50).unwrap().len(), 5);
    assert_eq!(get_bridge_proposals(&store, 1, 0).unwrap().len(), 0);
    assert_eq!(get_bridge_proposals(&store, 2, 3).unwrap_err(), GovernanceError::GovernanceNotFound);
}

#[test]
fn test_query_functions() {
    let (store, s, v) = setup(3);
    assert_eq!(get_bridge_status(&store, 1), Ok(BridgeStatus::Active));
    assert_eq!(get_bridge_validators(&store, 1).unwrap().len(), 3);
    assert_eq!(get_governance_signers(&store, 1).unwrap().len(), 5);
    assert_eq!(get_required_signatures(&store, 1), Ok(3));
    assert_eq!(is_signer(&store, 1, &s[0]), Ok(true));
    assert_eq!(is_signer(&store, 1, &addr(5555)), Ok(false));
    assert_eq!(is_validator(&store, 1, &v[0]), Ok(true));
    assert_eq!(is_validator(&store, 1, &addr(5555)), Ok(false));
}

#[test]
fn test_full_governance_workflow() {
    let (mut store, s, _) = setup(3);
    let new_validator = addr(999);
    let id = propose(&mut store, s[0], ProposalType::AddValidator { validator: new_validator }, "Add new validator");
    sign_bridge_proposal(&mut store, 1, id, s[1], START).unwrap();
    sign_bridge_proposal(&mut store, 1, id, s[2], START).unwrap();
    let p = get_proposal_details(&store, 1, id).unwrap();
    assert_eq!(p.status, ProposalStatus::Executed);
    assert!(p.executed_at.is_some());
    let v = get_bridge_validators(&store, 1).unwrap();
    assert_eq!(v.len(), 4);
    assert!(v.contains(&new_validator));
}

#[test]
fn test_concurrent_proposals() {
    let (mut store, s, _) = setup(3);
    let p1 = propose(&mut store, s[0], ProposalType::AddValidator { validator: addr(901) }, "Add validator 1");
    let p2 = propose(&mut store, s[0], ProposalType::AddValidator { validator: addr(902) }, "Add validator 2");
    sign_bridge_proposal(&mut store, 1, p1, s[1], START).unwrap();
    sign_bridge_proposal(&mut store, 1, p1, s[2], START).unwrap();
    sign_bridge_proposal(&mut store, 1, p2, s[1], START).unwrap();
    sign_bridge_proposal(&mut store, 1, p2, s[2], START).unwrap();
    assert_eq!(get_bridge_validators(&store, 1).unwrap().len(), 5);
}

#[test]
fn failed_action_leaves_proposal_pending() {
    // Two proposals add the same validator; the second fails when it runs.
    let (mut store, s, _) = setup(2);
    let p1 = propose(&mut store, s[0], ProposalType::AddValidator { validator: addr(901) }, "a");
    let p2 = propose(&mut store, s[0], ProposalType::AddValidator { validator: addr(901) }, "b");
    sign_bridge_proposal(&mut store, 1, p1, s[1], START).unwrap();
    assert_eq!(sign_bridge_proposal(&mut store, 1, p2, s[1], START), Err(GovernanceError::ValidatorAlreadyAdded));
    let p = get_proposal_details(&store, 1, p2).unwrap();
    assert_eq!(p.status, ProposalStatus::Pending);
    assert_eq!(p.signatures.len(), 2);
    assert_eq!(execute_bridge_proposal(&mut store, 1, p2, START), Err(GovernanceError::ValidatorAlreadyAdded));
}

#[test]
fn execute_checks_threshold_and_runs_once() {
    let (mut store, s, _) = setup(3);
    let id = propose(&mut store, s[0], ProposalType::PauseBridge, "Pause");
    assert_eq!(execute_bridge_proposal(&mut store, 1, id, START), Err(GovernanceError::InsufficientSignatures));
    sign_bridge_proposal(&mut store, 1, id, s[1], START).unwrap();
    sign_bridge_proposal(&mut store, 1, id, s[2], START).unwrap();
    assert_eq!(execute_bridge_proposal(&mut store, 1, id, START + 5), Err(GovernanceError::ProposalNotPending));
}

#[test]
fn signer_management() {
    let (mut store, s, _) = setup(5);
    assert_eq!(add_signer(&mut store, 1, s[0]), Err(GovernanceError::AlreadyASigner));
    assert_eq!(add_signer(&mut store, 1, addr(777)), Ok(()));
    assert_eq!(get_governance_signers(&store, 1).unwrap().len(), 6);
    assert_eq!(remove_signer(&mut store, 1, addr(778)), Err(GovernanceError::SignerNotFound));
    assert_eq!(remove_signer(&mut store, 1, s[1]), Ok(()));
    assert_eq!(is_signer(&store, 1, &s[1]), Ok(false));
    assert_eq!(remove_signer(&mut store, 1, s[2]), Err(GovernanceError::WouldDropBelowRequiredSignatures));
    assert_eq!(add_signer(&mut store, 3, addr(1)), Err(GovernanceError::GovernanceNotFound));
}

#[test]
fn rotate_signers_proposes_new_threshold() {
    let (mut store, s, _) = setup(3);
    assert_eq!(rotate_bridge_signers(&mut store, 1, s[0], Vec::new(), 1, START), Err(GovernanceError::SignersEmpty));
    assert_eq!(
        rotate_bridge_signers(&mut store, 1, s[0], signers(2, 300), 3, START),
        Err(GovernanceError::InvalidRequiredSignatures)
    );
    let id = rotate_bridge_signers(&mut store, 1, s[0], signers(4, 300), 4, START).unwrap();
    let p = get_proposal_details(&store, 1, id).unwrap();
    assert_eq!(p.description, "Rotate signers");
    assert!(matches!(p.proposal_type, ProposalType::UpdateRequiredSignatures { new_count: 4 }));
}

#[test]
fn error_messages_match_contract() {
    assert_eq!(GovernanceError::NotAuthorizedSigner.message(), "Not authorized signer");
    assert_eq!(GovernanceError::RequiresSuperMajority.message(), "Requires super-majority for emergency");
    assert_eq!(GovernanceError::ValidatorAlreadyAdded.message(), "Already validator");
}
