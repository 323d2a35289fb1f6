use blobtx::compose::make_blob;
use blobtx::errors::ExecError;
use blobtx::identity::{IdentityAction, IdentityContractState};
use blobtx::machine::{run_transaction, ContractStateMachine};
use blobtx::model::{Calldata, ContractName, Identity, TxHash};
use sha2::Digest;

fn identity_calldata(
    identity: &str,
    blobs: Vec<blobtx::model::Blob>,
    index: u32,
    secret: &str,
) -> Calldata {
    Calldata {
        identity: Identity(identity.to_string()),
        tx_hash: TxHash("tx-2".to_string()),
        blobs,
        index,
        private_input: secret.as_bytes().to_vec(),
        tx_ctx: None,
    }
}

#[test]
fn register_then_verify_increments_nonce_once() {
    let mut state = IdentityContractState::new();
    state.register_identity("alice", "secret").unwrap();
    assert_eq!(state.get_nonce("alice").unwrap(), 0);

    state.verify_identity("alice", 0, "secret").unwrap();
    assert_eq!(state.get_nonce("alice").unwrap(), 1);

    // Replaying the old nonce now fails and changes nothing.
    match state.verify_identity("alice", 0, "secret") {
        Err(ExecError::InvariantViolation { message }) => assert_eq!(message, "Invalid nonce"),
        other => panic!("unexpected result: {:?}", other),
    }
    assert_eq!(state.get_nonce("alice").unwrap(), 1);
}

#[test]
fn verify_with_wrong_secret_fails_without_mutation() {
    let mut state = IdentityContractState::new();
    state.register_identity("alice", "secret").unwrap();
    match state.verify_identity("alice", 0, "wrong") {
        Err(ExecError::InvariantViolation { message }) => {
            assert_eq!(message, "Invalid hash (wrong secret check)")
        }
        other => panic!("unexpected result: {:?}", other),
    }
    assert_eq!(state.get_nonce("alice").unwrap(), 0);
}

#[test]
fn register_twice_fails() {
    let mut state = IdentityContractState::new();
    state.register_identity("alice", "secret").unwrap();
    match state.register_identity("alice", "other") {
        Err(ExecError::InvariantViolation { message }) => {
            assert_eq!(message, "Identity already exists")
        }
        other => panic!("unexpected result: {:?}", other),
    }
}

#[test]
fn stored_hash_is_the_hex_sha256_of_account_and_secret() {
    let mut state = IdentityContractState::new();
    state.register_identity("alice", "pw").unwrap();
    let info = state.account_info("alice").unwrap();
    let expected = hex::encode(sha2::Sha256::digest("alice:pw".as_bytes()));
    assert_eq!(info.hash, expected);
    assert_eq!(info.nonce, 0);
}

#[test]
fn identity_machine_runs_inside_the_envelope() {
    let mut state = IdentityContractState::new();
    let register = IdentityAction::RegisterIdentity {
        account: "alice".to_string(),
    };
    let blob = make_blob(ContractName("identity".to_string()), None, None, &register);
    let calldata = identity_calldata("alice", vec![blob], 0, "secret");
    let out = run_transaction(&mut state, &calldata);
    assert!(out.success);

    let verify = IdentityAction::VerifyIdentity {
        account: "alice".to_string(),
        nonce: 0,
    };
    let blob = make_blob(ContractName("identity".to_string()), None, None, &verify);
    let calldata = identity_calldata("alice", vec![blob], 0, "secret");
    let out = run_transaction(&mut state, &calldata);
    assert!(out.success);
    assert_eq!(state.get_nonce("alice").unwrap(), 1);

    // The same verification replayed now fails with a stale nonce.
    let out = run_transaction(&mut state, &calldata);
    assert!(!out.success);
    assert_eq!(out.message, "Invalid nonce");
    assert_eq!(out.initial_state.0, out.next_state.0);
}

#[test]
fn identity_digest_round_trips() {
    let mut state = IdentityContractState::new();
    state.register_identity("alice", "pw").unwrap();
    state.register_identity("bob", "pw2").unwrap();
    state.verify_identity("bob", 0, "pw2").unwrap();
    let digest = state.commit();
    let back = IdentityContractState::from_digest(&digest).unwrap();
    assert_eq!(back.get_nonce("alice").unwrap(), 0);
    assert_eq!(back.get_nonce("bob").unwrap(), 1);
    assert_eq!(back.commit().0, digest.0);
}

#[test]
fn identity_id_pads_the_account_and_hashes_twice() {
    let id = IdentityContractState::build_identity_id("alice", "pw");
    let mut input: Vec<u8> = format!("{:0<64}:", "alice").into_bytes();
    input.extend_from_slice(&sha2::Sha256::digest("pw".as_bytes()));
    let expected = sha2::Sha256::digest(&input).to_vec();
    assert_eq!(id, expected);
}

#[test]
fn unknown_account_has_no_nonce() {
    let state = IdentityContractState::new();
    assert_eq!(state.get_nonce("ghost"), Err("Identity not found"));
}
