use blobtx::compose::make_blob;
use blobtx::errors::ExecError;
use blobtx::machine::{run_transaction, ContractStateMachine};
use blobtx::model::{Calldata, ContractName, Identity, TxHash};
use blobtx::token::{SimpleToken, SimpleTokenAction};

fn token_calldata(identity: &str, blobs: Vec<blobtx::model::Blob>, index: u32) -> Calldata {
    Calldata {
        identity: Identity(identity.to_string()),
        tx_hash: TxHash("tx-1".to_string()),
        blobs,
        index,
        private_input: vec![],
        tx_ctx: None,
    }
}

#[test]
fn transfer_from_faucet_updates_both_balances() {
    let mut token = SimpleToken::new(1000, "faucet".to_string());
    let action = SimpleTokenAction::Transfer {
        recipient: "bob".to_string(),
        amount: 100,
    };
    let blob = make_blob(ContractName("token".to_string()), None, None, &action);
    let calldata = token_calldata("faucet", vec![blob], 0);

    let out = run_transaction(&mut token, &calldata);
    assert!(out.success);
    assert_eq!(out.message, "Transferred 100 from faucet to bob");
    assert_eq!(out.version, 1);
    assert_eq!(out.blob_index, 0);
    assert_eq!(token.balance_of("faucet").unwrap(), 900);
    assert_eq!(token.balance_of("bob").unwrap(), 100);
    assert_ne!(out.initial_state.0, out.next_state.0);
}

#[test]
fn transfer_more_than_balance_fails_and_leaves_digest() {
    let mut token = SimpleToken::new(100, "alice".to_string());
    let action = SimpleTokenAction::Transfer {
        recipient: "bob".to_string(),
        amount: 2000,
    };
    let blob = make_blob(ContractName("token".to_string()), None, None, &action);
    let calldata = token_calldata("alice", vec![blob], 0);

    let out = run_transaction(&mut token, &calldata);
    assert!(!out.success);
    assert!(out.message.contains("Insufficient balance"));
    assert_eq!(out.initial_state.0, out.next_state.0);
    assert_eq!(token.balance_of("alice").unwrap(), 100);

    // Failing a second time still leaves the digest where it was.
    let out2 = run_transaction(&mut token, &calldata);
    assert!(!out2.success);
    assert_eq!(out2.initial_state.0, out2.next_state.0);
    assert_eq!(out.initial_state.0, out2.next_state.0);
}

#[test]
fn transfer_from_unknown_account_fails() {
    let mut token = SimpleToken::new(50, "faucet".to_string());
    let r = token.transfer("nobody", "bob", 1);
    match r {
        Err(ExecError::InvariantViolation { message }) => {
            assert_eq!(message, "Account nobody not found");
        }
        other => panic!("unexpected result: {:?}", other),
    }
}

#[test]
fn transfer_conserves_the_sum_of_balances() {
    let mut token = SimpleToken::new(1000, "faucet".to_string());
    token.transfer("faucet", "bob", 100).unwrap();
    token.transfer("bob", "carol", 40).unwrap();
    let total: u128 = token.balances.iter().map(|e| e.1).sum();
    assert_eq!(total, 1000);
    assert_eq!(token.total_supply, 1000);
}

#[test]
fn mint_draws_from_the_faucet() {
    let mut token = SimpleToken::new(500, "faucet".to_string());
    token.mint("dora", 120).unwrap();
    assert_eq!(token.balance_of("faucet").unwrap(), 380);
    assert_eq!(token.balance_of("dora").unwrap(), 120);
    let total: u128 = token.balances.iter().map(|e| e.1).sum();
    assert_eq!(total, 500);
}

#[test]
fn token_digest_round_trips() {
    let mut token = SimpleToken::new(1000, "faucet".to_string());
    token.transfer("faucet", "bob", 123).unwrap();
    let digest = token.commit();
    let back = SimpleToken::from_digest(&digest).expect("a committed digest must decode");
    assert_eq!(back.total_supply, 1000);
    assert_eq!(back.faucet, "faucet");
    assert_eq!(back.balance_of("bob").unwrap(), 123);
    assert_eq!(back.commit().0, digest.0);
}

#[test]
fn token_digest_round_trips_beyond_ascii() {
    let token = SimpleToken::new(7, "Ωmega".to_string());
    let digest = token.commit();
    let back = SimpleToken::from_digest(&digest).unwrap();
    assert_eq!(back.faucet, "Ωmega");
    assert_eq!(back.balance_of("Ωmega").unwrap(), 7);
}

#[test]
fn garbage_bytes_are_no_token_digest() {
    let digest = blobtx::model::StateDigest(vec![7, 7, 7]);
    assert!(SimpleToken::from_digest(&digest).is_none());
}

#[test]
fn malformed_blob_fails_with_decode_error() {
    let mut token = SimpleToken::new(10, "faucet".to_string());
    let blob = blobtx::model::Blob {
        contract_name: ContractName("token".to_string()),
        data: vec![1, 2, 3],
    };
    let calldata = token_calldata("faucet", vec![blob], 0);
    let out = run_transaction(&mut token, &calldata);
    assert!(!out.success);
    assert_eq!(out.initial_state.0, out.next_state.0);
}

#[test]
fn missing_blob_index_fails_out_of_range() {
    let mut token = SimpleToken::new(10, "faucet".to_string());
    let calldata = token_calldata("faucet", vec![], 0);
    let r = token.execute(&calldata);
    match r {
        Err(ExecError::IndexOutOfRange) => {}
        other => panic!("unexpected result: {:?}", other),
    }
}

#[test]
fn self_transfer_changes_nothing() {
    let mut token = SimpleToken::new(10, "faucet".to_string());
    token.transfer("faucet", "faucet", 4).unwrap();
    assert_eq!(token.balance_of("faucet").unwrap(), 10);
}
