use blobtx::balances::{Account, Balances, ContractFunction};
use blobtx::codec::{read_str, read_u128, read_u64, write_str, write_u128, write_u64};
use blobtx::compose::{expect_blob, make_blob, parse_blob};
use blobtx::machine::{run_transaction, ContractStateMachine};
use blobtx::model::{flatten_blobs, Blob, Calldata, ContractName, Identity, TxHash};
use blobtx::numeric::{collatz_next, fibonacci};
use blobtx::token::SimpleTokenAction;
use sha3::Digest;

#[test]
fn integers_round_trip_through_the_wire() {
    let mut out: Vec<u8> = Vec::new();
    write_u64(&mut out, 300_000_007);
    write_u128(&mut out, 5_000_000_000_000_000_000_000);
    write_str(&mut out, "héllo");
    let (x, j) = read_u64(out.as_slice(), 0).unwrap();
    assert_eq!(x, 300_000_007);
    let (y, j2) = read_u128(out.as_slice(), j).unwrap();
    assert_eq!(y, 5_000_000_000_000_000_000_000);
    let (s, j3) = read_str(out.as_slice(), j2).unwrap();
    assert_eq!(s, "héllo");
    assert_eq!(j3, out.len());
}

#[test]
fn truncated_input_is_rejected() {
    let mut out: Vec<u8> = Vec::new();
    write_str(&mut out, "héllo");
    out.pop();
    assert!(read_str(out.as_slice(), 0).is_none());
}

#[test]
fn flattened_blobs_carry_every_name_and_payload() {
    let blob = Blob {
        contract_name: ContractName("ab".to_string()),
        data: vec![1, 2],
    };
    let flat = flatten_blobs(&vec![blob]);
    let mut expected: Vec<u8> = Vec::new();
    expected.extend_from_slice(&2u64.to_le_bytes());
    expected.extend_from_slice(b"ab");
    expected.extend_from_slice(&2u64.to_le_bytes());
    expected.extend_from_slice(&[1, 2]);
    assert_eq!(flat, expected);
}

#[test]
fn trailing_bytes_make_a_blob_unparseable() {
    let action = SimpleTokenAction::Mint {
        recipient: "bob".to_string(),
        amount: 9,
    };
    let mut blob = make_blob(ContractName("token".to_string()), None, None, &action);
    blob.data.push(0);
    let parsed: Option<SimpleTokenAction> = parse_blob(&vec![blob], 0);
    assert!(parsed.is_none());
}

#[test]
fn a_built_blob_parses_back_to_its_action() {
    let action = SimpleTokenAction::Mint {
        recipient: "bob".to_string(),
        amount: 9,
    };
    let blob = make_blob(
        ContractName("token".to_string()),
        Some(2),
        Some(vec![0, 1]),
        &action,
    );
    let parsed: SimpleTokenAction = parse_blob(&vec![blob], 0).unwrap();
    match parsed {
        SimpleTokenAction::Mint { recipient, amount } => {
            assert_eq!(recipient, "bob");
            assert_eq!(amount, 9);
        }
        other => panic!("unexpected action: {:?}", other),
    }
}

#[test]
fn expecting_a_blob_checks_the_exact_action() {
    let action = SimpleTokenAction::Transfer {
        recipient: "amm".to_string(),
        amount: 5,
    };
    let blobs = vec![make_blob(ContractName("token".to_string()), None, None, &action)];
    assert!(expect_blob(&blobs, &ContractName("token".to_string()), &action).is_ok());

    let other_amount = SimpleTokenAction::Transfer {
        recipient: "amm".to_string(),
        amount: 6,
    };
    assert!(expect_blob(&blobs, &ContractName("token".to_string()), &other_amount).is_err());
    assert!(expect_blob(&blobs, &ContractName("tokes".to_string()), &action).is_err());
}

#[test]
fn balances_send_and_mint_conserve_the_sum() {
    let mut balances = Balances {
        accounts: vec![Account::new("faucet".to_string(), 1_000_000)],
    };
    balances.mint("ada", 300).unwrap();
    balances.send("ada", "bob", 120).unwrap();
    assert_eq!(balances.get_balance("faucet").unwrap(), 999_700);
    assert_eq!(balances.get_balance("ada").unwrap(), 180);
    assert_eq!(balances.get_balance("bob").unwrap(), 120);
    let total: u64 = balances.accounts.iter().map(|a| a.balance).sum();
    assert_eq!(total, 1_000_000);

    match balances.send("bob", "ada", 500) {
        Err(blobtx::errors::ExecError::InvariantViolation { message }) => {
            assert_eq!(message, "Not enough funds in account 'bob'")
        }
        other => panic!("unexpected result: {:?}", other),
    }
    match balances.get_balance("ghost") {
        Err(blobtx::errors::ExecError::InvariantViolation { message }) => {
            assert_eq!(message, "Account 'ghost' does not exist")
        }
        other => panic!("unexpected result: {:?}", other),
    }
    assert_eq!(balances.get_account_index("ada"), Some(1));
}

#[test]
fn balances_hash_is_the_sha3_of_names_and_big_endian_balances() {
    let balances = Balances {
        accounts: vec![
            Account::new("faucet".to_string(), 1_000_000),
            Account::new("ada".to_string(), 42),
        ],
    };
    let mut input: Vec<u8> = Vec::new();
    input.extend_from_slice(b"faucet");
    input.extend_from_slice(&1_000_000u64.to_be_bytes());
    input.extend_from_slice(b"ada");
    input.extend_from_slice(&42u64.to_be_bytes());
    let expected = sha3::Sha3_256::digest(&input).to_vec();
    assert_eq!(balances.hash(), expected);
}

#[test]
fn balances_machine_runs_inside_the_envelope() {
    let mut balances = Balances {
        accounts: vec![Account::new("faucet".to_string(), 1_000_000)],
    };
    let action = ContractFunction::Mint {
        to: "ada".to_string(),
        amount: 25,
    };
    let blob = make_blob(ContractName("erc20".to_string()), None, None, &action);
    let calldata = Calldata {
        identity: Identity("ada".to_string()),
        tx_hash: TxHash("tx-5".to_string()),
        blobs: vec![blob],
        index: 0,
        private_input: vec![],
        tx_ctx: None,
    };
    let out = run_transaction(&mut balances, &calldata);
    assert!(out.success, "{}", out.message);
    assert_eq!(out.message, "Minted 25 to ada");
    assert_eq!(balances.get_balance("ada").unwrap(), 25);
    // The commitment is the one-way digest of the account list.
    assert_eq!(out.next_state.0, balances.hash());
}

#[test]
fn a_structured_blob_keeps_its_caller_and_callees() {
    let action = SimpleTokenAction::Transfer {
        recipient: "amm".to_string(),
        amount: 3,
    };
    let blob = make_blob(
        ContractName("token".to_string()),
        Some(4),
        Some(vec![1, 2]),
        &action,
    );
    let parsed: blobtx::compose::StructuredBlobData<SimpleTokenAction> =
        blobtx::compose::parse_structured_blob(&vec![blob], 0).unwrap();
    assert_eq!(parsed.caller, Some(4));
    assert_eq!(parsed.callees, Some(vec![1, 2]));
    match parsed.parameters {
        SimpleTokenAction::Transfer { recipient, amount } => {
            assert_eq!(recipient, "amm");
            assert_eq!(amount, 3);
        }
        other => panic!("unexpected action: {:?}", other),
    }
}

#[test]
fn output_record_bytes_start_with_the_version() {
    let mut token = blobtx::token::SimpleToken::new(10, "faucet".to_string());
    let action = SimpleTokenAction::Transfer {
        recipient: "bob".to_string(),
        amount: 1,
    };
    let blob = make_blob(ContractName("token".to_string()), None, None, &action);
    let calldata = Calldata {
        identity: Identity("faucet".to_string()),
        tx_hash: TxHash("tx-6".to_string()),
        blobs: vec![blob],
        index: 0,
        private_input: vec![],
        tx_ctx: None,
    };
    let out = run_transaction(&mut token, &calldata);
    let bytes = out.to_bytes();
    assert_eq!(&bytes[0..8], &1u64.to_le_bytes());
    // The two digests follow, each length-prefixed.
    assert_eq!(
        &bytes[8..16],
        &(out.initial_state.0.len() as u64).to_le_bytes()
    );
}

#[test]
fn default_states_are_the_genesis_states() {
    let balances = Balances::default();
    assert_eq!(balances.get_balance("faucet").unwrap(), 1_000_000);
    let registry = blobtx::identity::IdentityContractState::default();
    assert!(registry.identities.is_empty());
    let amm = blobtx::amm::AmmState::default();
    assert!(amm.pairs.is_empty());
}

#[test]
fn fibonacci_matches_known_values() {
    assert_eq!(fibonacci(0), (0, true));
    assert_eq!(fibonacci(1), (1, true));
    assert_eq!(fibonacci(10), (55, true));
    assert_eq!(fibonacci(20), (6765, true));
}

#[test]
fn collatz_steps_follow_the_rule() {
    assert_eq!(collatz_next(6, 0), Some(3));
    assert_eq!(collatz_next(3, 0), Some(10));
    assert_eq!(collatz_next(1, 17), Some(17));
    assert_eq!(collatz_next(1, 0), None);
}
