use blobtx::amm::{AmmAction, AmmState, UnorderedTokenPair};
use blobtx::compose::make_blob;
use blobtx::errors::ExecError;
use blobtx::machine::{run_transaction, ContractStateMachine};
use blobtx::model::{Blob, Calldata, ContractName, Identity, TxHash};
use blobtx::token::SimpleTokenAction;

fn transfer_blob(token: &str, recipient: &str, amount: u128) -> Blob {
    let action = SimpleTokenAction::Transfer {
        recipient: recipient.to_string(),
        amount,
    };
    make_blob(ContractName(token.to_string()), None, None, &action)
}

fn amm_calldata(identity: &str, blobs: Vec<Blob>, index: u32) -> Calldata {
    Calldata {
        identity: Identity(identity.to_string()),
        tx_hash: TxHash("tx-3".to_string()),
        blobs,
        index,
        private_input: vec![],
        tx_ctx: None,
    }
}

fn listed_amm() -> AmmState {
    let pair = UnorderedTokenPair::new("tok-a".to_string(), "tok-b".to_string());
    AmmState::new(vec![(pair, (1000, 1000))])
}

#[test]
fn quote_follows_the_constant_product() {
    let amm = listed_amm();
    let quote = amm.get_paired_amount("tok-a".to_string(), "tok-b".to_string(), 100);
    // 1000 - (1000 * 1000) / 1100 = 1000 - 909 = 91
    assert_eq!(quote, Some(91));
}

#[test]
fn swap_inside_the_band_is_accepted() {
    let mut amm = listed_amm();
    let blobs = vec![
        transfer_blob("tok-a", "amm", 100),
        transfer_blob("tok-b", "user", 90),
    ];
    let calldata = amm_calldata("user", blobs, 0);
    let r = amm.verify_swap(
        &calldata,
        &ContractName("amm".to_string()),
        ("tok-a".to_string(), "tok-b".to_string()),
        100,
        90,
    );
    assert_eq!(r.unwrap(), "Swap of user tok-a for user tok-b is valid");
    // Reserves move by the paid amount and the full quote.
    assert_eq!(amm.pairs[0].1, (1100, 909));
}

#[test]
fn swap_above_the_quote_is_rejected() {
    let mut amm = listed_amm();
    let blobs = vec![
        transfer_blob("tok-a", "amm", 100),
        transfer_blob("tok-b", "user", 95),
    ];
    let calldata = amm_calldata("user", blobs, 0);
    let r = amm.verify_swap(
        &calldata,
        &ContractName("amm".to_string()),
        ("tok-a".to_string(), "tok-b".to_string()),
        100,
        95,
    );
    match r {
        Err(ExecError::InvariantViolation { message }) => assert_eq!(message, "Invalid swap"),
        other => panic!("unexpected result: {:?}", other),
    }
    assert_eq!(amm.pairs[0].1, (1000, 1000));
}

#[test]
fn swap_below_the_band_is_rejected() {
    let mut amm = listed_amm();
    let blobs = vec![
        transfer_blob("tok-a", "amm", 100),
        transfer_blob("tok-b", "user", 80),
    ];
    let calldata = amm_calldata("user", blobs, 0);
    let r = amm.verify_swap(
        &calldata,
        &ContractName("amm".to_string()),
        ("tok-a".to_string(), "tok-b".to_string()),
        100,
        80,
    );
    assert!(r.is_err());
    assert_eq!(amm.pairs[0].1, (1000, 1000));
}

#[test]
fn swap_without_the_inbound_transfer_is_rejected() {
    let mut amm = listed_amm();
    let blobs = vec![transfer_blob("tok-b", "user", 90)];
    let calldata = amm_calldata("user", blobs, 0);
    let r = amm.verify_swap(
        &calldata,
        &ContractName("amm".to_string()),
        ("tok-a".to_string(), "tok-b".to_string()),
        100,
        90,
    );
    match r {
        Err(ExecError::MissingExpectedBlob { target, .. }) => assert_eq!(target.0, "tok-a"),
        other => panic!("unexpected result: {:?}", other),
    }
}

#[test]
fn new_pair_needs_both_transfers_and_a_fresh_pair() {
    let mut amm = AmmState::new(vec![]);
    let own = ContractName("amm".to_string());
    let blobs = vec![
        transfer_blob("tok-a", "amm", 500),
        transfer_blob("tok-b", "amm", 600),
    ];
    let calldata = amm_calldata("user", blobs, 0);
    amm.create_new_pair(
        &calldata,
        &own,
        ("tok-a".to_string(), "tok-b".to_string()),
        (500, 600),
    )
    .unwrap();
    assert_eq!(amm.pairs.len(), 1);
    assert_eq!(amm.pairs[0].1, (500, 600));

    // The same pair cannot be listed twice, not even reversed.
    let r = amm.create_new_pair(
        &calldata,
        &own,
        ("tok-b".to_string(), "tok-a".to_string()),
        (600, 500),
    );
    match r {
        Err(ExecError::InvariantViolation { message }) => assert_eq!(message, "Pair already exists"),
        other => panic!("unexpected result: {:?}", other),
    }
}

#[test]
fn swapping_against_the_canonical_order_orients_the_reserves() {
    let pair = UnorderedTokenPair::new("alpha".to_string(), "beta".to_string());
    let mut amm = AmmState::new(vec![(pair, (2000, 1000))]);
    // The stand-alone quote always follows the canonical pair ordering:
    // 1000 - (2000 * 1000) / 2100 = 1000 - 952 = 48.
    let quote = amm.get_paired_amount("beta".to_string(), "alpha".to_string(), 100);
    assert_eq!(quote, Some(48));

    // A swap paying beta in is oriented: the quote comes out of the
    // alpha reserve as 2000 - (1000 * 2000) / 1100 = 2000 - 1818 = 182.

    let blobs = vec![
        transfer_blob("beta", "amm", 100),
        transfer_blob("alpha", "user", 180),
    ];
    let calldata = amm_calldata("user", blobs, 0);
    amm.verify_swap(
        &calldata,
        &ContractName("amm".to_string()),
        ("beta".to_string(), "alpha".to_string()),
        100,
        180,
    )
    .unwrap();
    assert_eq!(amm.pairs[0].1, (1818, 1100));
}

#[test]
fn amm_machine_runs_inside_the_envelope() {
    let mut amm = listed_amm();
    let action = AmmAction::Swap {
        pair: ("tok-a".to_string(), "tok-b".to_string()),
        amounts: (100, 90),
    };
    let blobs = vec![
        action.as_blob(ContractName("amm".to_string()), None, None),
        transfer_blob("tok-a", "amm", 100),
        transfer_blob("tok-b", "user", 90),
    ];
    let calldata = amm_calldata("user", blobs, 0);
    let out = run_transaction(&mut amm, &calldata);
    assert!(out.success, "{}", out.message);
    assert_eq!(amm.pairs[0].1, (1100, 909));
}

#[test]
fn amm_digest_round_trips() {
    let amm = listed_amm();
    let digest = amm.commit();
    let back = AmmState::from_digest(&digest).unwrap();
    assert_eq!(back.pairs.len(), 1);
    assert_eq!(back.pairs[0].1, (1000, 1000));
    assert_eq!(back.commit().0, digest.0);
}

#[test]
fn pair_names_are_normalized() {
    let p = UnorderedTokenPair::new("zeta".to_string(), "alpha".to_string());
    assert_eq!(p.a, "alpha");
    assert_eq!(p.b, "zeta");
}
