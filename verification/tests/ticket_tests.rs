use blobtx::compose::make_blob;
use blobtx::errors::ExecError;
use blobtx::identity::IdentityAction;
use blobtx::machine::{run_transaction, ContractStateMachine};
use blobtx::model::{Blob, Calldata, ContractName, Identity, TxHash};
use blobtx::ticket::{TicketAppAction, TicketAppState};
use blobtx::token::SimpleTokenAction;

fn transfer_blob(token: &str, recipient: &str, amount: u128) -> Blob {
    let action = SimpleTokenAction::Transfer {
        recipient: recipient.to_string(),
        amount,
    };
    make_blob(ContractName(token.to_string()), None, None, &action)
}

fn verify_blob(provider: &str, account: &str) -> Blob {
    let action = IdentityAction::VerifyIdentity {
        account: account.to_string(),
        nonce: 0,
    };
    make_blob(ContractName(provider.to_string()), None, None, &action)
}

fn ticket_calldata(identity: &str, blobs: Vec<Blob>, index: u32) -> Calldata {
    Calldata {
        identity: Identity(identity.to_string()),
        tx_hash: TxHash("tx-4".to_string()),
        blobs,
        index,
        private_input: vec![],
        tx_ctx: None,
    }
}

fn fresh_sale() -> TicketAppState {
    TicketAppState::new(vec![], (ContractName("token".to_string()), 100))
}

#[test]
fn buying_without_the_transfer_blob_fails() {
    let mut sale = fresh_sale();
    let own = ContractName("tickets".to_string());
    let blobs = vec![verify_blob("identity", "bob.identity")];
    let calldata = ticket_calldata("bob.identity", blobs, 0);
    match sale.buy_ticket(&calldata, &own) {
        Err(ExecError::MissingExpectedBlob { target, .. }) => assert_eq!(target.0, "token"),
        other => panic!("unexpected result: {:?}", other),
    }
    assert!(sale.tickets.is_empty());
}

#[test]
fn buying_without_the_identity_blob_fails() {
    let mut sale = fresh_sale();
    let own = ContractName("tickets".to_string());
    let blobs = vec![transfer_blob("token", "tickets", 100)];
    let calldata = ticket_calldata("bob.identity", blobs, 0);
    match sale.buy_ticket(&calldata, &own) {
        Err(ExecError::MissingExpectedBlob { target, .. }) => assert_eq!(target.0, "bob.identity"),
        other => panic!("unexpected result: {:?}", other),
    }
}

#[test]
fn buying_with_both_blobs_succeeds_once() {
    let mut sale = fresh_sale();
    let own = ContractName("tickets".to_string());
    let blobs = vec![
        verify_blob("identity", "bob.identity"),
        transfer_blob("token", "tickets", 100),
    ];
    let calldata = ticket_calldata("bob.identity", blobs, 0);
    assert_eq!(
        sale.buy_ticket(&calldata, &own).unwrap(),
        "Ticket created for bob.identity"
    );
    assert_eq!(sale.tickets.len(), 1);
    assert_eq!(
        sale.has_ticket(&Identity("bob.identity".to_string())).unwrap(),
        "Ticket present for bob.identity"
    );

    // A second purchase by the same caller is rejected.
    match sale.buy_ticket(&calldata, &own) {
        Err(ExecError::InvariantViolation { message }) => {
            assert_eq!(message, "Ticket already present for bob.identity")
        }
        other => panic!("unexpected result: {:?}", other),
    }
    assert_eq!(sale.tickets.len(), 1);
}

#[test]
fn underpaying_for_a_ticket_fails() {
    let mut sale = fresh_sale();
    let own = ContractName("tickets".to_string());
    let blobs = vec![
        verify_blob("identity", "bob.identity"),
        transfer_blob("token", "tickets", 99),
    ];
    let calldata = ticket_calldata("bob.identity", blobs, 0);
    assert!(sale.buy_ticket(&calldata, &own).is_err());
}

#[test]
fn refund_returns_the_ticket_against_a_payback_blob() {
    let mut sale = fresh_sale();
    let own = ContractName("tickets".to_string());
    let buy_blobs = vec![
        verify_blob("identity", "bob.identity"),
        transfer_blob("token", "tickets", 100),
    ];
    sale.buy_ticket(&ticket_calldata("bob.identity", buy_blobs, 0), &own)
        .unwrap();

    // Refund without the payback blob fails.
    let calldata = ticket_calldata("bob.identity", vec![], 0);
    assert!(sale.refund_ticket(&calldata).is_err());

    let calldata = ticket_calldata(
        "bob.identity",
        vec![transfer_blob("token", "bob.identity", 100)],
        0,
    );
    sale.refund_ticket(&calldata).unwrap();
    assert!(sale.tickets.is_empty());
    assert!(sale.has_ticket(&Identity("bob.identity".to_string())).is_err());
}

#[test]
fn ticket_machine_runs_inside_the_envelope() {
    let mut sale = fresh_sale();
    let buy = TicketAppAction::BuyTicket {};
    let blobs = vec![
        verify_blob("identity", "bob.identity"),
        transfer_blob("token", "tickets", 100),
        buy.as_blob(ContractName("tickets".to_string()), None, None),
    ];
    let calldata = ticket_calldata("bob.identity", blobs, 2);
    let out = run_transaction(&mut sale, &calldata);
    assert!(out.success, "{}", out.message);
    assert_eq!(out.blob_index, 2);
    assert_eq!(sale.tickets.len(), 1);
}

#[test]
fn ticket_digest_round_trips() {
    let mut sale = fresh_sale();
    sale.tickets.push(Identity("bob".to_string()));
    let digest = sale.commit();
    let back = TicketAppState::from_digest(&digest).unwrap();
    assert_eq!(back.ticket_price.0 .0, "token");
    assert_eq!(back.ticket_price.1, 100);
    assert_eq!(back.tickets.len(), 1);
    assert_eq!(back.tickets[0].0, "bob");
    assert_eq!(back.commit().0, digest.0);
}
