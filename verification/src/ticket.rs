//! The composed ticket sale: buying a ticket takes an identity
//! verification blob for the caller and a token transfer blob paying at
//! least the configured price to this contract, both found in the same
//! transaction; refunding takes a transfer blob paying the buyer back.

use vstd::prelude::*;

verus! {

use crate::action::ContractAction;
use crate::codec::{
    WireField, enc_str, enc_u64, dec_str, dec_u64, read_str, read_u64, write_str, write_u64,
    write_list, lemma_dec_str_at, lemma_dec_u64_at, lemma_enc_str_of_dec, lemma_enc_u64_of_dec,
    decode_record, enc_record, lemma_enc_record_injective, note_vec_len, lemma_dec_str_fits,
};
use crate::compose::{action_bytes, blob_matches, read_header};
use crate::errors::ExecError;
use crate::identity::IdentityAction;
use crate::keyed::{
    KeyedField, find_entry, unique_by_key, lemma_find_at_index, lemma_find_none_no_match,
    lemma_no_match_find_none, lemma_find_push, lemma_find_remove,
};
use crate::machine::ContractStateMachine;
use crate::model::{Blob, Calldata, ContractName, Identity, StateDigest};
use crate::text::{note_str_len, str_eq};
use crate::token::{SimpleTokenAction, expected_transfer_bytes};
use vstd::slice::slice_subrange;
use vstd::string::{StringExecFns, StringSliceAdditionalSpecFns};
use vstd::utf8::encode_utf8;

/// The ticket sale's state: the configured price in a configured token
/// contract, and who holds a ticket.
#[derive(Debug)]
pub struct TicketAppState {
    pub ticket_price: (ContractName, u128),
    pub tickets: Vec<Identity>,
}

/// A call on the ticket sale.
#[derive(Debug, Clone)]
pub enum TicketAppAction {
    BuyTicket {},
    RefundTicket {},
    HasTicket {},
}

impl KeyedField for Identity {
    type Key = Seq<char>;

    open spec fn key(self) -> Seq<char> {
        self@
    }
}

impl WireField for Identity {
    open spec fn eq_spec(self, other: Self) -> bool {
        self@ == other@
    }

    open spec fn wf(self) -> bool {
        encode_utf8(self@).len() <= u64::MAX
    }

    open spec fn enc_spec(self) -> Seq<u8> {
        enc_str(self@)
    }

    open spec fn parse_end(b: Seq<u8>, i: int) -> Option<int> {
        match dec_str(b, i) {
            Some((_, j)) => Some(j),
            None => None,
        }
    }

    proof fn lemma_parse_end_enc(b: Seq<u8>, i: int, x: Self) {
        lemma_dec_str_at(b, i, x@);
    }

    proof fn lemma_enc_injective(a: Self, b: Self) {
        let e = a.enc_spec();
        assert(e.subrange(0, e.len() as int) =~= e);
        lemma_dec_str_at(e, 0, a@);
        lemma_dec_str_at(e, 0, b@);
    }

    fn write(&self, out: &mut Vec<u8>) {
        write_str(out, self.0.as_str());
    }

    fn read_at(b: &[u8], i: usize) -> (r: Option<(Self, usize)>) {
        match read_str(b, i) {
            Some((name, j)) => {
                proof {
                    lemma_dec_str_fits(b@, i as int, name@, j as int);
                    lemma_enc_str_of_dec(b@, i as int, name@, j as int);
                }
                Some((Identity(name), j))
            },
            None => None,
        }
    }
}

/// Whether one blob carries an identity verification for `caller`,
/// whichever identity contract it is addressed to.
pub open spec fn id_blob_at(b: Blob, caller: Seq<char>) -> bool {
    exists|a: IdentityAction|
        {
            &&& (a matches IdentityAction::VerifyIdentity { account, .. } && account@ == caller)
            &&& a.wf()
            &&& (#[trigger] action_bytes(b.data@)) matches Some(rest) && rest == a.enc_spec()
        }
}

/// Whether the transaction carries an identity verification blob for
/// `caller`.
pub open spec fn identity_blob_present(blobs: Seq<Blob>, caller: Seq<char>) -> bool {
    exists|k: int| 0 <= k < blobs.len() && #[trigger] id_blob_at(blobs[k], caller)
}

/// A blob whose action bytes decode to anything but a verification for
/// `caller` carries no identity verification for `caller`.
proof fn lemma_not_id_blob(b: Blob, rest: Seq<u8>, caller: Seq<char>, decoded: Option<
    IdentityAction,
>)
    requires
        action_bytes(b.data@) == Some(rest),
        decoded is Some <==> IdentityAction::parses(rest),
        decoded matches Some(a2) ==> a2.enc_spec() == rest && a2.wf(),
        !(decoded matches Some(a2) && (a2 matches IdentityAction::VerifyIdentity { account, .. }
            && account@ == caller)),
    ensures
        !id_blob_at(b, caller),
{
    if id_blob_at(b, caller) {
        let a = choose|a: IdentityAction|
            {
                &&& (a matches IdentityAction::VerifyIdentity { account, .. } && account@
                    == caller)
                &&& a.wf()
                &&& (#[trigger] action_bytes(b.data@)) matches Some(r2) && r2 == a.enc_spec()
            };
        IdentityAction::lemma_parses_enc(a);
        let a2 = decoded.unwrap();
        IdentityAction::lemma_enc_injective(a, a2);
        assert(false);
    }
}

/// Finds whether any blob carries an identity verification for `caller`.
fn scan_identity_blob(blobs: &Vec<Blob>, caller: &Identity) -> (r: bool)
    ensures
        r == identity_blob_present(blobs@, caller@),
{
    let n = blobs.len();
    let mut k: usize = 0;
    while k < n
        invariant
            k <= n,
            n == blobs@.len(),
            forall|m: int| 0 <= m < k ==> !id_blob_at(#[trigger] blobs@[m], caller@),
        decreases n - k,
    {
        let data = blobs[k].data.as_slice();
        match read_header(data) {
            Some((_, _, j)) => {
                let rest = slice_subrange(data, j, data.len());
                let decoded = IdentityAction::decode(rest);
                let ghost gdecoded = decoded;
                match decoded {
                    Some(IdentityAction::VerifyIdentity { account, .. }) => {
                        if str_eq(account.as_str(), caller.0.as_str()) {
                            proof {
                                assert(id_blob_at(blobs@[k as int], caller@));
                            }
                            return true;
                        }
                        proof {
                            lemma_not_id_blob(blobs@[k as int], rest@, caller@, gdecoded);
                        }
                    },
                    _ => {
                        proof {
                            lemma_not_id_blob(blobs@[k as int], rest@, caller@, gdecoded);
                        }
                    },
                }
            },
            None => {},
        }
        k = k + 1;
    }
    false
}

/// Whether one blob pays at least `min_amount` of the token it is
/// addressed to into `recipient`.
pub open spec fn paying_blob_at(
    b: Blob,
    token: Seq<char>,
    recipient: Seq<char>,
    min_amount: u128,
) -> bool {
    exists|a: SimpleTokenAction|
        {
            &&& (a matches SimpleTokenAction::Transfer { recipient: rec, amount } && rec@
                == recipient && amount >= min_amount)
            &&& a.wf()
            &&& b.contract_name@ == token
            &&& (#[trigger] action_bytes(b.data@)) matches Some(rest) && rest == a.enc_spec()
        }
}

/// Whether the transaction carries a transfer blob paying at least
/// `min_amount` of the token named `token` to `recipient`.
pub open spec fn paying_blob_present(
    blobs: Seq<Blob>,
    token: Seq<char>,
    recipient: Seq<char>,
    min_amount: u128,
) -> bool {
    exists|k: int|
        0 <= k < blobs.len() && #[trigger] paying_blob_at(blobs[k], token, recipient, min_amount)
}

/// A blob whose action bytes decode to anything but a sufficient payment
/// to `recipient` pays no such amount.
proof fn lemma_not_paying_blob(
    b: Blob,
    rest: Seq<u8>,
    token: Seq<char>,
    recipient: Seq<char>,
    min_amount: u128,
    decoded: Option<SimpleTokenAction>,
)
    requires
        action_bytes(b.data@) == Some(rest),
        decoded is Some <==> SimpleTokenAction::parses(rest),
        decoded matches Some(a2) ==> a2.enc_spec() == rest && a2.wf(),
        !(decoded matches Some(a2) && (a2 matches SimpleTokenAction::Transfer {
            recipient: rec,
            amount,
        } && rec@ == recipient && amount >= min_amount) && b.contract_name@ == token),
    ensures
        !paying_blob_at(b, token, recipient, min_amount),
{
    if paying_blob_at(b, token, recipient, min_amount) {
        let a = choose|a: SimpleTokenAction|
            {
                &&& (a matches SimpleTokenAction::Transfer { recipient: rec, amount } && rec@
                    == recipient && amount >= min_amount)
                &&& a.wf()
                &&& b.contract_name@ == token
                &&& (#[trigger] action_bytes(b.data@)) matches Some(r2) && r2 == a.enc_spec()
            };
        SimpleTokenAction::lemma_parses_enc(a);
        let a2 = decoded.unwrap();
        SimpleTokenAction::lemma_enc_injective(a, a2);
        assert(false);
    }
}

/// Finds whether any blob pays at least `min_amount` of the token named
/// by `token` to `recipient`.
fn scan_paying_blob(
    blobs: &Vec<Blob>,
    token: &ContractName,
    recipient: &str,
    min_amount: u128,
) -> (r: bool)
    ensures
        r == paying_blob_present(blobs@, token@, recipient@, min_amount),
{
    let n = blobs.len();
    let mut k: usize = 0;
    while k < n
        invariant
            k <= n,
            n == blobs@.len(),
            forall|m: int|
                0 <= m < k ==> !paying_blob_at(#[trigger] blobs@[m], token@, recipient@, min_amount),
        decreases n - k,
    {
        let blob = &blobs[k];
        if str_eq(blob.contract_name.0.as_str(), token.0.as_str()) {
            let data = blob.data.as_slice();
            match read_header(data) {
                Some((_, _, j)) => {
                    let rest = slice_subrange(data, j, data.len());
                    let decoded = SimpleTokenAction::decode(rest);
                    let ghost gdecoded = decoded;
                    match decoded {
                        Some(SimpleTokenAction::Transfer { recipient: rec, amount }) => {
                            if str_eq(rec.as_str(), recipient) && amount >= min_amount {
                                proof {
                                    assert(paying_blob_at(
                                        blobs@[k as int],
                                        token@,
                                        recipient@,
                                        min_amount,
                                    ));
                                }
                                return true;
                            }
                            proof {
                                lemma_not_paying_blob(
                                    blobs@[k as int],
                                    rest@,
                                    token@,
                                    recipient@,
                                    min_amount,
                                    gdecoded,
                                );
                            }
                        },
                        _ => {
                            proof {
                                lemma_not_paying_blob(
                                    blobs@[k as int],
                                    rest@,
                                    token@,
                                    recipient@,
                                    min_amount,
                                    gdecoded,
                                );
                            }
                        },
                    }
                },
                None => {},
            }
        } else {
            proof {
                assert(!paying_blob_at(blobs@[k as int], token@, recipient@, min_amount));
            }
        }
        k = k + 1;
    }
    false
}

/// Whether these bytes encode an identity verification for `caller` at
/// nonce zero: what a missing-blob failure reports it scanned for.
pub open spec fn expected_verification_bytes(bytes: Seq<u8>, caller: Seq<char>) -> bool {
    exists|a: IdentityAction|
        {
            &&& (a matches IdentityAction::VerifyIdentity { account, nonce } && account@ == caller
                && nonce == 0)
            &&& bytes == #[trigger] a.enc_spec()
        }
}

/// Renders a fixed text followed by the caller's name.
fn message_for(prefix: &str, caller: &Identity) -> (r: String)
    ensures
        r@ == prefix@ + caller@,
{
    String::from_str(prefix).concat(caller.0.as_str())
}

/// Every held ticket's identity fits the wire.
pub open spec fn tickets_wf(tickets: Seq<Identity>) -> bool {
    forall|k: int| 0 <= k < tickets.len() ==> (#[trigger] tickets[k]).wf()
}

impl Default for TicketAppState {
    /// A sale with no holders and a zero price in an unnamed token.
    fn default() -> (r: TicketAppState)
        ensures
            r.tickets@.len() == 0,
            r.ticket_price.0@ == Seq::<char>::empty(),
            r.ticket_price.1 == 0,
    {
        TicketAppState { ticket_price: (ContractName(String::new()), 0), tickets: Vec::new() }
    }
}

impl TicketAppState {
    /// The state's invariant: ticket holders are unique and every string
    /// fits the wire.
    pub open spec fn wf(self) -> bool {
        &&& unique_by_key(self.tickets@)
        &&& tickets_wf(self.tickets@)
        &&& self.tickets@.len() <= u64::MAX
        &&& encode_utf8(self.ticket_price.0@).len() <= u64::MAX
    }

    /// Whether `who` holds a ticket.
    pub open spec fn spec_has_ticket(self, who: Seq<char>) -> bool {
        find_entry(self.tickets@, who) is Some
    }

    /// Creates the sale's state from the holders so far and the
    /// configured price.
    pub fn new(tickets: Vec<Identity>, ticket_price: (ContractName, u128)) -> (r: TicketAppState)
        ensures
            r.tickets@ == tickets@,
            r.ticket_price == ticket_price,
    {
        TicketAppState { tickets, ticket_price }
    }

    /// What `buy_ticket` returns and does: it fails, changing nothing,
    /// when the caller already holds a ticket, when no identity
    /// verification blob for the caller is present, or when no transfer
    /// blob pays at least the price to this contract in the configured
    /// token; otherwise the caller joins the holders.
    pub open spec fn buy_ens(
        pre: TicketAppState,
        post: TicketAppState,
        blobs: Seq<Blob>,
        caller: Seq<char>,
        own: Seq<char>,
        r: Result<String, ExecError>,
    ) -> bool {
        if find_entry(pre.tickets@, caller) is Some {
            &&& post == pre
            &&& r matches Err(ExecError::InvariantViolation { message }) && message@
                == "Ticket already present for "@ + caller
        } else if !identity_blob_present(blobs, caller) {
            &&& post == pre
            &&& (r matches Err(ExecError::MissingExpectedBlob { target, expected_action })
                && target@ == caller && expected_verification_bytes(expected_action@, caller))
        } else if !paying_blob_present(blobs, pre.ticket_price.0@, own, pre.ticket_price.1) {
            &&& post == pre
            &&& (r matches Err(ExecError::MissingExpectedBlob { target, expected_action })
                && target@ == pre.ticket_price.0@ && expected_transfer_bytes(
                expected_action@,
                own,
                pre.ticket_price.1,
            ))
        } else {
            &&& r matches Ok(m) && m@ == "Ticket created for "@ + caller
            &&& post.ticket_price == pre.ticket_price
            &&& post.tickets@.len() == pre.tickets@.len() + 1
            &&& post.tickets@.last()@ == caller
            &&& (forall|k: int|
                0 <= k < pre.tickets@.len() ==> #[trigger] post.tickets@[k] == pre.tickets@[k])
            &&& post.spec_has_ticket(caller)
            &&& forall|a: Seq<char>|
                a != caller ==> #[trigger] find_entry(post.tickets@, a) == find_entry(
                    pre.tickets@,
                    a,
                )
        }
    }

    /// Sells the caller a ticket, against an identity verification blob
    /// and a transfer blob paying at least the price to this contract.
    pub fn buy_ticket(&mut self, calldata: &Calldata, own_name: &ContractName) -> (r: Result<
        String,
        ExecError,
    >)
        requires
            (*old(self)).wf(),
        ensures
            (*final(self)).wf(),
            Self::buy_ens(
                *old(self),
                *final(self),
                calldata.blobs@,
                calldata.identity@,
                own_name@,
                r,
            ),
            r is Err ==> *final(self) == *old(self),
    {
        let caller = &calldata.identity;
        match find_ticket(&self.tickets, caller) {
            Some(_) => {
                return Err(
                    ExecError::InvariantViolation {
                        message: message_for("Ticket already present for ", caller),
                    },
                );
            },
            None => {},
        }
        if !scan_identity_blob(&calldata.blobs, caller) {
            let expected = IdentityAction::VerifyIdentity { account: caller.0.clone(), nonce: 0 };
            let ghost gexpected = expected;
            return Err(
                ExecError::MissingExpectedBlob {
                    target: ContractName(caller.0.clone()),
                    expected_action: expected.encode(),
                },
            );
        }
        if !scan_paying_blob(
            &calldata.blobs,
            &self.ticket_price.0,
            own_name.0.as_str(),
            self.ticket_price.1,
        ) {
            let expected = SimpleTokenAction::Transfer {
                recipient: own_name.0.clone(),
                amount: self.ticket_price.1,
            };
            let ghost gexpected = expected;
            return Err(
                ExecError::MissingExpectedBlob {
                    target: ContractName(self.ticket_price.0.0.clone()),
                    expected_action: expected.encode(),
                },
            );
        }
        note_str_len(caller.0.as_str());
        let entry = Identity(caller.0.clone());
        let ghost pre = self.tickets@;
        let ghost gentry = entry;
        proof {
            lemma_find_push(pre, gentry);
            lemma_find_none_no_match(pre, caller@);
        }
        self.tickets.push(entry);
        note_vec_len(&self.tickets);
        proof {
            let post = self.tickets@;
            assert(post =~= pre.push(gentry));
            assert(forall|k: int| 0 <= k < pre.len() ==> (#[trigger] post[k]) == pre[k]);
            assert(post[pre.len() as int] == gentry);
        }
        Ok(message_for("Ticket created for ", caller))
    }

    /// What `refund_ticket` returns and does: it fails, changing
    /// nothing, when the caller holds no ticket or when no transfer blob
    /// pays at least the price back to the caller in the configured
    /// token; otherwise the caller leaves the holders.
    pub open spec fn refund_ens(
        pre: TicketAppState,
        post: TicketAppState,
        blobs: Seq<Blob>,
        caller: Seq<char>,
        r: Result<String, ExecError>,
    ) -> bool {
        if find_entry(pre.tickets@, caller) is None {
            &&& post == pre
            &&& r matches Err(ExecError::InvariantViolation { message }) && message@
                == "Ticket not present for "@ + caller
        } else if !paying_blob_present(blobs, pre.ticket_price.0@, caller, pre.ticket_price.1) {
            &&& post == pre
            &&& (r matches Err(ExecError::MissingExpectedBlob { target, expected_action })
                && target@ == pre.ticket_price.0@ && expected_transfer_bytes(
                expected_action@,
                caller,
                pre.ticket_price.1,
            ))
        } else {
            &&& r matches Ok(m) && m@ == "Ticket refunded for "@ + caller
            &&& post.ticket_price == pre.ticket_price
            &&& post.tickets@.len() == pre.tickets@.len() - 1
            &&& (exists|i: int|
                {
                    &&& 0 <= i < pre.tickets@.len()
                    &&& (#[trigger] pre.tickets@[i])@ == caller
                    &&& (forall|m: int| 0 <= m < i ==> (#[trigger] pre.tickets@[m])@ != caller)
                    &&& post.tickets@ == pre.tickets@.remove(i)
                })
            &&& !post.spec_has_ticket(caller)
            &&& forall|a: Seq<char>|
                a != caller ==> #[trigger] find_entry(post.tickets@, a) == find_entry(
                    pre.tickets@,
                    a,
                )
        }
    }

    /// Refunds the caller's ticket, against a transfer blob paying the
    /// price back to the caller.
    pub fn refund_ticket(&mut self, calldata: &Calldata) -> (r: Result<String, ExecError>)
        requires
            (*old(self)).wf(),
        ensures
            (*final(self)).wf(),
            Self::refund_ens(
                *old(self),
                *final(self),
                calldata.blobs@,
                calldata.identity@,
                r,
            ),
            r is Err ==> *final(self) == *old(self),
    {
        let caller = &calldata.identity;
        let i = match find_ticket(&self.tickets, caller) {
            Some(i) => i,
            None => {
                return Err(
                    ExecError::InvariantViolation {
                        message: message_for("Ticket not present for ", caller),
                    },
                );
            },
        };
        if !scan_paying_blob(
            &calldata.blobs,
            &self.ticket_price.0,
            caller.0.as_str(),
            self.ticket_price.1,
        ) {
            let expected = SimpleTokenAction::Transfer {
                recipient: caller.0.clone(),
                amount: self.ticket_price.1,
            };
            let ghost gexpected = expected;
            return Err(
                ExecError::MissingExpectedBlob {
                    target: ContractName(self.ticket_price.0.0.clone()),
                    expected_action: expected.encode(),
                },
            );
        }
        let ghost pre = self.tickets@;
        proof {
            lemma_find_remove(pre, i as int);
        }
        self.tickets.remove(i);
        proof {
            let post = self.tickets@;
            assert(post == pre.remove(i as int));
            assert forall|k: int| 0 <= k < post.len() implies (#[trigger] post[k]).wf() by {
                if k < i {
                    assert(post[k] == pre[k]);
                } else {
                    assert(post[k] == pre[k + 1]);
                }
            }
            assert forall|p: int, q: int|
                #![trigger post[p], post[q]]
                0 <= p < q < post.len() implies post[p].key() != post[q].key() by {
                let p2: int = if p < i {
                    p
                } else {
                    p + 1
                };
                let q2: int = if q < i {
                    q
                } else {
                    q + 1
                };
                assert(post[p] == pre[p2]);
                assert(post[q] == pre[q2]);
            }
        }
        Ok(message_for("Ticket refunded for ", caller))
    }

    /// Reports whether the caller holds a ticket; a pure read that fails
    /// when they do not.
    pub fn has_ticket(&self, caller: &Identity) -> (r: Result<String, ExecError>)
        ensures
            self.spec_has_ticket(caller@) ==> (r matches Ok(m) && m@ == "Ticket present for "@
                + caller@),
            !self.spec_has_ticket(caller@) ==> (r matches Err(ExecError::InvariantViolation {
                message,
            }) && message@ == "No Ticket for "@ + caller@),
    {
        match find_ticket(&self.tickets, caller) {
            Some(_) => Ok(message_for("Ticket present for ", caller)),
            None => Err(
                ExecError::InvariantViolation { message: message_for("No Ticket for ", caller) },
            ),
        }
    }
}

impl TicketAppAction {
    /// The action's single-tag byte layout.
    pub open spec fn spec_tag(self) -> u64 {
        match self {
            TicketAppAction::BuyTicket {  } => 0,
            TicketAppAction::RefundTicket {  } => 1,
            TicketAppAction::HasTicket {  } => 2,
        }
    }

    /// Wraps the action as the blob that carries it to the ticket sale
    /// named `contract_name`, with the given caller and callee indices.
    pub fn as_blob(
        &self,
        contract_name: ContractName,
        caller: Option<u32>,
        callees: Option<Vec<u32>>,
    ) -> (r: Blob)
        ensures
            r.contract_name@ == contract_name@,
            (crate::compose::dec_header(r.data@) matches Some((c, cs, _)) && c == caller && cs
                == crate::compose::opt_view(callees)),
            blob_matches(r, contract_name@, *self),
    {
        crate::compose::make_blob(contract_name, caller, callees, self)
    }
}

impl ContractAction for TicketAppAction {
    open spec fn eq_spec(self, other: Self) -> bool {
        self.spec_tag() == other.spec_tag()
    }

    open spec fn wf(self) -> bool {
        true
    }

    open spec fn enc_spec(self) -> Seq<u8> {
        enc_u64(self.spec_tag())
    }

    open spec fn parses(b: Seq<u8>) -> bool {
        match dec_u64(b, 0) {
            Some((tag, j)) => tag <= 2 && j == b.len(),
            None => false,
        }
    }

    proof fn lemma_parses_enc(a: Self) {
        vstd::bytes::lemma_auto_spec_u64_to_from_le_bytes();
        let e = a.enc_spec();
        assert(e.subrange(0, 8) =~= e);
        lemma_dec_u64_at(e, 0, a.spec_tag());
    }

    proof fn lemma_enc_injective(a: Self, b: Self) {
        vstd::bytes::lemma_auto_spec_u64_to_from_le_bytes();
        let e = a.enc_spec();
        assert(e.subrange(0, 8) =~= e);
        lemma_dec_u64_at(e, 0, a.spec_tag());
        lemma_dec_u64_at(e, 0, b.spec_tag());
    }

    proof fn lemma_eq_enc(a: Self, b: Self) {
    }

    fn encode(&self) -> (r: Vec<u8>) {
        let mut out: Vec<u8> = Vec::new();
        let tag: u64 = match self {
            TicketAppAction::BuyTicket {  } => 0,
            TicketAppAction::RefundTicket {  } => 1,
            TicketAppAction::HasTicket {  } => 2,
        };
        write_u64(&mut out, tag);
        proof {
            assert(out@ =~= self.enc_spec());
        }
        out
    }

    fn decode(bytes: &[u8]) -> (r: Option<Self>) {
        match read_u64(bytes, 0) {
            Some((tag, j)) => {
                if tag <= 2 && j == bytes.len() {
                    proof {
                        lemma_enc_u64_of_dec(bytes@, 0, tag, j as int);
                        assert(bytes@.subrange(0, j as int) =~= bytes@);
                    }
                    if tag == 0 {
                        Some(TicketAppAction::BuyTicket {  })
                    } else if tag == 1 {
                        Some(TicketAppAction::RefundTicket {  })
                    } else {
                        Some(TicketAppAction::HasTicket {  })
                    }
                } else {
                    None
                }
            },
            None => None,
        }
    }
}

/// What one decoded ticket action does to the state.
pub open spec fn ticket_action_ens(
    pre: TicketAppState,
    post: TicketAppState,
    calldata: Calldata,
    own: Seq<char>,
    a: TicketAppAction,
    r: Result<String, ExecError>,
) -> bool {
    match a {
        TicketAppAction::BuyTicket {  } => TicketAppState::buy_ens(
            pre,
            post,
            calldata.blobs@,
            calldata.identity@,
            own,
            r,
        ),
        TicketAppAction::RefundTicket {  } => TicketAppState::refund_ens(
            pre,
            post,
            calldata.blobs@,
            calldata.identity@,
            r,
        ),
        TicketAppAction::HasTicket {  } => {
            &&& post == pre
            &&& (pre.spec_has_ticket(calldata.identity@) ==> (r matches Ok(m) && m@
                == "Ticket present for "@ + calldata.identity@))
            &&& (!pre.spec_has_ticket(calldata.identity@) ==> (r matches Err(
                ExecError::InvariantViolation { message },
            ) && message@ == "No Ticket for "@ + calldata.identity@))
        },
    }
}

impl ContractStateMachine for TicketAppState {
    open spec fn wf(self) -> bool {
        TicketAppState::wf(self)
    }

    open spec fn digest_spec(self) -> Seq<u8> {
        enc_record((self.ticket_price.0.0, self.ticket_price.1), self.tickets@)
    }

    open spec fn execute_ens(
        pre: Self,
        post: Self,
        calldata: Calldata,
        r: Result<String, ExecError>,
    ) -> bool {
        if calldata.index as int >= calldata.blobs@.len() {
            post == pre && r matches Err(ExecError::IndexOutOfRange)
        } else {
            match action_bytes(calldata.blobs@[calldata.index as int].data@) {
                Some(rest) => {
                    if TicketAppAction::parses(rest) {
                        exists|a: TicketAppAction|
                            #[trigger] a.enc_spec() == rest && ticket_action_ens(
                                pre,
                                post,
                                calldata,
                                calldata.blobs@[calldata.index as int].contract_name@,
                                a,
                                r,
                            )
                    } else {
                        post == pre && (r matches Err(ExecError::DecodeError { message }) && message@
                            == "the blob does not hold a ticket action"@)
                    }
                },
                None => post == pre && (r matches Err(ExecError::DecodeError { message }) && message@
                            == "the blob does not hold a ticket action"@),
            }
        }
    }

    fn execute(&mut self, calldata: &Calldata) -> (r: Result<String, ExecError>) {
        let idx = calldata.index as usize;
        if idx >= calldata.blobs.len() {
            return Err(ExecError::IndexOutOfRange);
        }
        match crate::compose::parse_blob::<TicketAppAction>(&calldata.blobs, idx) {
            None => Err(
                ExecError::DecodeError {
                    message: String::from_str("the blob does not hold a ticket action"),
                },
            ),
            Some(action) => {
                // The blob at the executing index is addressed to this
                // contract, so its name is this contract's own name.
                let own_name = ContractName(calldata.blobs[idx].contract_name.0.clone());
                let ghost gaction = action;
                let r = match action {
                    TicketAppAction::BuyTicket {  } => self.buy_ticket(calldata, &own_name),
                    TicketAppAction::RefundTicket {  } => self.refund_ticket(calldata),
                    TicketAppAction::HasTicket {  } => self.has_ticket(&calldata.identity),
                };
                proof {
                    assert(ticket_action_ens(
                        *old(self),
                        *final(self),
                        *calldata,
                        calldata.blobs@[idx as int].contract_name@,
                        gaction,
                        r,
                    ));
                }
                r
            },
        }
    }

    fn commit(&self) -> (d: StateDigest) {
        let mut out: Vec<u8> = Vec::new();
        let header = (self.ticket_price.0.0.clone(), self.ticket_price.1);
        header.write(&mut out);
        write_list(&mut out, &self.tickets);
        proof {
            assert(out@ =~= self.digest_spec());
        }
        StateDigest(out)
    }
}

impl TicketAppState {
    /// Reads a state back from its digest.  It succeeds on exactly the
    /// digests of well-formed states, and what it returns commits to the
    /// same digest again.
    pub fn from_digest(d: &StateDigest) -> (r: Option<TicketAppState>)
        ensures
            r matches Some(s) ==> s.wf() && s.digest_spec() == d@,
            forall|t: TicketAppState| t.wf() && d@ == t.digest_spec() ==> r is Some,
    {
        let b = d.0.as_slice();
        match decode_record::<(String, u128), Identity>(b) {
            Some((header, tickets)) => {
                let ghost gheader = header;
                let ghost gtickets = tickets@;
                let (price_name, price_amount) = header;
                let unique = check_unique_tickets(&tickets);
                note_vec_len(&tickets);
                if unique {
                    let state = TicketAppState {
                        ticket_price: (ContractName(price_name), price_amount),
                        tickets,
                    };
                    proof {
                        assert(state.digest_spec() == enc_record(gheader, gtickets));
                    }
                    Some(state)
                } else {
                    proof {
                        assert forall|t: TicketAppState|
                            t.wf() && d@ == t.digest_spec() implies false by {
                            lemma_enc_record_injective(
                                gheader,
                                gtickets,
                                (t.ticket_price.0.0, t.ticket_price.1),
                                t.tickets@,
                            );
                            lemma_ticket_entries_same_keys(gtickets, t.tickets@);
                        }
                    }
                    None
                }
            },
            None => {
                proof {
                    assert forall|t: TicketAppState|
                        t.wf() && d@ == t.digest_spec() implies false by {
                        assert(d@ == enc_record((t.ticket_price.0.0, t.ticket_price.1), t.tickets@));
                    }
                }
                None
            },
        }
    }

    /// A state's digest identifies it: two well-formed states with the
    /// same digest agree on the price and on every ticket holder.
    pub proof fn lemma_digest_identifies(s1: TicketAppState, s2: TicketAppState)
        requires
            s1.wf(),
            s2.wf(),
            s1.digest_spec() == s2.digest_spec(),
        ensures
            s1.ticket_price.0@ == s2.ticket_price.0@,
            s1.ticket_price.1 == s2.ticket_price.1,
            s1.tickets@.len() == s2.tickets@.len(),
            forall|k: int|
                0 <= k < s1.tickets@.len() ==> (#[trigger] s1.tickets@[k])@ == s2.tickets@[k]@,
    {
        lemma_enc_record_injective(
            (s1.ticket_price.0.0, s1.ticket_price.1),
            s1.tickets@,
            (s2.ticket_price.0.0, s2.ticket_price.1),
            s2.tickets@,
        );
        assert forall|k: int|
            0 <= k < s1.tickets@.len() implies (#[trigger] s1.tickets@[k])@ == s2.tickets@[k]@ by {
            assert(s1.tickets@[k].eq_spec(s2.tickets@[k]));
        }
    }
}

/// Holder lists that agree pairwise have the same identities in the same
/// places, so uniqueness carries over.
proof fn lemma_ticket_entries_same_keys(s1: Seq<Identity>, s2: Seq<Identity>)
    requires
        s1.len() == s2.len(),
        forall|k: int| 0 <= k < s1.len() ==> (#[trigger] s1[k]).eq_spec(s2[k]),
    ensures
        unique_by_key(s1) == unique_by_key(s2),
{
    if unique_by_key(s1) {
        assert forall|i: int, j: int|
            #![trigger s2[i], s2[j]]
            0 <= i < j < s2.len() implies s2[i].key() != s2[j].key() by {
            assert(s1[i].eq_spec(s2[i]));
            assert(s1[j].eq_spec(s2[j]));
        }
    }
    if unique_by_key(s2) {
        assert forall|i: int, j: int|
            #![trigger s1[i], s1[j]]
            0 <= i < j < s1.len() implies s1[i].key() != s1[j].key() by {
            assert(s1[i].eq_spec(s2[i]));
            assert(s1[j].eq_spec(s2[j]));
        }
    }
}

/// Whether no identity appears twice among the ticket holders.
fn check_unique_tickets(tickets: &Vec<Identity>) -> (r: bool)
    ensures
        r == unique_by_key(tickets@),
{
    let n = tickets.len();
    let mut k: usize = 0;
    while k < n
        invariant
            k <= n,
            n == tickets@.len(),
            forall|i: int, j: int|
                #![trigger tickets@[i], tickets@[j]]
                0 <= i < j < tickets@.len() && j < k ==> tickets@[i].key() != tickets@[j].key(),
        decreases n - k,
    {
        let mut m: usize = 0;
        while m < k
            invariant
                m <= k < n,
                n == tickets@.len(),
                forall|i: int|
                    0 <= i < m ==> (#[trigger] tickets@[i]).key() != tickets@[k as int].key(),
            decreases k - m,
        {
            if str_eq(tickets[m].0.as_str(), tickets[k].0.as_str()) {
                return false;
            }
            m = m + 1;
        }
        k = k + 1;
    }
    true
}

/// Finds the index of the caller's ticket, if one exists.
fn find_ticket(tickets: &Vec<Identity>, who: &Identity) -> (r: Option<usize>)
    ensures
        match r {
            Some(i) => {
                &&& i < tickets@.len()
                &&& tickets@[i as int]@ == who@
                &&& find_entry(tickets@, who@) == Some(tickets@[i as int])
                &&& forall|m: int| 0 <= m < i ==> (#[trigger] tickets@[m])@ != who@
            },
            None => find_entry(tickets@, who@) is None,
        },
{
    let n = tickets.len();
    let mut k: usize = 0;
    while k < n
        invariant
            k <= n,
            n == tickets@.len(),
            forall|m: int| 0 <= m < k ==> (#[trigger] tickets@[m])@ != who@,
        decreases n - k,
    {
        if str_eq(tickets[k].0.as_str(), who.0.as_str()) {
            proof {
                lemma_find_at_index(tickets@, k as int);
            }
            return Some(k);
        }
        k = k + 1;
    }
    proof {
        lemma_no_match_find_none(tickets@, who@);
    }
    None
}

} // verus!
