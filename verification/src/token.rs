//! The fungible token: a total supply and per-account balances, moved by
//! `Transfer` and `Mint` actions.  A transfer never creates or destroys
//! balance, and `Mint` only moves balance out of the designated faucet
//! account, so the sum of all balances always equals the total supply.

use vstd::prelude::*;

verus! {

use crate::action::ContractAction;
use crate::codec::{
    WireField, enc_str, enc_u64, enc_u128, dec_str, dec_u64, dec_u128, read_str, read_u64,
    read_u128, write_str, write_u64, write_u128, write_list, lemma_dec_str_at, lemma_dec_u64_at,
    lemma_dec_u128_at, lemma_enc_str_of_dec, lemma_enc_u64_of_dec, lemma_enc_u128_of_dec,
};
use crate::errors::ExecError;
use crate::machine::ContractStateMachine;
use crate::model::{Calldata, StateDigest};
use crate::text::{decimal_of, note_str_len, str_eq, u128_to_decimal};
use vstd::string::{StringExecFns, StringSliceAdditionalSpecFns};
use vstd::utf8::encode_utf8;

/// One account's balance, keyed by the account's name.
impl WireField for (String, u128) {
    open spec fn eq_spec(self, other: Self) -> bool {
        self.0@ == other.0@ && self.1 == other.1
    }

    open spec fn wf(self) -> bool {
        encode_utf8(self.0@).len() <= u64::MAX
    }

    open spec fn enc_spec(self) -> Seq<u8> {
        enc_str(self.0@) + enc_u128(self.1)
    }

    open spec fn parse_end(b: Seq<u8>, i: int) -> Option<int> {
        match dec_str(b, i) {
            Some((_, j)) => match dec_u128(b, j) {
                Some((_, j2)) => Some(j2),
                None => None,
            },
            None => None,
        }
    }

    proof fn lemma_parse_end_enc(b: Seq<u8>, i: int, x: Self) {
        vstd::bytes::lemma_auto_spec_u128_to_from_le_bytes();
        let e = x.enc_spec();
        let e0 = enc_str(x.0@);
        assert(enc_u128(x.1).len() == 16);
        assert(e.len() == e0.len() + 16);
        assert(b.subrange(i, i + e0.len()) =~= e.subrange(0, e0.len() as int));
        assert(e.subrange(0, e0.len() as int) =~= e0);
        lemma_dec_str_at(b, i, x.0@);
        assert(b.subrange(i + e0.len(), i + e.len()) =~= e.subrange(e0.len() as int, e.len() as int));
        assert(e.subrange(e0.len() as int, e.len() as int) =~= enc_u128(x.1));
        lemma_dec_u128_at(b, i + e0.len(), x.1);
    }

    proof fn lemma_enc_injective(a: Self, b: Self) {
        vstd::bytes::lemma_auto_spec_u128_to_from_le_bytes();
        let e = a.enc_spec();
        let ea = enc_str(a.0@);
        let eb = enc_str(b.0@);
        assert(enc_u128(a.1).len() == 16);
        assert(enc_u128(b.1).len() == 16);
        assert(e.len() == ea.len() + 16);
        assert(e.len() == eb.len() + 16);
        assert(e.subrange(0, ea.len() as int) =~= ea);
        lemma_dec_str_at(e, 0, a.0@);
        assert(e.subrange(0, eb.len() as int) =~= eb);
        lemma_dec_str_at(e, 0, b.0@);
        assert(e.subrange(ea.len() as int, e.len() as int) =~= enc_u128(a.1));
        lemma_dec_u128_at(e, ea.len() as int, a.1);
        assert(e.subrange(eb.len() as int, e.len() as int) =~= enc_u128(b.1));
        lemma_dec_u128_at(e, eb.len() as int, b.1);
    }

    fn write(&self, out: &mut Vec<u8>) {
        write_str(out, self.0.as_str());
        write_u128(out, self.1);
        proof {
            assert(final(out)@ =~= old(out)@ + self.enc_spec());
        }
    }

    fn read_at(b: &[u8], i: usize) -> (r: Option<(Self, usize)>) {
        match read_str(b, i) {
            Some((name, j)) => {
                match read_u128(b, j) {
                    Some((balance, j2)) => {
                        proof {
                            note_str_len_spec(name@, b@, i as int, j as int);
                            lemma_enc_str_of_dec(b@, i as int, name@, j as int);
                            lemma_enc_u128_of_dec(b@, j as int, balance, j2 as int);
                            assert(b@.subrange(i as int, j as int) + b@.subrange(
                                j as int,
                                j2 as int,
                            ) =~= b@.subrange(i as int, j2 as int));
                        }
                        Some(((name, balance), j2))
                    },
                    None => None,
                }
            },
            None => None,
        }
    }
}

/// A parsed string's UTF-8 length fits the wire's length field.
proof fn note_str_len_spec(s: Seq<char>, b: Seq<u8>, i: int, j: int)
    requires
        dec_str(b, i) == Some((s, j)),
    ensures
        encode_utf8(s).len() <= u64::MAX,
{
    vstd::bytes::lemma_auto_spec_u64_to_from_le_bytes();
    lemma_enc_str_of_dec(b, i, s, j);
}

/// The first balance recorded for the account named `a`, scanning the
/// entry list in order.
pub open spec fn lookup(entries: Seq<(String, u128)>, a: Seq<char>) -> Option<u128>
    decreases entries.len(),
{
    if entries.len() == 0 {
        None
    } else if entries[0].0@ == a {
        Some(entries[0].1)
    } else {
        lookup(entries.drop_first(), a)
    }
}

/// The sum of all recorded balances.
pub open spec fn sum_entries(entries: Seq<(String, u128)>) -> int
    decreases entries.len(),
{
    if entries.len() == 0 {
        0
    } else {
        entries[0].1 + sum_entries(entries.drop_first())
    }
}

/// No account name appears twice.
pub open spec fn unique_keys(entries: Seq<(String, u128)>) -> bool {
    forall|i: int, j: int|
        #![trigger entries[i], entries[j]]
        0 <= i < j < entries.len() ==> entries[i].0@ != entries[j].0@
}

/// Every entry's key fits the wire's length field.
pub open spec fn entries_wf(entries: Seq<(String, u128)>) -> bool {
    forall|k: int| 0 <= k < entries.len() ==> (#[trigger] entries[k]).wf()
}

/// An account none of whose entries carries its name is absent.
pub proof fn lemma_no_match_lookup_none(entries: Seq<(String, u128)>, a: Seq<char>)
    requires
        forall|k: int| 0 <= k < entries.len() ==> (#[trigger] entries[k]).0@ != a,
    ensures
        lookup(entries, a) is None,
    decreases entries.len(),
{
    if entries.len() > 0 {
        let d = entries.drop_first();
        assert forall|k: int| 0 <= k < d.len() implies (#[trigger] d[k]).0@ != a by {
            assert(d[k] == entries[k + 1]);
        }
        lemma_no_match_lookup_none(d, a);
    }
}

/// An absent account has no entry carrying its name.
pub proof fn lemma_lookup_none_no_match(entries: Seq<(String, u128)>, a: Seq<char>)
    requires
        lookup(entries, a) is None,
    ensures
        forall|k: int| 0 <= k < entries.len() ==> (#[trigger] entries[k]).0@ != a,
    decreases entries.len(),
{
    if entries.len() > 0 {
        let d = entries.drop_first();
        lemma_lookup_none_no_match(d, a);
        assert forall|k: int| 0 <= k < entries.len() implies (#[trigger] entries[k]).0@ != a by {
            if k > 0 {
                assert(entries[k] == d[k - 1]);
            }
        }
    }
}

/// The entry at a first-match index is what lookup finds.
pub proof fn lemma_lookup_at_index(entries: Seq<(String, u128)>, i: int)
    requires
        0 <= i < entries.len(),
        forall|m: int| 0 <= m < i ==> (#[trigger] entries[m]).0@ != entries[i].0@,
    ensures
        lookup(entries, entries[i].0@) == Some(entries[i].1),
    decreases i,
{
    if i > 0 {
        assert(forall|m: int|
            0 <= m < i - 1 ==> (#[trigger] entries.drop_first()[m]) == entries[m + 1]);
        lemma_lookup_at_index(entries.drop_first(), i - 1);
    }
}

/// Changing the balance at index `i` changes exactly that account's
/// lookup, and no other.
pub proof fn lemma_lookup_update(entries: Seq<(String, u128)>, i: int, v: u128)
    requires
        0 <= i < entries.len(),
        forall|m: int| 0 <= m < i ==> (#[trigger] entries[m]).0@ != entries[i].0@,
    ensures
        forall|a: Seq<char>|
            #![trigger lookup(entries.update(i, (entries[i].0, v)), a)]
            lookup(entries.update(i, (entries[i].0, v)), a) == if a == entries[i].0@ {
                Some(v)
            } else {
                lookup(entries, a)
            },
    decreases i,
{
    let u = entries.update(i, (entries[i].0, v));
    if i == 0 {
        assert(u.drop_first() =~= entries.drop_first());
        assert forall|a: Seq<char>|
            lookup(u, a) == (if a == entries[0].0@ {
                Some(v)
            } else {
                lookup(entries, a)
            }) by {
            assert(u[0] == (entries[0].0, v));
            assert(lookup(u, a) == if u[0].0@ == a {
                Some(u[0].1)
            } else {
                lookup(u.drop_first(), a)
            });
            assert(lookup(entries, a) == if entries[0].0@ == a {
                Some(entries[0].1)
            } else {
                lookup(entries.drop_first(), a)
            });
        }
    } else {
        let d = entries.drop_first();
        assert(d[i - 1] == entries[i]);
        assert(u.drop_first() =~= d.update(i - 1, (d[i - 1].0, v)));
        assert(forall|m: int| 0 <= m < i - 1 ==> (#[trigger] d[m]) == entries[m + 1]);
        lemma_lookup_update(d, i - 1, v);
        assert forall|a: Seq<char>|
            lookup(u, a) == (if a == entries[i].0@ {
                Some(v)
            } else {
                lookup(entries, a)
            }) by {
            assert(lookup(d.update(i - 1, (d[i - 1].0, v)), a) == if a == d[i - 1].0@ {
                Some(v)
            } else {
                lookup(d, a)
            });
            assert(u[0] == entries[0]);
            assert(lookup(u, a) == if u[0].0@ == a {
                Some(u[0].1)
            } else {
                lookup(u.drop_first(), a)
            });
            assert(lookup(entries, a) == if entries[0].0@ == a {
                Some(entries[0].1)
            } else {
                lookup(d, a)
            });
            if a == entries[i].0@ {
                assert(entries[0].0@ != a);
            }
        }
    }
}

/// Changing one balance moves the sum by exactly the difference.
pub proof fn lemma_sum_update(entries: Seq<(String, u128)>, i: int, v: u128)
    requires
        0 <= i < entries.len(),
    ensures
        sum_entries(entries.update(i, (entries[i].0, v))) == sum_entries(entries) - entries[i].1
            + v,
    decreases i,
{
    let u = entries.update(i, (entries[i].0, v));
    if i == 0 {
        assert(u.drop_first() =~= entries.drop_first());
    } else {
        assert(u.drop_first() =~= entries.drop_first().update(i - 1, (entries[i].0, v)));
        assert(entries.drop_first()[i - 1] == entries[i]);
        lemma_sum_update(entries.drop_first(), i - 1, v);
        assert(u[0] == entries[0]);
    }
}

/// Appending an entry for an absent account adds exactly that account,
/// and its balance to the sum.
pub proof fn lemma_lookup_push(entries: Seq<(String, u128)>, p: (String, u128))
    ensures
        forall|a: Seq<char>|
            #![trigger lookup(entries.push(p), a)]
            lookup(entries.push(p), a) == (match lookup(entries, a) {
                Some(v) => Some(v),
                None => if a == p.0@ {
                    Some(p.1)
                } else {
                    None
                },
            }),
        sum_entries(entries.push(p)) == sum_entries(entries) + p.1,
    decreases entries.len(),
{
    let u = entries.push(p);
    if entries.len() == 0 {
        assert(u.drop_first() =~= Seq::<(String, u128)>::empty());
        assert(u[0] == p);
        assert(sum_entries(u) == p.1 + sum_entries(u.drop_first()));
        assert forall|a: Seq<char>|
            lookup(u, a) == (match lookup(entries, a) {
                Some(v) => Some(v),
                None => if a == p.0@ {
                    Some(p.1)
                } else {
                    None
                },
            }) by {
            assert(lookup(u, a) == if u[0].0@ == a {
                Some(u[0].1)
            } else {
                lookup(u.drop_first(), a)
            });
        }
    } else {
        assert(u.drop_first() =~= entries.drop_first().push(p));
        lemma_lookup_push(entries.drop_first(), p);
        assert(u[0] == entries[0]);
        assert(sum_entries(u) == u[0].1 + sum_entries(u.drop_first()));
        assert forall|a: Seq<char>|
            lookup(u, a) == (match lookup(entries, a) {
                Some(v) => Some(v),
                None => if a == p.0@ {
                    Some(p.1)
                } else {
                    None
                },
            }) by {
            assert(lookup(u, a) == if u[0].0@ == a {
                Some(u[0].1)
            } else {
                lookup(u.drop_first(), a)
            });
            assert(lookup(entries.drop_first().push(p), a) == (match lookup(
                entries.drop_first(),
                a,
            ) {
                Some(v) => Some(v),
                None => if a == p.0@ {
                    Some(p.1)
                } else {
                    None
                },
            }));
        }
    }
}

/// Balances are never negative, so each is at most the sum of all.
pub proof fn lemma_entry_le_sum(entries: Seq<(String, u128)>, i: int)
    requires
        0 <= i < entries.len(),
    ensures
        entries[i].1 <= sum_entries(entries),
    decreases i,
{
    lemma_sum_nonneg(entries.drop_first());
    if i > 0 {
        lemma_entry_le_sum(entries.drop_first(), i - 1);
    }
}

/// A sum of balances is never negative.
pub proof fn lemma_sum_nonneg(entries: Seq<(String, u128)>)
    ensures
        sum_entries(entries) >= 0,
    decreases entries.len(),
{
    if entries.len() > 0 {
        lemma_sum_nonneg(entries.drop_first());
    }
}

/// Finds the index of the entry for `account`, if one exists.
fn find_account(entries: &Vec<(String, u128)>, account: &str) -> (r: Option<usize>)
    ensures
        match r {
            Some(i) => {
                &&& i < entries@.len()
                &&& entries@[i as int].0@ == account@
                &&& lookup(entries@, account@) == Some(entries@[i as int].1)
                &&& forall|m: int| 0 <= m < i ==> (#[trigger] entries@[m]).0@ != account@
            },
            None => lookup(entries@, account@) is None,
        },
{
    let n = entries.len();
    let mut k: usize = 0;
    while k < n
        invariant
            k <= n,
            n == entries@.len(),
            forall|m: int| 0 <= m < k ==> (#[trigger] entries@[m]).0@ != account@,
        decreases n - k,
    {
        if str_eq(entries[k].0.as_str(), account) {
            proof {
                lemma_lookup_at_index(entries@, k as int);
            }
            return Some(k);
        }
        k = k + 1;
    }
    proof {
        lemma_no_match_lookup_none(entries@, account@);
    }
    None
}

/// The fungible token's state: the supply, the designated faucet account
/// that minting draws from, and every account's balance.
#[derive(Debug, Clone)]
pub struct SimpleToken {
    pub total_supply: u128,
    pub faucet: String,
    pub balances: Vec<(String, u128)>,
}

/// A call on the fungible token.  `Transfer` moves balance from the
/// transaction's acting identity; `Mint` moves balance out of the faucet.
#[derive(Debug, Clone)]
pub enum SimpleTokenAction {
    Transfer { recipient: String, amount: u128 },
    Mint { recipient: String, amount: u128 },
}

impl SimpleToken {
    /// The state's invariant: account names are unique and fit the wire,
    /// and the balances add up to exactly the total supply.
    pub open spec fn wf(self) -> bool {
        &&& unique_keys(self.balances@)
        &&& entries_wf(self.balances@)
        &&& self.balances@.len() <= u64::MAX
        &&& encode_utf8(self.faucet@).len() <= u64::MAX
        &&& sum_entries(self.balances@) == self.total_supply as int
    }

    /// The balance recorded for an account, if any.
    pub open spec fn spec_balance(self, a: Seq<char>) -> Option<u128> {
        lookup(self.balances@, a)
    }

    /// Creates the token's genesis state: the whole supply sits with the
    /// faucet account.
    pub fn new(initial_supply: u128, faucet_id: String) -> (r: SimpleToken)
        ensures
            r.wf(),
            r.total_supply == initial_supply,
            r.faucet@ == faucet_id@,
            r.balances@.len() == 1,
            r.spec_balance(faucet_id@) == Some(initial_supply),
    {
        note_str_len(faucet_id.as_str());
        let faucet = faucet_id.clone();
        let entry = (faucet_id, initial_supply);
        let ghost gentry = entry;
        let mut balances: Vec<(String, u128)> = Vec::new();
        balances.push(entry);
        proof {
            assert(balances@.drop_first() =~= Seq::<(String, u128)>::empty());
            assert(balances@[0] == gentry);
            assert(gentry.wf());
            assert(sum_entries(balances@) == gentry.1 + sum_entries(balances@.drop_first()));
        }
        SimpleToken { total_supply: initial_supply, faucet, balances }
    }

    /// The balance of `account`, or the failure naming it as unknown.
    pub fn balance_of(&self, account: &str) -> (r: Result<u128, ExecError>)
        ensures
            match r {
                Ok(b) => self.spec_balance(account@) == Some(b),
                Err(e) => {
                    &&& self.spec_balance(account@) is None
                    &&& e matches ExecError::InvariantViolation { message } && message@
                        == "Account "@ + account@ + " not found"@
                },
            },
    {
        match find_account(&self.balances, account) {
            Some(i) => Ok(self.balances[i].1),
            None => Err(
                ExecError::InvariantViolation {
                    message: String::from_str("Account ").concat(account).concat(" not found"),
                },
            ),
        }
    }

    /// What `transfer` returns and does: it fails, changing nothing, when
    /// the sender is unknown or short of funds; otherwise it moves exactly
    /// `amount` from sender to recipient and nothing else changes.  In
    /// particular the balances always keep their sum.
    pub open spec fn transfer_ens(
        pre: SimpleToken,
        post: SimpleToken,
        sender: Seq<char>,
        recipient: Seq<char>,
        amount: u128,
        r: Result<String, ExecError>,
    ) -> bool {
        match lookup(pre.balances@, sender) {
            None => {
                &&& post == pre
                &&& r matches Err(ExecError::InvariantViolation { message }) && message@
                    == "Account "@ + sender + " not found"@
            },
            Some(b) => {
                if b < amount {
                    &&& post == pre
                    &&& r matches Err(ExecError::InvariantViolation { message }) && message@
                        == "Insufficient balance"@
                } else {
                    &&& r matches Ok(m) && m@ == transfer_message(amount, sender, recipient)
                    &&& post.total_supply == pre.total_supply
                    &&& post.faucet@ == pre.faucet@
                    &&& sum_entries(post.balances@) == sum_entries(pre.balances@)
                    &&& if sender == recipient {
                        post.balances@ == pre.balances@
                    } else {
                        &&& lookup(post.balances@, sender) == Some((b - amount) as u128)
                        &&& lookup(post.balances@, recipient) == Some(
                            (spec_balance_or_zero(pre.balances@, recipient) + amount) as u128,
                        )
                        &&& forall|a: Seq<char>|
                            a != sender && a != recipient ==> #[trigger] lookup(post.balances@, a)
                                == lookup(pre.balances@, a)
                        &&& balances_pointwise(
                            pre.balances@,
                            post.balances@,
                            sender,
                            recipient,
                            (b - amount) as u128,
                            (spec_balance_or_zero(pre.balances@, recipient) + amount) as u128,
                        )
                        &&& match lookup(pre.balances@, recipient) {
                            Some(_) => post.balances@.len() == pre.balances@.len(),
                            None => {
                                &&& post.balances@.len() == pre.balances@.len() + 1
                                &&& post.balances@.last().0@ == recipient
                                &&& post.balances@.last().1 == amount
                            },
                        }
                    }
                }
            },
        }
    }

    /// Moves `amount` from `sender` to `recipient`.
    pub fn transfer(&mut self, sender: &str, recipient: &str, amount: u128) -> (r: Result<
        String,
        ExecError,
    >)
        requires
            (*old(self)).wf(),
        ensures
            (*final(self)).wf(),
            Self::transfer_ens(*old(self), *final(self), sender@, recipient@, amount, r),
            r is Err ==> *final(self) == *old(self),
    {
        let si = match find_account(&self.balances, sender) {
            Some(i) => i,
            None => {
                return Err(
                    ExecError::InvariantViolation {
                        message: String::from_str("Account ").concat(sender).concat(" not found"),
                    },
                );
            },
        };
        let sender_balance = self.balances[si].1;
        if sender_balance < amount {
            return Err(
                ExecError::violation("Insufficient balance"),
            );
        }
        if str_eq(sender, recipient) {
            return Ok(make_transfer_message(amount, sender, recipient));
        }
        let ghost pre = self.balances@;
        proof {
            lemma_lookup_update(pre, si as int, (sender_balance - amount) as u128);
            lemma_sum_update(pre, si as int, (sender_balance - amount) as u128);
        }
        set_balance(&mut self.balances, si, sender_balance - amount);
        let ghost mid = self.balances@;
        proof {
            assert(forall|k: int|
                0 <= k < mid.len() ==> (#[trigger] mid[k]).0@ == pre[k].0@ && mid[k].wf());
        }
        match find_account(&self.balances, recipient) {
            Some(ri) => {
                let recipient_balance = self.balances[ri].1;
                proof {
                    lemma_entry_le_sum(mid, ri as int);
                    lemma_sum_nonneg(mid);
                    lemma_lookup_update(mid, ri as int, (recipient_balance + amount) as u128);
                    lemma_sum_update(mid, ri as int, (recipient_balance + amount) as u128);
                }
                set_balance(&mut self.balances, ri, recipient_balance + amount);
                proof {
                    let post = self.balances@;
                    let sii = si as int;
                    let rii = ri as int;
                    assert(forall|k: int|
                        0 <= k < post.len() ==> (#[trigger] post[k]).0@ == mid[k].0@
                            && post[k].wf());
                    assert(lookup(post, sender@) == Some((sender_balance - amount) as u128));
                    assert forall|m: int| 0 <= m < rii implies (#[trigger] pre[m]).0@
                        != recipient@ by {
                        assert(mid[m].0@ == pre[m].0@);
                    }
                    lemma_lookup_at_index(pre, rii);
                    assert(spec_balance_or_zero(pre, recipient@) == pre[rii].1);
                    assert forall|k: int|
                        0 <= k < pre.len() implies (#[trigger] post[k]).0@ == pre[k].0@
                            && post[k].1 == (if pre[k].0@ == sender@ {
                            (sender_balance - amount) as u128
                        } else if pre[k].0@ == recipient@ {
                            (spec_balance_or_zero(pre, recipient@) + amount) as u128
                        } else {
                            pre[k].1
                        }) by {
                        if k != sii && pre[k].0@ == sender@ {
                            if k < sii {
                                assert(pre[k].0@ != pre[sii].0@);
                            } else {
                                assert(pre[sii].0@ != pre[k].0@);
                            }
                        }
                        if k != rii && pre[k].0@ == recipient@ {
                            if k < rii {
                                assert(pre[k].0@ != pre[rii].0@);
                            } else {
                                assert(pre[rii].0@ != pre[k].0@);
                            }
                        }
                    }
                }
                Ok(make_transfer_message(amount, sender, recipient))
            },
            None => {
                note_str_len(recipient);
                proof {
                    lemma_sum_nonneg(mid);
                    lemma_entry_le_sum(pre, si as int);
                    lemma_lookup_none_no_match(mid, recipient@);
                }
                let entry = (String::from_str(recipient), amount);
                proof {
                    lemma_lookup_push(mid, entry);
                }
                self.balances.push(entry);
                crate::codec::note_vec_len(&self.balances);
                proof {
                    let post = self.balances@;
                    let sii = si as int;
                    assert(post =~= mid.push(entry));
                    assert(forall|k: int|
                        0 <= k < mid.len() ==> (#[trigger] post[k]) == mid[k]);
                    assert(post[mid.len() as int] == entry);
                    assert(lookup(post, sender@) == Some((sender_balance - amount) as u128));
                    assert(lookup(post, recipient@) == Some(amount));
                    assert forall|m: int| 0 <= m < pre.len() implies (#[trigger] pre[m]).0@
                        != recipient@ by {
                        assert(mid[m].0@ == pre[m].0@);
                    }
                    lemma_no_match_lookup_none(pre, recipient@);
                    assert(post.last() == entry);
                    assert forall|k: int|
                        0 <= k < pre.len() implies (#[trigger] post[k]).0@ == pre[k].0@
                            && post[k].1 == (if pre[k].0@ == sender@ {
                            (sender_balance - amount) as u128
                        } else if pre[k].0@ == recipient@ {
                            (spec_balance_or_zero(pre, recipient@) + amount) as u128
                        } else {
                            pre[k].1
                        }) by {
                        assert(post[k] == mid[k]);
                        if k != sii && pre[k].0@ == sender@ {
                            if k < sii {
                                assert(pre[k].0@ != pre[sii].0@);
                            } else {
                                assert(pre[sii].0@ != pre[k].0@);
                            }
                        }
                    }
                }
                Ok(make_transfer_message(amount, sender, recipient))
            },
        }
    }

    /// Mints `amount` to `recipient` by moving it out of the faucet
    /// account, so the balances' sum still equals the total supply.
    pub fn mint(&mut self, recipient: &str, amount: u128) -> (r: Result<String, ExecError>)
        requires
            (*old(self)).wf(),
        ensures
            (*final(self)).wf(),
            Self::transfer_ens(
                *old(self),
                *final(self),
                (*old(self)).faucet@,
                recipient@,
                amount,
                r,
            ),
            r is Err ==> *final(self) == *old(self),
    {
        let faucet = self.faucet.clone();
        self.transfer(faucet.as_str(), recipient, amount)
    }
}

/// Conservation: a transfer never creates or destroys balance.  Whatever
/// a transfer returns, the sum of all balances afterwards is what it was
/// before, and the supply is untouched.
pub proof fn lemma_transfer_conserves_sum(
    pre: SimpleToken,
    post: SimpleToken,
    sender: Seq<char>,
    recipient: Seq<char>,
    amount: u128,
    r: Result<String, ExecError>,
)
    requires
        SimpleToken::transfer_ens(pre, post, sender, recipient, amount, r),
    ensures
        sum_entries(post.balances@) == sum_entries(pre.balances@),
        post.total_supply == pre.total_supply,
{
}

/// The message a successful transfer reports: the amount in decimal and
/// the two account names, interpolated.
pub open spec fn transfer_message(amount: u128, sender: Seq<char>, recipient: Seq<char>) -> Seq<
    char,
> {
    "Transferred "@ + decimal_of(amount as nat) + " from "@ + sender + " to "@ + recipient
}

/// Renders a successful transfer's message.
fn make_transfer_message(amount: u128, sender: &str, recipient: &str) -> (r: String)
    ensures
        r@ == transfer_message(amount, sender@, recipient@),
{
    let dec = u128_to_decimal(amount);
    String::from_str("Transferred ").concat(dec.as_str()).concat(" from ").concat(sender).concat(
        " to ",
    ).concat(recipient)
}

/// After a transfer, every prior entry keeps its place and name, and only
/// the sender's and recipient's balances change, to the given values.
pub open spec fn balances_pointwise(
    pre: Seq<(String, u128)>,
    post: Seq<(String, u128)>,
    sender: Seq<char>,
    recipient: Seq<char>,
    sender_balance: u128,
    recipient_balance: u128,
) -> bool {
    forall|k: int|
        0 <= k < pre.len() ==> (#[trigger] post[k]).0@ == pre[k].0@ && post[k].1 == (if pre[k].0@
            == sender {
            sender_balance
        } else if pre[k].0@ == recipient {
            recipient_balance
        } else {
            pre[k].1
        })
}

/// The balance recorded for an account, counting an absent account as
/// zero.
pub open spec fn spec_balance_or_zero(entries: Seq<(String, u128)>, a: Seq<char>) -> u128 {
    match lookup(entries, a) {
        Some(b) => b,
        None => 0,
    }
}

/// Replaces the balance at index `i`, keeping the account name.
fn set_balance(entries: &mut Vec<(String, u128)>, i: usize, v: u128)
    requires
        i < old(entries)@.len(),
    ensures
        final(entries)@ == old(entries)@.update(i as int, (old(entries)@[i as int].0, v)),
{
    let slot = vstd::std_specs::vec::vec_index_mut(entries, i);
    slot.1 = v;
}

impl SimpleTokenAction {
    /// The byte layout shared by both variants: a tag, the recipient, the
    /// amount.
    pub open spec fn spec_tag(self) -> u64 {
        match self {
            SimpleTokenAction::Transfer { .. } => 0,
            SimpleTokenAction::Mint { .. } => 1,
        }
    }

    /// The recipient named by the action.
    pub open spec fn spec_recipient(self) -> Seq<char> {
        match self {
            SimpleTokenAction::Transfer { recipient, .. } => recipient@,
            SimpleTokenAction::Mint { recipient, .. } => recipient@,
        }
    }

    /// The amount moved by the action.
    pub open spec fn spec_amount(self) -> u128 {
        match self {
            SimpleTokenAction::Transfer { amount, .. } => amount,
            SimpleTokenAction::Mint { amount, .. } => amount,
        }
    }
}

/// How an encoding of a token action parses: the tag, the recipient and
/// the amount sit one after the other and fill the buffer.
proof fn lemma_token_action_parse(b: Seq<u8>, a: SimpleTokenAction)
    requires
        a.wf(),
        b == a.enc_spec(),
    ensures
        dec_u64(b, 0) == Some((a.spec_tag(), 8int)),
        dec_str(b, 8) == Some((a.spec_recipient(), b.len() - 16)),
        dec_u128(b, b.len() - 16) == Some((a.spec_amount(), b.len() as int)),
{
    vstd::bytes::lemma_auto_spec_u64_to_from_le_bytes();
    vstd::bytes::lemma_auto_spec_u128_to_from_le_bytes();
    let es = enc_str(a.spec_recipient());
    assert(b =~= enc_u64(a.spec_tag()) + es + enc_u128(a.spec_amount()));
    assert(b.subrange(0, 8) =~= enc_u64(a.spec_tag()));
    lemma_dec_u64_at(b, 0, a.spec_tag());
    assert(b.subrange(8, 8 + es.len() as int) =~= es);
    lemma_dec_str_at(b, 8, a.spec_recipient());
    assert(8 + es.len() == b.len() - 16);
    assert(b.subrange(b.len() - 16, b.len() as int) =~= enc_u128(a.spec_amount()));
    lemma_dec_u128_at(b, b.len() - 16, a.spec_amount());
}

impl ContractAction for SimpleTokenAction {
    open spec fn eq_spec(self, other: Self) -> bool {
        &&& self.spec_tag() == other.spec_tag()
        &&& self.spec_recipient() == other.spec_recipient()
        &&& self.spec_amount() == other.spec_amount()
    }

    open spec fn wf(self) -> bool {
        encode_utf8(self.spec_recipient()).len() <= u64::MAX
    }

    open spec fn enc_spec(self) -> Seq<u8> {
        enc_u64(self.spec_tag()) + enc_str(self.spec_recipient()) + enc_u128(self.spec_amount())
    }

    open spec fn parses(b: Seq<u8>) -> bool {
        match dec_u64(b, 0) {
            Some((tag, j)) => (tag == 0 || tag == 1) && (match dec_str(b, j) {
                Some((_, j2)) => (match dec_u128(b, j2) {
                    Some((_, j3)) => j3 == b.len(),
                    None => false,
                }),
                None => false,
            }),
            None => false,
        }
    }

    proof fn lemma_parses_enc(a: Self) {
        lemma_token_action_parse(a.enc_spec(), a);
    }

    proof fn lemma_enc_injective(a: Self, b: Self) {
        lemma_token_action_parse(a.enc_spec(), a);
        lemma_token_action_parse(b.enc_spec(), b);
    }

    proof fn lemma_eq_enc(a: Self, b: Self) {
    }

    fn encode(&self) -> (r: Vec<u8>) {
        let mut out: Vec<u8> = Vec::new();
        let (tag, recipient, amount) = match self {
            SimpleTokenAction::Transfer { recipient, amount } => (0u64, recipient, *amount),
            SimpleTokenAction::Mint { recipient, amount } => (1u64, recipient, *amount),
        };
        write_u64(&mut out, tag);
        write_str(&mut out, recipient.as_str());
        write_u128(&mut out, amount);
        proof {
            assert(out@ =~= self.enc_spec());
        }
        out
    }

    fn decode(bytes: &[u8]) -> (r: Option<Self>) {
        match read_u64(bytes, 0) {
            Some((tag, j)) => {
                if tag > 1 {
                    return None;
                }
                match read_str(bytes, j) {
                    Some((recipient, j2)) => {
                        match read_u128(bytes, j2) {
                            Some((amount, j3)) => {
                                if j3 == bytes.len() {
                                    proof {
                                        note_str_len_spec(recipient@, bytes@, j as int, j2 as int);
                                        lemma_enc_u64_of_dec(bytes@, 0, tag, j as int);
                                        lemma_enc_str_of_dec(bytes@, j as int, recipient@, j2 as int);
                                        lemma_enc_u128_of_dec(bytes@, j2 as int, amount, j3 as int);
                                        assert(bytes@.subrange(0, j as int) + bytes@.subrange(
                                            j as int,
                                            j2 as int,
                                        ) + bytes@.subrange(j2 as int, j3 as int) =~= bytes@);
                                    }
                                    if tag == 0 {
                                        Some(SimpleTokenAction::Transfer { recipient, amount })
                                    } else {
                                        Some(SimpleTokenAction::Mint { recipient, amount })
                                    }
                                } else {
                                    None
                                }
                            },
                            None => None,
                        }
                    },
                    None => None,
                }
            },
            None => None,
        }
    }
}

/// What one decoded token action does to the state: a `Transfer` moves
/// balance from the transaction's acting identity, a `Mint` moves balance
/// out of the faucet.
pub open spec fn token_action_ens(
    pre: SimpleToken,
    post: SimpleToken,
    caller: Seq<char>,
    a: SimpleTokenAction,
    r: Result<String, ExecError>,
) -> bool {
    match a {
        SimpleTokenAction::Transfer { recipient, amount } => SimpleToken::transfer_ens(
            pre,
            post,
            caller,
            recipient@,
            amount,
            r,
        ),
        SimpleTokenAction::Mint { recipient, amount } => SimpleToken::transfer_ens(
            pre,
            post,
            pre.faucet@,
            recipient@,
            amount,
            r,
        ),
    }
}

impl ContractStateMachine for SimpleToken {
    open spec fn wf(self) -> bool {
        SimpleToken::wf(self)
    }

    open spec fn digest_spec(self) -> Seq<u8> {
        crate::codec::enc_record((self.faucet, self.total_supply), self.balances@)
    }

    open spec fn execute_ens(
        pre: Self,
        post: Self,
        calldata: Calldata,
        r: Result<String, ExecError>,
    ) -> bool {
        if calldata.index as int >= calldata.blobs@.len() {
            post == pre && r matches Err(ExecError::IndexOutOfRange)
        } else {
            match crate::compose::action_bytes(calldata.blobs@[calldata.index as int].data@) {
                Some(rest) => {
                    if SimpleTokenAction::parses(rest) {
                        exists|a: SimpleTokenAction|
                            #[trigger] a.enc_spec() == rest && token_action_ens(
                                pre,
                                post,
                                calldata.identity@,
                                a,
                                r,
                            )
                    } else {
                        post == pre && (r matches Err(ExecError::DecodeError { message }) && message@
                            == "the blob does not hold a token action"@)
                    }
                },
                None => post == pre && (r matches Err(ExecError::DecodeError { message }) && message@
                            == "the blob does not hold a token action"@),
            }
        }
    }

    fn execute(&mut self, calldata: &Calldata) -> (r: Result<String, ExecError>) {
        let idx = calldata.index as usize;
        if idx >= calldata.blobs.len() {
            return Err(ExecError::IndexOutOfRange);
        }
        match crate::compose::parse_blob::<SimpleTokenAction>(&calldata.blobs, idx) {
            None => Err(
                ExecError::DecodeError {
                    message: String::from_str("the blob does not hold a token action"),
                },
            ),
            Some(action) => {
                let ghost gaction = action;
                let r = match action {
                    SimpleTokenAction::Transfer { recipient, amount } => self.transfer(
                        calldata.identity.0.as_str(),
                        recipient.as_str(),
                        amount,
                    ),
                    SimpleTokenAction::Mint { recipient, amount } => self.mint(
                        recipient.as_str(),
                        amount,
                    ),
                };
                proof {
                    assert(token_action_ens(
                        *old(self),
                        *final(self),
                        calldata.identity@,
                        gaction,
                        r,
                    ));
                }
                r
            },
        }
    }

    fn commit(&self) -> (d: StateDigest) {
        let mut out: Vec<u8> = Vec::new();
        let header = (self.faucet.clone(), self.total_supply);
        header.write(&mut out);
        write_list(&mut out, &self.balances);
        proof {
            assert(out@ =~= self.digest_spec());
        }
        StateDigest(out)
    }
}

impl SimpleToken {
    /// Reads a state back from its digest.  It succeeds on exactly the
    /// digests of well-formed states, and what it returns commits to the
    /// same digest again.
    pub fn from_digest(d: &StateDigest) -> (r: Option<SimpleToken>)
        ensures
            r matches Some(s) ==> s.wf() && s.digest_spec() == d@,
            forall|t: SimpleToken| t.wf() && d@ == t.digest_spec() ==> r is Some,
    {
        let b = d.0.as_slice();
        match crate::codec::decode_record::<(String, u128), (String, u128)>(b) {
            Some((header, balances)) => {
                let ghost gheader = header;
                let ghost gbalances = balances@;
                let (faucet, total_supply) = header;
                let unique = check_unique(&balances);
                let total = checked_sum(&balances);
                let ok = unique && match total {
                    Some(s) => s == total_supply,
                    None => false,
                };
                crate::codec::note_vec_len(&balances);
                if ok {
                    let state = SimpleToken { total_supply, faucet, balances };
                    proof {
                        assert(state.digest_spec() == crate::codec::enc_record(
                            gheader,
                            gbalances,
                        ));
                    }
                    Some(state)
                } else {
                    proof {
                        assert forall|t: SimpleToken|
                            t.wf() && d@ == t.digest_spec() implies false by {
                            crate::codec::lemma_enc_record_injective(
                                gheader,
                                gbalances,
                                (t.faucet, t.total_supply),
                                t.balances@,
                            );
                            lemma_eq_entries_same_keys(gbalances, t.balances@);
                            lemma_sum_congruent(gbalances, t.balances@);
                        }
                    }
                    None
                }
            },
            None => {
                proof {
                    assert forall|t: SimpleToken|
                        t.wf() && d@ == t.digest_spec() implies false by {
                        assert(d@ == crate::codec::enc_record(
                            (t.faucet, t.total_supply),
                            t.balances@,
                        ));
                    }
                }
                None
            },
        }
    }

    /// A state's digest identifies it: two well-formed states with the
    /// same digest agree on the supply, the faucet, and every balance.
    pub proof fn lemma_digest_identifies(s1: SimpleToken, s2: SimpleToken)
        requires
            s1.wf(),
            s2.wf(),
            s1.digest_spec() == s2.digest_spec(),
        ensures
            s1.total_supply == s2.total_supply,
            s1.faucet@ == s2.faucet@,
            s1.balances@.len() == s2.balances@.len(),
            forall|k: int|
                0 <= k < s1.balances@.len() ==> (#[trigger] s1.balances@[k]).eq_spec(
                    s2.balances@[k],
                ),
    {
        crate::codec::lemma_enc_record_injective(
            (s1.faucet, s1.total_supply),
            s1.balances@,
            (s2.faucet, s2.total_supply),
            s2.balances@,
        );
    }
}

/// Entry lists that agree pairwise have the same keys in the same places,
/// so uniqueness carries over.
proof fn lemma_eq_entries_same_keys(s1: Seq<(String, u128)>, s2: Seq<(String, u128)>)
    requires
        s1.len() == s2.len(),
        forall|k: int| 0 <= k < s1.len() ==> (#[trigger] s1[k]).eq_spec(s2[k]),
    ensures
        unique_keys(s1) == unique_keys(s2),
{
    if unique_keys(s1) {
        assert forall|i: int, j: int|
            #![trigger s2[i], s2[j]]
            0 <= i < j < s2.len() implies s2[i].0@ != s2[j].0@ by {
            assert(s1[i].eq_spec(s2[i]));
            assert(s1[j].eq_spec(s2[j]));
        }
    }
    if unique_keys(s2) {
        assert forall|i: int, j: int|
            #![trigger s1[i], s1[j]]
            0 <= i < j < s1.len() implies s1[i].0@ != s1[j].0@ by {
            assert(s1[i].eq_spec(s2[i]));
            assert(s1[j].eq_spec(s2[j]));
        }
    }
}

/// Entry lists that agree pairwise have the same sum of balances.
proof fn lemma_sum_congruent(s1: Seq<(String, u128)>, s2: Seq<(String, u128)>)
    requires
        s1.len() == s2.len(),
        forall|k: int| 0 <= k < s1.len() ==> (#[trigger] s1[k]).eq_spec(s2[k]),
    ensures
        sum_entries(s1) == sum_entries(s2),
    decreases s1.len(),
{
    if s1.len() > 0 {
        assert(s1[0].eq_spec(s2[0]));
        let d1 = s1.drop_first();
        let d2 = s2.drop_first();
        assert forall|k: int| 0 <= k < d1.len() implies (#[trigger] d1[k]).eq_spec(d2[k]) by {
            assert(s1[k + 1].eq_spec(s2[k + 1]));
        }
        lemma_sum_congruent(d1, d2);
    }
}

/// Whether the transaction carries, addressed to the token contract named
/// `token`, a transfer of exactly `amount` to `recipient`.  This is the
/// fact other contracts check before acting on a payment.
pub open spec fn transfer_blob_present(
    blobs: Seq<crate::model::Blob>,
    token: Seq<char>,
    recipient: Seq<char>,
    amount: u128,
) -> bool {
    exists|k: int, a: SimpleTokenAction|
        {
            &&& 0 <= k < blobs.len()
            &&& (a matches SimpleTokenAction::Transfer { recipient: rec, amount: m } && rec@
                == recipient && m == amount)
            &&& #[trigger] crate::compose::blob_matches(blobs[k], token, a)
        }
}

/// Whether these bytes encode a transfer of exactly `amount` to
/// `recipient`: what a missing-blob failure reports it scanned for.
pub open spec fn expected_transfer_bytes(bytes: Seq<u8>, recipient: Seq<char>, amount: u128) -> bool {
    exists|a: SimpleTokenAction|
        {
            &&& (a matches SimpleTokenAction::Transfer { recipient: rec, amount: m } && rec@
                == recipient && m == amount)
            &&& bytes == #[trigger] a.enc_spec()
        }
}

/// Scanning for one concrete expected transfer finds a blob exactly when
/// a structurally equal transfer is present.
pub proof fn lemma_transfer_present_iff(
    blobs: Seq<crate::model::Blob>,
    token: Seq<char>,
    expected: SimpleTokenAction,
)
    requires
        expected matches SimpleTokenAction::Transfer { .. },
    ensures
        (exists|k: int|
            0 <= k < blobs.len() && #[trigger] crate::compose::blob_matches(
                blobs[k],
                token,
                expected,
            )) <==> transfer_blob_present(
            blobs,
            token,
            expected.spec_recipient(),
            expected.spec_amount(),
        ),
{
    if exists|k: int|
        0 <= k < blobs.len() && #[trigger] crate::compose::blob_matches(blobs[k], token, expected) {
        let k = choose|k: int|
            0 <= k < blobs.len() && #[trigger] crate::compose::blob_matches(
                blobs[k],
                token,
                expected,
            );
        assert(crate::compose::blob_matches(blobs[k], token, expected));
    }
    if transfer_blob_present(blobs, token, expected.spec_recipient(), expected.spec_amount()) {
        let (k, a): (int, SimpleTokenAction) = choose|k: int, a: SimpleTokenAction|
            {
                &&& 0 <= k < blobs.len()
                &&& (a matches SimpleTokenAction::Transfer { recipient: rec, amount: m } && rec@
                    == expected.spec_recipient() && m == expected.spec_amount())
                &&& #[trigger] crate::compose::blob_matches(blobs[k], token, a)
            };
        SimpleTokenAction::lemma_eq_enc(a, expected);
        assert(crate::compose::blob_matches(blobs[k], token, expected));
    }
}

/// Whether no account name appears twice in the entry list.
fn check_unique(entries: &Vec<(String, u128)>) -> (r: bool)
    ensures
        r == unique_keys(entries@),
{
    let n = entries.len();
    let mut k: usize = 0;
    while k < n
        invariant
            k <= n,
            n == entries@.len(),
            forall|i: int, j: int|
                #![trigger entries@[i], entries@[j]]
                0 <= i < j < entries@.len() && j < k ==> entries@[i].0@ != entries@[j].0@,
        decreases n - k,
    {
        let mut m: usize = 0;
        while m < k
            invariant
                m <= k < n,
                n == entries@.len(),
                forall|i: int| 0 <= i < m ==> (#[trigger] entries@[i]).0@ != entries@[k as int].0@,
            decreases k - m,
        {
            if str_eq(entries[m].0.as_str(), entries[k].0.as_str()) {
                return false;
            }
            m = m + 1;
        }
        k = k + 1;
    }
    true
}

/// The sum of all balances, or nothing if it exceeds the largest amount.
fn checked_sum(entries: &Vec<(String, u128)>) -> (r: Option<u128>)
    ensures
        match r {
            Some(s) => sum_entries(entries@) == s as int,
            None => sum_entries(entries@) > u128::MAX,
        },
{
    let n = entries.len();
    let mut acc: u128 = 0;
    let mut k: usize = 0;
    proof {
        lemma_sum_take_step(entries@, 0);
    }
    while k < n
        invariant
            k <= n,
            n == entries@.len(),
            acc as int == sum_entries(entries@.take(k as int)),
        decreases n - k,
    {
        proof {
            lemma_sum_take_step(entries@, k as int);
            lemma_sum_take_full(entries@, k as int + 1);
        }
        match acc.checked_add(entries[k].1) {
            Some(next) => {
                acc = next;
            },
            None => {
                return None;
            },
        }
        k = k + 1;
    }
    proof {
        assert(entries@.take(n as int) =~= entries@);
    }
    Some(acc)
}

/// Extending the summed prefix by one entry adds that entry's balance.
proof fn lemma_sum_take_step(entries: Seq<(String, u128)>, k: int)
    requires
        0 <= k <= entries.len(),
    ensures
        k < entries.len() ==> sum_entries(entries.take(k + 1)) == sum_entries(entries.take(k))
            + entries[k].1,
        sum_entries(entries.take(0)) == 0,
    decreases k,
{
    assert(entries.take(0) =~= Seq::<(String, u128)>::empty());
    if k < entries.len() {
        if k == 0 {
            assert(entries.take(1).drop_first() =~= Seq::<(String, u128)>::empty());
            assert(entries.take(1)[0] == entries[0]);
        } else {
            lemma_sum_take_step(entries.drop_first(), k - 1);
            assert(entries.take(k + 1).drop_first() =~= entries.drop_first().take(k));
            assert(entries.take(k).drop_first() =~= entries.drop_first().take(k - 1));
            assert(entries.take(k + 1)[0] == entries[0]);
            assert(entries.take(k)[0] == entries[0]);
            assert(entries.drop_first()[k - 1] == entries[k]);
        }
    }
}

/// What remains of the sum beyond a prefix is never negative.
proof fn lemma_sum_take_full(entries: Seq<(String, u128)>, k: int)
    requires
        0 <= k <= entries.len(),
    ensures
        sum_entries(entries.take(k)) <= sum_entries(entries),
    decreases entries.len() - k,
{
    if k < entries.len() {
        lemma_sum_take_step(entries, k);
        lemma_sum_take_full(entries, k + 1);
    } else {
        assert(entries.take(k) =~= entries);
    }
}

} // verus!
