//! The account-vector flavor of the fungible token: balances held as a
//! list of named accounts, a faucet account that minting draws from, and
//! a one-way digest of the whole list as the on-chain commitment.

use vstd::prelude::*;

verus! {

use crate::action::ContractAction;
use crate::codec::{
    enc_str, enc_u64, dec_str, dec_u64, read_str, read_u64, write_str, write_u64,
    lemma_dec_str_at, lemma_dec_u64_at, lemma_enc_str_of_dec, lemma_enc_u64_of_dec,
    lemma_dec_str_fits,
};
use crate::errors::ExecError;
use crate::hashing::{sha3_256, sha3_256_of};
use crate::keyed::{
    KeyedField, find_entry, lemma_find_at_index, lemma_find_none_no_match,
    lemma_no_match_find_none, lemma_find_push, lemma_find_update,
};
use crate::machine::ContractStateMachine;
use crate::model::{Calldata, StateDigest};
use crate::text::{decimal_of, str_eq, u128_to_decimal};
use vstd::string::{StringExecFns, StringSliceAdditionalSpecFns};
use vstd::utf8::encode_utf8;

/// One named account and its balance.
#[derive(Debug, Clone)]
pub struct Account {
    pub name: String,
    pub balance: u64,
}

/// All accounts, in the order they were added.  Lookups take the first
/// account of a name.
#[derive(Debug)]
pub struct Balances {
    pub accounts: Vec<Account>,
}

/// A call on the account-vector token.
#[derive(Debug, Clone)]
pub enum ContractFunction {
    Transfer { from: String, to: String, amount: u64 },
    Mint { to: String, amount: u64 },
}

/// The whole execution context of the account-vector token: its state,
/// the transaction hash, the raw payloads, and the index of the payload
/// this contract owns.
#[derive(Debug)]
pub struct TokenContractInput {
    pub balances: Balances,
    pub tx_hash: Vec<u8>,
    pub payloads: Vec<Vec<u8>>,
    pub index: usize,
}

impl KeyedField for Account {
    type Key = Seq<char>;

    open spec fn key(self) -> Seq<char> {
        self.name@
    }
}

/// The sum of all account balances.
pub open spec fn sum_accounts(accounts: Seq<Account>) -> int
    decreases accounts.len(),
{
    if accounts.len() == 0 {
        0
    } else {
        accounts[0].balance + sum_accounts(accounts.drop_first())
    }
}

/// Changing one balance moves the sum by exactly the difference.
proof fn lemma_sum_accounts_update(accounts: Seq<Account>, i: int, v: u64)
    requires
        0 <= i < accounts.len(),
    ensures
        sum_accounts(accounts.update(i, Account { name: accounts[i].name, balance: v }))
            == sum_accounts(accounts) - accounts[i].balance + v,
    decreases i,
{
    let u = accounts.update(i, Account { name: accounts[i].name, balance: v });
    if i == 0 {
        assert(u.drop_first() =~= accounts.drop_first());
    } else {
        assert(u.drop_first() =~= accounts.drop_first().update(
            i - 1,
            Account { name: accounts[i].name, balance: v },
        ));
        assert(accounts.drop_first()[i - 1] == accounts[i]);
        lemma_sum_accounts_update(accounts.drop_first(), i - 1, v);
        assert(u[0] == accounts[0]);
    }
}

/// Appending an account adds its balance to the sum.
proof fn lemma_sum_accounts_push(accounts: Seq<Account>, a: Account)
    ensures
        sum_accounts(accounts.push(a)) == sum_accounts(accounts) + a.balance,
    decreases accounts.len(),
{
    let u = accounts.push(a);
    if accounts.len() == 0 {
        assert(u.drop_first() =~= Seq::<Account>::empty());
        assert(u[0] == a);
        assert(sum_accounts(u) == a.balance + sum_accounts(u.drop_first()));
    } else {
        assert(u.drop_first() =~= accounts.drop_first().push(a));
        lemma_sum_accounts_push(accounts.drop_first(), a);
        assert(u[0] == accounts[0]);
        assert(sum_accounts(u) == u[0].balance + sum_accounts(u.drop_first()));
    }
}

impl Default for Balances {
    /// The genesis account list: one faucet holding a million units.
    fn default() -> (r: Balances)
        ensures
            r.accounts@.len() == 1,
            r.accounts@[0].name@ == "faucet"@,
            r.accounts@[0].balance == 1_000_000,
    {
        let mut accounts: Vec<Account> = Vec::new();
        accounts.push(Account::new(String::from_str("faucet"), 1_000_000));
        Balances { accounts }
    }
}

impl Account {
    /// Creates an account with a starting balance.
    pub fn new(name: String, balance: u64) -> (r: Account)
        ensures
            r.name@ == name@,
            r.balance == balance,
    {
        Account { name, balance }
    }

    /// Debits `amount`, or fails without change when the funds are
    /// short.
    pub fn send(&mut self, amount: u64) -> (r: Result<(), ExecError>)
        ensures
            final(self).name@ == old(self).name@,
            old(self).balance >= amount ==> (r is Ok && final(self).balance == old(self).balance
                - amount),
            old(self).balance < amount ==> {
                &&& *final(self) == *old(self)
                &&& (r matches Err(ExecError::InvariantViolation { message }) && message@
                    == not_enough_funds_message(old(self).name@))
            },
    {
        if self.balance >= amount {
            self.balance = self.balance - amount;
            Ok(())
        } else {
            Err(
                ExecError::InvariantViolation {
                    message: make_not_enough_funds_message(self.name.as_str()),
                },
            )
        }
    }

    /// Credits `amount`.
    pub fn receive(&mut self, amount: u64)
        requires
            old(self).balance + amount <= u64::MAX,
        ensures
            final(self).name@ == old(self).name@,
            final(self).balance == old(self).balance + amount,
    {
        self.balance = self.balance + amount;
    }
}

/// The failure text for an account short of funds, naming the account.
pub open spec fn not_enough_funds_message(name: Seq<char>) -> Seq<char> {
    "Not enough funds in account '"@ + name + "'"@
}

/// Renders the short-of-funds failure text.
fn make_not_enough_funds_message(name: &str) -> (r: String)
    ensures
        r@ == not_enough_funds_message(name@),
{
    String::from_str("Not enough funds in account '").concat(name).concat("'")
}

/// The failure text for an unknown account, naming it.
pub open spec fn no_account_message(name: Seq<char>) -> Seq<char> {
    "Account '"@ + name + "' does not exist"@
}

/// Renders the unknown-account failure text.
fn make_no_account_message(name: &str) -> (r: String)
    ensures
        r@ == no_account_message(name@),
{
    String::from_str("Account '").concat(name).concat("' does not exist")
}

/// What `Balances::send` returns and does: it fails, changing nothing,
/// when the sender is unknown, short of funds, or the recipient's
/// balance would no longer fit; otherwise it moves exactly `amount` and
/// the balances keep their sum.
pub open spec fn send_ens(
    pre: Seq<Account>,
    post: Seq<Account>,
    from: Seq<char>,
    to: Seq<char>,
    amount: u64,
    r: Result<(), ExecError>,
) -> bool {
    match find_entry(pre, from) {
        None => {
            &&& post == pre
            &&& r matches Err(ExecError::InvariantViolation { message }) && message@
                == no_account_message(from)
        },
        Some(acc) => {
            if acc.balance < amount {
                &&& post == pre
                &&& r matches Err(ExecError::InvariantViolation { message }) && message@
                    == not_enough_funds_message(from)
            } else if from == to {
                post == pre && r is Ok
            } else if (match find_entry(pre, to) {
                Some(dst) => dst.balance + amount > u64::MAX,
                None => false,
            }) {
                &&& post == pre
                &&& r matches Err(ExecError::InvariantViolation { message }) && message@
                    == "Balance overflow"@
            } else {
                &&& r is Ok
                &&& sum_accounts(post) == sum_accounts(pre)
                &&& (find_entry(post, from) matches Some(f2) && f2.balance == acc.balance - amount)
                &&& (find_entry(post, to) matches Some(t2) && t2.balance == (match find_entry(
                    pre,
                    to,
                ) {
                    Some(dst) => dst.balance + amount,
                    None => amount as int,
                }))
                &&& forall|a: Seq<char>|
                    a != from && a != to ==> #[trigger] find_entry(post, a) == find_entry(pre, a)
                &&& exists|fi: int|
                    {
                        &&& 0 <= fi < pre.len()
                        &&& (#[trigger] pre[fi]).name@ == from
                        &&& (forall|m: int| 0 <= m < fi ==> (#[trigger] pre[m]).name@ != from)
                        &&& (match find_entry(pre, to) {
                            Some(_) => exists|ti: int|
                                {
                                    &&& 0 <= ti < pre.len()
                                    &&& (#[trigger] pre[ti]).name@ == to
                                    &&& (forall|m: int|
                                        0 <= m < ti ==> (#[trigger] pre[m]).name@ != to)
                                    &&& post == pre.update(
                                        fi,
                                        Account {
                                            name: pre[fi].name,
                                            balance: (acc.balance - amount) as u64,
                                        },
                                    ).update(
                                        ti,
                                        Account {
                                            name: pre[ti].name,
                                            balance: (pre[ti].balance + amount) as u64,
                                        },
                                    )
                                },
                            None => {
                                &&& post.len() == pre.len() + 1
                                &&& post.last().name@ == to
                                &&& post.last().balance == amount
                                &&& forall|k: int|
                                    0 <= k < pre.len() ==> #[trigger] post[k] == pre.update(
                                        fi,
                                        Account {
                                            name: pre[fi].name,
                                            balance: (acc.balance - amount) as u64,
                                        },
                                    )[k]
                            },
                        })
                    }
            }
        },
    }
}

/// What `Balances::mint` returns and does: minting is a send out of the
/// account named `faucet`, with its own failure text when no faucet
/// exists.
pub open spec fn mint_ens(
    pre: Seq<Account>,
    post: Seq<Account>,
    to: Seq<char>,
    amount: u64,
    r: Result<(), ExecError>,
) -> bool {
    match find_entry(pre, "faucet"@) {
        None => {
            &&& post == pre
            &&& r matches Err(ExecError::InvariantViolation { message }) && message@
                == "Account faucet does not exist. This should not happen"@
        },
        Some(_) => send_ens(pre, post, "faucet"@, to, amount, r),
    }
}

impl Balances {
    /// Appends an account.
    pub fn add_account(&mut self, account: Account)
        ensures
            final(self).accounts@ == old(self).accounts@.push(account),
    {
        self.accounts.push(account);
    }

    /// The position of the first account of that name, if any.
    pub fn get_account_index(&self, name: &str) -> (r: Option<usize>)
        ensures
            match r {
                Some(i) => {
                    &&& i < self.accounts@.len()
                    &&& self.accounts@[i as int].name@ == name@
                    &&& find_entry(self.accounts@, name@) == Some(self.accounts@[i as int])
                    &&& forall|m: int|
                        0 <= m < i ==> (#[trigger] self.accounts@[m]).name@ != name@
                },
                None => find_entry(self.accounts@, name@) is None,
            },
    {
        let n = self.accounts.len();
        let mut k: usize = 0;
        while k < n
            invariant
                k <= n,
                n == self.accounts@.len(),
                forall|m: int| 0 <= m < k ==> (#[trigger] self.accounts@[m]).name@ != name@,
            decreases n - k,
        {
            if str_eq(self.accounts[k].name.as_str(), name) {
                proof {
                    lemma_find_at_index(self.accounts@, k as int);
                }
                return Some(k);
            }
            k = k + 1;
        }
        proof {
            lemma_no_match_find_none(self.accounts@, name@);
        }
        None
    }

    /// The balance of the first account of that name, or the failure
    /// naming it as unknown.
    pub fn get_balance(&self, name: &str) -> (r: Result<u64, ExecError>)
        ensures
            match r {
                Ok(b) => find_entry(self.accounts@, name@) matches Some(acc) && acc.balance == b,
                Err(e) => {
                    &&& find_entry(self.accounts@, name@) is None
                    &&& e matches ExecError::InvariantViolation { message } && message@
                        == no_account_message(name@)
                },
            },
    {
        match self.get_account_index(name) {
            Some(i) => Ok(self.accounts[i].balance),
            None => Err(
                ExecError::InvariantViolation { message: make_no_account_message(name) },
            ),
        }
    }

    /// Moves `amount` from `from` to `to`, creating the recipient's
    /// account if it does not exist yet.
    pub fn send(&mut self, from: &str, to: &str, amount: u64) -> (r: Result<(), ExecError>)
        ensures
            send_ens(old(self).accounts@, final(self).accounts@, from@, to@, amount, r),
            r is Err ==> *final(self) == *old(self),
    {
        let fi = match self.get_account_index(from) {
            Some(i) => i,
            None => {
                return Err(
                    ExecError::InvariantViolation { message: make_no_account_message(from) },
                );
            },
        };
        let from_balance = self.accounts[fi].balance;
        if from_balance < amount {
            return Err(
                ExecError::InvariantViolation {
                    message: make_not_enough_funds_message(from),
                },
            );
        }
        if str_eq(from, to) {
            return Ok(());
        }
        let ghost pre = self.accounts@;
        match self.get_account_index(to) {
            Some(ti) => {
                let to_balance = self.accounts[ti].balance;
                if to_balance > u64::MAX - amount {
                    return Err(
                        ExecError::violation("Balance overflow"),
                    );
                }
                proof {
                    lemma_find_update(pre, fi as int, Account {
                        name: pre[fi as int].name,
                        balance: (from_balance - amount) as u64,
                    });
                    lemma_sum_accounts_update(pre, fi as int, (from_balance - amount) as u64);
                }
                set_account_balance(&mut self.accounts, fi, from_balance - amount);
                let ghost mid = self.accounts@;
                proof {
                    assert(mid[ti as int] == Account {
                        name: pre[ti as int].name,
                        balance: pre[ti as int].balance,
                    });
                    assert(forall|m: int|
                        0 <= m < ti ==> (#[trigger] mid[m]).name@ == pre[m].name@);
                    lemma_find_update(mid, ti as int, Account {
                        name: mid[ti as int].name,
                        balance: (to_balance + amount) as u64,
                    });
                    lemma_sum_accounts_update(mid, ti as int, (to_balance + amount) as u64);
                }
                set_account_balance(&mut self.accounts, ti, to_balance + amount);
                Ok(())
            },
            None => {
                proof {
                    lemma_find_update(pre, fi as int, Account {
                        name: pre[fi as int].name,
                        balance: (from_balance - amount) as u64,
                    });
                    lemma_sum_accounts_update(pre, fi as int, (from_balance - amount) as u64);
                    lemma_find_none_no_match(pre, to@);
                }
                set_account_balance(&mut self.accounts, fi, from_balance - amount);
                let ghost mid = self.accounts@;
                let entry = Account::new(String::from_str(to), amount);
                let ghost gentry = entry;
                proof {
                    assert(forall|m: int|
                        0 <= m < mid.len() ==> (#[trigger] mid[m]).name@ == pre[m].name@);
                    lemma_no_match_find_none(mid, to@);
                    lemma_find_push(mid, gentry);
                    lemma_sum_accounts_push(mid, gentry);
                }
                self.accounts.push(entry);
                proof {
                    assert(self.accounts@ =~= mid.push(gentry));
                }
                Ok(())
            },
        }
    }

    /// Mints `amount` to `to` by moving it out of the account named
    /// `faucet`, so the balances keep their sum.
    pub fn mint(&mut self, to: &str, amount: u64) -> (r: Result<(), ExecError>)
        ensures
            mint_ens(old(self).accounts@, final(self).accounts@, to@, amount, r),
            r is Err ==> *final(self) == *old(self),
    {
        match self.get_account_index("faucet") {
            None => Err(
                ExecError::violation("Account faucet does not exist. This should not happen"),
            ),
            Some(_) => self.send("faucet", to, amount),
        }
    }

    /// The bytes the commitment digests: each account's name, then its
    /// balance in big-endian bytes, in account order.
    pub open spec fn hash_input(accounts: Seq<Account>) -> Seq<u8>
        decreases accounts.len(),
    {
        if accounts.len() == 0 {
            Seq::empty()
        } else {
            encode_utf8(accounts[0].name@) + be_u64(accounts[0].balance) + Self::hash_input(
                accounts.drop_first(),
            )
        }
    }

    /// The one-way digest of all accounts, the on-chain commitment of
    /// this state.
    pub fn hash(&self) -> (r: Vec<u8>)
        ensures
            r@ == sha3_256_of(Self::hash_input(self.accounts@)),
            r@.len() == 32,
    {
        let mut input: Vec<u8> = Vec::new();
        let n = self.accounts.len();
        let mut k: usize = 0;
        proof {
            assert(self.accounts@.take(0) =~= Seq::<Account>::empty());
        }
        while k < n
            invariant
                k <= n,
                n == self.accounts@.len(),
                input@ == Self::hash_input(self.accounts@.take(k as int)),
            decreases n - k,
        {
            let account = &self.accounts[k];
            let mut name_bytes = vstd::slice::slice_to_vec(account.name.as_str().as_bytes());
            input.append(&mut name_bytes);
            push_be_u64(&mut input, account.balance);
            proof {
                lemma_hash_input_take_step(self.accounts@, k as int);
            }
            k = k + 1;
        }
        proof {
            assert(self.accounts@.take(n as int) =~= self.accounts@);
        }
        sha3_256(input.as_slice())
    }
}

/// A `u64` as eight big-endian bytes.
pub open spec fn be_u64(x: u64) -> Seq<u8> {
    seq![
        (x >> 56) as u8,
        (x >> 48) as u8,
        (x >> 40) as u8,
        (x >> 32) as u8,
        (x >> 24) as u8,
        (x >> 16) as u8,
        (x >> 8) as u8,
        x as u8,
    ]
}

/// Appends the eight big-endian bytes of `x`.
fn push_be_u64(out: &mut Vec<u8>, x: u64)
    ensures
        final(out)@ == old(out)@ + be_u64(x),
{
    out.push((x >> 56) as u8);
    out.push((x >> 48) as u8);
    out.push((x >> 40) as u8);
    out.push((x >> 32) as u8);
    out.push((x >> 24) as u8);
    out.push((x >> 16) as u8);
    out.push((x >> 8) as u8);
    out.push(x as u8);
    proof {
        assert(final(out)@ =~= old(out)@ + be_u64(x));
    }
}

/// Extending the digested prefix by one account appends that account's
/// name and balance bytes.
proof fn lemma_hash_input_take_step(accounts: Seq<Account>, k: int)
    requires
        0 <= k < accounts.len(),
    ensures
        Balances::hash_input(accounts.take(k + 1)) == Balances::hash_input(accounts.take(k))
            + encode_utf8(accounts[k].name@) + be_u64(accounts[k].balance),
    decreases k,
{
    if k == 0 {
        assert(accounts.take(1).drop_first() =~= Seq::<Account>::empty());
        assert(accounts.take(1)[0] == accounts[0]);
        assert(accounts.take(0) =~= Seq::<Account>::empty());
        assert(Balances::hash_input(accounts.take(1)) =~= Balances::hash_input(accounts.take(0))
            + encode_utf8(accounts[0].name@) + be_u64(accounts[0].balance));
    } else {
        lemma_hash_input_take_step(accounts.drop_first(), k - 1);
        assert(accounts.take(k + 1).drop_first() =~= accounts.drop_first().take(k));
        assert(accounts.take(k).drop_first() =~= accounts.drop_first().take(k - 1));
        assert(accounts.take(k + 1)[0] == accounts[0]);
        assert(accounts.take(k)[0] == accounts[0]);
        assert(accounts.drop_first()[k - 1] == accounts[k]);
        assert(Balances::hash_input(accounts.take(k + 1)) =~= Balances::hash_input(
            accounts.take(k),
        ) + encode_utf8(accounts[k].name@) + be_u64(accounts[k].balance));
    }
}

impl ContractFunction {
    /// The byte layout's leading tag.
    pub open spec fn spec_tag(self) -> u64 {
        match self {
            ContractFunction::Transfer { .. } => 0,
            ContractFunction::Mint { .. } => 1,
        }
    }
}

/// How an encoding of a token call parses: the tag, a sender for a
/// transfer, the recipient, and the amount fill the buffer.
proof fn lemma_contract_function_parse(b: Seq<u8>, a: ContractFunction)
    requires
        a.wf(),
        b == a.enc_spec(),
    ensures
        dec_u64(b, 0) == Some((a.spec_tag(), 8int)),
        a matches ContractFunction::Transfer { from, to, amount } ==> {
            &&& dec_str(b, 8) == Some((from@, 8 + enc_str(from@).len() as int))
            &&& dec_str(b, 8 + enc_str(from@).len() as int) == Some((to@, b.len() - 8))
            &&& dec_u64(b, b.len() - 8) == Some((amount, b.len() as int))
        },
        a matches ContractFunction::Mint { to, amount } ==> {
            &&& dec_str(b, 8) == Some((to@, b.len() - 8))
            &&& dec_u64(b, b.len() - 8) == Some((amount, b.len() as int))
        },
{
    vstd::bytes::lemma_auto_spec_u64_to_from_le_bytes();
    assert(b.subrange(0, 8) =~= enc_u64(a.spec_tag()));
    lemma_dec_u64_at(b, 0, a.spec_tag());
    match a {
        ContractFunction::Transfer { from, to, amount } => {
            let e0 = enc_str(from@);
            let e1 = enc_str(to@);
            assert(b.subrange(8, 8 + e0.len() as int) =~= e0);
            lemma_dec_str_at(b, 8, from@);
            assert(b.subrange(8 + e0.len() as int, 8 + e0.len() as int + e1.len() as int) =~= e1);
            lemma_dec_str_at(b, 8 + e0.len() as int, to@);
            assert(8 + e0.len() + e1.len() == b.len() - 8);
            assert(b.subrange(b.len() - 8, b.len() as int) =~= enc_u64(amount));
            lemma_dec_u64_at(b, b.len() - 8, amount);
        },
        ContractFunction::Mint { to, amount } => {
            let e1 = enc_str(to@);
            assert(b.subrange(8, 8 + e1.len() as int) =~= e1);
            lemma_dec_str_at(b, 8, to@);
            assert(8 + e1.len() == b.len() - 8);
            assert(b.subrange(b.len() - 8, b.len() as int) =~= enc_u64(amount));
            lemma_dec_u64_at(b, b.len() - 8, amount);
        },
    }
}

impl ContractAction for ContractFunction {
    open spec fn eq_spec(self, other: Self) -> bool {
        match (self, other) {
            (
                ContractFunction::Transfer { from: f1, to: t1, amount: a1 },
                ContractFunction::Transfer { from: f2, to: t2, amount: a2 },
            ) => f1@ == f2@ && t1@ == t2@ && a1 == a2,
            (
                ContractFunction::Mint { to: t1, amount: a1 },
                ContractFunction::Mint { to: t2, amount: a2 },
            ) => t1@ == t2@ && a1 == a2,
            _ => false,
        }
    }

    open spec fn wf(self) -> bool {
        match self {
            ContractFunction::Transfer { from, to, .. } => encode_utf8(from@).len() <= u64::MAX
                && encode_utf8(to@).len() <= u64::MAX,
            ContractFunction::Mint { to, .. } => encode_utf8(to@).len() <= u64::MAX,
        }
    }

    open spec fn enc_spec(self) -> Seq<u8> {
        match self {
            ContractFunction::Transfer { from, to, amount } => enc_u64(0) + enc_str(from@)
                + enc_str(to@) + enc_u64(amount),
            ContractFunction::Mint { to, amount } => enc_u64(1) + enc_str(to@) + enc_u64(amount),
        }
    }

    open spec fn parses(b: Seq<u8>) -> bool {
        match dec_u64(b, 0) {
            Some((tag, j)) => {
                if tag == 0 {
                    match dec_str(b, j) {
                        Some((_, j2)) => match dec_str(b, j2) {
                            Some((_, j3)) => match dec_u64(b, j3) {
                                Some((_, j4)) => j4 == b.len(),
                                None => false,
                            },
                            None => false,
                        },
                        None => false,
                    }
                } else if tag == 1 {
                    match dec_str(b, j) {
                        Some((_, j2)) => match dec_u64(b, j2) {
                            Some((_, j3)) => j3 == b.len(),
                            None => false,
                        },
                        None => false,
                    }
                } else {
                    false
                }
            },
            None => false,
        }
    }

    proof fn lemma_parses_enc(a: Self) {
        lemma_contract_function_parse(a.enc_spec(), a);
    }

    proof fn lemma_enc_injective(a: Self, b: Self) {
        lemma_contract_function_parse(a.enc_spec(), a);
        lemma_contract_function_parse(b.enc_spec(), b);
    }

    proof fn lemma_eq_enc(a: Self, b: Self) {
    }

    fn encode(&self) -> (r: Vec<u8>) {
        let mut out: Vec<u8> = Vec::new();
        match self {
            ContractFunction::Transfer { from, to, amount } => {
                write_u64(&mut out, 0);
                write_str(&mut out, from.as_str());
                write_str(&mut out, to.as_str());
                write_u64(&mut out, *amount);
            },
            ContractFunction::Mint { to, amount } => {
                write_u64(&mut out, 1);
                write_str(&mut out, to.as_str());
                write_u64(&mut out, *amount);
            },
        }
        proof {
            assert(out@ =~= self.enc_spec());
        }
        out
    }

    fn decode(bytes: &[u8]) -> (r: Option<Self>) {
        match read_u64(bytes, 0) {
            Some((tag, j)) => {
                if tag > 1 {
                    return None;
                }
                if tag == 0 {
                    match read_str(bytes, j) {
                        Some((from, j2)) => match read_str(bytes, j2) {
                            Some((to, j3)) => match read_u64(bytes, j3) {
                                Some((amount, j4)) => {
                                    if j4 == bytes.len() {
                                        proof {
                                            lemma_dec_str_fits(bytes@, j as int, from@, j2 as int);
                                            lemma_dec_str_fits(bytes@, j2 as int, to@, j3 as int);
                                            lemma_enc_u64_of_dec(bytes@, 0, tag, j as int);
                                            lemma_enc_str_of_dec(bytes@, j as int, from@, j2 as int);
                                            lemma_enc_str_of_dec(bytes@, j2 as int, to@, j3 as int);
                                            lemma_enc_u64_of_dec(bytes@, j3 as int, amount, j4 as int);
                                            assert(bytes@.subrange(0, j as int) + bytes@.subrange(
                                                j as int,
                                                j2 as int,
                                            ) + bytes@.subrange(j2 as int, j3 as int)
                                                + bytes@.subrange(j3 as int, j4 as int) =~= bytes@);
                                        }
                                        Some(ContractFunction::Transfer { from, to, amount })
                                    } else {
                                        None
                                    }
                                },
                                None => None,
                            },
                            None => None,
                        },
                        None => None,
                    }
                } else {
                    match read_str(bytes, j) {
                        Some((to, j2)) => match read_u64(bytes, j2) {
                            Some((amount, j3)) => {
                                if j3 == bytes.len() {
                                    proof {
                                        lemma_dec_str_fits(bytes@, j as int, to@, j2 as int);
                                        lemma_enc_u64_of_dec(bytes@, 0, tag, j as int);
                                        lemma_enc_str_of_dec(bytes@, j as int, to@, j2 as int);
                                        lemma_enc_u64_of_dec(bytes@, j2 as int, amount, j3 as int);
                                        assert(bytes@.subrange(0, j as int) + bytes@.subrange(
                                            j as int,
                                            j2 as int,
                                        ) + bytes@.subrange(j2 as int, j3 as int) =~= bytes@);
                                    }
                                    Some(ContractFunction::Mint { to, amount })
                                } else {
                                    None
                                }
                            },
                            None => None,
                        },
                        None => None,
                    }
                }
            },
            None => None,
        }
    }
}

/// What one decoded token call does to the account list.
pub open spec fn balances_action_ens(
    pre: Balances,
    post: Balances,
    a: ContractFunction,
    r: Result<String, ExecError>,
) -> bool {
    match a {
        ContractFunction::Transfer { from, to, amount } => {
            match r {
                Ok(m) => m@ == "Transferred "@ + decimal_of(amount as nat) + " from "@ + from@
                    + " to "@ + to@ && send_ens(
                    pre.accounts@,
                    post.accounts@,
                    from@,
                    to@,
                    amount,
                    Ok(()),
                ),
                Err(e) => send_ens(pre.accounts@, post.accounts@, from@, to@, amount, Err(e)),
            }
        },
        ContractFunction::Mint { to, amount } => {
            match r {
                Ok(m) => m@ == "Minted "@ + decimal_of(amount as nat) + " to "@ + to@ && mint_ens(
                    pre.accounts@,
                    post.accounts@,
                    to@,
                    amount,
                    Ok(()),
                ),
                Err(e) => mint_ens(pre.accounts@, post.accounts@, to@, amount, Err(e)),
            }
        },
    }
}

impl ContractStateMachine for Balances {
    open spec fn wf(self) -> bool {
        true
    }

    open spec fn digest_spec(self) -> Seq<u8> {
        sha3_256_of(Balances::hash_input(self.accounts@))
    }

    open spec fn execute_ens(
        pre: Self,
        post: Self,
        calldata: Calldata,
        r: Result<String, ExecError>,
    ) -> bool {
        if calldata.index as int >= calldata.blobs@.len() {
            post == pre && r matches Err(ExecError::IndexOutOfRange)
        } else {
            match crate::compose::action_bytes(calldata.blobs@[calldata.index as int].data@) {
                Some(rest) => {
                    if ContractFunction::parses(rest) {
                        exists|a: ContractFunction|
                            #[trigger] a.enc_spec() == rest && balances_action_ens(pre, post, a, r)
                    } else {
                        post == pre && (r matches Err(ExecError::DecodeError { message }) && message@
                            == "the blob does not hold a token call"@)
                    }
                },
                None => post == pre && (r matches Err(ExecError::DecodeError { message }) && message@
                            == "the blob does not hold a token call"@),
            }
        }
    }

    fn execute(&mut self, calldata: &Calldata) -> (r: Result<String, ExecError>) {
        let idx = calldata.index as usize;
        if idx >= calldata.blobs.len() {
            return Err(ExecError::IndexOutOfRange);
        }
        match crate::compose::parse_blob::<ContractFunction>(&calldata.blobs, idx) {
            None => Err(
                ExecError::DecodeError {
                    message: String::from_str("the blob does not hold a token call"),
                },
            ),
            Some(action) => {
                let ghost gaction = action;
                let r = match action {
                    ContractFunction::Transfer { from, to, amount } => {
                        match self.send(from.as_str(), to.as_str(), amount) {
                            Ok(()) => {
                                let dec = u128_to_decimal(amount as u128);
                                Ok(
                                    String::from_str("Transferred ").concat(dec.as_str()).concat(
                                        " from ",
                                    ).concat(from.as_str()).concat(" to ").concat(to.as_str()),
                                )
                            },
                            Err(e) => Err(e),
                        }
                    },
                    ContractFunction::Mint { to, amount } => {
                        match self.mint(to.as_str(), amount) {
                            Ok(()) => {
                                let dec = u128_to_decimal(amount as u128);
                                Ok(
                                    String::from_str("Minted ").concat(dec.as_str()).concat(
                                        " to ",
                                    ).concat(to.as_str()),
                                )
                            },
                            Err(e) => Err(e),
                        }
                    },
                };
                proof {
                    assert(balances_action_ens(*old(self), *final(self), gaction, r));
                }
                r
            },
        }
    }

    fn commit(&self) -> (d: StateDigest) {
        StateDigest(self.hash())
    }
}

/// Replaces the balance at index `i`, keeping the account's name.
fn set_account_balance(accounts: &mut Vec<Account>, i: usize, v: u64)
    requires
        i < old(accounts)@.len(),
    ensures
        final(accounts)@ == old(accounts)@.update(
            i as int,
            Account { name: old(accounts)@[i as int].name, balance: v },
        ),
{
    let slot = vstd::std_specs::vec::vec_index_mut(accounts, i);
    slot.balance = v;
}

} // verus!
