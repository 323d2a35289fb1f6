//! Identity verification: accounts registered under a one-way digest of
//! the account name and a private secret, each with a nonce that a
//! successful verification increments by exactly one.

use vstd::prelude::*;

verus! {

use crate::action::ContractAction;
use crate::codec::{
    WireField, enc_str, enc_u64, dec_str, dec_u64, read_str, read_u64, write_str, write_u64,
    write_list, lemma_dec_str_at, lemma_dec_u64_at, lemma_enc_str_of_dec, lemma_enc_u64_of_dec,
    decode_record, enc_record, lemma_enc_record_injective, note_vec_len,
};
use crate::errors::ExecError;
use crate::hashing::{hex_of, sha256_of, sha256, hex_encode};
use crate::keyed::{
    KeyedField, find_entry, unique_by_key, lemma_find_at_index, lemma_find_none_no_match,
    lemma_no_match_find_none, lemma_find_push, lemma_find_update,
};
use crate::machine::ContractStateMachine;
use crate::model::{Calldata, StateDigest};
use crate::text::{note_str_len, str_eq};
use vstd::string::{StringExecFns, StringSliceAdditionalSpecFns};
use vstd::utf8::{encode_utf8, decode_utf8, valid_utf8};

/// One account's record: the digest its owner must reproduce, and the
/// nonce of the next verification.
#[derive(Debug, Clone, PartialEq, Eq)]
pub struct AccountInfo {
    pub hash: String,
    pub nonce: u32,
}

/// The identity contract's state: each account's record, keyed by the
/// account name.
#[derive(Debug, Clone)]
pub struct IdentityContractState {
    pub identities: Vec<(String, AccountInfo)>,
}

impl KeyedField for (String, AccountInfo) {
    type Key = Seq<char>;

    open spec fn key(self) -> Seq<char> {
        self.0@
    }
}

impl WireField for (String, AccountInfo) {
    open spec fn eq_spec(self, other: Self) -> bool {
        &&& self.0@ == other.0@
        &&& self.1.hash@ == other.1.hash@
        &&& self.1.nonce == other.1.nonce
    }

    open spec fn wf(self) -> bool {
        &&& encode_utf8(self.0@).len() <= u64::MAX
        &&& encode_utf8(self.1.hash@).len() <= u64::MAX
    }

    open spec fn enc_spec(self) -> Seq<u8> {
        enc_str(self.0@) + enc_str(self.1.hash@) + enc_u64(self.1.nonce as u64)
    }

    open spec fn parse_end(b: Seq<u8>, i: int) -> Option<int> {
        match dec_str(b, i) {
            Some((_, j)) => match dec_str(b, j) {
                Some((_, j2)) => match dec_u64(b, j2) {
                    Some((x, j3)) => if x <= u32::MAX as u64 {
                        Some(j3)
                    } else {
                        None
                    },
                    None => None,
                },
                None => None,
            },
            None => None,
        }
    }

    proof fn lemma_parse_end_enc(b: Seq<u8>, i: int, x: Self) {
        vstd::bytes::lemma_auto_spec_u64_to_from_le_bytes();
        let e = x.enc_spec();
        let e0 = enc_str(x.0@);
        let e1 = enc_str(x.1.hash@);
        assert(enc_u64(x.1.nonce as u64).len() == 8);
        assert(e.len() == e0.len() + e1.len() + 8);
        assert(b.subrange(i, i + e0.len()) =~= e.subrange(0, e0.len() as int));
        assert(e.subrange(0, e0.len() as int) =~= e0);
        lemma_dec_str_at(b, i, x.0@);
        assert(b.subrange(i + e0.len(), i + e0.len() + e1.len()) =~= e.subrange(
            e0.len() as int,
            e0.len() as int + e1.len() as int,
        ));
        assert(e.subrange(e0.len() as int, e0.len() as int + e1.len() as int) =~= e1);
        lemma_dec_str_at(b, i + e0.len(), x.1.hash@);
        assert(b.subrange(i + e0.len() + e1.len(), i + e.len()) =~= e.subrange(
            e0.len() as int + e1.len() as int,
            e.len() as int,
        ));
        assert(e.subrange(e0.len() as int + e1.len() as int, e.len() as int) =~= enc_u64(
            x.1.nonce as u64,
        ));
        lemma_dec_u64_at(b, i + e0.len() + e1.len(), x.1.nonce as u64);
    }

    proof fn lemma_enc_injective(a: Self, b: Self) {
        let e = a.enc_spec();
        lemma_identity_entry_parse(e, a);
        lemma_identity_entry_parse(e, b);
    }

    fn write(&self, out: &mut Vec<u8>) {
        write_str(out, self.0.as_str());
        write_str(out, self.1.hash.as_str());
        write_u64(out, self.1.nonce as u64);
        proof {
            assert(final(out)@ =~= old(out)@ + self.enc_spec());
        }
    }

    fn read_at(b: &[u8], i: usize) -> (r: Option<(Self, usize)>) {
        match read_str(b, i) {
            Some((name, j)) => match read_str(b, j) {
                Some((hash, j2)) => match read_u64(b, j2) {
                    Some((nonce, j3)) => {
                        if nonce <= u32::MAX as u64 {
                            proof {
                                crate::codec::lemma_dec_str_fits(b@, i as int, name@, j as int);
                                crate::codec::lemma_dec_str_fits(b@, j as int, hash@, j2 as int);
                                lemma_enc_str_of_dec(b@, i as int, name@, j as int);
                                lemma_enc_str_of_dec(b@, j as int, hash@, j2 as int);
                                lemma_enc_u64_of_dec(b@, j2 as int, nonce, j3 as int);
                                assert(b@.subrange(i as int, j as int) + b@.subrange(
                                    j as int,
                                    j2 as int,
                                ) + b@.subrange(j2 as int, j3 as int) =~= b@.subrange(
                                    i as int,
                                    j3 as int,
                                ));
                            }
                            Some(((name, AccountInfo { hash, nonce: nonce as u32 }), j3))
                        } else {
                            None
                        }
                    },
                    None => None,
                },
                None => None,
            },
            None => None,
        }
    }
}

/// How an encoding of an account record parses: name, digest and nonce
/// sit one after the other.
proof fn lemma_identity_entry_parse(b: Seq<u8>, x: (String, AccountInfo))
    requires
        x.wf(),
        b == x.enc_spec(),
    ensures
        dec_str(b, 0) == Some((x.0@, enc_str(x.0@).len() as int)),
        dec_str(b, enc_str(x.0@).len() as int) == Some((x.1.hash@, b.len() - 8)),
        dec_u64(b, b.len() - 8) == Some((x.1.nonce as u64, b.len() as int)),
    decreases b.len(),
{
    vstd::bytes::lemma_auto_spec_u64_to_from_le_bytes();
    let e0 = enc_str(x.0@);
    let e1 = enc_str(x.1.hash@);
    assert(b.subrange(0, e0.len() as int) =~= e0);
    lemma_dec_str_at(b, 0, x.0@);
    assert(b.subrange(e0.len() as int, e0.len() as int + e1.len() as int) =~= e1);
    lemma_dec_str_at(b, e0.len() as int, x.1.hash@);
    assert(e0.len() + e1.len() == b.len() - 8);
    assert(b.subrange(b.len() - 8, b.len() as int) =~= enc_u64(x.1.nonce as u64));
    lemma_dec_u64_at(b, b.len() - 8, x.1.nonce as u64);
}

/// The digest stored and checked for an account: the UTF-8 bytes of the
/// account name, a colon, and the private secret.
pub open spec fn id_input(account: Seq<char>, private_input: Seq<char>) -> Seq<u8> {
    encode_utf8(account + ":"@ + private_input)
}

/// An account name padded with zeroes to sixty-four characters, then a
/// colon; names already that long are kept whole.
pub open spec fn padded_id(account: Seq<char>) -> Seq<char> {
    if account.len() >= 64 {
        account + seq![':']
    } else {
        account + Seq::new((64 - account.len()) as nat, |i: int| '0') + seq![':']
    }
}

/// The bytes whose digest `build_identity_id` returns: the padded name's
/// UTF-8 bytes, then the password's digest.
pub open spec fn identity_id_input(account: Seq<char>, password: Seq<char>) -> Seq<u8> {
    encode_utf8(padded_id(account)) + sha256_of(encode_utf8(password))
}

/// Computes the stored form of an account's digest: the hexadecimal
/// rendering of the one-way digest of `account:private_input`.
fn compute_hash(account: &str, private_input: &str) -> (h: String)
    ensures
        h@ == hex_of(sha256_of(id_input(account@, private_input@))),
{
    let id = String::from_str(account).concat(":").concat(private_input);
    let digest = sha256(id.as_str().as_bytes());
    hex_encode(digest.as_slice())
}

/// Finds the index of the record for `account`, if one exists.
fn find_ident(entries: &Vec<(String, AccountInfo)>, account: &str) -> (r: Option<usize>)
    ensures
        match r {
            Some(i) => {
                &&& i < entries@.len()
                &&& entries@[i as int].0@ == account@
                &&& find_entry(entries@, account@) == Some(entries@[i as int])
                &&& forall|m: int| 0 <= m < i ==> (#[trigger] entries@[m]).0@ != account@
            },
            None => find_entry(entries@, account@) is None,
        },
{
    let n = entries.len();
    let mut k: usize = 0;
    while k < n
        invariant
            k <= n,
            n == entries@.len(),
            forall|m: int| 0 <= m < k ==> (#[trigger] entries@[m]).0@ != account@,
        decreases n - k,
    {
        if str_eq(entries[k].0.as_str(), account) {
            proof {
                lemma_find_at_index(entries@, k as int);
            }
            return Some(k);
        }
        k = k + 1;
    }
    proof {
        lemma_no_match_find_none(entries@, account@);
    }
    None
}

/// Every record's strings fit the wire's length fields.
pub open spec fn id_entries_wf(entries: Seq<(String, AccountInfo)>) -> bool {
    forall|k: int| 0 <= k < entries.len() ==> (#[trigger] entries[k]).wf()
}

impl Default for IdentityContractState {
    /// The empty registry.
    fn default() -> (r: IdentityContractState)
        ensures
            r.wf(),
            r.identities@.len() == 0,
    {
        IdentityContractState::new()
    }
}

impl IdentityContractState {
    /// The state's invariant: account names are unique and every string
    /// fits the wire.
    pub open spec fn wf(self) -> bool {
        &&& unique_by_key(self.identities@)
        &&& id_entries_wf(self.identities@)
        &&& self.identities@.len() <= u64::MAX
    }

    /// The record stored for an account, if any.
    pub open spec fn spec_account(self, a: Seq<char>) -> Option<(String, AccountInfo)> {
        find_entry(self.identities@, a)
    }

    /// The nonce stored for an account, if any.
    pub open spec fn spec_nonce(self, a: Seq<char>) -> Option<u32> {
        match find_entry(self.identities@, a) {
            Some(e) => Some(e.1.nonce),
            None => None,
        }
    }

    /// Creates the empty registry.
    pub fn new() -> (r: IdentityContractState)
        ensures
            r.wf(),
            r.identities@.len() == 0,
    {
        let identities: Vec<(String, AccountInfo)> = Vec::new();
        IdentityContractState { identities }
    }

    /// The nonce of the account's next verification, or the failure
    /// naming the account as unknown.
    pub fn get_nonce(&self, username: &str) -> (r: Result<u32, &'static str>)
        ensures
            match r {
                Ok(n) => self.spec_nonce(username@) == Some(n),
                Err(e) => self.spec_nonce(username@) is None && e@ == "Identity not found"@,
            },
    {
        match find_ident(&self.identities, username) {
            Some(i) => Ok(self.identities[i].1.nonce),
            None => Err("Identity not found"),
        }
    }

    /// The record stored for an account, if any.
    pub fn account_info(&self, account: &str) -> (r: Option<AccountInfo>)
        ensures
            match r {
                Some(info) => (self.spec_account(account@) matches Some(e) && e.1.hash@
                    == info.hash@ && e.1.nonce == info.nonce),
                None => self.spec_account(account@) is None,
            },
    {
        match find_ident(&self.identities, account) {
            Some(i) => Some(
                AccountInfo {
                    hash: self.identities[i].1.hash.clone(),
                    nonce: self.identities[i].1.nonce,
                },
            ),
            None => None,
        }
    }

    /// Derives a stand-alone identity commitment: the one-way digest of
    /// the account name padded with zeroes to sixty-four characters, a
    /// colon, and the one-way digest of the password.
    pub fn build_identity_id(account: &str, password: &str) -> (r: Vec<u8>)
        ensures
            r@ == sha256_of(identity_id_input(account@, password@)),
            r@.len() == 32,
    {
        let mut id = String::from_str(account);
        let mut k: usize = account.unicode_len();
        let ghost pad_start = k as int;
        proof {
            assert(id@ =~= account@ + Seq::new(0, |i: int| '0'));
        }
        while k < 64
            invariant
                pad_start <= k,
                pad_start == account@.len(),
                pad_start < 64 ==> k <= 64,
                pad_start >= 64 ==> k == pad_start,
                id@ == account@ + Seq::new((k - pad_start) as nat, |i: int| '0'),
            decreases 64 - k,
        {
            id.append("0");
            proof {
                reveal_strlit("0");
                assert("0"@ =~= seq!['0']);
                assert(id@ =~= account@ + Seq::new((k + 1 - pad_start) as nat, |i: int| '0'));
            }
            k = k + 1;
        }
        id.append(":");
        proof {
            reveal_strlit(":");
            assert(":"@ =~= seq![':']);
            if account@.len() >= 64 {
                assert(id@ =~= padded_id(account@));
            } else {
                assert(id@ =~= padded_id(account@));
            }
        }
        let mut bytes = vstd::slice::slice_to_vec(id.as_str().as_bytes());
        let mut password_hash = sha256(password.as_bytes());
        bytes.append(&mut password_hash);
        proof {
            assert(bytes@ =~= identity_id_input(account@, password@));
        }
        sha256(bytes.as_slice())
    }

    /// What `register_identity` returns and does: it fails, changing
    /// nothing, when the account already exists; otherwise it records the
    /// account under the digest of `account:private_input` with nonce
    /// zero, and nothing else changes.
    pub open spec fn register_ens(
        pre: IdentityContractState,
        post: IdentityContractState,
        account: Seq<char>,
        private_input: Seq<char>,
        r: Result<String, ExecError>,
    ) -> bool {
        match find_entry(pre.identities@, account) {
            Some(_) => {
                &&& post == pre
                &&& r matches Err(ExecError::InvariantViolation { message }) && message@
                    == "Identity already exists"@
            },
            None => {
                &&& r matches Ok(m) && m@ == "Successfully registered identity for account: {}"@
                &&& post.identities@.len() == pre.identities@.len() + 1
                &&& post.identities@.last().0@ == account
                &&& post.identities@.last().1.hash@ == hex_of(
                    sha256_of(id_input(account, private_input)),
                )
                &&& post.identities@.last().1.nonce == 0
                &&& (forall|k: int|
                    0 <= k < pre.identities@.len() ==> #[trigger] post.identities@[k]
                        == pre.identities@[k])
                &&& (find_entry(post.identities@, account) matches Some(e) && e.1.hash@ == hex_of(
                    sha256_of(id_input(account, private_input)),
                ) && e.1.nonce == 0)
                &&& forall|a: Seq<char>|
                    a != account ==> #[trigger] find_entry(post.identities@, a) == find_entry(
                        pre.identities@,
                        a,
                    )
            },
        }
    }

    /// Registers `account` under the digest of the private secret.
    pub fn register_identity(&mut self, account: &str, private_input: &str) -> (r: Result<
        String,
        ExecError,
    >)
        requires
            (*old(self)).wf(),
        ensures
            (*final(self)).wf(),
            Self::register_ens(*old(self), *final(self), account@, private_input@, r),
            r is Err ==> *final(self) == *old(self),
    {
        match find_ident(&self.identities, account) {
            Some(_) => Err(
                ExecError::violation("Identity already exists"),
            ),
            None => {
                note_str_len(account);
                let hash = compute_hash(account, private_input);
                note_str_len(hash.as_str());
                let entry = (String::from_str(account), AccountInfo { hash, nonce: 0 });
                let ghost pre = self.identities@;
                let ghost gentry = entry;
                proof {
                    lemma_find_push(pre, gentry);
                    lemma_find_none_no_match(pre, account@);
                }
                self.identities.push(entry);
                note_vec_len(&self.identities);
                proof {
                    let post = self.identities@;
                    assert(post =~= pre.push(gentry));
                    assert(forall|k: int| 0 <= k < pre.len() ==> (#[trigger] post[k]) == pre[k]);
                    assert(post[pre.len() as int] == gentry);
                    assert(find_entry(post, account@) == Some(gentry));
                }
                Ok(String::from_str("Successfully registered identity for account: {}"))
            },
        }
    }

    /// What `verify_identity` returns and does: it fails, changing
    /// nothing, on an unknown account, a stale nonce, a wrong secret, or
    /// an exhausted nonce; otherwise it increments exactly that account's
    /// nonce by one.
    pub open spec fn verify_ens(
        pre: IdentityContractState,
        post: IdentityContractState,
        account: Seq<char>,
        nonce: u32,
        private_input: Seq<char>,
        r: Result<String, ExecError>,
    ) -> bool {
        match find_entry(pre.identities@, account) {
            None => {
                &&& post == pre
                &&& r matches Err(ExecError::InvariantViolation { message }) && message@
                    == "Identity not found"@
            },
            Some(e) => {
                if nonce != e.1.nonce {
                    &&& post == pre
                    &&& r matches Err(ExecError::InvariantViolation { message }) && message@
                        == "Invalid nonce"@
                } else if e.1.hash@ != hex_of(sha256_of(id_input(account, private_input))) {
                    &&& post == pre
                    &&& r matches Err(ExecError::InvariantViolation { message }) && message@
                        == "Invalid hash (wrong secret check)"@
                } else if e.1.nonce == u32::MAX {
                    &&& post == pre
                    &&& r matches Err(ExecError::InvariantViolation { message }) && message@
                        == "Nonce exhausted"@
                } else {
                    &&& r matches Ok(m) && m@ == "Identity verified"@
                    &&& post.identities@.len() == pre.identities@.len()
                    &&& (find_entry(post.identities@, account) matches Some(e2) && e2.1.hash@
                        == e.1.hash@ && e2.1.nonce == e.1.nonce + 1)
                    &&& (forall|k: int|
                        0 <= k < pre.identities@.len() ==> (#[trigger] post.identities@[k]).0@
                            == pre.identities@[k].0@ && post.identities@[k].1.hash@
                            == pre.identities@[k].1.hash@ && post.identities@[k].1.nonce == (
                        if pre.identities@[k].0@ == account {
                            (e.1.nonce + 1) as u32
                        } else {
                            pre.identities@[k].1.nonce
                        }))
                    &&& forall|a: Seq<char>|
                        a != account ==> #[trigger] find_entry(post.identities@, a) == find_entry(
                            pre.identities@,
                            a,
                        )
                }
            },
        }
    }

    /// Verifies `account` against its nonce and secret; on success the
    /// account's nonce increases by exactly one.
    pub fn verify_identity(&mut self, account: &str, nonce: u32, private_input: &str) -> (r:
        Result<String, ExecError>)
        requires
            (*old(self)).wf(),
        ensures
            (*final(self)).wf(),
            Self::verify_ens(*old(self), *final(self), account@, nonce, private_input@, r),
            r is Err ==> *final(self) == *old(self),
    {
        let i = match find_ident(&self.identities, account) {
            Some(i) => i,
            None => {
                return Err(
                    ExecError::violation("Identity not found"),
                );
            },
        };
        let stored_nonce = self.identities[i].1.nonce;
        if nonce != stored_nonce {
            return Err(ExecError::violation("Invalid nonce"));
        }
        let expected = compute_hash(account, private_input);
        if !str_eq(self.identities[i].1.hash.as_str(), expected.as_str()) {
            return Err(
                ExecError::violation("Invalid hash (wrong secret check)"),
            );
        }
        if stored_nonce == u32::MAX {
            return Err(
                ExecError::violation("Nonce exhausted"),
            );
        }
        let ghost pre = self.identities@;
        let slot = vstd::std_specs::vec::vec_index_mut(&mut self.identities, i);
        slot.1.nonce = slot.1.nonce + 1;
        proof {
            let gentry = (pre[i as int].0, AccountInfo { hash: pre[i as int].1.hash, nonce: (stored_nonce + 1) as u32 });
            assert(*final(slot) == gentry);
            lemma_find_update(pre, i as int, gentry);
            let post = self.identities@;
            let ii = i as int;
            assert(post == pre.update(ii, gentry));
            assert(forall|k: int|
                0 <= k < post.len() ==> (#[trigger] post[k]).0@ == pre[k].0@ && post[k].wf());
            assert forall|k: int|
                0 <= k < pre.len() implies (#[trigger] post[k]).0@ == pre[k].0@ && post[k].1.hash@
                    == pre[k].1.hash@ && post[k].1.nonce == (if pre[k].0@ == account@ {
                    (stored_nonce + 1) as u32
                } else {
                    pre[k].1.nonce
                }) by {
                if k != ii && pre[k].0@ == account@ {
                    if k < ii {
                        assert(pre[k].key() != pre[ii].key());
                    } else {
                        assert(pre[ii].key() != pre[k].key());
                    }
                }
            }
        }
        Ok(String::from_str("Identity verified"))
    }
}


/// Nonce monotonicity: a successful verification moves the account's
/// nonce from exactly the presented value to exactly one more, and any
/// failed verification leaves the whole state untouched.
pub proof fn lemma_verify_nonce_monotonic(
    pre: IdentityContractState,
    post: IdentityContractState,
    account: Seq<char>,
    nonce: u32,
    private_input: Seq<char>,
    r: Result<String, ExecError>,
)
    requires
        IdentityContractState::verify_ens(pre, post, account, nonce, private_input, r),
    ensures
        r is Ok ==> pre.spec_nonce(account) == Some(nonce) && nonce < u32::MAX
            && post.spec_nonce(account) == Some((nonce + 1) as u32),
        r is Err ==> post == pre,
{
}

/// A call on the identity contract.
#[derive(Debug, Clone)]
pub enum IdentityAction {
    RegisterIdentity { account: String },
    VerifyIdentity { account: String, nonce: u32 },
}

impl IdentityAction {
    /// The byte layout's leading tag.
    pub open spec fn spec_tag(self) -> u64 {
        match self {
            IdentityAction::RegisterIdentity { .. } => 0,
            IdentityAction::VerifyIdentity { .. } => 1,
        }
    }

    /// The account the action concerns.
    pub open spec fn spec_account(self) -> Seq<char> {
        match self {
            IdentityAction::RegisterIdentity { account } => account@,
            IdentityAction::VerifyIdentity { account, .. } => account@,
        }
    }
}

/// How an encoding of an identity action parses: the tag and the account,
/// then for a verification the nonce, fill the buffer.
proof fn lemma_identity_action_parse(b: Seq<u8>, a: IdentityAction)
    requires
        a.wf(),
        b == a.enc_spec(),
    ensures
        dec_u64(b, 0) == Some((a.spec_tag(), 8int)),
        dec_str(b, 8) == Some(
            (
                a.spec_account(),
                8 + enc_str(a.spec_account()).len() as int,
            ),
        ),
        a matches IdentityAction::VerifyIdentity { nonce, .. } ==> dec_u64(
            b,
            b.len() - 8,
        ) == Some((nonce as u64, b.len() as int)) && b.len() - 8 == 8 + enc_str(
            a.spec_account(),
        ).len() as int,
        (a matches IdentityAction::RegisterIdentity { .. } ==> b.len() == 8 + enc_str(
            a.spec_account(),
        ).len() as int),
{
    vstd::bytes::lemma_auto_spec_u64_to_from_le_bytes();
    let es = enc_str(a.spec_account());
    assert(b.subrange(0, 8) =~= enc_u64(a.spec_tag()));
    lemma_dec_u64_at(b, 0, a.spec_tag());
    assert(b.subrange(8, 8 + es.len() as int) =~= es);
    lemma_dec_str_at(b, 8, a.spec_account());
    match a {
        IdentityAction::RegisterIdentity { .. } => {},
        IdentityAction::VerifyIdentity { nonce, .. } => {
            assert(b.subrange(b.len() - 8, b.len() as int) =~= enc_u64(nonce as u64));
            lemma_dec_u64_at(b, b.len() - 8, nonce as u64);
        },
    }
}

impl ContractAction for IdentityAction {
    open spec fn eq_spec(self, other: Self) -> bool {
        match (self, other) {
            (
                IdentityAction::RegisterIdentity { account: a1 },
                IdentityAction::RegisterIdentity { account: a2 },
            ) => a1@ == a2@,
            (
                IdentityAction::VerifyIdentity { account: a1, nonce: n1 },
                IdentityAction::VerifyIdentity { account: a2, nonce: n2 },
            ) => a1@ == a2@ && n1 == n2,
            _ => false,
        }
    }

    open spec fn wf(self) -> bool {
        encode_utf8(self.spec_account()).len() <= u64::MAX
    }

    open spec fn enc_spec(self) -> Seq<u8> {
        match self {
            IdentityAction::RegisterIdentity { account } => enc_u64(0) + enc_str(account@),
            IdentityAction::VerifyIdentity { account, nonce } => enc_u64(1) + enc_str(account@)
                + enc_u64(nonce as u64),
        }
    }

    open spec fn parses(b: Seq<u8>) -> bool {
        match dec_u64(b, 0) {
            Some((tag, j)) => match dec_str(b, j) {
                Some((_, j2)) => {
                    if tag == 0 {
                        j2 == b.len()
                    } else if tag == 1 {
                        match dec_u64(b, j2) {
                            Some((n, j3)) => n <= u32::MAX as u64 && j3 == b.len(),
                            None => false,
                        }
                    } else {
                        false
                    }
                },
                None => false,
            },
            None => false,
        }
    }

    proof fn lemma_parses_enc(a: Self) {
        lemma_identity_action_parse(a.enc_spec(), a);
    }

    proof fn lemma_enc_injective(a: Self, b: Self) {
        lemma_identity_action_parse(a.enc_spec(), a);
        lemma_identity_action_parse(b.enc_spec(), b);
    }

    proof fn lemma_eq_enc(a: Self, b: Self) {
    }

    fn encode(&self) -> (r: Vec<u8>) {
        let mut out: Vec<u8> = Vec::new();
        match self {
            IdentityAction::RegisterIdentity { account } => {
                write_u64(&mut out, 0);
                write_str(&mut out, account.as_str());
            },
            IdentityAction::VerifyIdentity { account, nonce } => {
                write_u64(&mut out, 1);
                write_str(&mut out, account.as_str());
                write_u64(&mut out, *nonce as u64);
            },
        }
        proof {
            assert(out@ =~= self.enc_spec());
        }
        out
    }

    fn decode(bytes: &[u8]) -> (r: Option<Self>) {
        match read_u64(bytes, 0) {
            Some((tag, j)) => {
                if tag > 1 {
                    return None;
                }
                match read_str(bytes, j) {
                    Some((account, j2)) => {
                        proof {
                            crate::codec::lemma_dec_str_fits(bytes@, j as int, account@, j2 as int);
                            lemma_enc_u64_of_dec(bytes@, 0, tag, j as int);
                            lemma_enc_str_of_dec(bytes@, j as int, account@, j2 as int);
                        }
                        if tag == 0 {
                            if j2 == bytes.len() {
                                proof {
                                    assert(bytes@.subrange(0, j as int) + bytes@.subrange(
                                        j as int,
                                        j2 as int,
                                    ) =~= bytes@);
                                }
                                Some(IdentityAction::RegisterIdentity { account })
                            } else {
                                None
                            }
                        } else {
                            match read_u64(bytes, j2) {
                                Some((nonce, j3)) => {
                                    if nonce <= u32::MAX as u64 && j3 == bytes.len() {
                                        proof {
                                            lemma_enc_u64_of_dec(bytes@, j2 as int, nonce, j3 as int);
                                            assert(bytes@.subrange(0, j as int) + bytes@.subrange(
                                                j as int,
                                                j2 as int,
                                            ) + bytes@.subrange(j2 as int, j3 as int) =~= bytes@);
                                        }
                                        Some(
                                            IdentityAction::VerifyIdentity {
                                                account,
                                                nonce: nonce as u32,
                                            },
                                        )
                                    } else {
                                        None
                                    }
                                },
                                None => None,
                            }
                        }
                    },
                    None => None,
                }
            },
            None => None,
        }
    }
}

/// What one decoded identity action does to the state, given the
/// transaction's private input.
pub open spec fn identity_action_ens(
    pre: IdentityContractState,
    post: IdentityContractState,
    private_input: Seq<char>,
    a: IdentityAction,
    r: Result<String, ExecError>,
) -> bool {
    match a {
        IdentityAction::RegisterIdentity { account } => IdentityContractState::register_ens(
            pre,
            post,
            account@,
            private_input,
            r,
        ),
        IdentityAction::VerifyIdentity { account, nonce } => IdentityContractState::verify_ens(
            pre,
            post,
            account@,
            nonce,
            private_input,
            r,
        ),
    }
}

impl ContractStateMachine for IdentityContractState {
    open spec fn wf(self) -> bool {
        IdentityContractState::wf(self)
    }

    open spec fn digest_spec(self) -> Seq<u8> {
        enc_record((), self.identities@)
    }

    open spec fn execute_ens(
        pre: Self,
        post: Self,
        calldata: Calldata,
        r: Result<String, ExecError>,
    ) -> bool {
        if calldata.index as int >= calldata.blobs@.len() {
            post == pre && r matches Err(ExecError::IndexOutOfRange)
        } else {
            match crate::compose::action_bytes(calldata.blobs@[calldata.index as int].data@) {
                Some(rest) => {
                    if IdentityAction::parses(rest) {
                        if valid_utf8(calldata.private_input@) {
                            exists|a: IdentityAction|
                                #[trigger] a.enc_spec() == rest && identity_action_ens(
                                    pre,
                                    post,
                                    decode_utf8(calldata.private_input@),
                                    a,
                                    r,
                                )
                        } else {
                            post == pre && (r matches Err(ExecError::DecodeError { message })
                                && message@ == "the private input is not text"@)
                        }
                    } else {
                        post == pre && (r matches Err(ExecError::DecodeError { message })
                            && message@ == "the blob does not hold an identity action"@)
                    }
                },
                None => post == pre && (r matches Err(ExecError::DecodeError { message })
                    && message@ == "the blob does not hold an identity action"@),
            }
        }
    }

    fn execute(&mut self, calldata: &Calldata) -> (r: Result<String, ExecError>) {
        let idx = calldata.index as usize;
        if idx >= calldata.blobs.len() {
            return Err(ExecError::IndexOutOfRange);
        }
        match crate::compose::parse_blob::<IdentityAction>(&calldata.blobs, idx) {
            None => Err(
                ExecError::DecodeError {
                    message: String::from_str("the blob does not hold an identity action"),
                },
            ),
            Some(action) => {
                let private_bytes = vstd::slice::slice_to_vec(calldata.private_input.as_slice());
                match crate::codec::string_from_utf8(private_bytes) {
                    None => Err(
                        ExecError::DecodeError {
                            message: String::from_str("the private input is not text"),
                        },
                    ),
                    Some(private_input) => {
                        let ghost gaction = action;
                        let r = match action {
                            IdentityAction::RegisterIdentity { account } => self.register_identity(
                                account.as_str(),
                                private_input.as_str(),
                            ),
                            IdentityAction::VerifyIdentity { account, nonce } => self
                                .verify_identity(account.as_str(), nonce, private_input.as_str()),
                        };
                        proof {
                            assert(identity_action_ens(
                                *old(self),
                                *final(self),
                                private_input@,
                                gaction,
                                r,
                            ));
                        }
                        r
                    },
                }
            },
        }
    }

    fn commit(&self) -> (d: StateDigest) {
        let mut out: Vec<u8> = Vec::new();
        ().write(&mut out);
        write_list(&mut out, &self.identities);
        proof {
            assert(out@ =~= self.digest_spec());
        }
        StateDigest(out)
    }
}

impl IdentityContractState {
    /// Reads a state back from its digest.  It succeeds on exactly the
    /// digests of well-formed states, and what it returns commits to the
    /// same digest again.
    pub fn from_digest(d: &StateDigest) -> (r: Option<IdentityContractState>)
        ensures
            r matches Some(s) ==> s.wf() && s.digest_spec() == d@,
            forall|t: IdentityContractState| t.wf() && d@ == t.digest_spec() ==> r is Some,
    {
        let b = d.0.as_slice();
        match decode_record::<(), (String, AccountInfo)>(b) {
            Some((_, identities)) => {
                let ghost gids = identities@;
                let unique = check_unique_idents(&identities);
                note_vec_len(&identities);
                if unique {
                    let state = IdentityContractState { identities };
                    proof {
                        assert(state.digest_spec() == enc_record((), gids));
                    }
                    Some(state)
                } else {
                    proof {
                        assert forall|t: IdentityContractState|
                            t.wf() && d@ == t.digest_spec() implies false by {
                            lemma_enc_record_injective((), gids, (), t.identities@);
                            lemma_id_entries_same_keys(gids, t.identities@);
                        }
                    }
                    None
                }
            },
            None => {
                proof {
                    assert forall|t: IdentityContractState|
                        t.wf() && d@ == t.digest_spec() implies false by {
                        assert(d@ == enc_record((), t.identities@));
                    }
                }
                None
            },
        }
    }

    /// A state's digest identifies it: two well-formed states with the
    /// same digest agree on every account record.
    pub proof fn lemma_digest_identifies(s1: IdentityContractState, s2: IdentityContractState)
        requires
            s1.wf(),
            s2.wf(),
            s1.digest_spec() == s2.digest_spec(),
        ensures
            s1.identities@.len() == s2.identities@.len(),
            forall|k: int|
                0 <= k < s1.identities@.len() ==> (#[trigger] s1.identities@[k]).eq_spec(
                    s2.identities@[k],
                ),
    {
        lemma_enc_record_injective((), s1.identities@, (), s2.identities@);
    }
}

/// Record lists that agree pairwise have the same keys in the same
/// places, so uniqueness carries over.
proof fn lemma_id_entries_same_keys(s1: Seq<(String, AccountInfo)>, s2: Seq<(String, AccountInfo)>)
    requires
        s1.len() == s2.len(),
        forall|k: int| 0 <= k < s1.len() ==> (#[trigger] s1[k]).eq_spec(s2[k]),
    ensures
        unique_by_key(s1) == unique_by_key(s2),
{
    if unique_by_key(s1) {
        assert forall|i: int, j: int|
            #![trigger s2[i], s2[j]]
            0 <= i < j < s2.len() implies s2[i].key() != s2[j].key() by {
            assert(s1[i].eq_spec(s2[i]));
            assert(s1[j].eq_spec(s2[j]));
        }
    }
    if unique_by_key(s2) {
        assert forall|i: int, j: int|
            #![trigger s1[i], s1[j]]
            0 <= i < j < s1.len() implies s1[i].key() != s1[j].key() by {
            assert(s1[i].eq_spec(s2[i]));
            assert(s1[j].eq_spec(s2[j]));
        }
    }
}

/// Whether no account name appears twice in the record list.
fn check_unique_idents(entries: &Vec<(String, AccountInfo)>) -> (r: bool)
    ensures
        r == unique_by_key(entries@),
{
    let n = entries.len();
    let mut k: usize = 0;
    while k < n
        invariant
            k <= n,
            n == entries@.len(),
            forall|i: int, j: int|
                #![trigger entries@[i], entries@[j]]
                0 <= i < j < entries@.len() && j < k ==> entries@[i].key() != entries@[j].key(),
        decreases n - k,
    {
        let mut m: usize = 0;
        while m < k
            invariant
                m <= k < n,
                n == entries@.len(),
                forall|i: int|
                    0 <= i < m ==> (#[trigger] entries@[i]).key() != entries@[k as int].key(),
            decreases k - m,
        {
            if str_eq(entries[m].0.as_str(), entries[k].0.as_str()) {
                return false;
            }
            m = m + 1;
        }
        k = k + 1;
    }
    true
}

} // verus!
