//! The hardware-credential flavor of identity verification: users
//! registered under a public key, a challenge issued per authentication,
//! and a signature over the authenticator data checked against the
//! stored key, bumping a counter on success.
//!
//! What the signature check concludes is decided by the p256 crate; it is
//! named here, and everything proved holds for whatever it concludes.

use p256::ecdsa::signature::Verifier;
use vstd::prelude::*;

verus! {

use crate::hashing::{sha256, sha256_of};
use crate::keyed::{
    KeyedField, find_entry, unique_by_key, lemma_find_at_index, lemma_find_none_no_match,
    lemma_no_match_find_none, lemma_find_push, lemma_find_update, lemma_find_remove,
};
use crate::text::str_eq;

/// Whether `p256::ecdsa::VerifyingKey::from_sec1_bytes` accepts these
/// bytes as a public key; a function of the bytes alone.
pub uninterp spec fn p256_key_ok(public_key: Seq<u8>) -> bool;

/// Whether `p256::ecdsa::Signature::from_der` accepts these bytes as a
/// signature; a function of the bytes alone.
pub uninterp spec fn p256_sig_der_ok(signature: Seq<u8>) -> bool;

/// What p256 ECDSA verification concludes for a key, a signature and a
/// message; a function of the three byte strings alone.
pub uninterp spec fn p256_valid(public_key: Seq<u8>, signature: Seq<u8>, message: Seq<u8>) -> bool;

/// Relies on `p256::ecdsa::VerifyingKey::from_sec1_bytes`,
/// `p256::ecdsa::Signature::from_der` and the `Verifier::verify` impl for
/// `VerifyingKey`: parsing and verification (which digests the message
/// with SHA-256 internally) are deterministic functions of the bytes.
#[verifier::external_body]
fn p256_verify(public_key: &[u8], signature: &[u8], message: &[u8]) -> (r: Result<
    bool,
    &'static str,
>)
    ensures
        r is Err <==> !(p256_key_ok(public_key@) && p256_sig_der_ok(signature@)),
        r matches Err(e) ==> e@ == (if !p256_key_ok(public_key@) {
            "Invalid public key"@
        } else {
            "Invalid signature format"@
        }),
        r matches Ok(v) ==> v == p256_valid(public_key@, signature@, message@),
{
    let verifying_key = match p256::ecdsa::VerifyingKey::from_sec1_bytes(public_key) {
        Ok(k) => k,
        Err(_) => {
            return Err("Invalid public key");
        },
    };
    let parsed = match p256::ecdsa::Signature::from_der(signature) {
        Ok(s) => s,
        Err(_) => {
            return Err("Invalid signature format");
        },
    };
    Ok(verifying_key.verify(message, &parsed).is_ok())
}

/// One user's registered credential: its identifier, the SEC1 public key
/// the signatures are checked against, and how often they verified.
#[derive(Debug, Clone)]
pub struct WebAuthnCredential {
    pub credential_id: Vec<u8>,
    pub public_key: Vec<u8>,
    pub counter: u32,
}

/// The credential contract's state: each user's credential, and the
/// outstanding challenge per user, both keyed by the user's name.
#[derive(Debug)]
pub struct WebAuthnContractState {
    pub users: Vec<(String, WebAuthnCredential)>,
    pub challenges: Vec<(String, Vec<u8>)>,
}

impl KeyedField for (String, WebAuthnCredential) {
    type Key = Seq<char>;

    open spec fn key(self) -> Seq<char> {
        self.0@
    }
}

impl KeyedField for (String, Vec<u8>) {
    type Key = Seq<char>;

    open spec fn key(self) -> Seq<char> {
        self.0@
    }
}

/// The bytes a signature is checked over: the authenticator data, then
/// the one-way digest of the client data.
pub open spec fn auth_message(authenticator_data: Seq<u8>, client_data_json: Seq<u8>) -> Seq<u8> {
    authenticator_data + sha256_of(client_data_json)
}

impl WebAuthnContractState {
    /// The state's invariant: one credential and at most one challenge
    /// per user name.
    pub open spec fn wf(self) -> bool {
        &&& unique_by_key(self.users@)
        &&& unique_by_key(self.challenges@)
    }

    /// The credential registered for a user, if any.
    pub open spec fn spec_user(self, u: Seq<char>) -> Option<(String, WebAuthnCredential)> {
        find_entry(self.users@, u)
    }

    /// The challenge outstanding for a user, if any.
    pub open spec fn spec_challenge(self, u: Seq<char>) -> Option<(String, Vec<u8>)> {
        find_entry(self.challenges@, u)
    }

    /// Creates the empty registry.
    pub fn new() -> (r: WebAuthnContractState)
        ensures
            r.wf(),
            r.users@.len() == 0,
            r.challenges@.len() == 0,
    {
        WebAuthnContractState { users: Vec::new(), challenges: Vec::new() }
    }

    /// Registers a user's credential, with its counter at zero; fails,
    /// changing nothing, when the user already exists.
    pub fn register(&mut self, username: String, credential_id: Vec<u8>, public_key: Vec<u8>) -> (r:
        Result<(), &'static str>)
        requires
            (*old(self)).wf(),
        ensures
            (*final(self)).wf(),
            final(self).challenges@ == old(self).challenges@,
            match find_entry(old(self).users@, username@) {
                Some(_) => {
                    &&& *final(self) == *old(self)
                    &&& (r matches Err(e) && e@ == "User already exists"@)
                },
                None => {
                    &&& r is Ok
                    &&& final(self).users@.len() == old(self).users@.len() + 1
                    &&& final(self).users@.last().0@ == username@
                    &&& final(self).users@.last().1.credential_id@ == credential_id@
                    &&& final(self).users@.last().1.public_key@ == public_key@
                    &&& final(self).users@.last().1.counter == 0
                    &&& (forall|k: int|
                        0 <= k < old(self).users@.len() ==> #[trigger] final(self).users@[k]
                            == old(self).users@[k])
                },
            },
    {
        match find_user(&self.users, username.as_str()) {
            Some(_) => Err("User already exists"),
            None => {
                let entry = (username, WebAuthnCredential { credential_id, public_key, counter: 0 });
                let ghost pre = self.users@;
                let ghost gentry = entry;
                proof {
                    lemma_find_none_no_match(pre, gentry.key());
                }
                self.users.push(entry);
                proof {
                    assert(self.users@ =~= pre.push(gentry));
                    assert(forall|k: int| 0 <= k < pre.len() ==> (#[trigger] self.users@[k]) == pre[k]);
                    assert(self.users@.last() == gentry);
                }
                Ok(())
            },
        }
    }

    /// Issues a fresh challenge for a user, replacing any outstanding
    /// one; fails, changing nothing, when the user is unknown.
    pub fn start_authentication(&mut self, username: String, challenge: Vec<u8>) -> (r: Result<
        (),
        &'static str,
    >)
        requires
            (*old(self)).wf(),
        ensures
            (*final(self)).wf(),
            final(self).users@ == old(self).users@,
            match find_entry(old(self).users@, username@) {
                None => {
                    &&& *final(self) == *old(self)
                    &&& (r matches Err(e) && e@ == "User not found"@)
                },
                Some(_) => {
                    &&& r is Ok
                    &&& (find_entry(final(self).challenges@, username@) matches Some(c)
                        && c.1@ == challenge@)
                    &&& (forall|u: Seq<char>|
                        u != username@ ==> #[trigger] find_entry(final(self).challenges@, u)
                            == find_entry(old(self).challenges@, u))
                    &&& (match find_entry(old(self).challenges@, username@) {
                        Some(_) => final(self).challenges@.len() == old(self).challenges@.len(),
                        None => {
                            &&& final(self).challenges@.len() == old(self).challenges@.len() + 1
                            &&& final(self).challenges@.last().0@ == username@
                            &&& final(self).challenges@.last().1@ == challenge@
                            &&& (forall|k: int|
                                0 <= k < old(self).challenges@.len()
                                    ==> #[trigger] final(self).challenges@[k]
                                    == old(self).challenges@[k])
                        },
                    })
                },
            },
    {
        if find_user(&self.users, username.as_str()).is_none() {
            return Err("User not found");
        }
        let ghost pre = self.challenges@;
        match find_challenge(&self.challenges, username.as_str()) {
            Some(i) => {
                proof {
                    lemma_find_update(
                        pre,
                        i as int,
                        (pre[i as int].0, challenge),
                    );
                }
                let slot = vstd::std_specs::vec::vec_index_mut(&mut self.challenges, i);
                slot.1 = challenge;
                proof {
                    assert(self.challenges@ == pre.update(i as int, (pre[i as int].0, challenge)));
                    assert(forall|k: int|
                        0 <= k < self.challenges@.len() ==> (#[trigger] self.challenges@[k]).0@
                            == pre[k].0@);
                }
                Ok(())
            },
            None => {
                let entry = (username, challenge);
                let ghost gentry = entry;
                proof {
                    lemma_find_none_no_match(pre, gentry.key());
                    lemma_find_push(pre, gentry);
                }
                self.challenges.push(entry);
                proof {
                    assert(self.challenges@ =~= pre.push(gentry));
                    assert(forall|k: int|
                        0 <= k < pre.len() ==> (#[trigger] self.challenges@[k]) == pre[k]);
                    assert(self.challenges@.last() == gentry);
                }
                Ok(())
            },
        }
    }

    /// Checks a signature over the authenticator data and client data
    /// against the user's stored key.  A valid signature bumps the
    /// user's counter by one and retires the challenge; an invalid one
    /// changes nothing.  Requires a registered user and an outstanding
    /// challenge, and fails on an unparseable key or signature or an
    /// exhausted counter, all without change.
    pub fn verify_authentication(
        &mut self,
        username: String,
        signature: Vec<u8>,
        authenticator_data: Vec<u8>,
        client_data_json: Vec<u8>,
    ) -> (r: Result<bool, &'static str>)
        requires
            (*old(self)).wf(),
        ensures
            (*final(self)).wf(),
            verify_auth_ens(
                *old(self),
                *final(self),
                username@,
                signature@,
                authenticator_data@,
                client_data_json@,
                r,
            ),
            r is Err ==> *final(self) == *old(self),
    {
        let ui = match find_user(&self.users, username.as_str()) {
            Some(i) => i,
            None => {
                return Err("User not found");
            },
        };
        if find_challenge(&self.challenges, username.as_str()).is_none() {
            return Err("No challenge found");
        }
        let mut message = vstd::slice::slice_to_vec(authenticator_data.as_slice());
        let mut client_data_hash = sha256(client_data_json.as_slice());
        message.append(&mut client_data_hash);
        proof {
            assert(message@ =~= auth_message(authenticator_data@, client_data_json@));
        }
        let is_valid = match p256_verify(
            self.users[ui].1.public_key.as_slice(),
            signature.as_slice(),
            message.as_slice(),
        ) {
            Ok(v) => v,
            Err(e) => {
                return Err(e);
            },
        };
        if !is_valid {
            return Ok(false);
        }
        let counter = self.users[ui].1.counter;
        if counter == u32::MAX {
            return Err("Counter exhausted");
        }
        let ghost pre_users = self.users@;
        proof {
            lemma_find_update(
                pre_users,
                ui as int,
                (
                    pre_users[ui as int].0,
                    WebAuthnCredential {
                        credential_id: pre_users[ui as int].1.credential_id,
                        public_key: pre_users[ui as int].1.public_key,
                        counter: (counter + 1) as u32,
                    },
                ),
            );
        }
        let slot = vstd::std_specs::vec::vec_index_mut(&mut self.users, ui);
        slot.1.counter = slot.1.counter + 1;
        proof {
            assert(forall|k: int|
                0 <= k < self.users@.len() ==> (#[trigger] self.users@[k]).0@
                    == pre_users[k].0@);
        }
        let ci = match find_challenge(&self.challenges, username.as_str()) {
            Some(i) => i,
            None => {
                proof {
                    assert(false);
                }
                return Err("No challenge found");
            },
        };
        let ghost pre_challenges = self.challenges@;
        proof {
            lemma_find_remove(pre_challenges, ci as int);
        }
        self.challenges.remove(ci);
        proof {
            let post = self.challenges@;
            assert(post == pre_challenges.remove(ci as int));
            assert forall|p: int, q: int|
                #![trigger post[p], post[q]]
                0 <= p < q < post.len() implies post[p].key() != post[q].key() by {
                let p2: int = if p < ci as int {
                    p
                } else {
                    p + 1
                };
                let q2: int = if q < ci as int {
                    q
                } else {
                    q + 1
                };
                assert(post[p] == pre_challenges[p2]);
                assert(post[q] == pre_challenges[q2]);
            }
        }
        Ok(true)
    }
}

/// What `verify_authentication` returns and does, spelled over the named
/// p256 verdicts.
pub open spec fn verify_auth_ens(
    pre: WebAuthnContractState,
    post: WebAuthnContractState,
    username: Seq<char>,
    signature: Seq<u8>,
    authenticator_data: Seq<u8>,
    client_data_json: Seq<u8>,
    r: Result<bool, &'static str>,
) -> bool {
    match pre.spec_user(username) {
        None => post == pre && (r matches Err(e) && e@ == "User not found"@),
        Some(cred) => {
            if pre.spec_challenge(username) is None {
                post == pre && (r matches Err(e) && e@ == "No challenge found"@)
            } else if !p256_key_ok(cred.1.public_key@) {
                post == pre && (r matches Err(e) && e@ == "Invalid public key"@)
            } else if !p256_sig_der_ok(signature) {
                post == pre && (r matches Err(e) && e@ == "Invalid signature format"@)
            } else if !p256_valid(
                cred.1.public_key@,
                signature,
                auth_message(authenticator_data, client_data_json),
            ) {
                post == pre && r == Ok::<bool, &'static str>(false)
            } else if cred.1.counter == u32::MAX {
                post == pre && (r matches Err(e) && e@ == "Counter exhausted"@)
            } else {
                &&& r == Ok::<bool, &'static str>(true)
                &&& post.users@.len() == pre.users@.len()
                &&& (forall|k: int|
                    0 <= k < pre.users@.len() ==> (#[trigger] post.users@[k]).0@
                        == pre.users@[k].0@ && post.users@[k].1.credential_id@
                        == pre.users@[k].1.credential_id@ && post.users@[k].1.public_key@
                        == pre.users@[k].1.public_key@ && post.users@[k].1.counter == (
                    if pre.users@[k].0@ == username {
                        (cred.1.counter + 1) as u32
                    } else {
                        pre.users@[k].1.counter
                    }))
                &&& (exists|i: int|
                    {
                        &&& 0 <= i < pre.challenges@.len()
                        &&& (#[trigger] pre.challenges@[i]).0@ == username
                        &&& (forall|m: int|
                            0 <= m < i ==> (#[trigger] pre.challenges@[m]).0@ != username)
                        &&& post.challenges@ == pre.challenges@.remove(i)
                    })
                &&& post.spec_challenge(username) is None
                &&& (forall|u: Seq<char>|
                    u != username ==> #[trigger] post.spec_challenge(u) == pre.spec_challenge(u))
            }
        },
    }
}

/// Finds the index of the credential for `username`, if one exists.
fn find_user(users: &Vec<(String, WebAuthnCredential)>, username: &str) -> (r: Option<usize>)
    ensures
        match r {
            Some(i) => {
                &&& i < users@.len()
                &&& users@[i as int].0@ == username@
                &&& find_entry(users@, username@) == Some(users@[i as int])
                &&& forall|m: int| 0 <= m < i ==> (#[trigger] users@[m]).0@ != username@
            },
            None => find_entry(users@, username@) is None,
        },
{
    let n = users.len();
    let mut k: usize = 0;
    while k < n
        invariant
            k <= n,
            n == users@.len(),
            forall|m: int| 0 <= m < k ==> (#[trigger] users@[m]).0@ != username@,
        decreases n - k,
    {
        if str_eq(users[k].0.as_str(), username) {
            proof {
                lemma_find_at_index(users@, k as int);
            }
            return Some(k);
        }
        k = k + 1;
    }
    proof {
        lemma_no_match_find_none(users@, username@);
    }
    None
}

/// Finds the index of the challenge for `username`, if one exists.
fn find_challenge(challenges: &Vec<(String, Vec<u8>)>, username: &str) -> (r: Option<usize>)
    ensures
        match r {
            Some(i) => {
                &&& i < challenges@.len()
                &&& challenges@[i as int].0@ == username@
                &&& find_entry(challenges@, username@) == Some(challenges@[i as int])
                &&& forall|m: int| 0 <= m < i ==> (#[trigger] challenges@[m]).0@ != username@
            },
            None => find_entry(challenges@, username@) is None,
        },
{
    let n = challenges.len();
    let mut k: usize = 0;
    while k < n
        invariant
            k <= n,
            n == challenges@.len(),
            forall|m: int| 0 <= m < k ==> (#[trigger] challenges@[m]).0@ != username@,
        decreases n - k,
    {
        if str_eq(challenges[k].0.as_str(), username) {
            proof {
                lemma_find_at_index(challenges@, k as int);
            }
            return Some(k);
        }
        k = k + 1;
    }
    proof {
        lemma_no_match_find_none(challenges@, username@);
    }
    None
}

} // verus!
