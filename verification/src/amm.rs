//! The constant-product market maker: reserves per unordered token pair,
//! a pair created against two verified inbound transfers, and swaps
//! accepted only inside a two-percent band around the constant-product
//! quote.

use vstd::prelude::*;

verus! {

use crate::action::ContractAction;
use crate::codec::{
    WireField, enc_str, enc_u64, enc_u128, dec_str, dec_u64, dec_u128, read_str, read_u64,
    read_u128, write_str, write_u64, write_u128, write_list, lemma_dec_str_at, lemma_dec_u64_at,
    lemma_dec_u128_at, lemma_enc_str_of_dec, lemma_enc_u64_of_dec, lemma_enc_u128_of_dec,
    decode_record, enc_record, lemma_enc_record_injective, note_vec_len, lemma_dec_str_fits,
};
use crate::errors::ExecError;
use crate::keyed::{
    KeyedField, find_entry, unique_by_key, lemma_find_at_index, lemma_find_none_no_match,
    lemma_no_match_find_none, lemma_find_push, lemma_find_update,
};
use crate::machine::ContractStateMachine;
use crate::model::{Blob, Calldata, ContractName, StateDigest};
use crate::text::{lex_le, lemma_lex_le_total, note_str_len, str_eq, str_le};
use crate::token::{
    SimpleTokenAction, expected_transfer_bytes, transfer_blob_present, lemma_transfer_present_iff,
};
use vstd::string::{StringExecFns, StringSliceAdditionalSpecFns};
use vstd::utf8::encode_utf8;

/// A pair of token contract names.  The first is the token given, the
/// second the token asked for, when a direction matters.
pub type TokenPair = (String, String);

/// Amounts for the two tokens of a pair, in the pair's order.
pub type TokenPairAmount = (u128, u128);

/// A token pair under its canonical order: the lexicographically smaller
/// name first, so both directions address the same reserves.
#[derive(Debug, Clone)]
pub struct UnorderedTokenPair {
    pub a: String,
    pub b: String,
}

/// The canonical key for a pair of token names, smaller name first.
pub open spec fn norm_key(t0: Seq<char>, t1: Seq<char>) -> (Seq<char>, Seq<char>) {
    if lex_le(encode_utf8(t0), encode_utf8(t1)) {
        (t0, t1)
    } else {
        (t1, t0)
    }
}

impl UnorderedTokenPair {
    /// Whether the two names are already in canonical order.
    pub open spec fn normalized(self) -> bool {
        lex_le(encode_utf8(self.a@), encode_utf8(self.b@))
    }

    /// Orders two token names canonically.
    pub fn new(x: String, y: String) -> (r: UnorderedTokenPair)
        ensures
            (r.a@, r.b@) == norm_key(x@, y@),
            r.normalized(),
    {
        proof {
            lemma_lex_le_total(encode_utf8(x@), encode_utf8(y@));
        }
        if str_le(x.as_str(), y.as_str()) {
            UnorderedTokenPair { a: x, b: y }
        } else {
            UnorderedTokenPair { a: y, b: x }
        }
    }
}

impl KeyedField for (UnorderedTokenPair, (u128, u128)) {
    type Key = (Seq<char>, Seq<char>);

    open spec fn key(self) -> (Seq<char>, Seq<char>) {
        (self.0.a@, self.0.b@)
    }
}

impl WireField for (UnorderedTokenPair, (u128, u128)) {
    open spec fn eq_spec(self, other: Self) -> bool {
        &&& self.0.a@ == other.0.a@
        &&& self.0.b@ == other.0.b@
        &&& self.1 == other.1
    }

    open spec fn wf(self) -> bool {
        &&& encode_utf8(self.0.a@).len() <= u64::MAX
        &&& encode_utf8(self.0.b@).len() <= u64::MAX
    }

    open spec fn enc_spec(self) -> Seq<u8> {
        enc_str(self.0.a@) + enc_str(self.0.b@) + enc_u128(self.1.0) + enc_u128(self.1.1)
    }

    open spec fn parse_end(b: Seq<u8>, i: int) -> Option<int> {
        match dec_str(b, i) {
            Some((_, j)) => match dec_str(b, j) {
                Some((_, j2)) => match dec_u128(b, j2) {
                    Some((_, j3)) => match dec_u128(b, j3) {
                        Some((_, j4)) => Some(j4),
                        None => None,
                    },
                    None => None,
                },
                None => None,
            },
            None => None,
        }
    }

    proof fn lemma_parse_end_enc(b: Seq<u8>, i: int, x: Self) {
        vstd::bytes::lemma_auto_spec_u128_to_from_le_bytes();
        let e = x.enc_spec();
        let e0 = enc_str(x.0.a@);
        let e1 = enc_str(x.0.b@);
        assert(enc_u128(x.1.0).len() == 16);
        assert(enc_u128(x.1.1).len() == 16);
        assert(e.len() == e0.len() + e1.len() + 32);
        assert(b.subrange(i, i + e0.len()) =~= e.subrange(0, e0.len() as int));
        assert(e.subrange(0, e0.len() as int) =~= e0);
        lemma_dec_str_at(b, i, x.0.a@);
        assert(b.subrange(i + e0.len(), i + e0.len() + e1.len()) =~= e.subrange(
            e0.len() as int,
            e0.len() as int + e1.len() as int,
        ));
        assert(e.subrange(e0.len() as int, e0.len() as int + e1.len() as int) =~= e1);
        lemma_dec_str_at(b, i + e0.len(), x.0.b@);
        assert(b.subrange(i + e0.len() + e1.len(), i + e0.len() + e1.len() + 16) =~= e.subrange(
            e0.len() as int + e1.len() as int,
            e0.len() as int + e1.len() as int + 16,
        ));
        assert(e.subrange(
            e0.len() as int + e1.len() as int,
            e0.len() as int + e1.len() as int + 16,
        ) =~= enc_u128(x.1.0));
        lemma_dec_u128_at(b, i + e0.len() + e1.len(), x.1.0);
        assert(b.subrange(i + e0.len() + e1.len() + 16, i + e.len()) =~= e.subrange(
            e0.len() as int + e1.len() as int + 16,
            e.len() as int,
        ));
        assert(e.subrange(e0.len() as int + e1.len() as int + 16, e.len() as int) =~= enc_u128(
            x.1.1,
        ));
        lemma_dec_u128_at(b, i + e0.len() + e1.len() + 16, x.1.1);
    }

    proof fn lemma_enc_injective(a: Self, b: Self) {
        lemma_amm_entry_parse(a.enc_spec(), a);
        lemma_amm_entry_parse(b.enc_spec(), b);
    }

    fn write(&self, out: &mut Vec<u8>) {
        write_str(out, self.0.a.as_str());
        write_str(out, self.0.b.as_str());
        write_u128(out, self.1.0);
        write_u128(out, self.1.1);
        proof {
            assert(final(out)@ =~= old(out)@ + self.enc_spec());
        }
    }

    fn read_at(b: &[u8], i: usize) -> (r: Option<(Self, usize)>) {
        match read_str(b, i) {
            Some((a, j)) => match read_str(b, j) {
                Some((bb, j2)) => match read_u128(b, j2) {
                    Some((ra, j3)) => match read_u128(b, j3) {
                        Some((rb, j4)) => {
                            proof {
                                lemma_dec_str_fits(b@, i as int, a@, j as int);
                                lemma_dec_str_fits(b@, j as int, bb@, j2 as int);
                                lemma_enc_str_of_dec(b@, i as int, a@, j as int);
                                lemma_enc_str_of_dec(b@, j as int, bb@, j2 as int);
                                lemma_enc_u128_of_dec(b@, j2 as int, ra, j3 as int);
                                lemma_enc_u128_of_dec(b@, j3 as int, rb, j4 as int);
                                assert(b@.subrange(i as int, j as int) + b@.subrange(
                                    j as int,
                                    j2 as int,
                                ) + b@.subrange(j2 as int, j3 as int) + b@.subrange(
                                    j3 as int,
                                    j4 as int,
                                ) =~= b@.subrange(i as int, j4 as int));
                            }
                            Some(((UnorderedTokenPair { a, b: bb }, (ra, rb)), j4))
                        },
                        None => None,
                    },
                    None => None,
                },
                None => None,
            },
            None => None,
        }
    }
}

/// How an encoding of a reserve entry parses: the two names, then the two
/// reserves.
proof fn lemma_amm_entry_parse(b: Seq<u8>, x: (UnorderedTokenPair, (u128, u128)))
    requires
        x.wf(),
        b == x.enc_spec(),
    ensures
        dec_str(b, 0) == Some((x.0.a@, enc_str(x.0.a@).len() as int)),
        dec_str(b, enc_str(x.0.a@).len() as int) == Some((x.0.b@, b.len() - 32)),
        dec_u128(b, b.len() - 32) == Some((x.1.0, b.len() - 16)),
        dec_u128(b, b.len() - 16) == Some((x.1.1, b.len() as int)),
{
    vstd::bytes::lemma_auto_spec_u128_to_from_le_bytes();
    let e0 = enc_str(x.0.a@);
    let e1 = enc_str(x.0.b@);
    assert(b.subrange(0, e0.len() as int) =~= e0);
    lemma_dec_str_at(b, 0, x.0.a@);
    assert(b.subrange(e0.len() as int, e0.len() as int + e1.len() as int) =~= e1);
    lemma_dec_str_at(b, e0.len() as int, x.0.b@);
    assert(e0.len() + e1.len() == b.len() - 32);
    assert(b.subrange(b.len() - 32, b.len() - 16) =~= enc_u128(x.1.0));
    lemma_dec_u128_at(b, b.len() - 32, x.1.0);
    assert(b.subrange(b.len() - 16, b.len() as int) =~= enc_u128(x.1.1));
    lemma_dec_u128_at(b, b.len() - 16, x.1.1);
}

/// The market maker's state: the reserves of every listed pair, keyed by
/// the pair's canonical name order.
#[derive(Debug, Clone)]
pub struct AmmState {
    pub pairs: Vec<(UnorderedTokenPair, (u128, u128))>,
}

/// Every listed pair is canonically ordered and fits the wire.
pub open spec fn amm_entries_wf(entries: Seq<(UnorderedTokenPair, (u128, u128))>) -> bool {
    forall|k: int|
        0 <= k < entries.len() ==> (#[trigger] entries[k]).wf() && entries[k].0.normalized()
}

impl Default for AmmState {
    /// A market maker with no pairs listed.
    fn default() -> (r: AmmState)
        ensures
            r.wf(),
            r.pairs@.len() == 0,
    {
        AmmState { pairs: Vec::new() }
    }
}

impl AmmState {
    /// The state's invariant: pairs are unique, canonically ordered, and
    /// fit the wire.
    pub open spec fn wf(self) -> bool {
        &&& unique_by_key(self.pairs@)
        &&& amm_entries_wf(self.pairs@)
        &&& self.pairs@.len() <= u64::MAX
    }

    /// The reserves listed under the canonical key for two token names.
    pub open spec fn spec_reserves(self, t0: Seq<char>, t1: Seq<char>) -> Option<(u128, u128)> {
        match find_entry(self.pairs@, norm_key(t0, t1)) {
            Some(e) => Some(e.1),
            None => None,
        }
    }

    /// Wraps a list of reserve entries as the market maker's state.
    pub fn new(pairs: Vec<(UnorderedTokenPair, (u128, u128))>) -> (r: AmmState)
        ensures
            r.pairs@ == pairs@,
    {
        AmmState { pairs }
    }

    /// The amount of the other token quoted for paying `amount_a` into
    /// the pair, along the canonical pair ordering: with reserves `(x, y)`
    /// the quote is `y - (x*y)/(x + amount_a)`.
    pub fn get_paired_amount(&self, token_a: String, token_b: String, amount_a: u128) -> (r:
        Option<u128>)
        requires
            match self.spec_reserves(token_a@, token_b@) {
                Some((x, y)) => x * y <= u128::MAX && x + amount_a <= u128::MAX && x + amount_a
                    > 0,
                None => true,
            },
        ensures
            match self.spec_reserves(token_a@, token_b@) {
                Some((x, y)) => r == Some(
                    ((y as int) - ((x as int) * (y as int)) / ((x as int) + (amount_a as int))) as u128,
                ),
                None => r is None,
            },
    {
        let pair = UnorderedTokenPair::new(token_a, token_b);
        match find_pair(&self.pairs, &pair) {
            Some(i) => {
                let (x, y) = self.pairs[i].1;
                proof {
                    lemma_quote_le(x as int, y as int, amount_a as int);
                }
                let k = x * y;
                let amount_b = y - k / (x + amount_a);
                Some(amount_b)
            },
            None => None,
        }
    }
}

/// The constant-product quote never exceeds the opposite reserve.
proof fn lemma_quote_le(x: int, y: int, a: int)
    requires
        0 <= x,
        0 <= y,
        0 <= a,
        x + a > 0,
    ensures
        0 <= (x * y) / (x + a) <= y,
{
    assert((x * y) / (x + a) >= 0) by (nonlinear_arith)
        requires
            0 <= x,
            0 <= y,
            x + a > 0,
    ;
    assert((x * y) / (x + a) <= y) by (nonlinear_arith)
        requires
            0 <= x,
            0 <= y,
            0 <= a,
            x + a > 0,
    ;
}

/// The message a successful swap reports: the caller and the two token
/// names, interpolated.
pub open spec fn swap_message(caller: Seq<char>, t0: Seq<char>, t1: Seq<char>) -> Seq<char> {
    "Swap of "@ + caller + " "@ + t0 + " for "@ + caller + " "@ + t1 + " is valid"@
}

/// The reserves of one token pair after a swap that pays `a` of the
/// first token in: exactly the constant-product update.  When the old
/// product divides evenly, the product of the reserves is fully
/// preserved; the floored quote can otherwise only leave value behind
/// for the pool, never take it.
pub proof fn lemma_swap_product_preserved(x: int, y: int, a: int)
    requires
        0 <= x,
        0 <= y,
        0 <= a,
        x + a > 0,
        (x * y) % (x + a) == 0,
    ensures
        (x + a) * ((x * y) / (x + a)) == x * y,
{
    vstd::arithmetic::div_mod::lemma_fundamental_div_mod(x * y, x + a);
}

impl AmmState {
    /// What `create_new_pair` returns and does: it fails, changing
    /// nothing, unless the two names differ, the transaction carries one
    /// verified inbound transfer per token paid to the market maker, and
    /// the pair is new; then it lists the pair with the paid amounts as
    /// reserves.
    pub open spec fn create_pair_ens(
        pre: AmmState,
        post: AmmState,
        blobs: Seq<Blob>,
        own: Seq<char>,
        t0: Seq<char>,
        t1: Seq<char>,
        a0: u128,
        a1: u128,
        r: Result<String, ExecError>,
    ) -> bool {
        if t0 == t1 {
            &&& post == pre
            &&& r matches Err(ExecError::InvariantViolation { message }) && message@
                == "Swap can only happen between two different tokens"@
        } else if !transfer_blob_present(blobs, t0, own, a0) {
            &&& post == pre
            &&& (r matches Err(ExecError::MissingExpectedBlob { target, expected_action })
                && target@ == t0 && expected_transfer_bytes(expected_action@, own, a0))
        } else if !transfer_blob_present(blobs, t1, own, a1) {
            &&& post == pre
            &&& (r matches Err(ExecError::MissingExpectedBlob { target, expected_action })
                && target@ == t1 && expected_transfer_bytes(expected_action@, own, a1))
        } else {
            match find_entry(pre.pairs@, norm_key(t0, t1)) {
                Some(_) => {
                    &&& post == pre
                    &&& r matches Err(ExecError::InvariantViolation { message }) && message@
                        == "Pair already exists"@
                },
                None => {
                    &&& r matches Ok(m) && m@ == "Pair created"@
                    &&& post.pairs@.len() == pre.pairs@.len() + 1
                    &&& post.pairs@.last().key() == norm_key(t0, t1)
                    &&& post.pairs@.last().1 == (a0, a1)
                    &&& (forall|k: int|
                        0 <= k < pre.pairs@.len() ==> #[trigger] post.pairs@[k] == pre.pairs@[k])
                    &&& (find_entry(post.pairs@, norm_key(t0, t1)) matches Some(e) && e.1 == (
                    a0,
                    a1,
                    ))
                    &&& forall|k2: (Seq<char>, Seq<char>)|
                        k2 != norm_key(t0, t1) ==> #[trigger] find_entry(post.pairs@, k2)
                            == find_entry(pre.pairs@, k2)
                },
            }
        }
    }

    /// Lists a new pair, against one verified inbound transfer per token.
    pub fn create_new_pair(
        &mut self,
        calldata: &Calldata,
        own_name: &ContractName,
        pair: TokenPair,
        amounts: TokenPairAmount,
    ) -> (r: Result<String, ExecError>)
        requires
            (*old(self)).wf(),
        ensures
            (*final(self)).wf(),
            Self::create_pair_ens(
                *old(self),
                *final(self),
                calldata.blobs@,
                own_name@,
                pair.0@,
                pair.1@,
                amounts.0,
                amounts.1,
                r,
            ),
            r is Err ==> *final(self) == *old(self),
    {
        let ghost gt0 = pair.0@;
        let ghost gt1 = pair.1@;
        if str_eq(pair.0.as_str(), pair.1.as_str()) {
            return Err(
                ExecError::violation("Swap can only happen between two different tokens"),
            );
        }
        let expected0 = SimpleTokenAction::Transfer {
            recipient: own_name.0.clone(),
            amount: amounts.0,
        };
        let ghost gexpected0 = expected0;
        let target0 = ContractName(pair.0.clone());
        proof {
            lemma_transfer_present_iff(calldata.blobs@, gt0, gexpected0);
        }
        if let Err(e) = crate::compose::expect_blob(&calldata.blobs, &target0, &expected0) {
            return Err(e);
        }
        let expected1 = SimpleTokenAction::Transfer {
            recipient: own_name.0.clone(),
            amount: amounts.1,
        };
        let ghost gexpected1 = expected1;
        let target1 = ContractName(pair.1.clone());
        proof {
            lemma_transfer_present_iff(calldata.blobs@, gt1, gexpected1);
        }
        if let Err(e) = crate::compose::expect_blob(&calldata.blobs, &target1, &expected1) {
            return Err(e);
        }
        let normalized = UnorderedTokenPair::new(pair.0, pair.1);
        match find_pair(&self.pairs, &normalized) {
            Some(_) => Err(
                ExecError::violation("Pair already exists"),
            ),
            None => {
                note_str_len(normalized.a.as_str());
                note_str_len(normalized.b.as_str());
                let entry = (normalized, amounts);
                let ghost pre = self.pairs@;
                let ghost gentry = entry;
                proof {
                    lemma_find_push(pre, gentry);
                    lemma_find_none_no_match(pre, gentry.key());
                }
                self.pairs.push(entry);
                note_vec_len(&self.pairs);
                proof {
                    let post = self.pairs@;
                    assert(post =~= pre.push(gentry));
                    assert(forall|k: int| 0 <= k < pre.len() ==> (#[trigger] post[k]) == pre[k]);
                    assert(post[pre.len() as int] == gentry);
                    assert(find_entry(post, norm_key(gt0, gt1)) == Some(gentry));
                }
                Ok(String::from_str("Pair created"))
            },
        }
    }

    /// What `verify_swap` returns and does: it fails, changing nothing,
    /// unless the names differ, a verified inbound transfer pays
    /// `from_amount` of the first token to the market maker, the pair is
    /// listed, the arithmetic fits, the asked `to_amount` lies inside the
    /// two-percent band under the constant-product quote, and a verified
    /// outbound transfer pays `to_amount` of the second token back to the
    /// caller; then the reserves move by the paid amount and the full
    /// quote.
    pub open spec fn swap_ens(
        pre: AmmState,
        post: AmmState,
        blobs: Seq<Blob>,
        caller: Seq<char>,
        own: Seq<char>,
        t0: Seq<char>,
        t1: Seq<char>,
        from_amount: u128,
        to_amount: u128,
        r: Result<String, ExecError>,
    ) -> bool {
        if t0 == t1 {
            &&& post == pre
            &&& r matches Err(ExecError::InvariantViolation { message }) && message@
                == "Swap can only happen between two different tokens"@
        } else if !transfer_blob_present(blobs, t0, own, from_amount) {
            &&& post == pre
            &&& (r matches Err(ExecError::MissingExpectedBlob { target, expected_action })
                && target@ == t0 && expected_transfer_bytes(expected_action@, own, from_amount))
        } else {
            match find_entry(pre.pairs@, norm_key(t0, t1)) {
                None => {
                    &&& post == pre
                    &&& r matches Err(ExecError::InvariantViolation { message }) && message@
                        == "Pair not found in AMM state"@
                },
                Some(e) => {
                    let fwd = lex_le(encode_utf8(t0), encode_utf8(t1));
                    let x = (if fwd {
                        e.1.0
                    } else {
                        e.1.1
                    }) as int;
                    let y = (if fwd {
                        e.1.1
                    } else {
                        e.1.0
                    }) as int;
                    let fa = from_amount as int;
                    if x * y > u128::MAX as int || x + fa > u128::MAX as int || x + fa == 0 {
                        &&& post == pre
                        &&& r matches Err(ExecError::InvariantViolation { message }) && message@
                            == "Arithmetic overflow"@
                    } else {
                        let quote = y - (x * y) / (x + fa);
                        if quote * 98 > u128::MAX as int {
                            &&& post == pre
                            &&& r matches Err(ExecError::InvariantViolation { message })
                                && message@ == "Arithmetic overflow"@
                        } else if to_amount as int > quote || (to_amount as int) < (quote * 98)
                            / 100 {
                            &&& post == pre
                            &&& r matches Err(ExecError::InvariantViolation { message })
                                && message@ == "Invalid swap"@
                        } else if !transfer_blob_present(blobs, t1, caller, to_amount) {
                            &&& post == pre
                            &&& (r matches Err(ExecError::MissingExpectedBlob {
                                target,
                                expected_action,
                            }) && target@ == t1 && expected_transfer_bytes(
                                expected_action@,
                                caller,
                                to_amount,
                            ))
                        } else {
                            &&& r matches Ok(m) && m@ == swap_message(caller, t0, t1)
                            &&& (quote * 98) / 100 <= to_amount as int <= quote
                            &&& post.pairs@.len() == pre.pairs@.len()
                            &&& (find_entry(post.pairs@, norm_key(t0, t1)) matches Some(e2)
                                && e2.1 == (if fwd {
                                (((x + fa) as u128), ((y - quote) as u128))
                            } else {
                                (((y - quote) as u128), ((x + fa) as u128))
                            }))
                            &&& (forall|k: int|
                                0 <= k < pre.pairs@.len() ==> (#[trigger] post.pairs@[k]).key()
                                    == pre.pairs@[k].key() && post.pairs@[k].1 == (if pre.pairs@[k].key()
                                    == norm_key(t0, t1) {
                                    if fwd {
                                        (((x + fa) as u128), ((y - quote) as u128))
                                    } else {
                                        (((y - quote) as u128), ((x + fa) as u128))
                                    }
                                } else {
                                    pre.pairs@[k].1
                                }))
                            &&& forall|k2: (Seq<char>, Seq<char>)|
                                k2 != norm_key(t0, t1) ==> #[trigger] find_entry(post.pairs@, k2)
                                    == find_entry(pre.pairs@, k2)
                        }
                    }
                },
            }
        }
    }

    /// Accepts a swap paying `from_amount` of the pair's first token for
    /// `to_amount` of the second, inside the two-percent band under the
    /// constant-product quote, and moves the reserves by the paid amount
    /// and the full quote.
    pub fn verify_swap(
        &mut self,
        calldata: &Calldata,
        own_name: &ContractName,
        pair: TokenPair,
        from_amount: u128,
        to_amount: u128,
    ) -> (r: Result<String, ExecError>)
        requires
            (*old(self)).wf(),
        ensures
            (*final(self)).wf(),
            Self::swap_ens(
                *old(self),
                *final(self),
                calldata.blobs@,
                calldata.identity@,
                own_name@,
                pair.0@,
                pair.1@,
                from_amount,
                to_amount,
                r,
            ),
            r is Err ==> *final(self) == *old(self),
    {
        let ghost gt0 = pair.0@;
        let ghost gt1 = pair.1@;
        if str_eq(pair.0.as_str(), pair.1.as_str()) {
            return Err(
                ExecError::violation("Swap can only happen between two different tokens"),
            );
        }
        let expected_in = SimpleTokenAction::Transfer {
            recipient: own_name.0.clone(),
            amount: from_amount,
        };
        let ghost gexpected_in = expected_in;
        let target0 = ContractName(pair.0.clone());
        proof {
            lemma_transfer_present_iff(calldata.blobs@, gt0, gexpected_in);
        }
        if let Err(e) = crate::compose::expect_blob(&calldata.blobs, &target0, &expected_in) {
            return Err(e);
        }
        let fwd = str_le(pair.0.as_str(), pair.1.as_str());
        let normalized = UnorderedTokenPair::new(pair.0.clone(), pair.1.clone());
        let i = match find_pair(&self.pairs, &normalized) {
            Some(i) => i,
            None => {
                return Err(
                    ExecError::violation("Pair not found in AMM state"),
                );
            },
        };
        let (ra, rb) = self.pairs[i].1;
        let (x, y) = if fwd {
            (ra, rb)
        } else {
            (rb, ra)
        };
        let k = match x.checked_mul(y) {
            Some(k) => k,
            None => {
                return Err(
                    ExecError::violation("Arithmetic overflow"),
                );
            },
        };
        let denom = match x.checked_add(from_amount) {
            Some(d) => d,
            None => {
                return Err(
                    ExecError::violation("Arithmetic overflow"),
                );
            },
        };
        if denom == 0 {
            return Err(
                ExecError::violation("Arithmetic overflow"),
            );
        }
        proof {
            lemma_quote_le(x as int, y as int, from_amount as int);
        }
        let quotient = k / denom;
        let quote = y - quotient;
        let low = match quote.checked_mul(98) {
            Some(p) => p / 100,
            None => {
                return Err(
                    ExecError::violation("Arithmetic overflow"),
                );
            },
        };
        if to_amount > quote || to_amount < low {
            return Err(
                ExecError::violation("Invalid swap"),
            );
        }
        let expected_out = SimpleTokenAction::Transfer {
            recipient: calldata.identity.0.clone(),
            amount: to_amount,
        };
        let ghost gexpected_out = expected_out;
        let target1 = ContractName(pair.1.clone());
        proof {
            lemma_transfer_present_iff(calldata.blobs@, gt1, gexpected_out);
        }
        if let Err(e) = crate::compose::expect_blob(&calldata.blobs, &target1, &expected_out) {
            return Err(e);
        }
        let ghost pre = self.pairs@;
        let new_reserves = if fwd {
            (denom, quotient)
        } else {
            (quotient, denom)
        };
        let slot = vstd::std_specs::vec::vec_index_mut(&mut self.pairs, i);
        slot.1 = new_reserves;
        proof {
            let gentry = (pre[i as int].0, new_reserves);
            assert(*final(slot) == gentry);
            lemma_find_update(pre, i as int, gentry);
            let post = self.pairs@;
            let ii = i as int;
            assert(post == pre.update(ii, gentry));
            assert(forall|m: int|
                0 <= m < post.len() ==> (#[trigger] post[m]).key() == pre[m].key() && post[m].wf()
                    && post[m].0.normalized());
            assert forall|k: int|
                0 <= k < pre.len() implies (#[trigger] post[k]).key() == pre[k].key()
                    && post[k].1 == (if pre[k].key() == (normalized.a@, normalized.b@) {
                    new_reserves
                } else {
                    pre[k].1
                }) by {
                if k != ii && pre[k].key() == (normalized.a@, normalized.b@) {
                    if k < ii {
                        assert(pre[k].key() != pre[ii].key());
                    } else {
                        assert(pre[ii].key() != pre[k].key());
                    }
                }
            }
        }
        Ok(
            String::from_str("Swap of ").concat(calldata.identity.0.as_str()).concat(" ").concat(
                pair.0.as_str(),
            ).concat(" for ").concat(calldata.identity.0.as_str()).concat(" ").concat(
                pair.1.as_str(),
            ).concat(" is valid"),
        )
    }
}

/// Finds the index of the entry for a canonical pair, if one exists.
fn find_pair(entries: &Vec<(UnorderedTokenPair, (u128, u128))>, pair: &UnorderedTokenPair) -> (r:
    Option<usize>)
    ensures
        match r {
            Some(i) => {
                &&& i < entries@.len()
                &&& entries@[i as int].key() == (pair.a@, pair.b@)
                &&& find_entry(entries@, (pair.a@, pair.b@)) == Some(entries@[i as int])
                &&& forall|m: int| 0 <= m < i ==> (#[trigger] entries@[m]).key() != (pair.a@, pair.b@)
            },
            None => find_entry(entries@, (pair.a@, pair.b@)) is None,
        },
{
    let n = entries.len();
    let mut k: usize = 0;
    while k < n
        invariant
            k <= n,
            n == entries@.len(),
            forall|m: int| 0 <= m < k ==> (#[trigger] entries@[m]).key() != (pair.a@, pair.b@),
        decreases n - k,
    {
        if str_eq(entries[k].0.a.as_str(), pair.a.as_str()) && str_eq(
            entries[k].0.b.as_str(),
            pair.b.as_str(),
        ) {
            proof {
                lemma_find_at_index(entries@, k as int);
            }
            return Some(k);
        }
        k = k + 1;
    }
    proof {
        lemma_no_match_find_none(entries@, (pair.a@, pair.b@));
    }
    None
}

/// A call on the market maker: swap along a pair, or list a new pair.
pub enum AmmAction {
    Swap { pair: TokenPair, amounts: TokenPairAmount },
    NewPair { pair: TokenPair, amounts: TokenPairAmount },
}

impl AmmAction {
    /// The byte layout's leading tag.
    pub open spec fn spec_tag(self) -> u64 {
        match self {
            AmmAction::Swap { .. } => 0,
            AmmAction::NewPair { .. } => 1,
        }
    }

    /// The pair the action concerns.
    pub open spec fn spec_pair(self) -> (Seq<char>, Seq<char>) {
        match self {
            AmmAction::Swap { pair, .. } => (pair.0@, pair.1@),
            AmmAction::NewPair { pair, .. } => (pair.0@, pair.1@),
        }
    }

    /// The amounts the action carries.
    pub open spec fn spec_amounts(self) -> (u128, u128) {
        match self {
            AmmAction::Swap { amounts, .. } => amounts,
            AmmAction::NewPair { amounts, .. } => amounts,
        }
    }

    /// Wraps the action as the blob that carries it to the market maker
    /// named `contract_name`, with the given caller and callee indices.
    pub fn as_blob(
        &self,
        contract_name: ContractName,
        caller: Option<u32>,
        callees: Option<Vec<u32>>,
    ) -> (r: Blob)
        ensures
            r.contract_name@ == contract_name@,
            (crate::compose::dec_header(r.data@) matches Some((c, cs, _)) && c == caller && cs
                == crate::compose::opt_view(callees)),
            crate::compose::blob_matches(r, contract_name@, *self),
    {
        crate::compose::make_blob(contract_name, caller, callees, self)
    }
}

/// How an encoding of a market-maker action parses: the tag, the two
/// names, and the two amounts fill the buffer.
proof fn lemma_amm_action_parse(b: Seq<u8>, a: AmmAction)
    requires
        a.wf(),
        b == a.enc_spec(),
    ensures
        dec_u64(b, 0) == Some((a.spec_tag(), 8int)),
        dec_str(b, 8) == Some((a.spec_pair().0, 8 + enc_str(a.spec_pair().0).len() as int)),
        dec_str(b, 8 + enc_str(a.spec_pair().0).len() as int) == Some(
            (a.spec_pair().1, b.len() - 32),
        ),
        dec_u128(b, b.len() - 32) == Some((a.spec_amounts().0, b.len() - 16)),
        dec_u128(b, b.len() - 16) == Some((a.spec_amounts().1, b.len() as int)),
{
    vstd::bytes::lemma_auto_spec_u64_to_from_le_bytes();
    vstd::bytes::lemma_auto_spec_u128_to_from_le_bytes();
    let e0 = enc_str(a.spec_pair().0);
    let e1 = enc_str(a.spec_pair().1);
    assert(b =~= enc_u64(a.spec_tag()) + e0 + e1 + enc_u128(a.spec_amounts().0) + enc_u128(
        a.spec_amounts().1,
    ));
    assert(b.subrange(0, 8) =~= enc_u64(a.spec_tag()));
    lemma_dec_u64_at(b, 0, a.spec_tag());
    assert(b.subrange(8, 8 + e0.len() as int) =~= e0);
    lemma_dec_str_at(b, 8, a.spec_pair().0);
    assert(b.subrange(8 + e0.len() as int, 8 + e0.len() as int + e1.len() as int) =~= e1);
    lemma_dec_str_at(b, 8 + e0.len() as int, a.spec_pair().1);
    assert(8 + e0.len() + e1.len() == b.len() - 32);
    assert(b.subrange(b.len() - 32, b.len() - 16) =~= enc_u128(a.spec_amounts().0));
    lemma_dec_u128_at(b, b.len() - 32, a.spec_amounts().0);
    assert(b.subrange(b.len() - 16, b.len() as int) =~= enc_u128(a.spec_amounts().1));
    lemma_dec_u128_at(b, b.len() - 16, a.spec_amounts().1);
}

impl ContractAction for AmmAction {
    open spec fn eq_spec(self, other: Self) -> bool {
        &&& self.spec_tag() == other.spec_tag()
        &&& self.spec_pair() == other.spec_pair()
        &&& self.spec_amounts() == other.spec_amounts()
    }

    open spec fn wf(self) -> bool {
        &&& encode_utf8(self.spec_pair().0).len() <= u64::MAX
        &&& encode_utf8(self.spec_pair().1).len() <= u64::MAX
    }

    open spec fn enc_spec(self) -> Seq<u8> {
        enc_u64(self.spec_tag()) + enc_str(self.spec_pair().0) + enc_str(self.spec_pair().1)
            + enc_u128(self.spec_amounts().0) + enc_u128(self.spec_amounts().1)
    }

    open spec fn parses(b: Seq<u8>) -> bool {
        match dec_u64(b, 0) {
            Some((tag, j)) => (tag == 0 || tag == 1) && (match dec_str(b, j) {
                Some((_, j2)) => match dec_str(b, j2) {
                    Some((_, j3)) => match dec_u128(b, j3) {
                        Some((_, j4)) => match dec_u128(b, j4) {
                            Some((_, j5)) => j5 == b.len(),
                            None => false,
                        },
                        None => false,
                    },
                    None => false,
                },
                None => false,
            }),
            None => false,
        }
    }

    proof fn lemma_parses_enc(a: Self) {
        lemma_amm_action_parse(a.enc_spec(), a);
    }

    proof fn lemma_enc_injective(a: Self, b: Self) {
        lemma_amm_action_parse(a.enc_spec(), a);
        lemma_amm_action_parse(b.enc_spec(), b);
    }

    proof fn lemma_eq_enc(a: Self, b: Self) {
    }

    fn encode(&self) -> (r: Vec<u8>) {
        let mut out: Vec<u8> = Vec::new();
        let (tag, pair, amounts) = match self {
            AmmAction::Swap { pair, amounts } => (0u64, pair, amounts),
            AmmAction::NewPair { pair, amounts } => (1u64, pair, amounts),
        };
        write_u64(&mut out, tag);
        write_str(&mut out, pair.0.as_str());
        write_str(&mut out, pair.1.as_str());
        write_u128(&mut out, amounts.0);
        write_u128(&mut out, amounts.1);
        proof {
            assert(out@ =~= self.enc_spec());
        }
        out
    }

    fn decode(bytes: &[u8]) -> (r: Option<Self>) {
        match read_u64(bytes, 0) {
            Some((tag, j)) => {
                if tag > 1 {
                    return None;
                }
                match read_str(bytes, j) {
                    Some((p0, j2)) => match read_str(bytes, j2) {
                        Some((p1, j3)) => match read_u128(bytes, j3) {
                            Some((a0, j4)) => match read_u128(bytes, j4) {
                                Some((a1, j5)) => {
                                    if j5 == bytes.len() {
                                        proof {
                                            lemma_dec_str_fits(bytes@, j as int, p0@, j2 as int);
                                            lemma_dec_str_fits(bytes@, j2 as int, p1@, j3 as int);
                                            lemma_enc_u64_of_dec(bytes@, 0, tag, j as int);
                                            lemma_enc_str_of_dec(bytes@, j as int, p0@, j2 as int);
                                            lemma_enc_str_of_dec(bytes@, j2 as int, p1@, j3 as int);
                                            lemma_enc_u128_of_dec(bytes@, j3 as int, a0, j4 as int);
                                            lemma_enc_u128_of_dec(bytes@, j4 as int, a1, j5 as int);
                                            assert(bytes@.subrange(0, j as int) + bytes@.subrange(
                                                j as int,
                                                j2 as int,
                                            ) + bytes@.subrange(j2 as int, j3 as int)
                                                + bytes@.subrange(j3 as int, j4 as int)
                                                + bytes@.subrange(j4 as int, j5 as int)
                                                =~= bytes@);
                                        }
                                        if tag == 0 {
                                            Some(AmmAction::Swap { pair: (p0, p1), amounts: (a0, a1) })
                                        } else {
                                            Some(
                                                AmmAction::NewPair {
                                                    pair: (p0, p1),
                                                    amounts: (a0, a1),
                                                },
                                            )
                                        }
                                    } else {
                                        None
                                    }
                                },
                                None => None,
                            },
                            None => None,
                        },
                        None => None,
                    },
                    None => None,
                }
            },
            None => None,
        }
    }
}

/// What one decoded market-maker action does to the state.
pub open spec fn amm_action_ens(
    pre: AmmState,
    post: AmmState,
    calldata: Calldata,
    own: Seq<char>,
    a: AmmAction,
    r: Result<String, ExecError>,
) -> bool {
    match a {
        AmmAction::Swap { pair, amounts } => AmmState::swap_ens(
            pre,
            post,
            calldata.blobs@,
            calldata.identity@,
            own,
            pair.0@,
            pair.1@,
            amounts.0,
            amounts.1,
            r,
        ),
        AmmAction::NewPair { pair, amounts } => AmmState::create_pair_ens(
            pre,
            post,
            calldata.blobs@,
            own,
            pair.0@,
            pair.1@,
            amounts.0,
            amounts.1,
            r,
        ),
    }
}

impl ContractStateMachine for AmmState {
    open spec fn wf(self) -> bool {
        AmmState::wf(self)
    }

    open spec fn digest_spec(self) -> Seq<u8> {
        enc_record((), self.pairs@)
    }

    open spec fn execute_ens(
        pre: Self,
        post: Self,
        calldata: Calldata,
        r: Result<String, ExecError>,
    ) -> bool {
        if calldata.index as int >= calldata.blobs@.len() {
            post == pre && r matches Err(ExecError::IndexOutOfRange)
        } else {
            match crate::compose::action_bytes(calldata.blobs@[calldata.index as int].data@) {
                Some(rest) => {
                    if AmmAction::parses(rest) {
                        exists|a: AmmAction|
                            #[trigger] a.enc_spec() == rest && amm_action_ens(
                                pre,
                                post,
                                calldata,
                                calldata.blobs@[calldata.index as int].contract_name@,
                                a,
                                r,
                            )
                    } else {
                        post == pre && (r matches Err(ExecError::DecodeError { message }) && message@
                            == "the blob does not hold a market-maker action"@)
                    }
                },
                None => post == pre && (r matches Err(ExecError::DecodeError { message }) && message@
                            == "the blob does not hold a market-maker action"@),
            }
        }
    }

    fn execute(&mut self, calldata: &Calldata) -> (r: Result<String, ExecError>) {
        let idx = calldata.index as usize;
        if idx >= calldata.blobs.len() {
            return Err(ExecError::IndexOutOfRange);
        }
        match crate::compose::parse_blob::<AmmAction>(&calldata.blobs, idx) {
            None => Err(
                ExecError::DecodeError {
                    message: String::from_str("the blob does not hold a market-maker action"),
                },
            ),
            Some(action) => {
                // The blob at the executing index is addressed to this
                // contract, so its name is this contract's own name.
                let own_name = ContractName(calldata.blobs[idx].contract_name.0.clone());
                let ghost gaction = action;
                let r = match action {
                    AmmAction::Swap { pair, amounts } => self.verify_swap(
                        calldata,
                        &own_name,
                        pair,
                        amounts.0,
                        amounts.1,
                    ),
                    AmmAction::NewPair { pair, amounts } => self.create_new_pair(
                        calldata,
                        &own_name,
                        pair,
                        amounts,
                    ),
                };
                proof {
                    assert(amm_action_ens(
                        *old(self),
                        *final(self),
                        *calldata,
                        calldata.blobs@[idx as int].contract_name@,
                        gaction,
                        r,
                    ));
                }
                r
            },
        }
    }

    fn commit(&self) -> (d: StateDigest) {
        let mut out: Vec<u8> = Vec::new();
        ().write(&mut out);
        write_list(&mut out, &self.pairs);
        proof {
            assert(out@ =~= self.digest_spec());
        }
        StateDigest(out)
    }
}

impl AmmState {
    /// Reads a state back from its digest.  It succeeds on exactly the
    /// digests of well-formed states, and what it returns commits to the
    /// same digest again.
    pub fn from_digest(d: &StateDigest) -> (r: Option<AmmState>)
        ensures
            r matches Some(s) ==> s.wf() && s.digest_spec() == d@,
            forall|t: AmmState| t.wf() && d@ == t.digest_spec() ==> r is Some,
    {
        let b = d.0.as_slice();
        match decode_record::<(), (UnorderedTokenPair, (u128, u128))>(b) {
            Some((_, pairs)) => {
                let ghost gpairs = pairs@;
                let ok = check_unique_pairs(&pairs) && check_normalized(&pairs);
                note_vec_len(&pairs);
                if ok {
                    let state = AmmState { pairs };
                    proof {
                        assert(state.digest_spec() == enc_record((), gpairs));
                    }
                    Some(state)
                } else {
                    proof {
                        assert forall|t: AmmState| t.wf() && d@ == t.digest_spec() implies false by {
                            lemma_enc_record_injective((), gpairs, (), t.pairs@);
                            lemma_amm_entries_same_keys(gpairs, t.pairs@);
                        }
                    }
                    None
                }
            },
            None => {
                proof {
                    assert forall|t: AmmState| t.wf() && d@ == t.digest_spec() implies false by {
                        assert(d@ == enc_record((), t.pairs@));
                    }
                }
                None
            },
        }
    }

    /// A state's digest identifies it: two well-formed states with the
    /// same digest agree on every listed pair and its reserves.
    pub proof fn lemma_digest_identifies(s1: AmmState, s2: AmmState)
        requires
            s1.wf(),
            s2.wf(),
            s1.digest_spec() == s2.digest_spec(),
        ensures
            s1.pairs@.len() == s2.pairs@.len(),
            forall|k: int|
                0 <= k < s1.pairs@.len() ==> (#[trigger] s1.pairs@[k]).eq_spec(s2.pairs@[k]),
    {
        lemma_enc_record_injective((), s1.pairs@, (), s2.pairs@);
    }
}

/// Pair lists that agree pairwise have the same keys and the same
/// canonical ordering, so well-formedness carries over.
proof fn lemma_amm_entries_same_keys(
    s1: Seq<(UnorderedTokenPair, (u128, u128))>,
    s2: Seq<(UnorderedTokenPair, (u128, u128))>,
)
    requires
        s1.len() == s2.len(),
        forall|k: int| 0 <= k < s1.len() ==> (#[trigger] s1[k]).eq_spec(s2[k]),
    ensures
        unique_by_key(s1) == unique_by_key(s2),
        (forall|k: int| 0 <= k < s1.len() ==> (#[trigger] s1[k]).0.normalized()) == (forall|
            k: int,
        |
            0 <= k < s2.len() ==> (#[trigger] s2[k]).0.normalized()),
{
    assert forall|k: int| 0 <= k < s1.len() implies (#[trigger] s1[k]).key() == s2[k].key() && (
    s1[k].0.normalized() == s2[k].0.normalized()) by {
        assert(s1[k].eq_spec(s2[k]));
    }
    if forall|k: int| 0 <= k < s1.len() ==> (#[trigger] s1[k]).0.normalized() {
        assert forall|k: int| 0 <= k < s2.len() implies (#[trigger] s2[k]).0.normalized() by {
            assert(s1[k].0.normalized());
        }
    }
    if forall|k: int| 0 <= k < s2.len() ==> (#[trigger] s2[k]).0.normalized() {
        assert forall|k: int| 0 <= k < s1.len() implies (#[trigger] s1[k]).0.normalized() by {
            assert(s2[k].0.normalized());
        }
    }
    if unique_by_key(s1) {
        assert forall|i: int, j: int|
            #![trigger s2[i], s2[j]]
            0 <= i < j < s2.len() implies s2[i].key() != s2[j].key() by {
            assert(s1[i].key() == s2[i].key());
            assert(s1[j].key() == s2[j].key());
        }
    }
    if unique_by_key(s2) {
        assert forall|i: int, j: int|
            #![trigger s1[i], s1[j]]
            0 <= i < j < s1.len() implies s1[i].key() != s1[j].key() by {
            assert(s1[i].key() == s2[i].key());
            assert(s1[j].key() == s2[j].key());
        }
    }
}

/// Whether no canonical pair appears twice in the entry list.
fn check_unique_pairs(entries: &Vec<(UnorderedTokenPair, (u128, u128))>) -> (r: bool)
    ensures
        r == unique_by_key(entries@),
{
    let n = entries.len();
    let mut k: usize = 0;
    while k < n
        invariant
            k <= n,
            n == entries@.len(),
            forall|i: int, j: int|
                #![trigger entries@[i], entries@[j]]
                0 <= i < j < entries@.len() && j < k ==> entries@[i].key() != entries@[j].key(),
        decreases n - k,
    {
        let mut m: usize = 0;
        while m < k
            invariant
                m <= k < n,
                n == entries@.len(),
                forall|i: int|
                    0 <= i < m ==> (#[trigger] entries@[i]).key() != entries@[k as int].key(),
            decreases k - m,
        {
            if str_eq(entries[m].0.a.as_str(), entries[k].0.a.as_str()) && str_eq(
                entries[m].0.b.as_str(),
                entries[k].0.b.as_str(),
            ) {
                return false;
            }
            m = m + 1;
        }
        k = k + 1;
    }
    true
}

/// Whether every listed pair is canonically ordered.
fn check_normalized(entries: &Vec<(UnorderedTokenPair, (u128, u128))>) -> (r: bool)
    ensures
        r == (forall|k: int| 0 <= k < entries@.len() ==> (#[trigger] entries@[k]).0.normalized()),
{
    let n = entries.len();
    let mut k: usize = 0;
    while k < n
        invariant
            k <= n,
            n == entries@.len(),
            forall|m: int| 0 <= m < k ==> (#[trigger] entries@[m]).0.normalized(),
        decreases n - k,
    {
        if !str_le(entries[k].0.a.as_str(), entries[k].0.b.as_str()) {
            return false;
        }
        k = k + 1;
    }
    true
}

} // verus!
