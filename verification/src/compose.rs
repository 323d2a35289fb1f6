//! Structured blobs and cross-contract blob inspection.
//!
//! A structured blob wraps an action with an optional caller index and an
//! optional list of callee indices, so one blob can say which other blobs
//! of the same transaction act on its behalf.  `parse_blob` recovers a
//! typed action from any blob position, and `expect_blob` is the helper a
//! contract uses to insist that the transaction also carries a specific
//! action addressed to another contract.

use vstd::prelude::*;

verus! {

use crate::action::ContractAction;
use crate::codec::{enc_u64, dec_u64, read_u64, write_u64, bytes_eq};
use crate::errors::ExecError;
use crate::model::{Blob, ContractName};
use crate::text::str_eq;
use vstd::slice::slice_subrange;

/// An action together with the blob indices it names as its caller and its
/// callees.
#[derive(Debug, Clone)]
pub struct StructuredBlobData<A> {
    pub caller: Option<u32>,
    pub callees: Option<Vec<u32>>,
    pub parameters: A,
}

/// Encoding of an optional blob index: a presence tag, then the index.
pub open spec fn enc_opt_index(c: Option<u32>) -> Seq<u8> {
    match c {
        None => enc_u64(0),
        Some(x) => enc_u64(1) + enc_u64(x as u64),
    }
}

/// Parse of an optional blob index at offset `i`.
pub open spec fn dec_opt_index(b: Seq<u8>, i: int) -> Option<(Option<u32>, int)> {
    match dec_u64(b, i) {
        Some((tag, j)) => {
            if tag == 0 {
                Some((None, j))
            } else if tag == 1 {
                match dec_u64(b, j) {
                    Some((x, j2)) => {
                        if x <= u32::MAX as u64 {
                            Some((Some(x as u32), j2))
                        } else {
                            None
                        }
                    },
                    None => None,
                }
            } else {
                None
            }
        },
        None => None,
    }
}

/// Encoding of a list of blob indices, one after the other.
pub open spec fn enc_index_seq(s: Seq<u32>) -> Seq<u8>
    decreases s.len(),
{
    if s.len() == 0 {
        Seq::empty()
    } else {
        enc_u64(s[0] as u64) + enc_index_seq(s.drop_first())
    }
}

/// Parse of exactly `n` blob indices starting at offset `i`.
pub open spec fn dec_index_seq(b: Seq<u8>, i: int, n: nat) -> Option<(Seq<u32>, int)>
    decreases n,
{
    if n == 0 {
        Some((Seq::empty(), i))
    } else {
        match dec_u64(b, i) {
            Some((x, j)) => {
                if x <= u32::MAX as u64 {
                    match dec_index_seq(b, j, (n - 1) as nat) {
                        Some((s, j2)) => Some((seq![x as u32] + s, j2)),
                        None => None,
                    }
                } else {
                    None
                }
            },
            None => None,
        }
    }
}

/// Encoding of an optional callee list: a presence tag, then the count,
/// then the indices.
pub open spec fn enc_opt_indices(c: Option<Seq<u32>>) -> Seq<u8> {
    match c {
        None => enc_u64(0),
        Some(s) => enc_u64(1) + enc_u64(s.len() as u64) + enc_index_seq(s),
    }
}

/// Parse of an optional callee list at offset `i`.
pub open spec fn dec_opt_indices(b: Seq<u8>, i: int) -> Option<(Option<Seq<u32>>, int)> {
    match dec_u64(b, i) {
        Some((tag, j)) => {
            if tag == 0 {
                Some((None, j))
            } else if tag == 1 {
                match dec_u64(b, j) {
                    Some((n, j2)) => {
                        match dec_index_seq(b, j2, n as nat) {
                            Some((s, j3)) => Some((Some(s), j3)),
                            None => None,
                        }
                    },
                    None => None,
                }
            } else {
                None
            }
        },
        None => None,
    }
}

/// The caller/callee prefix every structured blob carries before its
/// action bytes.
pub open spec fn enc_header(caller: Option<u32>, callees: Option<Seq<u32>>) -> Seq<u8> {
    enc_opt_index(caller) + enc_opt_indices(callees)
}

/// Parse of the caller/callee prefix from the start of a payload; yields
/// the offset where the action bytes begin.
pub open spec fn dec_header(b: Seq<u8>) -> Option<(Option<u32>, Option<Seq<u32>>, int)> {
    match dec_opt_index(b, 0) {
        Some((caller, j)) => {
            match dec_opt_indices(b, j) {
                Some((callees, j2)) => Some((caller, callees, j2)),
                None => None,
            }
        },
        None => None,
    }
}

/// The action bytes of a structured payload: what is left after the
/// caller/callee prefix, if that prefix parses.
pub open spec fn action_bytes(data: Seq<u8>) -> Option<Seq<u8>> {
    match dec_header(data) {
        Some((_, _, j)) => Some(data.subrange(j, data.len() as int)),
        None => None,
    }
}

/// The callee list as it appears in specifications.
pub open spec fn opt_view(c: Option<Vec<u32>>) -> Option<Seq<u32>> {
    match c {
        Some(v) => Some(v@),
        None => None,
    }
}

/// Appends the encoding of an optional blob index.
pub fn write_opt_index(out: &mut Vec<u8>, c: Option<u32>)
    ensures
        final(out)@ == old(out)@ + enc_opt_index(c),
{
    match c {
        None => {
            write_u64(out, 0);
        },
        Some(x) => {
            write_u64(out, 1);
            write_u64(out, x as u64);
            proof {
                assert(final(out)@ =~= old(out)@ + enc_opt_index(c));
            }
        },
    }
}

/// Every index list encodes to eight bytes per index.
pub proof fn lemma_enc_index_seq_len(s: Seq<u32>)
    ensures
        enc_index_seq(s).len() == 8 * s.len(),
    decreases s.len(),
{
    vstd::bytes::lemma_auto_spec_u64_to_from_le_bytes();
    if s.len() > 0 {
        lemma_enc_index_seq_len(s.drop_first());
    }
}

/// Appends the encoding of an optional callee list.
pub fn write_opt_indices(out: &mut Vec<u8>, c: &Option<Vec<u32>>)
    ensures
        final(out)@ == old(out)@ + enc_opt_indices(opt_view(*c)),
{
    match c {
        None => {
            write_u64(out, 0);
        },
        Some(v) => {
            write_u64(out, 1);
            write_u64(out, v.len() as u64);
            let n = v.len();
            let mut k: usize = 0;
            proof {
                assert(v@.take(0) =~= Seq::<u32>::empty());
            }
            while k < n
                invariant
                    k <= n,
                    n == v@.len(),
                    out@ == old(out)@ + enc_u64(1) + enc_u64(n as u64) + enc_index_seq(
                        v@.take(k as int),
                    ),
                decreases n - k,
            {
                write_u64(out, v[k] as u64);
                proof {
                    lemma_enc_index_seq_take_step(v@, k as int);
                    assert(out@ =~= old(out)@ + enc_u64(1) + enc_u64(n as u64) + enc_index_seq(
                        v@.take(k + 1),
                    ));
                }
                k = k + 1;
            }
            proof {
                assert(v@.take(n as int) =~= v@);
                assert(final(out)@ =~= old(out)@ + enc_opt_indices(opt_view(*c)));
            }
        },
    }
}

/// Extending the encoded prefix of an index list by one index appends that
/// index's encoding.
pub proof fn lemma_enc_index_seq_take_step(s: Seq<u32>, k: int)
    requires
        0 <= k < s.len(),
    ensures
        enc_index_seq(s.take(k + 1)) == enc_index_seq(s.take(k)) + enc_u64(s[k] as u64),
    decreases k,
{
    if k == 0 {
        assert(s.take(1).drop_first() =~= Seq::<u32>::empty());
        assert(s.take(0) =~= Seq::<u32>::empty());
        assert(enc_index_seq(s.take(1)) =~= enc_index_seq(s.take(0)) + enc_u64(s[0] as u64));
    } else {
        lemma_enc_index_seq_take_step(s.drop_first(), k - 1);
        assert(s.take(k + 1).drop_first() =~= s.drop_first().take(k));
        assert(s.take(k).drop_first() =~= s.drop_first().take(k - 1));
        assert(s.take(k + 1)[0] == s[0]);
        assert(s.take(k)[0] == s[0]);
        assert(s.drop_first()[k - 1] == s[k]);
        assert(enc_index_seq(s.take(k + 1)) =~= enc_index_seq(s.take(k)) + enc_u64(s[k] as u64));
    }
}

/// Reads an optional blob index at offset `i`.
pub fn read_opt_index(b: &[u8], i: usize) -> (r: Option<(Option<u32>, usize)>)
    ensures
        match r {
            Some((c, j)) => dec_opt_index(b@, i as int) == Some((c, j as int)),
            None => dec_opt_index(b@, i as int) is None,
        },
{
    match read_u64(b, i) {
        Some((tag, j)) => {
            if tag == 0 {
                Some((None, j))
            } else if tag == 1 {
                match read_u64(b, j) {
                    Some((x, j2)) => {
                        if x <= u32::MAX as u64 {
                            Some((Some(x as u32), j2))
                        } else {
                            None
                        }
                    },
                    None => None,
                }
            } else {
                None
            }
        },
        None => None,
    }
}

/// Reads exactly `n` blob indices starting at offset `i`.
pub fn read_index_seq(b: &[u8], i: usize, n: u64) -> (r: Option<(Vec<u32>, usize)>)
    ensures
        match r {
            Some((s, j)) => {
                &&& dec_index_seq(b@, i as int, n as nat) == Some((s@, j as int))
                &&& (j == i || j <= b@.len())
            },
            None => dec_index_seq(b@, i as int, n as nat) is None,
        },
{
    let mut acc: Vec<u32> = Vec::new();
    let mut cur: usize = i;
    let mut k: u64 = 0;
    while k < n
        invariant
            k <= n,
            cur == i || cur <= b@.len(),
            match dec_index_seq(b@, cur as int, (n - k) as nat) {
                Some((s, e)) => dec_index_seq(b@, i as int, n as nat) == Some((acc@ + s, e)),
                None => dec_index_seq(b@, i as int, n as nat) is None,
            },
        decreases n - k,
    {
        match read_u64(b, cur) {
            Some((x, j)) => {
                if x <= u32::MAX as u64 {
                    let ghost pre = acc@;
                    acc.push(x as u32);
                    proof {
                        if let Some((s, e)) = dec_index_seq(b@, j as int, (n - k - 1) as nat) {
                            assert(pre + (seq![x as u32] + s) =~= acc@ + s);
                        }
                    }
                    cur = j;
                    k = k + 1;
                } else {
                    return None;
                }
            },
            None => {
                return None;
            },
        }
    }
    proof {
        assert(acc@ + Seq::<u32>::empty() =~= acc@);
    }
    Some((acc, cur))
}

/// Reads the caller/callee prefix from the start of a payload.
pub fn read_header(b: &[u8]) -> (r: Option<(Option<u32>, Option<Vec<u32>>, usize)>)
    ensures
        match r {
            Some((c, cs, j)) => {
                &&& dec_header(b@) == Some((c, opt_view(cs), j as int))
                &&& j <= b@.len()
            },
            None => dec_header(b@) is None,
        },
{
    match read_opt_index(b, 0) {
        Some((caller, j)) => {
            match read_u64(b, j) {
                Some((tag, j2)) => {
                    if tag == 0 {
                        Some((caller, None, j2))
                    } else if tag == 1 {
                        match read_u64(b, j2) {
                            Some((n, j3)) => {
                                match read_index_seq(b, j3, n) {
                                    Some((s, j4)) => Some((caller, Some(s), j4)),
                                    None => None,
                                }
                            },
                            None => None,
                        }
                    } else {
                        None
                    }
                },
                None => None,
            }
        },
        None => None,
    }
}

/// An optional-index decoder run at the start of an optional-index
/// encoding finds the encoded value.
pub proof fn lemma_dec_opt_index_at(b: Seq<u8>, i: int, c: Option<u32>)
    requires
        0 <= i,
        i + enc_opt_index(c).len() <= b.len(),
        b.subrange(i, i + enc_opt_index(c).len()) == enc_opt_index(c),
    ensures
        dec_opt_index(b, i) == Some((c, i + enc_opt_index(c).len())),
{
    vstd::bytes::lemma_auto_spec_u64_to_from_le_bytes();
    let e = enc_opt_index(c);
    match c {
        None => {
            crate::codec::lemma_dec_u64_at(b, i, 0);
        },
        Some(x) => {
            assert(b.subrange(i, i + 8) =~= e.subrange(0, 8));
            assert(e.subrange(0, 8) =~= enc_u64(1));
            crate::codec::lemma_dec_u64_at(b, i, 1);
            assert(b.subrange(i + 8, i + 16) =~= e.subrange(8, 16));
            assert(e.subrange(8, 16) =~= enc_u64(x as u64));
            crate::codec::lemma_dec_u64_at(b, i + 8, x as u64);
        },
    }
}

/// An index-list decoder run at the start of an index-list encoding finds
/// the encoded indices.
pub proof fn lemma_dec_index_seq_at(b: Seq<u8>, i: int, s: Seq<u32>)
    requires
        0 <= i,
        i + 8 * s.len() <= b.len(),
        b.subrange(i, i + 8 * s.len()) == enc_index_seq(s),
    ensures
        dec_index_seq(b, i, s.len()) == Some((s, i + 8 * s.len())),
    decreases s.len(),
{
    lemma_enc_index_seq_len(s);
    if s.len() > 0 {
        let e = enc_index_seq(s);
        let rest = s.drop_first();
        lemma_enc_index_seq_len(rest);
        assert(b.subrange(i, i + 8) =~= e.subrange(0, 8));
        assert(e.subrange(0, 8) =~= enc_u64(s[0] as u64));
        crate::codec::lemma_dec_u64_at(b, i, s[0] as u64);
        assert(b.subrange(i + 8, i + 8 + 8 * rest.len()) =~= e.subrange(8, e.len() as int));
        assert(e.subrange(8, e.len() as int) =~= enc_index_seq(rest));
        lemma_dec_index_seq_at(b, i + 8, rest);
        assert(seq![s[0]] + rest =~= s);
    }
}

/// An optional-callee-list decoder run at the start of such an encoding
/// finds the encoded list.
pub proof fn lemma_dec_opt_indices_at(b: Seq<u8>, i: int, c: Option<Seq<u32>>)
    requires
        0 <= i,
        (c matches Some(s) ==> s.len() <= u64::MAX),
        i + enc_opt_indices(c).len() <= b.len(),
        b.subrange(i, i + enc_opt_indices(c).len()) == enc_opt_indices(c),
    ensures
        dec_opt_indices(b, i) == Some((c, i + enc_opt_indices(c).len())),
{
    vstd::bytes::lemma_auto_spec_u64_to_from_le_bytes();
    let e = enc_opt_indices(c);
    match c {
        None => {
            crate::codec::lemma_dec_u64_at(b, i, 0);
        },
        Some(s) => {
            lemma_enc_index_seq_len(s);
            assert(b.subrange(i, i + 8) =~= e.subrange(0, 8));
            assert(e.subrange(0, 8) =~= enc_u64(1));
            crate::codec::lemma_dec_u64_at(b, i, 1);
            assert(b.subrange(i + 8, i + 16) =~= e.subrange(8, 16));
            assert(e.subrange(8, 16) =~= enc_u64(s.len() as u64));
            crate::codec::lemma_dec_u64_at(b, i + 8, s.len() as u64);
            assert(b.subrange(i + 16, i + 16 + 8 * s.len()) =~= e.subrange(16, e.len() as int));
            assert(e.subrange(16, e.len() as int) =~= enc_index_seq(s));
            lemma_dec_index_seq_at(b, i + 16, s);
        },
    }
}

/// A payload assembled from a caller/callee prefix and action bytes parses
/// back into exactly those parts.
pub proof fn lemma_structured_payload(
    data: Seq<u8>,
    caller: Option<u32>,
    callees: Option<Seq<u32>>,
    abytes: Seq<u8>,
)
    requires
        (callees matches Some(s) ==> s.len() <= u64::MAX),
        data == enc_header(caller, callees) + abytes,
    ensures
        dec_header(data) == Some((caller, callees, enc_header(caller, callees).len() as int)),
        action_bytes(data) == Some(abytes),
{
    let h1 = enc_opt_index(caller);
    let h2 = enc_opt_indices(callees);
    let hlen = (h1.len() + h2.len()) as int;
    assert(data.subrange(0, h1.len() as int) =~= h1);
    lemma_dec_opt_index_at(data, 0, caller);
    assert(data.subrange(h1.len() as int, hlen) =~= h2);
    lemma_dec_opt_indices_at(data, h1.len() as int, callees);
    assert(data.subrange(hlen, data.len() as int) =~= abytes);
}

/// Recovers a typed action from the blob at `index`, whoever that blob is
/// addressed to: the structured prefix is stripped and the remaining bytes
/// are decoded as an `A`.  Returns nothing on a missing index or on bytes
/// that are not exactly an `A` encoding.
pub fn parse_blob<A: ContractAction>(blobs: &Vec<Blob>, index: usize) -> (r: Option<A>)
    ensures
        r is Some <==> ((index as int) < blobs@.len()
            && (action_bytes(blobs@[index as int].data@) matches Some(rest) && A::parses(rest))),
        r matches Some(a) ==> a.enc_spec() == action_bytes(blobs@[index as int].data@).unwrap(),
{
    if index >= blobs.len() {
        return None;
    }
    let data = blobs[index].data.as_slice();
    match read_header(data) {
        Some((_, _, j)) => {
            let rest = slice_subrange(data, j, data.len());
            A::decode(rest)
        },
        None => None,
    }
}

/// Recovers a whole structured blob from the blob at `index`: the caller
/// and callee indices of its prefix together with its typed action.
pub fn parse_structured_blob<A: ContractAction>(blobs: &Vec<Blob>, index: usize) -> (r: Option<
    StructuredBlobData<A>,
>)
    ensures
        r matches Some(s) ==> {
            &&& (index as int) < blobs@.len()
            &&& dec_header(blobs@[index as int].data@) matches Some((c, cs, _)) && c == s.caller
                && cs == opt_view(s.callees)
            &&& s.parameters.enc_spec() == action_bytes(blobs@[index as int].data@).unwrap()
        },
        r is Some <==> ((index as int) < blobs@.len()
            && (action_bytes(blobs@[index as int].data@) matches Some(rest) && A::parses(rest))),
{
    if index >= blobs.len() {
        return None;
    }
    let data = blobs[index].data.as_slice();
    match read_header(data) {
        Some((caller, callees, j)) => {
            let rest = slice_subrange(data, j, data.len());
            match A::decode(rest) {
                Some(parameters) => Some(StructuredBlobData { caller, callees, parameters }),
                None => None,
            }
        },
        None => None,
    }
}

/// Whether a blob is addressed to `target` and carries, behind its
/// caller/callee prefix, exactly the encoding of `expected`.
pub open spec fn blob_matches<A: ContractAction>(b: Blob, target: Seq<char>, expected: A) -> bool {
    &&& b.contract_name@ == target
    &&& (action_bytes(b.data@) matches Some(rest) && rest == expected.enc_spec())
}

/// Asserts that the transaction also carries the action `expected`,
/// addressed to the contract named `target`.  This confirms only that the
/// matching blob was included in the same transaction; whether the target
/// contract's own execution succeeds is settled separately.
pub fn expect_blob<A: ContractAction>(
    blobs: &Vec<Blob>,
    target: &ContractName,
    expected: &A,
) -> (r: Result<(), ExecError>)
    ensures
        r is Ok <==> (exists|k: int|
            0 <= k < blobs@.len() && blob_matches(blobs@[k], target@, *expected)),
        r matches Err(e) ==> (e matches ExecError::MissingExpectedBlob { target: t, expected_action: ea } && t@
            == target@ && ea@ == expected.enc_spec()),
{
    let want = expected.encode();
    let n = blobs.len();
    let mut k: usize = 0;
    while k < n
        invariant
            k <= n,
            n == blobs@.len(),
            want@ == expected.enc_spec(),
            forall|m: int| 0 <= m < k ==> !blob_matches(blobs@[m], target@, *expected),
        decreases n - k,
    {
        let blob = &blobs[k];
        if str_eq(blob.contract_name.0.as_str(), target.0.as_str()) {
            let data = blob.data.as_slice();
            match read_header(data) {
                Some((_, _, j)) => {
                    let rest = slice_subrange(data, j, data.len());
                    if bytes_eq(rest, want.as_slice()) {
                        assert(blob_matches(blobs@[k as int], target@, *expected));
                        return Ok(());
                    }
                },
                None => {},
            }
        }
        k = k + 1;
    }
    Err(
        ExecError::MissingExpectedBlob {
            target: ContractName(target.0.clone()),
            expected_action: want,
        },
    )
}

/// The position of the first blob addressed to the contract named
/// `name`, if any: how a prover finds the blob its contract owns inside
/// a transaction.
pub fn find_blob_for(blobs: &Vec<Blob>, name: &ContractName) -> (r: Option<usize>)
    ensures
        match r {
            Some(i) => {
                &&& (i as int) < blobs@.len()
                &&& blobs@[i as int].contract_name@ == name@
                &&& forall|m: int| 0 <= m < i ==> (#[trigger] blobs@[m]).contract_name@ != name@
            },
            None => forall|m: int|
                0 <= m < blobs@.len() ==> (#[trigger] blobs@[m]).contract_name@ != name@,
        },
{
    let n = blobs.len();
    let mut k: usize = 0;
    while k < n
        invariant
            k <= n,
            n == blobs@.len(),
            forall|m: int| 0 <= m < k ==> (#[trigger] blobs@[m]).contract_name@ != name@,
        decreases n - k,
    {
        if str_eq(blobs[k].contract_name.0.as_str(), name.0.as_str()) {
            return Some(k);
        }
        k = k + 1;
    }
    None
}

/// Builds the blob that carries `action` to the contract named `name`,
/// with the given caller and callee indices in its structured prefix.
pub fn make_blob<A: ContractAction>(
    name: ContractName,
    caller: Option<u32>,
    callees: Option<Vec<u32>>,
    action: &A,
) -> (r: Blob)
    ensures
        r.contract_name@ == name@,
        (dec_header(r.data@) matches Some((c, cs, _)) && c == caller && cs == opt_view(callees)),
        action_bytes(r.data@) == Some(action.enc_spec()),
        blob_matches(r, name@, *action),
{
    match &callees {
        Some(v) => {
            let _n: usize = v.len();
        },
        None => {},
    }
    let mut out: Vec<u8> = Vec::new();
    write_opt_index(&mut out, caller);
    write_opt_indices(&mut out, &callees);
    let mut tail = action.encode();
    out.append(&mut tail);
    proof {
        assert(out@ =~= enc_header(caller, opt_view(callees)) + action.enc_spec());
        lemma_structured_payload(out@, caller, opt_view(callees), action.enc_spec());
    }
    Blob { contract_name: name, data: out }
}

} // verus!
