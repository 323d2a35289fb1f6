//! Deterministic binary wire format shared by every contract.
//!
//! Integers are little-endian; variable-length data (byte strings, UTF-8
//! strings, entry lists) is prefixed with its byte length or entry count as a
//! `u64`.  Each encoder has a spec-level description, each decoder is proved
//! to return exactly what the spec-level parser returns, and the `*_at`
//! lemmas show that a decoder run on an encoding finds the encoded value,
//! which is what the per-contract round-trip lemmas are built from.

use vstd::prelude::*;

verus! {

use vstd::bytes::*;
use vstd::slice::{slice_subrange, slice_to_vec};
use vstd::utf8::{valid_utf8, decode_utf8, encode_utf8};

/// Spec-level encoding of a `u64` (8 bytes, little-endian).
pub open spec fn enc_u64(x: u64) -> Seq<u8> {
    spec_u64_to_le_bytes(x)
}

/// Spec-level parse of a `u64` at offset `i`; yields the value and the
/// offset just past it.
pub open spec fn dec_u64(b: Seq<u8>, i: int) -> Option<(u64, int)> {
    if 0 <= i && i + 8 <= b.len() {
        Some((spec_u64_from_le_bytes(b.subrange(i, i + 8)), i + 8))
    } else {
        None
    }
}

/// Spec-level encoding of a `u128` (16 bytes, little-endian).
pub open spec fn enc_u128(x: u128) -> Seq<u8> {
    spec_u128_to_le_bytes(x)
}

/// Spec-level parse of a `u128` at offset `i`.
pub open spec fn dec_u128(b: Seq<u8>, i: int) -> Option<(u128, int)> {
    if 0 <= i && i + 16 <= b.len() {
        Some((spec_u128_from_le_bytes(b.subrange(i, i + 16)), i + 16))
    } else {
        None
    }
}

/// Spec-level encoding of a byte string: length, then the bytes.
pub open spec fn enc_bytes(data: Seq<u8>) -> Seq<u8> {
    enc_u64(data.len() as u64) + data
}

/// Spec-level parse of a length-prefixed byte string at offset `i`.
pub open spec fn dec_bytes(b: Seq<u8>, i: int) -> Option<(Seq<u8>, int)> {
    match dec_u64(b, i) {
        Some((n, j)) => {
            if j + n <= b.len() {
                Some((b.subrange(j, j + n), j + n))
            } else {
                None
            }
        },
        None => None,
    }
}

/// Spec-level encoding of a string: byte length, then the UTF-8 bytes.
pub open spec fn enc_str(s: Seq<char>) -> Seq<u8> {
    enc_bytes(encode_utf8(s))
}

/// Spec-level parse of a length-prefixed UTF-8 string at offset `i`.
pub open spec fn dec_str(b: Seq<u8>, i: int) -> Option<(Seq<char>, int)> {
    match dec_bytes(b, i) {
        Some((data, j)) => {
            if valid_utf8(data) {
                Some((decode_utf8(data), j))
            } else {
                None
            }
        },
        None => None,
    }
}

/// Appends the encoding of `x` to `out`.
pub fn write_u64(out: &mut Vec<u8>, x: u64)
    ensures
        final(out)@ == old(out)@ + enc_u64(x),
{
    proof {
        lemma_auto_spec_u64_to_from_le_bytes();
    }
    let mut bytes = u64_to_le_bytes(x);
    out.append(&mut bytes);
}

/// Appends the encoding of `x` to `out`.
pub fn write_u128(out: &mut Vec<u8>, x: u128)
    ensures
        final(out)@ == old(out)@ + enc_u128(x),
{
    proof {
        lemma_auto_spec_u128_to_from_le_bytes();
    }
    let mut bytes = u128_to_le_bytes(x);
    out.append(&mut bytes);
}

/// Appends the length-prefixed encoding of `data` to `out`.
pub fn write_bytes(out: &mut Vec<u8>, data: &[u8])
    ensures
        final(out)@ == old(out)@ + enc_bytes(data@),
{
    write_u64(out, data.len() as u64);
    let mut tail = slice_to_vec(data);
    out.append(&mut tail);
    proof {
        assert(final(out)@ =~= old(out)@ + enc_bytes(data@));
    }
}

/// Appends the length-prefixed UTF-8 encoding of `s` to `out`.
pub fn write_str(out: &mut Vec<u8>, s: &str)
    ensures
        final(out)@ == old(out)@ + enc_str(s@),
{
    write_bytes(out, s.as_bytes());
}

/// Reads a `u64` at offset `i`, returning the value and the next offset.
pub fn read_u64(b: &[u8], i: usize) -> (r: Option<(u64, usize)>)
    ensures
        match r {
            Some((x, j)) => dec_u64(b@, i as int) == Some((x, j as int)),
            None => dec_u64(b@, i as int) is None,
        },
{
    if i <= b.len() && b.len() - i >= 8 {
        let chunk = slice_subrange(b, i, i + 8);
        let x = u64_from_le_bytes(chunk);
        Some((x, i + 8))
    } else {
        None
    }
}

/// Reads a `u128` at offset `i`, returning the value and the next offset.
pub fn read_u128(b: &[u8], i: usize) -> (r: Option<(u128, usize)>)
    ensures
        match r {
            Some((x, j)) => dec_u128(b@, i as int) == Some((x, j as int)),
            None => dec_u128(b@, i as int) is None,
        },
{
    if i <= b.len() && b.len() - i >= 16 {
        let chunk = slice_subrange(b, i, i + 16);
        let x = u128_from_le_bytes(chunk);
        Some((x, i + 16))
    } else {
        None
    }
}

/// Reads a length-prefixed byte string at offset `i`.
pub fn read_bytes(b: &[u8], i: usize) -> (r: Option<(Vec<u8>, usize)>)
    ensures
        match r {
            Some((data, j)) => dec_bytes(b@, i as int) == Some((data@, j as int)),
            None => dec_bytes(b@, i as int) is None,
        },
{
    match read_u64(b, i) {
        Some((n, j)) => {
            if n <= (b.len() - j) as u64 {
                let n_us = n as usize;
                let data = slice_to_vec(slice_subrange(b, j, j + n_us));
                Some((data, j + n_us))
            } else {
                None
            }
        },
        None => None,
    }
}

/// Relies on `String::from_utf8`: returns the string made of exactly the
/// given bytes when they are valid UTF-8, and nothing otherwise.
#[verifier::external_body]
pub(crate) fn string_from_utf8(v: Vec<u8>) -> (r: Option<String>)
    ensures
        r is Some <==> valid_utf8(v@),
        r is Some ==> r.unwrap()@ == decode_utf8(v@),
{
    match String::from_utf8(v) {
        Ok(s) => Some(s),
        Err(_) => None,
    }
}

/// Reads a length-prefixed UTF-8 string at offset `i`.
pub fn read_str(b: &[u8], i: usize) -> (r: Option<(String, usize)>)
    ensures
        match r {
            Some((s, j)) => dec_str(b@, i as int) == Some((s@, j as int)),
            None => dec_str(b@, i as int) is None,
        },
{
    match read_bytes(b, i) {
        Some((data, j)) => {
            match string_from_utf8(data) {
                Some(s) => Some((s, j)),
                None => None,
            }
        },
        None => None,
    }
}

/// Whether two byte strings hold the same bytes.
pub fn bytes_eq(a: &[u8], b: &[u8]) -> (r: bool)
    ensures
        r == (a@ == b@),
{
    if a.len() != b.len() {
        return false;
    }
    let n = a.len();
    let mut k: usize = 0;
    while k < n
        invariant
            a@.len() == n,
            b@.len() == n,
            k <= n,
            forall|m: int| 0 <= m < k ==> a@[m] == b@[m],
        decreases n - k,
    {
        if a[k] != b[k] {
            assert(a@ != b@);
            return false;
        }
        k = k + 1;
    }
    proof {
        assert(a@ =~= b@);
    }
    true
}

/// A `u64` decoder run at the start of a `u64` encoding finds the encoded
/// value and stops right after it.
pub proof fn lemma_dec_u64_at(b: Seq<u8>, i: int, x: u64)
    requires
        0 <= i,
        i + 8 <= b.len(),
        b.subrange(i, i + 8) == enc_u64(x),
    ensures
        dec_u64(b, i) == Some((x, i + 8)),
{
    lemma_auto_spec_u64_to_from_le_bytes();
}

/// A `u128` decoder run at the start of a `u128` encoding finds the encoded
/// value and stops right after it.
pub proof fn lemma_dec_u128_at(b: Seq<u8>, i: int, x: u128)
    requires
        0 <= i,
        i + 16 <= b.len(),
        b.subrange(i, i + 16) == enc_u128(x),
    ensures
        dec_u128(b, i) == Some((x, i + 16)),
{
    lemma_auto_spec_u128_to_from_le_bytes();
    assert(spec_u128_to_le_bytes(x).len() == 16);
    assert(spec_u128_from_le_bytes(spec_u128_to_le_bytes(x)) == x);
    assert(b.subrange(i, i + 16) == spec_u128_to_le_bytes(x));
}

/// A byte-string decoder run at the start of a byte-string encoding finds
/// the encoded bytes and stops right after them.
pub proof fn lemma_dec_bytes_at(b: Seq<u8>, i: int, data: Seq<u8>)
    requires
        0 <= i,
        data.len() <= u64::MAX,
        i + enc_bytes(data).len() <= b.len(),
        b.subrange(i, i + enc_bytes(data).len()) == enc_bytes(data),
    ensures
        dec_bytes(b, i) == Some((data, i + enc_bytes(data).len())),
{
    lemma_auto_spec_u64_to_from_le_bytes();
    let n = data.len() as u64;
    let e = enc_bytes(data);
    assert(e.len() == 8 + data.len());
    assert(b.subrange(i, i + 8) =~= e.subrange(0, 8));
    assert(e.subrange(0, 8) =~= enc_u64(n));
    lemma_dec_u64_at(b, i, n);
    assert(b.subrange(i + 8, i + 8 + n) =~= e.subrange(8, e.len() as int));
    assert(e.subrange(8, e.len() as int) =~= data);
}

/// A string decoder run at the start of a string encoding finds the encoded
/// characters and stops right after them.
pub proof fn lemma_dec_str_at(b: Seq<u8>, i: int, s: Seq<char>)
    requires
        0 <= i,
        encode_utf8(s).len() <= u64::MAX,
        i + enc_str(s).len() <= b.len(),
        b.subrange(i, i + enc_str(s).len()) == enc_str(s),
    ensures
        dec_str(b, i) == Some((s, i + enc_str(s).len())),
{
    let data = encode_utf8(s);
    lemma_dec_bytes_at(b, i, data);
    broadcast use vstd::utf8::encode_utf8_valid_utf8;
    broadcast use vstd::utf8::encode_utf8_decode_utf8;

}

/// What a successful `u64` parse consumed re-encodes to itself.
pub proof fn lemma_enc_u64_of_dec(b: Seq<u8>, i: int, x: u64, j: int)
    requires
        dec_u64(b, i) == Some((x, j)),
    ensures
        enc_u64(x) == b.subrange(i, j),
        j == i + 8,
{
    lemma_auto_spec_u64_to_from_le_bytes();
    assert(b.subrange(i, j).len() == 8);
}

/// What a successful `u128` parse consumed re-encodes to itself.
pub proof fn lemma_enc_u128_of_dec(b: Seq<u8>, i: int, x: u128, j: int)
    requires
        dec_u128(b, i) == Some((x, j)),
    ensures
        enc_u128(x) == b.subrange(i, j),
        j == i + 16,
{
    lemma_auto_spec_u128_to_from_le_bytes();
    assert(b.subrange(i, j).len() == 16);
}

/// What a successful string parse consumed re-encodes to itself.
pub proof fn lemma_enc_str_of_dec(b: Seq<u8>, i: int, s: Seq<char>, j: int)
    requires
        dec_str(b, i) == Some((s, j)),
    ensures
        enc_str(s) == b.subrange(i, j),
        i + 8 <= j <= b.len(),
        encode_utf8(s).len() == j - i - 8,
{
    lemma_auto_spec_u64_to_from_le_bytes();
    let (n, j0) = dec_u64(b, i).unwrap();
    let data = b.subrange(j0, j0 + n);
    vstd::utf8::decode_utf8_encode_utf8(data);
    assert(enc_u64(n) == b.subrange(i, j0));
    assert(enc_u64(data.len() as u64) == enc_u64(n));
    assert(enc_str(s) =~= b.subrange(i, j0) + b.subrange(j0, j));
    assert(b.subrange(i, j0) + b.subrange(j0, j) =~= b.subrange(i, j));
}

/// A parsed string's UTF-8 length fits the wire's length field.
pub proof fn lemma_dec_str_fits(b: Seq<u8>, i: int, s: Seq<char>, j: int)
    requires
        dec_str(b, i) == Some((s, j)),
    ensures
        encode_utf8(s).len() <= u64::MAX,
{
    lemma_auto_spec_u64_to_from_le_bytes();
    lemma_enc_str_of_dec(b, i, s, j);
}

/// One typed piece of a larger record on the wire: it knows its own
/// encoding, where a parse of it would end, and that its encoding
/// identifies it.  Records and lists of fields are then read and written
/// generically.
pub trait WireField: Sized {
    /// Structural equality of two fields, compared by content.
    spec fn eq_spec(self, other: Self) -> bool;

    /// Whether the field's variable-length parts fit the wire's length
    /// fields.  Every field held in memory does.
    spec fn wf(self) -> bool;

    /// The field's wire encoding.
    spec fn enc_spec(self) -> Seq<u8>;

    /// Where a field parsed at offset `i` would end, if one parses there.
    spec fn parse_end(b: Seq<u8>, i: int) -> Option<int>;

    /// A parse at the start of an encoding consumes exactly the encoding.
    proof fn lemma_parse_end_enc(b: Seq<u8>, i: int, x: Self)
        requires
            x.wf(),
            0 <= i,
            i + x.enc_spec().len() <= b.len(),
            b.subrange(i, i + x.enc_spec().len()) == x.enc_spec(),
        ensures
            Self::parse_end(b, i) == Some(i + x.enc_spec().len()),
    ;

    /// The encoding identifies the field up to structural equality.
    proof fn lemma_enc_injective(a: Self, b: Self)
        requires
            a.wf(),
            b.wf(),
            a.enc_spec() == b.enc_spec(),
        ensures
            a.eq_spec(b),
    ;

    /// Appends the field's encoding.
    fn write(&self, out: &mut Vec<u8>)
        ensures
            final(out)@ == old(out)@ + self.enc_spec(),
    ;

    /// Reads one field at offset `i`; what it returns re-encodes to
    /// exactly the bytes consumed.
    fn read_at(b: &[u8], i: usize) -> (r: Option<(Self, usize)>)
        ensures
            r matches Some((x, j)) ==> {
                &&& Self::parse_end(b@, i as int) == Some(j as int)
                &&& x.enc_spec() == b@.subrange(i as int, j as int)
                &&& x.wf()
                &&& i <= j <= b@.len()
            },
            r is None ==> Self::parse_end(b@, i as int) is None,
    ;
}

/// The empty field, for records that are nothing but their field list.
impl WireField for () {
    open spec fn eq_spec(self, other: Self) -> bool {
        true
    }

    open spec fn wf(self) -> bool {
        true
    }

    open spec fn enc_spec(self) -> Seq<u8> {
        Seq::empty()
    }

    open spec fn parse_end(b: Seq<u8>, i: int) -> Option<int> {
        if 0 <= i <= b.len() {
            Some(i)
        } else {
            None
        }
    }

    proof fn lemma_parse_end_enc(b: Seq<u8>, i: int, x: Self) {
    }

    proof fn lemma_enc_injective(a: Self, b: Self) {
    }

    fn write(&self, out: &mut Vec<u8>) {
        proof {
            assert(final(out)@ =~= old(out)@ + self.enc_spec());
        }
    }

    fn read_at(b: &[u8], i: usize) -> (r: Option<(Self, usize)>) {
        if i <= b.len() {
            proof {
                assert(b@.subrange(i as int, i as int) =~= Seq::<u8>::empty());
            }
            Some(((), i))
        } else {
            None
        }
    }
}

/// Encoding of a field list, one field after the other.
pub open spec fn enc_list<F: WireField>(s: Seq<F>) -> Seq<u8>
    decreases s.len(),
{
    if s.len() == 0 {
        Seq::empty()
    } else {
        s[0].enc_spec() + enc_list(s.drop_first())
    }
}

/// Where a parse of exactly `n` fields starting at offset `i` would end.
pub open spec fn list_parse_end<F: WireField>(b: Seq<u8>, i: int, n: nat) -> Option<int>
    decreases n,
{
    if n == 0 {
        Some(i)
    } else {
        match F::parse_end(b, i) {
            Some(j) => list_parse_end::<F>(b, j, (n - 1) as nat),
            None => None,
        }
    }
}

/// Appending a field to a list appends its encoding.
pub proof fn lemma_enc_list_push<F: WireField>(s: Seq<F>, x: F)
    ensures
        enc_list(s.push(x)) == enc_list(s) + x.enc_spec(),
    decreases s.len(),
{
    assert(s.push(x)[0] == if s.len() == 0 { x } else { s[0] });
    if s.len() == 0 {
        assert(s.push(x).drop_first() =~= Seq::<F>::empty());
        assert(enc_list(s.push(x)) == x.enc_spec() + enc_list(Seq::<F>::empty()));
        assert(enc_list(s.push(x)) =~= enc_list(s) + x.enc_spec());
    } else {
        assert(s.push(x).drop_first() =~= s.drop_first().push(x));
        lemma_enc_list_push(s.drop_first(), x);
        assert(enc_list(s.push(x)) == s[0].enc_spec() + (enc_list(s.drop_first())
            + x.enc_spec()));
        assert(enc_list(s.push(x)) =~= enc_list(s) + x.enc_spec());
    }
}

/// A parse of `n` fields at the start of an `n`-field encoding consumes
/// exactly the encoding.
pub proof fn lemma_list_parse_end_enc<F: WireField>(b: Seq<u8>, i: int, s: Seq<F>)
    requires
        forall|k: int| 0 <= k < s.len() ==> (#[trigger] s[k]).wf(),
        0 <= i,
        i + enc_list(s).len() <= b.len(),
        b.subrange(i, i + enc_list(s).len()) == enc_list(s),
    ensures
        list_parse_end::<F>(b, i, s.len()) == Some(i + enc_list(s).len()),
    decreases s.len(),
{
    if s.len() > 0 {
        let e = enc_list(s);
        let e0 = s[0].enc_spec();
        let rest = s.drop_first();
        assert(b.subrange(i, i + e0.len()) =~= e.subrange(0, e0.len() as int));
        assert(e.subrange(0, e0.len() as int) =~= e0);
        F::lemma_parse_end_enc(b, i, s[0]);
        assert(b.subrange(i + e0.len(), i + e.len()) =~= e.subrange(e0.len() as int, e.len() as int));
        assert(e.subrange(e0.len() as int, e.len() as int) =~= enc_list(rest));
        lemma_list_parse_end_enc::<F>(b, i + e0.len(), rest);
    }
}

/// Equal encodings of equally long field lists mean the fields agree
/// pairwise.
pub proof fn lemma_enc_list_injective<F: WireField>(s1: Seq<F>, s2: Seq<F>)
    requires
        forall|k: int| 0 <= k < s1.len() ==> (#[trigger] s1[k]).wf(),
        forall|k: int| 0 <= k < s2.len() ==> (#[trigger] s2[k]).wf(),
        s1.len() == s2.len(),
        enc_list(s1) == enc_list(s2),
    ensures
        forall|k: int| 0 <= k < s1.len() ==> s1[k].eq_spec(s2[k]),
    decreases s1.len(),
{
    if s1.len() > 0 {
        let b = enc_list(s1);
        let e1 = s1[0].enc_spec();
        let e2 = s2[0].enc_spec();
        assert(b.subrange(0, e1.len() as int) =~= e1);
        assert(b.subrange(0, e2.len() as int) =~= e2);
        F::lemma_parse_end_enc(b, 0, s1[0]);
        F::lemma_parse_end_enc(b, 0, s2[0]);
        assert(e1.len() == e2.len());
        assert(e1 =~= e2);
        F::lemma_enc_injective(s1[0], s2[0]);
        assert(b.subrange(e1.len() as int, b.len() as int) =~= enc_list(s1.drop_first()));
        assert(b.subrange(e2.len() as int, b.len() as int) =~= enc_list(s2.drop_first()));
        lemma_enc_list_injective::<F>(s1.drop_first(), s2.drop_first());
        assert forall|k: int| 0 <= k < s1.len() implies s1[k].eq_spec(s2[k]) by {
            if k > 0 {
                assert(s1.drop_first()[k - 1].eq_spec(s2.drop_first()[k - 1]));
            }
        }
    }
}

/// Writes the field count, then each field's encoding in order.
pub fn write_list<F: WireField>(out: &mut Vec<u8>, items: &Vec<F>)
    ensures
        final(out)@ == old(out)@ + enc_u64(items@.len() as u64) + enc_list(items@),
{
    write_u64(out, items.len() as u64);
    let n = items.len();
    let mut k: usize = 0;
    proof {
        assert(items@.take(0) =~= Seq::<F>::empty());
    }
    while k < n
        invariant
            k <= n,
            n == items@.len(),
            out@ == old(out)@ + enc_u64(n as u64) + enc_list(items@.take(k as int)),
        decreases n - k,
    {
        items[k].write(out);
        proof {
            assert(items@.take(k + 1) =~= items@.take(k as int).push(items@[k as int]));
            lemma_enc_list_push(items@.take(k as int), items@[k as int]);
        }
        k = k + 1;
    }
    proof {
        assert(items@.take(n as int) =~= items@);
    }
}

/// Reads a field count, then that many fields.  What it returns re-encodes
/// to exactly the bytes consumed.
pub fn read_list<F: WireField>(b: &[u8], i: usize) -> (r: Option<(Vec<F>, usize)>)
    ensures
        r matches Some((items, j)) ==> {
            &&& dec_u64(b@, i as int) == Some((items@.len() as u64, i + 8))
            &&& list_parse_end::<F>(b@, i + 8, items@.len() as nat) == Some(j as int)
            &&& enc_u64(items@.len() as u64) + enc_list(items@) == b@.subrange(i as int, j as int)
            &&& forall|k: int| 0 <= k < items@.len() ==> (#[trigger] items@[k]).wf()
            &&& items@.len() <= u64::MAX
            &&& i <= j <= b@.len()
        },
        r is None ==> match dec_u64(b@, i as int) {
            Some((n, j0)) => list_parse_end::<F>(b@, j0, n as nat) is None,
            None => true,
        },
{
    match read_u64(b, i) {
        Some((n, j0)) => {
            let mut items: Vec<F> = Vec::new();
            let mut cur: usize = j0;
            let mut k: u64 = 0;
            proof {
                assert(b@.subrange(j0 as int, j0 as int) =~= Seq::<u8>::empty());
                assert(enc_list(items@) =~= Seq::<u8>::empty());
            }
            while k < n
                invariant
                    k <= n,
                    k == items@.len(),
                    dec_u64(b@, i as int) == Some((n, j0 as int)),
                    i + 8 == j0 <= cur <= b@.len(),
                    enc_list(items@) == b@.subrange(j0 as int, cur as int),
                    forall|m: int| 0 <= m < items@.len() ==> (#[trigger] items@[m]).wf(),
                    match list_parse_end::<F>(b@, cur as int, (n - k) as nat) {
                        Some(e) => list_parse_end::<F>(b@, j0 as int, n as nat) == Some(e),
                        None => list_parse_end::<F>(b@, j0 as int, n as nat) is None,
                    },
                decreases n - k,
            {
                match F::read_at(b, cur) {
                    Some((x, j)) => {
                        proof {
                            lemma_enc_list_push(items@, x);
                            assert(b@.subrange(j0 as int, cur as int) + b@.subrange(
                                cur as int,
                                j as int,
                            ) =~= b@.subrange(j0 as int, j as int));
                        }
                        items.push(x);
                        cur = j;
                        k = k + 1;
                    },
                    None => {
                        return None;
                    },
                }
            }
            proof {
                assert(enc_u64(n) == b@.subrange(i as int, j0 as int)) by {
                    lemma_enc_u64_of_dec(b@, i as int, n, j0 as int);
                }
                assert(enc_u64(n) + enc_list(items@) =~= b@.subrange(i as int, cur as int));
            }
            Some((items, cur))
        },
        None => None,
    }
}

/// Establishes that a vector's length fits the wire's count field, which
/// holds of any vector in memory.
pub fn note_vec_len<T>(v: &Vec<T>)
    ensures
        v@.len() <= usize::MAX,
{
    let _n: usize = v.len();
}

/// The encoding of one header field followed by a counted field list.
pub open spec fn enc_record<H: WireField, F: WireField>(h: H, s: Seq<F>) -> Seq<u8> {
    h.enc_spec() + enc_u64(s.len() as u64) + enc_list(s)
}

/// Decodes a whole buffer as one header field followed by a counted field
/// list.  It succeeds on exactly the encodings of well-formed values, and
/// what it returns re-encodes to the input.
pub fn decode_record<H: WireField, F: WireField>(b: &[u8]) -> (r: Option<(H, Vec<F>)>)
    ensures
        r matches Some((h, items)) ==> {
            &&& h.wf()
            &&& forall|k: int| 0 <= k < items@.len() ==> (#[trigger] items@[k]).wf()
            &&& enc_record(h, items@) == b@
        },
        forall|h: H, s: Seq<F>|
            {
                &&& h.wf()
                &&& (forall|k: int| 0 <= k < s.len() ==> (#[trigger] s[k]).wf())
                &&& s.len() <= u64::MAX
                &&& b@ == enc_record(h, s)
            } ==> r is Some,
{
    proof {
        lemma_auto_spec_u64_to_from_le_bytes();
    }
    match H::read_at(b, 0) {
        Some((h, j)) => {
            match read_list::<F>(b, j) {
                Some((items, j2)) => {
                    if j2 == b.len() {
                        proof {
                            assert(enc_record(h, items@) =~= b@.subrange(0, j as int)
                                + b@.subrange(j as int, j2 as int));
                            assert(b@.subrange(0, j as int) + b@.subrange(j as int, j2 as int)
                                =~= b@);
                        }
                        Some((h, items))
                    } else {
                        proof {
                            assert forall|h2: H, s: Seq<F>|
                                {
                                    &&& h2.wf()
                                    &&& (forall|k: int|
                                        0 <= k < s.len() ==> (#[trigger] s[k]).wf())
                                    &&& s.len() <= u64::MAX
                                    &&& b@ == enc_record(h2, s)
                                } implies false by {
                                lemma_record_parse(b@, h2, s);
                            }
                        }
                        None
                    }
                },
                None => {
                    proof {
                        assert forall|h2: H, s: Seq<F>|
                            {
                                &&& h2.wf()
                                &&& (forall|k: int| 0 <= k < s.len() ==> (#[trigger] s[k]).wf())
                                &&& s.len() <= u64::MAX
                                &&& b@ == enc_record(h2, s)
                            } implies false by {
                            lemma_record_parse(b@, h2, s);
                        }
                    }
                    None
                },
            }
        },
        None => {
            proof {
                assert forall|h2: H, s: Seq<F>|
                    {
                        &&& h2.wf()
                        &&& (forall|k: int| 0 <= k < s.len() ==> (#[trigger] s[k]).wf())
                        &&& s.len() <= u64::MAX
                        &&& b@ == enc_record(h2, s)
                    } implies false by {
                    lemma_record_parse(b@, h2, s);
                }
            }
            None
        },
    }
}

/// A record's encoding identifies it: equal encodings mean the headers
/// agree and the fields agree pairwise.
pub proof fn lemma_enc_record_injective<H: WireField, F: WireField>(
    h1: H,
    s1: Seq<F>,
    h2: H,
    s2: Seq<F>,
)
    requires
        h1.wf(),
        h2.wf(),
        forall|k: int| 0 <= k < s1.len() ==> (#[trigger] s1[k]).wf(),
        forall|k: int| 0 <= k < s2.len() ==> (#[trigger] s2[k]).wf(),
        s1.len() <= u64::MAX,
        s2.len() <= u64::MAX,
        enc_record(h1, s1) == enc_record(h2, s2),
    ensures
        h1.eq_spec(h2),
        s1.len() == s2.len(),
        forall|k: int| 0 <= k < s1.len() ==> (#[trigger] s1[k]).eq_spec(s2[k]),
{
    lemma_auto_spec_u64_to_from_le_bytes();
    let b = enc_record(h1, s1);
    lemma_record_parse(b, h1, s1);
    lemma_record_parse(b, h2, s2);
    let l1 = h1.enc_spec().len() as int;
    let l2 = h2.enc_spec().len() as int;
    assert(l1 == l2);
    assert(h1.enc_spec() =~= b.subrange(0, l1));
    assert(h2.enc_spec() =~= b.subrange(0, l2));
    H::lemma_enc_injective(h1, h2);
    assert(s1.len() as u64 == s2.len() as u64);
    assert(enc_list(s1) =~= b.subrange(l1 + 8, b.len() as int));
    assert(enc_list(s2) =~= b.subrange(l2 + 8, b.len() as int));
    lemma_enc_list_injective::<F>(s1, s2);
}

/// How an encoding of a header and a counted list parses: the header ends
/// at its own length, the count is the list's length, and the fields end
/// exactly at the end of the buffer.
pub proof fn lemma_record_parse<H: WireField, F: WireField>(b: Seq<u8>, h: H, s: Seq<F>)
    requires
        h.wf(),
        forall|k: int| 0 <= k < s.len() ==> (#[trigger] s[k]).wf(),
        s.len() <= u64::MAX,
        b == enc_record(h, s),
    ensures
        H::parse_end(b, 0) == Some(h.enc_spec().len() as int),
        dec_u64(b, h.enc_spec().len() as int) == Some(
            (s.len() as u64, h.enc_spec().len() as int + 8),
        ),
        list_parse_end::<F>(b, h.enc_spec().len() as int + 8, s.len()) == Some(b.len() as int),
{
    vstd::bytes::lemma_auto_spec_u64_to_from_le_bytes();
    let hl = h.enc_spec().len() as int;
    assert(b.subrange(0, hl) =~= h.enc_spec());
    H::lemma_parse_end_enc(b, 0, h);
    assert(b.subrange(hl, hl + 8) =~= enc_u64(s.len() as u64));
    lemma_dec_u64_at(b, hl, s.len() as u64);
    assert(b.subrange(hl + 8, hl + 8 + enc_list(s).len()) =~= enc_list(s));
    lemma_list_parse_end_enc::<F>(b, hl + 8, s);
    assert(b.len() == hl + 8 + enc_list(s).len());
}

} // verus!
