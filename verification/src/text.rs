//! Verified comparisons on strings, by way of their UTF-8 bytes.

use vstd::prelude::*;

verus! {

use vstd::string::StringSliceAdditionalSpecFns;

/// True when `x` is lexicographically at most `y`, byte by byte, a shorter
/// prefix coming first.  This is the order `str` has in ordinary Rust.
pub open spec fn lex_le(x: Seq<u8>, y: Seq<u8>) -> bool
    decreases x.len(),
{
    if x.len() == 0 {
        true
    } else if y.len() == 0 {
        false
    } else if x[0] < y[0] {
        true
    } else if x[0] > y[0] {
        false
    } else {
        lex_le(x.drop_first(), y.drop_first())
    }
}

/// The lexicographic order is total.
pub proof fn lemma_lex_le_total(x: Seq<u8>, y: Seq<u8>)
    ensures
        lex_le(x, y) || lex_le(y, x),
    decreases x.len(),
{
    if x.len() != 0 && y.len() != 0 && x[0] == y[0] {
        lemma_lex_le_total(x.drop_first(), y.drop_first());
    }
}

/// The character for one decimal digit.
pub open spec fn digit_char(d: u8) -> char {
    if d == 0 {
        '0'
    } else if d == 1 {
        '1'
    } else if d == 2 {
        '2'
    } else if d == 3 {
        '3'
    } else if d == 4 {
        '4'
    } else if d == 5 {
        '5'
    } else if d == 6 {
        '6'
    } else if d == 7 {
        '7'
    } else if d == 8 {
        '8'
    } else {
        '9'
    }
}

/// The decimal rendering of a number: its digits, most significant first,
/// with no leading zeroes except for zero itself.
pub open spec fn decimal_of(n: nat) -> Seq<char>
    decreases n,
{
    if n < 10 {
        seq![digit_char(n as u8)]
    } else {
        decimal_of(n / 10) + seq![digit_char((n % 10) as u8)]
    }
}

/// The characters of a digit list read back to front: how digits
/// collected least-significant-first are emitted.
spec fn rev_digit_chars(ds: Seq<u8>) -> Seq<char>
    decreases ds.len(),
{
    if ds.len() == 0 {
        Seq::empty()
    } else {
        rev_digit_chars(ds.drop_first()) + seq![digit_char(ds[0])]
    }
}

/// Collecting one more digit prepends its character to the emission.
proof fn lemma_rev_digit_chars_push(ds: Seq<u8>, d: u8)
    ensures
        rev_digit_chars(ds.push(d)) == seq![digit_char(d)] + rev_digit_chars(ds),
    decreases ds.len(),
{
    let u = ds.push(d);
    if ds.len() == 0 {
        assert(u.drop_first() =~= Seq::<u8>::empty());
        assert(u[0] == d);
        assert(rev_digit_chars(u) == rev_digit_chars(u.drop_first()) + seq![digit_char(u[0])]);
        assert(ds =~= Seq::<u8>::empty());
        assert(rev_digit_chars(u) =~= seq![digit_char(d)] + rev_digit_chars(ds));
    } else {
        assert(u.drop_first() =~= ds.drop_first().push(d));
        lemma_rev_digit_chars_push(ds.drop_first(), d);
        assert(u[0] == ds[0]);
        assert(rev_digit_chars(u) == rev_digit_chars(u.drop_first()) + seq![digit_char(u[0])]);
        assert(rev_digit_chars(ds) == rev_digit_chars(ds.drop_first()) + seq![digit_char(ds[0])]);
        assert(rev_digit_chars(u) =~= seq![digit_char(d)] + rev_digit_chars(ds));
    }
}

/// Appends one decimal digit's character.
fn append_digit(s: &mut String, d: u8)
    requires
        d < 10,
    ensures
        final(s)@ == old(s)@ + seq![digit_char(d)],
{
    proof {
        reveal_strlit("0");
        reveal_strlit("1");
        reveal_strlit("2");
        reveal_strlit("3");
        reveal_strlit("4");
        reveal_strlit("5");
        reveal_strlit("6");
        reveal_strlit("7");
        reveal_strlit("8");
        reveal_strlit("9");
    }
    if d == 0 {
        s.append("0");
        proof {
            assert(final(s)@ =~= old(s)@ + seq![digit_char(d)]);
        }
    } else if d == 1 {
        s.append("1");
        proof {
            assert(final(s)@ =~= old(s)@ + seq![digit_char(d)]);
        }
    } else if d == 2 {
        s.append("2");
        proof {
            assert(final(s)@ =~= old(s)@ + seq![digit_char(d)]);
        }
    } else if d == 3 {
        s.append("3");
        proof {
            assert(final(s)@ =~= old(s)@ + seq![digit_char(d)]);
        }
    } else if d == 4 {
        s.append("4");
        proof {
            assert(final(s)@ =~= old(s)@ + seq![digit_char(d)]);
        }
    } else if d == 5 {
        s.append("5");
        proof {
            assert(final(s)@ =~= old(s)@ + seq![digit_char(d)]);
        }
    } else if d == 6 {
        s.append("6");
        proof {
            assert(final(s)@ =~= old(s)@ + seq![digit_char(d)]);
        }
    } else if d == 7 {
        s.append("7");
        proof {
            assert(final(s)@ =~= old(s)@ + seq![digit_char(d)]);
        }
    } else if d == 8 {
        s.append("8");
        proof {
            assert(final(s)@ =~= old(s)@ + seq![digit_char(d)]);
        }
    } else {
        s.append("9");
        proof {
            assert(final(s)@ =~= old(s)@ + seq![digit_char(d)]);
        }
    }
}

/// Renders a number in decimal, exactly as `decimal_of` describes it.
pub fn u128_to_decimal(x: u128) -> (r: String)
    ensures
        r@ == decimal_of(x as nat),
{
    let mut out = String::new();
    if x == 0 {
        append_digit(&mut out, 0);
        proof {
            assert(out@ =~= decimal_of(0));
        }
        return out;
    }
    let mut digits: Vec<u8> = Vec::new();
    let mut v: u128 = x;
    proof {
        assert(decimal_of(x as nat) + rev_digit_chars(digits@) =~= decimal_of(x as nat));
    }
    while v > 0
        invariant
            v > 0 ==> decimal_of(x as nat) == decimal_of(v as nat) + rev_digit_chars(digits@),
            v == 0 ==> decimal_of(x as nat) == rev_digit_chars(digits@),
            forall|m: int| 0 <= m < digits@.len() ==> digits@[m] < 10,
        decreases v,
    {
        let d = (v % 10) as u8;
        let ghost pre = digits@;
        digits.push(d);
        proof {
            lemma_rev_digit_chars_push(pre, d);
            if v >= 10 {
                assert(decimal_of(v as nat) == decimal_of((v as nat) / 10) + seq![
                    digit_char(((v as nat) % 10) as u8),
                ]);
                assert(decimal_of(v as nat) + rev_digit_chars(pre) =~= decimal_of(
                    (v as nat) / 10,
                ) + rev_digit_chars(digits@));
            } else {
                assert(decimal_of(v as nat) =~= seq![digit_char(d)]);
                assert(decimal_of(v as nat) + rev_digit_chars(pre) =~= rev_digit_chars(digits@));
            }
        }
        v = v / 10;
    }
    let mut i: usize = digits.len();
    proof {
        assert(digits@.skip(i as int) =~= Seq::<u8>::empty());
    }
    while i > 0
        invariant
            i <= digits@.len(),
            out@ == rev_digit_chars(digits@.skip(i as int)),
            decimal_of(x as nat) == rev_digit_chars(digits@),
            forall|m: int| 0 <= m < digits@.len() ==> digits@[m] < 10,
        decreases i,
    {
        i = i - 1;
        append_digit(&mut out, digits[i]);
        proof {
            assert(digits@.skip(i as int).drop_first() =~= digits@.skip(i as int + 1));
            assert(digits@.skip(i as int)[0] == digits@[i as int]);
            assert(rev_digit_chars(digits@.skip(i as int)) == rev_digit_chars(
                digits@.skip(i as int + 1),
            ) + seq![digit_char(digits@[i as int])]);
        }
    }
    proof {
        assert(digits@.skip(0) =~= digits@);
    }
    out
}

/// Establishes that a string's UTF-8 length fits the wire's length field,
/// which holds of any string in memory.
pub fn note_str_len(s: &str)
    ensures
        s.spec_bytes().len() <= u64::MAX,
{
    let _n: usize = s.as_bytes().len();
}

/// Whether two strings hold the same characters.
pub fn str_eq(a: &str, b: &str) -> (r: bool)
    ensures
        r == (a@ == b@),
{
    let ab = a.as_bytes();
    let bb = b.as_bytes();
    if ab.len() != bb.len() {
        return false;
    }
    let n = ab.len();
    let mut k: usize = 0;
    while k < n
        invariant
            ab@ == a.spec_bytes(),
            bb@ == b.spec_bytes(),
            ab@.len() == n,
            bb@.len() == n,
            k <= n,
            forall|m: int| 0 <= m < k ==> ab@[m] == bb@[m],
        decreases n - k,
    {
        if ab[k] != bb[k] {
            assert(ab@ != bb@);
            return false;
        }
        k = k + 1;
    }
    proof {
        assert(ab@ =~= bb@);
        vstd::utf8::encode_utf8_decode_utf8(a@);
        vstd::utf8::encode_utf8_decode_utf8(b@);
    }
    true
}

/// Whether `a` comes at or before `b` in lexicographic byte order.
pub fn str_le(a: &str, b: &str) -> (r: bool)
    ensures
        r == lex_le(a.spec_bytes(), b.spec_bytes()),
{
    let ab = a.as_bytes();
    let bb = b.as_bytes();
    proof {
        assert(ab@.skip(0) =~= ab@);
        assert(bb@.skip(0) =~= bb@);
    }
    let mut k: usize = 0;
    while k < ab.len() && k < bb.len()
        invariant
            ab@ == a.spec_bytes(),
            bb@ == b.spec_bytes(),
            k <= ab@.len(),
            k <= bb@.len(),
            lex_le(ab@, bb@) == lex_le(ab@.skip(k as int), bb@.skip(k as int)),
        decreases ab@.len() - k,
    {
        let xa = ab[k];
        let xb = bb[k];
        if xa < xb {
            return true;
        }
        if xa > xb {
            return false;
        }
        proof {
            assert(ab@.skip(k as int).drop_first() =~= ab@.skip(k + 1));
            assert(bb@.skip(k as int).drop_first() =~= bb@.skip(k + 1));
        }
        k = k + 1;
    }
    ab.len() <= bb.len()
}

} // verus!
