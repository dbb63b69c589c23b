//! Text helpers: splitting, header-name matching, decimal numbers and the
//! order of strings.

use vstd::prelude::*;
use vstd::string::StringSliceAdditionalSpecFns;
use vstd::utf8::encode_utf8;
use itertools::Itertools;

verus! {

/// The pieces of `s` between the occurrences of `sep`. A text without `sep`
/// is one piece; a separator at either end leaves an empty piece there.
pub open spec fn pieces(s: Seq<char>, sep: char) -> Seq<Seq<char>>
    decreases s.len(),
{
    if s.len() == 0 {
        seq![Seq::<char>::empty()]
    } else {
        let before = pieces(s.drop_last(), sep);
        if s.last() == sep {
            before.push(Seq::<char>::empty())
        } else {
            before.update(before.len() - 1, before.last().push(s.last()))
        }
    }
}

/// Splits `s` at every `sep`.
///
/// Trusted: the body hands the iterator of `str::split` to
/// `itertools::Itertools::collect_vec`, which gathers what the iterator
/// yields, in order. The contract claims that these are the pieces of `s`
/// between the separators, empty ones at the ends and between two adjacent
/// separators included.
#[verifier::external_body]
pub(crate) fn split_on<'a>(s: &'a str, sep: char) -> (parts: Vec<&'a str>)
    ensures
        parts@.len() == pieces(s@, sep).len(),
        forall|i: int| 0 <= i < parts@.len() ==> (#[trigger] parts@[i])@ == pieces(s@, sep)[i],
{
    s.split(sep).collect_vec()
}

/// There is always at least one piece.
pub proof fn lemma_pieces_nonempty(s: Seq<char>, sep: char)
    ensures
        pieces(s, sep).len() >= 1,
    decreases s.len(),
{
    if s.len() > 0 {
        lemma_pieces_nonempty(s.drop_last(), sep);
    }
}

/// A text is a single piece exactly when the separator does not occur in
/// it, and that piece is then the whole text.
pub proof fn lemma_pieces_single(s: Seq<char>, sep: char)
    ensures
        pieces(s, sep).len() == 1 <==> !s.contains(sep),
        !s.contains(sep) ==> pieces(s, sep)[0] == s,
    decreases s.len(),
{
    lemma_pieces_nonempty(s, sep);
    if s.len() > 0 {
        let front = s.drop_last();
        lemma_pieces_single(front, sep);
        lemma_pieces_nonempty(front, sep);
        if s.last() == sep {
            assert(s[s.len() - 1] == sep);
        } else {
            if s.contains(sep) {
                let i = choose|i: int| 0 <= i < s.len() && s[i] == sep;
                assert(front[i] == sep);
            }
            if front.contains(sep) {
                let i = choose|i: int| 0 <= i < front.len() && front[i] == sep;
                assert(s[i] == sep);
            }
            if !s.contains(sep) {
                assert(front.push(s.last()) =~= s);
            }
        }
    }
}

/// Two texts with the same UTF-8 bytes are the same text.
pub proof fn lemma_utf8_injective(a: Seq<char>, b: Seq<char>)
    requires
        encode_utf8(a) == encode_utf8(b),
    ensures
        a == b,
{
    vstd::utf8::encode_utf8_decode_utf8(a);
    vstd::utf8::encode_utf8_decode_utf8(b);
}

/// An ASCII capital letter as its small letter; any other byte as itself.
pub open spec fn fold_ascii(b: u8) -> u8 {
    if 0x41 <= b <= 0x5a {
        (b + 0x20) as u8
    } else {
        b
    }
}

/// Equal byte for byte once ASCII capitals are read as small letters.
pub open spec fn same_ignoring_ascii_case(a: Seq<u8>, b: Seq<u8>) -> bool {
    &&& a.len() == b.len()
    &&& forall|i: int| 0 <= i < a.len() ==> fold_ascii(#[trigger] a[i]) == fold_ascii(b[i])
}

/// Whether two header names are the same name: their UTF-8 bytes agree
/// once ASCII capitals are read as small letters.
pub open spec fn names_match(a: Seq<char>, b: Seq<char>) -> bool {
    same_ignoring_ascii_case(encode_utf8(a), encode_utf8(b))
}

fn to_ascii_lower(b: u8) -> (r: u8)
    ensures
        r == fold_ascii(b),
{
    if 0x41 <= b && b <= 0x5a {
        b + 0x20
    } else {
        b
    }
}

/// Compares two texts without regard to the case of ASCII letters.
pub fn eq_ignore_ascii_case(a: &str, b: &str) -> (r: bool)
    ensures
        r == names_match(a@, b@),
{
    let x = a.as_bytes();
    let y = b.as_bytes();
    if x.len() != y.len() {
        return false;
    }
    let mut i: usize = 0;
    while i < x.len()
        invariant
            i <= x.len(),
            x.len() == y.len(),
            x@ == encode_utf8(a@),
            y@ == encode_utf8(b@),
            forall|k: int| 0 <= k < i ==> fold_ascii(#[trigger] x@[k]) == fold_ascii(y@[k]),
        decreases x.len() - i,
    {
        if to_ascii_lower(x[i]) != to_ascii_lower(y[i]) {
            return false;
        }
        i = i + 1;
    }
    true
}

/// A byte that is an ASCII decimal digit.
pub open spec fn is_digit(b: u8) -> bool {
    0x30 <= b <= 0x39
}

/// Every byte is an ASCII decimal digit.
pub open spec fn all_digits(d: Seq<u8>) -> bool {
    forall|i: int| 0 <= i < d.len() ==> is_digit(#[trigger] d[i])
}

/// The number that a run of decimal digits writes.
pub open spec fn digits_value(d: Seq<u8>) -> int
    decreases d.len(),
{
    if d.len() == 0 {
        0
    } else {
        digits_value(d.drop_last()) * 10 + (d.last() - 0x30)
    }
}

/// The number written by `b`: an optional `+` or `-`, then one decimal
/// digit or more and nothing else. `None` where `b` is not of that form or
/// the number does not fit into an `i64`.
pub open spec fn decimal_i64(b: Seq<u8>) -> Option<i64> {
    let signed = b.len() > 0 && (b[0] == 0x2d || b[0] == 0x2b);
    let negative = b.len() > 0 && b[0] == 0x2d;
    let digits = if signed {
        b.skip(1)
    } else {
        b
    };
    let value = if negative {
        -digits_value(digits)
    } else {
        digits_value(digits)
    };
    if digits.len() > 0 && all_digits(digits) && i64::MIN <= value <= i64::MAX {
        Some(value as i64)
    } else {
        None
    }
}

/// The number a text writes in decimal, read from its UTF-8 bytes.
pub open spec fn text_i64(s: Seq<char>) -> Option<i64> {
    decimal_i64(encode_utf8(s))
}

/// The value of a run of digits is not negative and not below the value
/// of any of its prefixes.
pub proof fn lemma_digits_value_grows(d: Seq<u8>, k: int)
    requires
        all_digits(d),
        0 <= k <= d.len(),
    ensures
        0 <= digits_value(d.take(k)) <= digits_value(d),
    decreases d.len() - k,
{
    if k == d.len() {
        assert(d.take(k) =~= d);
        lemma_digits_value_nonnegative(d);
    } else {
        lemma_digits_value_grows(d, k + 1);
        assert(d.take(k + 1).drop_last() =~= d.take(k));
        lemma_digits_value_nonnegative(d.take(k));
    }
}

/// The value of a run of digits is not negative.
pub proof fn lemma_digits_value_nonnegative(d: Seq<u8>)
    requires
        all_digits(d),
    ensures
        0 <= digits_value(d),
    decreases d.len(),
{
    if d.len() > 0 {
        lemma_digits_value_nonnegative(d.drop_last());
    }
}

/// Reads a decimal number: an optional sign, then digits only.
pub fn parse_i64(s: &str) -> (r: Option<i64>)
    ensures
        r == text_i64(s@),
{
    let b = s.as_bytes();
    let n: usize = b.len();
    if n == 0 {
        return None;
    }
    let negative: bool = b[0] == 0x2d;
    let start: usize = if b[0] == 0x2d || b[0] == 0x2b {
        1
    } else {
        0
    };
    let ghost digits = if start == 1 {
        b@.skip(1)
    } else {
        b@
    };
    if start == n {
        return None;
    }
    let limit: u64 = if negative {
        0x8000_0000_0000_0000
    } else {
        0x7fff_ffff_ffff_ffff
    };
    let mut acc: u64 = 0;
    let mut i: usize = start;
    assert(digits.take(0) =~= Seq::<u8>::empty());
    while i < n
        invariant
            start <= i <= n,
            0 < n == b@.len(),
            b@ == encode_utf8(s@),
            negative == (b@[0] == 0x2d),
            start == (if b@[0] == 0x2d || b@[0] == 0x2b {
                1int
            } else {
                0int
            }),
            digits == (if start == 1 {
                b@.skip(1)
            } else {
                b@
            }),
            digits.len() == n - start,
            all_digits(digits.take(i - start)),
            acc == digits_value(digits.take(i - start)),
            acc <= limit,
            limit == (if negative {
                0x8000_0000_0000_0000u64
            } else {
                0x7fff_ffff_ffff_ffffu64
            }),
        decreases n - i,
    {
        let c: u8 = b[i];
        let ghost upto = digits.take(i - start + 1);
        proof {
            assert(upto.drop_last() =~= digits.take(i - start));
            assert(upto.last() == c);
        }
        if c < 0x30 || c > 0x39 {
            assert(!is_digit(digits[i - start]));
            return None;
        }
        let d: u64 = (c - 0x30) as u64;
        if acc > (limit - d) / 10 {
            proof {
                assert(digits_value(upto) > limit);
                if all_digits(digits) {
                    lemma_digits_value_grows(digits, i - start + 1);
                }
            }
            return None;
        }
        acc = acc * 10 + d;
        i = i + 1;
    }
    assert(digits.take(n - start) =~= digits);
    if negative {
        if acc == 0x8000_0000_0000_0000 {
            Some(i64::MIN)
        } else {
            Some(-(acc as i64))
        }
    } else {
        Some(acc as i64)
    }
}

/// Whether `a` stands before `b` in the order of byte strings: at the
/// first place where they differ `a` has the smaller byte, or `a` ends
/// there and `b` goes on.
pub open spec fn lex_lt(a: Seq<u8>, b: Seq<u8>) -> bool
    decreases a.len(),
{
    if b.len() == 0 {
        false
    } else if a.len() == 0 {
        true
    } else if a[0] != b[0] {
        a[0] < b[0]
    } else {
        lex_lt(a.skip(1), b.skip(1))
    }
}

/// The order of texts: that of their UTF-8 bytes.
pub open spec fn text_lt(a: Seq<char>, b: Seq<char>) -> bool {
    lex_lt(encode_utf8(a), encode_utf8(b))
}

/// No byte string stands before itself.
pub proof fn lemma_lex_irreflexive(a: Seq<u8>)
    ensures
        !lex_lt(a, a),
    decreases a.len(),
{
    if a.len() > 0 {
        lemma_lex_irreflexive(a.skip(1));
    }
}

/// The order of byte strings is transitive.
pub proof fn lemma_lex_transitive(a: Seq<u8>, b: Seq<u8>, c: Seq<u8>)
    requires
        lex_lt(a, b),
        lex_lt(b, c),
    ensures
        lex_lt(a, c),
    decreases a.len(),
{
    if a.len() > 0 && b.len() > 0 && c.len() > 0 && a[0] == b[0] && b[0] == c[0] {
        lemma_lex_transitive(a.skip(1), b.skip(1), c.skip(1));
    }
}

/// Of two different byte strings one stands before the other.
pub proof fn lemma_lex_total(a: Seq<u8>, b: Seq<u8>)
    ensures
        lex_lt(a, b) || a == b || lex_lt(b, a),
    decreases a.len(),
{
    if a.len() == 0 || b.len() == 0 {
        if a.len() == 0 && b.len() == 0 {
            assert(a =~= b);
        }
    } else if a[0] == b[0] {
        lemma_lex_total(a.skip(1), b.skip(1));
        if a.skip(1) == b.skip(1) {
            assert(a =~= seq![a[0]] + a.skip(1));
            assert(b =~= seq![b[0]] + b.skip(1));
        }
    }
}

/// The order of texts is a strict total order: no text stands before
/// itself, of two different texts exactly one stands before the other,
/// and what stands before a text stands before all that follow it.
pub proof fn lemma_text_order(a: Seq<char>, b: Seq<char>, c: Seq<char>)
    ensures
        !text_lt(a, a),
        text_lt(a, b) || a == b || text_lt(b, a),
        !(text_lt(a, b) && text_lt(b, a)),
        text_lt(a, b) && text_lt(b, c) ==> text_lt(a, c),
{
    let x = encode_utf8(a);
    let y = encode_utf8(b);
    let z = encode_utf8(c);
    lemma_lex_irreflexive(x);
    lemma_lex_total(x, y);
    if x == y {
        lemma_utf8_injective(a, b);
    }
    if lex_lt(x, y) && lex_lt(y, x) {
        lemma_lex_transitive(x, y, x);
    }
    if lex_lt(x, y) && lex_lt(y, z) {
        lemma_lex_transitive(x, y, z);
    }
}

/// Whether `a` stands before `b` in the order of texts.
pub fn str_lt(a: &str, b: &str) -> (r: bool)
    ensures
        r == text_lt(a@, b@),
{
    let x = a.as_bytes();
    let y = b.as_bytes();
    let mut i: usize = 0;
    assert(x@.skip(0) =~= x@);
    assert(y@.skip(0) =~= y@);
    loop
        invariant
            i <= x.len(),
            i <= y.len(),
            x@ == encode_utf8(a@),
            y@ == encode_utf8(b@),
            lex_lt(x@, y@) == lex_lt(x@.skip(i as int), y@.skip(i as int)),
        decreases x.len() - i,
    {
        if i == y.len() {
            return false;
        }
        if i == x.len() {
            return true;
        }
        if x[i] != y[i] {
            return x[i] < y[i];
        }
        proof {
            assert(x@.skip(i as int).skip(1) =~= x@.skip(i + 1));
            assert(y@.skip(i as int).skip(1) =~= y@.skip(i + 1));
        }
        i = i + 1;
    }
}

} // verus!
