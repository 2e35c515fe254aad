//! Strict text-to-value parsing for the request fields, and decimal
//! rendering for the response encoder.
//!
//! The accepted grammars follow the standard library's `FromStr`
//! implementations: unsigned numbers take an optional leading `+`, signed
//! numbers an optional `+` or `-`, booleans are exactly `true` or `false`,
//! and floating-point text follows the grammar documented for `f64`.
use crate::bytes::{is_digit, lower_seq};
use vstd::prelude::*;

verus! {

/// The value of a digit sequence read in base ten.
pub open spec fn dec_val(s: Seq<u8>) -> nat
    decreases s.len(),
{
    if s.len() == 0 {
        0
    } else {
        (dec_val(s.drop_last()) * 10 + (s.last() - 0x30)) as nat
    }
}

/// True when every byte of `s` is an ASCII digit.
pub open spec fn all_digits(s: Seq<u8>) -> bool {
    forall|i: int| 0 <= i < s.len() ==> is_digit(#[trigger] s[i])
}

/// The digit part of an unsigned literal: the text with one leading `+`
/// removed, if one is there.
pub open spec fn unsigned_digits(s: Seq<u8>) -> Seq<u8> {
    if s.len() > 0 && s[0] == 0x2b {
        s.drop_first()
    } else {
        s
    }
}

/// The digit part of a signed literal: the text with one leading `+` or
/// `-` removed, if one is there.
pub open spec fn signed_digits(s: Seq<u8>) -> Seq<u8> {
    if s.len() > 0 && (s[0] == 0x2b || s[0] == 0x2d) {
        s.drop_first()
    } else {
        s
    }
}

/// True when `s` is an unsigned decimal literal as `u64::from_str` accepts
/// it: an optional `+`, then one or more digits.
pub open spec fn is_u64_literal_shape(s: Seq<u8>) -> bool {
    let d = unsigned_digits(s);
    d.len() > 0 && all_digits(d)
}

/// The numeric value of an unsigned decimal literal.
pub open spec fn u64_literal_val(s: Seq<u8>) -> nat {
    dec_val(unsigned_digits(s))
}

/// Appending a digit multiplies the value by ten and adds the digit.
proof fn lemma_dec_val_push(s: Seq<u8>, c: u8)
    requires
        is_digit(c),
    ensures
        dec_val(s.push(c)) == dec_val(s) * 10 + (c - 0x30),
{
    assert(s.push(c).drop_last() =~= s);
    assert(s.push(c).last() == c);
}

/// The value of a digit sequence is monotone in its prefixes.
proof fn lemma_dec_val_prefix_le(s: Seq<u8>, n: int)
    requires
        0 <= n <= s.len(),
        all_digits(s),
    ensures
        dec_val(s.subrange(0, n)) <= dec_val(s),
    decreases s.len() - n,
{
    if n == s.len() {
        assert(s.subrange(0, n) =~= s);
    } else {
        let p = s.subrange(0, n);
        let q = s.subrange(0, n + 1);
        assert(q.drop_last() =~= p);
        assert(is_digit(q.last()));
        assert(dec_val(q) == dec_val(p) * 10 + (q.last() - 0x30));
        assert(dec_val(p) <= dec_val(p) * 10) by (nonlinear_arith);
        lemma_dec_val_prefix_le(s, n + 1);
    }
}

/// Parses an unsigned 64-bit decimal literal, exactly as `u64::from_str`
/// would: `Some` on an optional `+` followed by digits whose value fits,
/// `None` on anything else.
pub fn parse_u64(s: &[u8]) -> (r: Option<u64>)
    ensures
        match r {
            Some(n) => is_u64_literal_shape(s@) && u64_literal_val(s@) == n,
            None => !is_u64_literal_shape(s@) || u64_literal_val(s@) > u64::MAX,
        },
{
    let start: usize = if s.len() > 0 && s[0] == 0x2b {
        1
    } else {
        0
    };
    let ghost d = unsigned_digits(s@);
    proof {
        if start == 1 {
            assert(d =~= s@.subrange(1, s@.len() as int));
        } else {
            assert(d =~= s@);
        }
    }
    if start >= s.len() {
        proof {
            assert(d.len() == 0);
        }
        return None;
    }
    let mut val: u64 = 0;
    let mut i: usize = start;
    while i < s.len()
        invariant
            start <= i <= s@.len(),
            s@.len() <= usize::MAX,
            start == 1 ==> d =~= s@.subrange(1, s@.len() as int),
            start == 0 ==> d =~= s@,
            d == unsigned_digits(s@),
            start <= 1,
            all_digits(d.subrange(0, i - start)),
            val == dec_val(d.subrange(0, i - start)),
        decreases s@.len() - i,
    {
        let c = s[i];
        if !(0x30 <= c && c <= 0x39) {
            proof {
                assert(d[i - start] == s@[i as int]);
                assert(!is_digit(d[i - start]));
                assert(!all_digits(d));
            }
            return None;
        }
        let digit = (c - 0x30) as u64;
        let ghost pre = d.subrange(0, i - start);
        let ghost post = d.subrange(0, i + 1 - start);
        proof {
            assert(post =~= pre.push(c));
            lemma_dec_val_push(pre, c);
        }
        if val > (u64::MAX - digit) / 10 {
            proof {
                assert(dec_val(post) == dec_val(pre) * 10 + digit);
                assert(dec_val(pre) * 10 + digit > u64::MAX) by (nonlinear_arith)
                    requires
                        dec_val(pre) == val,
                        val > (u64::MAX - digit) / 10,
                        digit <= 9,
                ;
                assert(all_digits(post)) by {
                    assert forall|j: int| 0 <= j < post.len() implies is_digit(
                        #[trigger] post[j],
                    ) by {
                        if j < i - start {
                            assert(post[j] == pre[j]);
                            assert(is_digit(pre[j]));
                        } else {
                            assert(post[j] == c);
                        }
                    }
                }
                if all_digits(d) {
                    lemma_dec_val_prefix_le(d, i + 1 - start);
                    assert(u64_literal_val(s@) >= dec_val(post));
                }
            }
            return None;
        }
        proof {
            assert(val * 10 + digit <= u64::MAX) by (nonlinear_arith)
                requires
                    val <= (u64::MAX - digit) / 10,
                    digit <= 9,
            ;
        }
        val = val * 10 + digit;
        proof {
            assert(all_digits(post)) by {
                assert forall|j: int| 0 <= j < post.len() implies is_digit(#[trigger] post[j]) by {
                    if j < i - start {
                        assert(post[j] == pre[j]);
                        assert(is_digit(pre[j]));
                    } else {
                        assert(post[j] == c);
                    }
                }
            }
        }
        i = i + 1;
    }
    proof {
        assert(d.subrange(0, d.len() as int) =~= d);
    }
    Some(val)
}

/// True when `s` is a signed decimal literal as `i64::from_str` accepts
/// it: an optional `+` or `-`, then one or more digits.
pub open spec fn is_int_literal_shape(s: Seq<u8>) -> bool {
    let d = signed_digits(s);
    d.len() > 0 && all_digits(d)
}

/// True when the literal begins with a minus sign.
pub open spec fn is_negative_literal(s: Seq<u8>) -> bool {
    s.len() > 0 && s[0] == 0x2d
}

/// The magnitude of a signed decimal literal.
pub open spec fn int_literal_mag(s: Seq<u8>) -> nat {
    dec_val(signed_digits(s))
}

/// The value of a signed decimal literal.
pub open spec fn int_literal_val(s: Seq<u8>) -> int {
    if is_negative_literal(s) {
        -(int_literal_mag(s) as int)
    } else {
        int_literal_mag(s) as int
    }
}

/// Parses a signed 32-bit decimal literal, exactly as `i32::from_str`
/// would: `Some` on an optional sign followed by digits whose value is in
/// range, `None` on anything else.
pub fn parse_i32(s: &[u8]) -> (r: Option<i32>)
    ensures
        match r {
            Some(n) => is_int_literal_shape(s@) && int_literal_val(s@) == n,
            None => !is_int_literal_shape(s@) || int_literal_val(s@) < i32::MIN
                || int_literal_val(s@) > i32::MAX,
        },
{
    let negative = s.len() > 0 && s[0] == 0x2d;
    let rest: Vec<u8> = if s.len() > 0 && (s[0] == 0x2b || s[0] == 0x2d) {
        crate::bytes::sub_bytes(s, 1, s.len())
    } else {
        crate::bytes::sub_bytes(s, 0, s.len())
    };
    let ghost d = signed_digits(s@);
    proof {
        if s@.len() > 0 && (s@[0] == 0x2b || s@[0] == 0x2d) {
            assert(rest@ =~= d);
        } else {
            assert(rest@ =~= s@);
            assert(d =~= s@);
        }
    }
    // rest must be pure digits; reuse the u64 parser on the digit part.
    if rest.len() == 0 {
        return None;
    }
    if rest[0] == 0x2b {
        proof {
            assert(!is_digit(d[0]));
        }
        return None;
    }
    let mag = match parse_u64(rest.as_slice()) {
        Some(m) => m,
        None => {
            proof {
                if is_int_literal_shape(s@) {
                    assert(is_u64_literal_shape(rest@)) by {
                        assert(unsigned_digits(rest@) =~= rest@);
                    }
                    assert(u64_literal_val(rest@) == dec_val(d)) by {
                        assert(unsigned_digits(rest@) =~= rest@);
                    }
                    assert(int_literal_mag(s@) > u64::MAX);
                    assert(int_literal_val(s@) < i32::MIN || int_literal_val(s@) > i32::MAX);
                }
            }
            return None;
        },
    };
    proof {
        assert(unsigned_digits(rest@) =~= rest@);
        assert(dec_val(d) == mag);
    }
    if negative {
        if mag > 0x8000_0000u64 {
            return None;
        }
        if mag == 0x8000_0000u64 {
            return Some(i32::MIN);
        }
        Some(-(mag as i32))
    } else {
        if mag > 0x7fff_ffffu64 {
            return None;
        }
        Some(mag as i32)
    }
}

/// True when `s` is a boolean literal as `bool::from_str` accepts it.
pub open spec fn is_true_literal(s: Seq<u8>) -> bool {
    s =~= seq![0x74u8, 0x72u8, 0x75u8, 0x65u8]
}

/// The bytes of the word `false`.
pub open spec fn is_false_literal(s: Seq<u8>) -> bool {
    s =~= seq![0x66u8, 0x61u8, 0x6cu8, 0x73u8, 0x65u8]
}

/// Parses a boolean literal, exactly as `bool::from_str` would: only the
/// exact words `true` and `false` are accepted.
pub fn parse_bool(s: &[u8]) -> (r: Option<bool>)
    ensures
        match r {
            Some(b) => b == is_true_literal(s@) && (b || is_false_literal(s@)),
            None => !is_true_literal(s@) && !is_false_literal(s@),
        },
{
    let t: [u8; 4] = [0x74, 0x72, 0x75, 0x65];
    let f: [u8; 5] = [0x66, 0x61, 0x6c, 0x73, 0x65];
    if crate::bytes::bytes_eq(s, t.as_slice()) {
        proof {
            assert(t@ =~= seq![0x74u8, 0x72u8, 0x75u8, 0x65u8]);
        }
        Some(true)
    } else if crate::bytes::bytes_eq(s, f.as_slice()) {
        proof {
            assert(f@ =~= seq![0x66u8, 0x61u8, 0x6cu8, 0x73u8, 0x65u8]);
            assert(!is_true_literal(s@)) by {
                assert(s@.len() == 5);
            }
        }
        Some(false)
    } else {
        proof {
            assert(t@ =~= seq![0x74u8, 0x72u8, 0x75u8, 0x65u8]);
            assert(f@ =~= seq![0x66u8, 0x61u8, 0x6cu8, 0x73u8, 0x65u8]);
            if is_true_literal(s@) {
                assert(s@ == t@);
            }
            if is_false_literal(s@) {
                assert(s@ == f@);
            }
        }
        None
    }
}

/// The first position at or after `from` whose byte is `a` or `b`.
pub open spec fn first_byte2(s: Seq<u8>, from: int, a: u8, b: u8) -> Option<int>
    decreases s.len() - from + 1,
{
    if from < 0 || from >= s.len() {
        None
    } else if s[from] == a || s[from] == b {
        Some(from)
    } else {
        first_byte2(s, from + 1, a, b)
    }
}

/// Finds the first occurrence of either byte.
pub fn find_byte2(s: &[u8], a: u8, b: u8) -> (r: Option<usize>)
    ensures
        match r {
            Some(i) => first_byte2(s@, 0, a, b) == Some(i as int),
            None => first_byte2(s@, 0, a, b) is None,
        },
{
    let mut i: usize = 0;
    while i < s.len()
        invariant
            i <= s@.len(),
            first_byte2(s@, 0, a, b) == first_byte2(s@, i as int, a, b),
        decreases s@.len() - i,
    {
        let c = s[i];
        if c == a || c == b {
            return Some(i);
        }
        assert(first_byte2(s@, i as int, a, b) == first_byte2(s@, i + 1, a, b));
        i = i + 1;
    }
    None
}

/// Every position before a `first_byte2` hit, and every position when there
/// is none, holds neither byte.
pub proof fn lemma_first_byte2(s: Seq<u8>, from: int, a: u8, b: u8)
    requires
        0 <= from,
    ensures
        match first_byte2(s, from, a, b) {
            Some(i) => {
                &&& from <= i < s.len()
                &&& (s[i] == a || s[i] == b)
                &&& forall|j: int| from <= j < i ==> s[j] != a && s[j] != b
            },
            None => forall|j: int| from <= j < s.len() ==> s[j] != a && s[j] != b,
        },
    decreases s.len() - from + 1,
{
    if from >= s.len() {
    } else if s[from] == a || s[from] == b {
    } else {
        lemma_first_byte2(s, from + 1, a, b);
    }
}

/// The lower-cased bytes of the word `inf`.
pub open spec fn inf_word() -> Seq<u8> {
    seq![0x69u8, 0x6eu8, 0x66u8]
}

/// The lower-cased bytes of the word `infinity`.
pub open spec fn infinity_word() -> Seq<u8> {
    seq![0x69u8, 0x6eu8, 0x66u8, 0x69u8, 0x6eu8, 0x69u8, 0x74u8, 0x79u8]
}

/// The lower-cased bytes of the word `nan`.
pub open spec fn nan_word() -> Seq<u8> {
    seq![0x6eu8, 0x61u8, 0x6eu8]
}

/// The mantissa shapes `f64::from_str` documents: digits, digits `.` digits,
/// or digits `.` digits with one side possibly empty but not both.
pub open spec fn is_mantissa(m: Seq<u8>) -> bool {
    match first_byte2(m, 0, 0x2e, 0x2e) {
        None => m.len() > 0 && all_digits(m),
        Some(j) => {
            let before = m.subrange(0, j);
            let after = m.subrange(j + 1, m.len() as int);
            all_digits(before) && all_digits(after) && (before.len() > 0 || after.len() > 0)
        },
    }
}

/// The exponent part after `e` or `E`: an optional sign, then digits.
pub open spec fn is_exponent(t: Seq<u8>) -> bool {
    let u = signed_digits(t);
    u.len() > 0 && all_digits(u)
}

/// The number shapes of `f64::from_str`: a mantissa with an optional
/// exponent split at the first `e` or `E`.
pub open spec fn is_number_shape(b: Seq<u8>) -> bool {
    match first_byte2(b, 0, 0x65, 0x45) {
        None => is_mantissa(b),
        Some(i) => is_mantissa(b.subrange(0, i)) && is_exponent(
            b.subrange(i + 1, b.len() as int),
        ),
    }
}

/// True when `s` is a floating-point literal as `f64::from_str` accepts
/// it: an optional sign, then `inf`, `infinity` or `nan` in any ASCII
/// case, or a decimal number with an optional exponent.
pub open spec fn is_float_literal(s: Seq<u8>) -> bool {
    let b = signed_digits(s);
    ||| lower_seq(b) == inf_word()
    ||| lower_seq(b) == infinity_word()
    ||| lower_seq(b) == nan_word()
    ||| is_number_shape(b)
}

/// Whether every byte of `s` is an ASCII digit.
pub fn all_digits_check(s: &[u8]) -> (r: bool)
    ensures
        r == all_digits(s@),
{
    let mut i: usize = 0;
    while i < s.len()
        invariant
            i <= s@.len(),
            forall|j: int| 0 <= j < i ==> is_digit(#[trigger] s@[j]),
        decreases s@.len() - i,
    {
        let c = s[i];
        if !(0x30 <= c && c <= 0x39) {
            return false;
        }
        i = i + 1;
    }
    true
}

/// Whether `t` is an optional sign followed by one or more digits.
fn check_signed_digits(t: &[u8]) -> (r: bool)
    ensures
        r == (signed_digits(t@).len() > 0 && all_digits(signed_digits(t@))),
{
    let u: Vec<u8> = if t.len() > 0 && (t[0] == 0x2b || t[0] == 0x2d) {
        crate::bytes::sub_bytes(t, 1, t.len())
    } else {
        crate::bytes::sub_bytes(t, 0, t.len())
    };
    proof {
        if t@.len() > 0 && (t@[0] == 0x2b || t@[0] == 0x2d) {
            assert(u@ =~= signed_digits(t@));
        } else {
            assert(u@ =~= t@);
            assert(u@ =~= signed_digits(t@));
        }
    }
    u.len() > 0 && all_digits_check(u.as_slice())
}

/// Whether `m` is a mantissa.
fn check_mantissa(m: &[u8]) -> (r: bool)
    ensures
        r == is_mantissa(m@),
{
    match find_byte2(m, 0x2e, 0x2e) {
        None => m.len() > 0 && all_digits_check(m),
        Some(j) => {
            let mlen = m.len();
            proof {
                lemma_first_byte2(m@, 0, 0x2e, 0x2e);
            }
            let before = crate::bytes::sub_bytes(m, 0, j);
            let after = crate::bytes::sub_bytes(m, j + 1, mlen);
            let db = all_digits_check(before.as_slice());
            let da = all_digits_check(after.as_slice());
            db && da && (before.len() > 0 || after.len() > 0)
        },
    }
}

/// Whether `s` is a floating-point literal in the grammar documented for
/// `f64::from_str`.  Only the shape is checked; the value is left to the
/// caller that finally feeds it to the engine.
pub fn check_float_literal(s: &[u8]) -> (r: bool)
    ensures
        r == is_float_literal(s@),
{
    let b: Vec<u8> = if s.len() > 0 && (s[0] == 0x2b || s[0] == 0x2d) {
        crate::bytes::sub_bytes(s, 1, s.len())
    } else {
        crate::bytes::sub_bytes(s, 0, s.len())
    };
    proof {
        if s@.len() > 0 && (s@[0] == 0x2b || s@[0] == 0x2d) {
            assert(b@ =~= signed_digits(s@));
        } else {
            assert(b@ =~= s@);
            assert(b@ =~= signed_digits(s@));
        }
    }
    let inf: [u8; 3] = [0x69, 0x6e, 0x66];
    let infinity: [u8; 8] = [0x69, 0x6e, 0x66, 0x69, 0x6e, 0x69, 0x74, 0x79];
    let nan: [u8; 3] = [0x6e, 0x61, 0x6e];
    proof {
        assert(lower_seq(inf@) =~= inf_word());
        assert(lower_seq(infinity@) =~= infinity_word());
        assert(lower_seq(nan@) =~= nan_word());
    }
    if crate::bytes::bytes_eq_ignore_case(b.as_slice(), inf.as_slice()) {
        return true;
    }
    if crate::bytes::bytes_eq_ignore_case(b.as_slice(), infinity.as_slice()) {
        return true;
    }
    if crate::bytes::bytes_eq_ignore_case(b.as_slice(), nan.as_slice()) {
        return true;
    }
    match find_byte2(b.as_slice(), 0x65, 0x45) {
        None => check_mantissa(b.as_slice()),
        Some(i) => {
            proof {
                lemma_first_byte2(b@, 0, 0x65, 0x45);
            }
            let mant = crate::bytes::sub_bytes(b.as_slice(), 0, i);
            let expo = crate::bytes::sub_bytes(b.as_slice(), i + 1, b.len());
            let cm = check_mantissa(mant.as_slice());
            let ce = check_signed_digits(expo.as_slice());
            cm && ce
        },
    }
}

/// The shortest decimal rendering of `n`, most significant digit first.
pub open spec fn dec_str(n: nat) -> Seq<u8>
    decreases n,
{
    if n < 10 {
        seq![(0x30 + n) as u8]
    } else {
        dec_str(n / 10).push((0x30 + n % 10) as u8)
    }
}

/// Renders `n` in decimal.
pub fn u64_to_dec(n: u64) -> (r: Vec<u8>)
    ensures
        r@ == dec_str(n as nat),
    decreases n,
{
    if n < 10 {
        let mut v: Vec<u8> = Vec::new();
        v.push(0x30 + n as u8);
        proof {
            assert(v@ =~= dec_str(n as nat));
        }
        v
    } else {
        let mut v = u64_to_dec(n / 10);
        v.push(0x30 + (n % 10) as u8);
        v
    }
}

} // verus!
