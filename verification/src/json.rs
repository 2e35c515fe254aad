//! A small JSON writer for the response envelope.
//!
//! Bodies are built as UTF-8 bytes.  Strings are escaped as JSON demands:
//! quote and backslash get a backslash, control bytes become `\u00XX`, and
//! every other byte passes through unchanged, which keeps valid UTF-8 valid.
use crate::numtext::dec_str;
use vstd::prelude::*;

verus! {

/// The UTF-8 bytes of a character sequence.
pub open spec fn lit_bytes(s: Seq<char>) -> Seq<u8> {
    vstd::utf8::encode_utf8(s)
}

/// The lower-case hex digit for a value below sixteen.
pub open spec fn hex_digit(n: u8) -> u8 {
    if n < 10 {
        (0x30 + n) as u8
    } else {
        (0x61 + (n - 10)) as u8
    }
}

/// The escape of one byte inside a JSON string.
pub open spec fn esc_byte(b: u8) -> Seq<u8> {
    if b == 0x22 {
        seq![0x5cu8, 0x22u8]
    } else if b == 0x5c {
        seq![0x5cu8, 0x5cu8]
    } else if b < 0x20 {
        seq![0x5cu8, 0x75u8, 0x30u8, 0x30u8, hex_digit(b / 16), hex_digit(b % 16)]
    } else {
        seq![b]
    }
}

/// The escape of a byte sequence inside a JSON string.
pub open spec fn esc(s: Seq<u8>) -> Seq<u8>
    decreases s.len(),
{
    if s.len() == 0 {
        Seq::empty()
    } else {
        esc(s.drop_last()) + esc_byte(s.last())
    }
}

/// A JSON string token: a quote, the escaped bytes, a quote.
pub open spec fn json_string(s: Seq<u8>) -> Seq<u8> {
    seq![0x22u8] + esc(s) + seq![0x22u8]
}

/// Appends the UTF-8 bytes of a literal.
pub fn push_lit(out: &mut Vec<u8>, s: &str)
    ensures
        final(out)@ == old(out)@ + lit_bytes(s@),
{
    let b = s.as_bytes();
    proof {
        assert(b@ == lit_bytes(s@));
    }
    let mut i: usize = 0;
    while i < b.len()
        invariant
            i <= b@.len(),
            out@ == old(out)@ + b@.subrange(0, i as int),
        decreases b@.len() - i,
    {
        out.push(b[i]);
        proof {
            assert(old(out)@ + b@.subrange(0, i + 1) =~= (old(out)@ + b@.subrange(0, i as int)).push(
                b@[i as int],
            ));
        }
        i = i + 1;
    }
    proof {
        assert(b@.subrange(0, b@.len() as int) =~= b@);
    }
}

/// Appends the bytes of another vector.
pub fn push_bytes(out: &mut Vec<u8>, s: &[u8])
    ensures
        final(out)@ == old(out)@ + s@,
{
    let mut i: usize = 0;
    while i < s.len()
        invariant
            i <= s@.len(),
            out@ == old(out)@ + s@.subrange(0, i as int),
        decreases s@.len() - i,
    {
        out.push(s[i]);
        proof {
            assert(old(out)@ + s@.subrange(0, i + 1) =~= (old(out)@ + s@.subrange(0, i as int)).push(
                s@[i as int],
            ));
        }
        i = i + 1;
    }
    proof {
        assert(s@.subrange(0, s@.len() as int) =~= s@);
    }
}

/// Appends a JSON string token holding the escape of `s`.
pub fn push_json_string(out: &mut Vec<u8>, s: &[u8])
    ensures
        final(out)@ == old(out)@ + json_string(s@),
{
    out.push(0x22);
    let ghost base = out@;
    let mut i: usize = 0;
    while i < s.len()
        invariant
            i <= s@.len(),
            out@ == base + esc(s@.subrange(0, i as int)),
        decreases s@.len() - i,
    {
        let c = s[i];
        let ghost pre = s@.subrange(0, i as int);
        let ghost post = s@.subrange(0, i + 1);
        proof {
            assert(post.drop_last() =~= pre);
            assert(post.last() == s@[i as int]);
            assert(esc(post) == esc(pre) + esc_byte(s@[i as int]));
        }
        if c == 0x22 {
            out.push(0x5c);
            out.push(0x22);
            proof {
                assert(out@ =~= base + esc(post));
            }
        } else if c == 0x5c {
            out.push(0x5c);
            out.push(0x5c);
            proof {
                assert(out@ =~= base + esc(post));
            }
        } else if c < 0x20 {
            out.push(0x5c);
            out.push(0x75);
            out.push(0x30);
            out.push(0x30);
            let hi = c / 16;
            let lo = c % 16;
            let dh = if hi < 10 {
                0x30 + hi
            } else {
                0x61 + (hi - 10)
            };
            let dl = if lo < 10 {
                0x30 + lo
            } else {
                0x61 + (lo - 10)
            };
            out.push(dh);
            out.push(dl);
            proof {
                assert(dh == hex_digit(s@[i as int] / 16));
                assert(dl == hex_digit(s@[i as int] % 16));
                assert(out@ =~= base + esc(post));
            }
        } else {
            out.push(c);
            proof {
                assert(out@ =~= base + esc(post));
            }
        }
        i = i + 1;
    }
    out.push(0x22);
    proof {
        assert(s@.subrange(0, s@.len() as int) =~= s@);
        assert(final(out)@ =~= old(out)@ + json_string(s@));
    }
}

/// Appends the decimal rendering of `n`.
pub fn push_u64(out: &mut Vec<u8>, n: u64)
    ensures
        final(out)@ == old(out)@ + dec_str(n as nat),
{
    let d = crate::numtext::u64_to_dec(n);
    push_bytes(out, d.as_slice());
}

/// Appends `true` or `false`.
pub fn push_bool(out: &mut Vec<u8>, b: bool)
    ensures
        final(out)@ == old(out)@ + json_bool(b),
{
    if b {
        proof {
            reveal_strlit("true");
            assert(lit_bytes(("true")@) =~= json_bool(true)) by {
                vstd::utf8::is_ascii_chars_encode_utf8(("true")@);
            }
        }
        push_lit(out, "true");
    } else {
        proof {
            reveal_strlit("false");
            assert(lit_bytes(("false")@) =~= json_bool(false)) by {
                vstd::utf8::is_ascii_chars_encode_utf8(("false")@);
            }
        }
        push_lit(out, "false");
    }
}

/// The JSON rendering of a boolean.
pub open spec fn json_bool(b: bool) -> Seq<u8> {
    if b {
        seq![0x74u8, 0x72u8, 0x75u8, 0x65u8]
    } else {
        seq![0x66u8, 0x61u8, 0x6cu8, 0x73u8, 0x65u8]
    }
}

} // verus!
