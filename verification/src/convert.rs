//! The audio normalizer boundary.
//!
//! Uploaded audio is converted into the canonical container the engine
//! requires: a WAV file at the engine's sample rate, written under the
//! archive directory.  The derived artifact name keeps the upload's stem
//! and carries the fixed `.wav` extension; the persisted name replaces
//! the client-supplied one.  The conversion itself is an outside
//! collaborator that runs at the embedding boundary, like the engine: the
//! library derives the artifact name and path and takes the conversion
//! outcome back as an event, so no unwinding codec ever runs under
//! verified code.
use vstd::prelude::*;

verus! {

/// The sample rate the inference engine requires, in Hz.
pub const ENGINE_SAMPLE_RATE: u32 = 16000;

/// The position of the last occurrence of `b` in `s`, if any.
pub open spec fn last_byte(s: Seq<u8>, b: u8) -> Option<int>
    decreases s.len(),
{
    if s.len() == 0 {
        None
    } else if s.last() == b {
        Some(s.len() - 1)
    } else {
        last_byte(s.drop_last(), b)
    }
}

/// The derived artifact name: the stem of `f` with the extension replaced
/// by `wav`, or `.wav` appended when `f` has no extension.  A leading dot
/// alone does not count as an extension separator.
pub open spec fn wav_name_bytes(f: Seq<u8>) -> Seq<u8> {
    match last_byte(f, 0x2e) {
        Some(d) => if d > 0 {
            f.subrange(0, d) + crate::json::lit_bytes((".wav")@)
        } else {
            f + crate::json::lit_bytes((".wav")@)
        },
        None => f + crate::json::lit_bytes((".wav")@),
    }
}

/// Finds the last occurrence of `b` in `s`.
pub fn find_last_byte(s: &[u8], b: u8) -> (r: Option<usize>)
    ensures
        match r {
            Some(i) => i < s@.len() && last_byte(s@, b) == Some(i as int),
            None => last_byte(s@, b) is None,
        },
{
    let mut i: usize = s.len();
    proof {
        assert(s@.subrange(0, s@.len() as int) =~= s@);
    }
    while i > 0
        invariant
            i <= s@.len(),
            last_byte(s@, b) == last_byte(s@.subrange(0, i as int), b),
        decreases i,
    {
        i = i - 1;
        proof {
            let cur = s@.subrange(0, i + 1);
            assert(cur.last() == s@[i as int]);
            assert(cur.drop_last() =~= s@.subrange(0, i as int));
        }
        if s[i] == b {
            return Some(i);
        }
    }
    proof {
        assert(s@.subrange(0, 0) =~= Seq::<u8>::empty());
    }
    None
}

/// Derives the artifact name of an upload.
pub fn wav_name(f: &[u8]) -> (r: Vec<u8>)
    ensures
        r@ == wav_name_bytes(f@),
{
    let mut out: Vec<u8>;
    match find_last_byte(f, 0x2e) {
        Some(d) if d > 0 => {
            out = crate::bytes::sub_bytes(f, 0, d);
        },
        _ => {
            out = crate::bytes::sub_bytes(f, 0, f.len());
            proof {
                assert(out@ =~= f@);
            }
        },
    }
    crate::json::push_lit(&mut out, ".wav");
    out
}

/// Relies on String::from_utf8, which its documentation pins down: the
/// call succeeds exactly when the bytes are valid UTF-8, and then returns
/// the string those bytes encode.
#[verifier::external_body]
pub fn string_from_utf8(v: Vec<u8>) -> (r: Option<String>)
    ensures
        r is Some <==> vstd::utf8::valid_utf8(v@),
        r matches Some(s) ==> s@ == vstd::utf8::decode_utf8(v@),
{
    match String::from_utf8(v) {
        Ok(s) => Some(s),
        Err(_) => None,
    }
}

/// The path an artifact lives at: an isolated directory per id under the
/// archive root.  Generated ids hold no path separators by construction,
/// and the decoder rejects stored names that hold one or name the parent
/// directory, so the store's writes stay confined to the root.
pub open spec fn artifact_path_chars(dir: Seq<char>, id: Seq<char>, name: Seq<char>) -> Seq<
    char,
> {
    dir + ("/")@ + id + ("/")@ + name
}

/// Builds the artifact path of an archived upload.
pub fn artifact_path(dir: &str, id: &str, name: &str) -> (r: String)
    ensures
        r@ == artifact_path_chars(dir@, id@, name@),
{
    let mut p = String::from_str(dir);
    p.append("/");
    p.append(id);
    p.append("/");
    p.append(name);
    p
}

} // verus!
