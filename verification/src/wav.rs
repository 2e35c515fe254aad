//! The canonical-audio check.
//!
//! Whatever the normalizer wrote must be single-channel audio at the
//! engine's sample rate before it reaches the engine; audio that is not
//! fails the request with a recoverable error instead of degrading
//! quality or aborting.  The check reads the RIFF/WAVE header: the file
//! must open with `RIFF`, carry the `WAVE` form type, and hold a `fmt `
//! chunk whose channel count and sample rate are inspected.
use crate::json::lit_bytes;
use crate::response::{ErrorKind, ErrorResponse};
use vstd::prelude::*;

verus! {

/// The channel count and sample rate of a WAV header.
#[derive(Clone, Copy, Debug, PartialEq, Eq, Structural)]
pub struct WavInfo {
    pub channels: u16,
    pub sample_rate: u32,
}

/// A 16-bit little-endian value read at `at`.
pub open spec fn le16_at(b: Seq<u8>, at: int) -> u16 {
    (b[at] + b[at + 1] * 0x100) as u16
}

/// A 32-bit little-endian value read at `at`.
pub open spec fn le32_at(b: Seq<u8>, at: int) -> u32 {
    (b[at] + b[at + 1] * 0x100 + b[at + 2] * 0x10000 + b[at + 3] * 0x1000000) as u32
}

/// The `fmt ` chunk found scanning the chunk list from `pos`: the
/// position of its data, if the chunk is there.
pub open spec fn find_fmt(b: Seq<u8>, pos: int) -> Option<int>
    decreases b.len() - pos + 8,
{
    if pos < 0 || pos + 8 > b.len() {
        None
    } else {
        let size = le32_at(b, pos + 4);
        if b.subrange(pos, pos + 4) == lit_bytes(("fmt ")@) {
            Some(pos + 8)
        } else if pos + 8 + size + (size % 2) <= b.len() {
            find_fmt(b, pos + 8 + size + (size % 2))
        } else {
            None
        }
    }
}

/// The format fields of a RIFF/WAVE byte stream, when the stream has
/// them: a `RIFF` opener, a `WAVE` form type, and a `fmt ` chunk long
/// enough to carry the channel count and sample rate.
pub open spec fn wav_info_of(b: Seq<u8>) -> Option<WavInfo> {
    if b.len() < 12 {
        None
    } else if b.subrange(0, 4) != lit_bytes(("RIFF")@) {
        None
    } else if b.subrange(8, 12) != lit_bytes(("WAVE")@) {
        None
    } else {
        match find_fmt(b, 12) {
            None => None,
            Some(d) => if d + 8 <= b.len() {
                Some(WavInfo { channels: le16_at(b, d + 2), sample_rate: le32_at(b, d + 4) })
            } else {
                None
            },
        }
    }
}

/// Reads a 16-bit little-endian value.
fn le16(b: &[u8], at: usize) -> (r: u16)
    requires
        at + 2 <= b@.len(),
    ensures
        r == le16_at(b@, at as int),
{
    b[at] as u16 + b[at + 1] as u16 * 0x100
}

/// Reads a 32-bit little-endian value.
fn le32(b: &[u8], at: usize) -> (r: u32)
    requires
        at + 4 <= b@.len(),
    ensures
        r == le32_at(b@, at as int),
{
    b[at] as u32 + b[at + 1] as u32 * 0x100 + b[at + 2] as u32 * 0x10000 + b[at + 3] as u32
        * 0x1000000
}

/// Scans the chunk list for the `fmt ` chunk.
fn scan_fmt(b: &[u8]) -> (r: Option<usize>)
    ensures
        match r {
            Some(d) => find_fmt(b@, 12) == Some(d as int),
            None => find_fmt(b@, 12) is None,
        },
{
    let mut pos: usize = 12;
    let blen = b.len();
    if blen < 8 {
        return None;
    }
    let key = "fmt ".as_bytes();
    proof {
        reveal_strlit("fmt ");
        vstd::utf8::is_ascii_chars_encode_utf8(("fmt ")@);
        assert(key@.len() == 4);
    }
    while pos <= blen - 8
        invariant
            12 <= pos,
            blen == b@.len(),
            8 <= blen <= usize::MAX,
            key@ == lit_bytes(("fmt ")@),
            key@.len() == 4,
            find_fmt(b@, 12) == find_fmt(b@, pos as int),
        decreases b@.len() - pos,
    {
        let size = le32(b, pos + 4);
        if crate::bytes::matches_at(b, key, pos) {
            proof {
                assert(b@.subrange(pos as int, pos + 4) == lit_bytes(("fmt ")@));
            }
            return Some(pos + 8);
        }
        proof {
            assert(b@.subrange(pos as int, pos + 4) != lit_bytes(("fmt ")@)) by {
                assert(!crate::bytes::match_at(b@, key@, pos as int));
            }
        }
        let room = (blen - pos - 8) as u64;
        let padded = size as u64 + (size as u64 % 2);
        if padded > room {
            return None;
        }
        pos = pos + 8 + padded as usize;
    }
    None
}

/// Reads the channel count and sample rate of a WAV byte stream.
pub fn wav_info(b: &[u8]) -> (r: Option<WavInfo>)
    ensures
        r == wav_info_of(b@),
{
    if b.len() < 12 {
        return None;
    }
    let riff = "RIFF".as_bytes();
    proof {
        reveal_strlit("RIFF");
        vstd::utf8::is_ascii_chars_encode_utf8(("RIFF")@);
        assert(riff@.len() == 4);
    }
    if !crate::bytes::matches_at(b, riff, 0) {
        proof {
            assert(b@.subrange(0, 4) != lit_bytes(("RIFF")@)) by {
                assert(!crate::bytes::match_at(b@, riff@, 0));
            }
        }
        return None;
    }
    proof {
        assert(b@.subrange(0, 4) == lit_bytes(("RIFF")@));
    }
    let wave = "WAVE".as_bytes();
    proof {
        reveal_strlit("WAVE");
        vstd::utf8::is_ascii_chars_encode_utf8(("WAVE")@);
        assert(wave@.len() == 4);
    }
    if !crate::bytes::matches_at(b, wave, 8) {
        proof {
            assert(b@.subrange(8, 12) != lit_bytes(("WAVE")@)) by {
                assert(!crate::bytes::match_at(b@, wave@, 8));
            }
        }
        return None;
    }
    proof {
        assert(b@.subrange(8, 12) == lit_bytes(("WAVE")@));
    }
    match scan_fmt(b) {
        None => None,
        Some(d) => {
            if d <= usize::MAX - 8 && d + 8 <= b.len() {
                Some(WavInfo { channels: le16(b, d + 2), sample_rate: le32(b, d + 4) })
            } else {
                None
            }
        },
    }
}

/// Checks the canonical-audio invariant: single-channel at the engine's
/// sample rate.  Anything else, including bytes that are not a readable
/// WAV header, is a conversion failure for this request.
pub fn check_canonical_audio(b: &[u8], sample_rate: u32) -> (r: Result<WavInfo, ErrorResponse>)
    ensures
        match r {
            Ok(info) => wav_info_of(b@) == Some(info) && info.channels == 1 && info.sample_rate
                == sample_rate,
            Err(e) => e.kind == ErrorKind::ConversionFailure && (match wav_info_of(b@) {
                Some(info) => info.channels != 1 || info.sample_rate != sample_rate,
                None => true,
            }),
        },
{
    match wav_info(b) {
        None => Err(
            ErrorResponse::new(
                ErrorKind::ConversionFailure,
                "The converted audio is not a readable WAV stream.",
            ),
        ),
        Some(info) => {
            if info.channels == 1 && info.sample_rate == sample_rate {
                Ok(info)
            } else {
                Err(
                    ErrorResponse::new(
                        ErrorKind::ConversionFailure,
                        "The audio fed to the engine must be single-channel at the engine sample rate.",
                    ),
                )
            }
        },
    }
}

} // verus!
