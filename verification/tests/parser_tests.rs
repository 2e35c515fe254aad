use whisper_gateway::convert::wav_name;
use whisper_gateway::numtext::{check_float_literal, parse_bool, parse_i32, parse_u64, u64_to_dec};

#[test]
fn parse_u64_accepts_plain_and_signed_plus() {
    assert_eq!(parse_u64(b"0"), Some(0));
    assert_eq!(parse_u64(b"42"), Some(42));
    assert_eq!(parse_u64(b"+42"), Some(42));
    assert_eq!(parse_u64(b"18446744073709551615"), Some(u64::MAX));
}

#[test]
fn parse_u64_rejects_garbage_and_overflow() {
    assert_eq!(parse_u64(b""), None);
    assert_eq!(parse_u64(b"+"), None);
    assert_eq!(parse_u64(b"-1"), None);
    assert_eq!(parse_u64(b"1 2"), None);
    assert_eq!(parse_u64(b"12a"), None);
    assert_eq!(parse_u64(b"18446744073709551616"), None);
    // cross-check against the standard parser
    assert_eq!(parse_u64(b"007"), "007".parse::<u64>().ok());
    assert_eq!(parse_u64(b" 7"), " 7".parse::<u64>().ok());
}

#[test]
fn parse_i32_accepts_signs_and_range_edges() {
    assert_eq!(parse_i32(b"-2147483648"), Some(i32::MIN));
    assert_eq!(parse_i32(b"2147483647"), Some(i32::MAX));
    assert_eq!(parse_i32(b"+8"), Some(8));
    assert_eq!(parse_i32(b"-0"), Some(0));
    assert_eq!(parse_i32(b"-2147483649"), None);
    assert_eq!(parse_i32(b"2147483648"), None);
    assert_eq!(parse_i32(b"+-3"), None);
    assert_eq!(parse_i32(b""), None);
}

#[test]
fn parse_bool_is_exact() {
    assert_eq!(parse_bool(b"true"), Some(true));
    assert_eq!(parse_bool(b"false"), Some(false));
    assert_eq!(parse_bool(b"True"), None);
    assert_eq!(parse_bool(b"1"), None);
    assert_eq!(parse_bool(b""), None);
}

#[test]
fn float_literal_shapes_match_std() {
    for ok in ["0.7", "1", ".5", "5.", "1e3", "2.5E-4", "+0.1", "-3", "inf", "Infinity", "NaN"] {
        assert!(check_float_literal(ok.as_bytes()), "{}", ok);
        assert!(ok.parse::<f64>().is_ok(), "{}", ok);
    }
    for bad in ["", ".", "e3", "1e", "1.2.3", "one", "0x1", "1 "] {
        assert!(!check_float_literal(bad.as_bytes()), "{}", bad);
        assert!(bad.parse::<f64>().is_err(), "{}", bad);
    }
}

#[test]
fn decimal_rendering_is_exact() {
    assert_eq!(u64_to_dec(0), b"0".to_vec());
    assert_eq!(u64_to_dec(7), b"7".to_vec());
    assert_eq!(u64_to_dec(1080), b"1080".to_vec());
    assert_eq!(u64_to_dec(u64::MAX), b"18446744073709551615".to_vec());
}

#[test]
fn wav_name_replaces_or_appends_extension() {
    assert_eq!(wav_name(b"audio.mp3"), b"audio.wav".to_vec());
    assert_eq!(wav_name(b"a.tar.gz"), b"a.tar.wav".to_vec());
    assert_eq!(wav_name(b"noext"), b"noext.wav".to_vec());
    assert_eq!(wav_name(b".hidden"), b".hidden.wav".to_vec());
    assert_eq!(wav_name(b"trailing."), b"trailing.wav".to_vec());
}

#[test]
fn multipart_parser_reads_fields_and_file() {
    let body = b"--B\r\nContent-Disposition: form-data; name=\"model\"\r\n\r\nwhisper-1\r\n--B\r\nContent-Disposition: form-data; name=\"file\"; filename=\"t.wav\"\r\nContent-Type: audio/wav\r\n\r\nPAYLOAD\r\n--B--\r\n";
    let parts = whisper_gateway::multipart::parse_multipart(body, b"B").expect("well-formed");
    assert_eq!(parts.len(), 2);
    assert_eq!(parts[0].name, b"model".to_vec());
    assert_eq!(parts[0].filename, None);
    assert_eq!(parts[0].data, b"whisper-1".to_vec());
    assert_eq!(parts[1].name, b"file".to_vec());
    assert_eq!(parts[1].filename, Some(b"t.wav".to_vec()));
    assert_eq!(parts[1].content_type, Some(b"audio/wav".to_vec()));
    assert_eq!(parts[1].data, b"PAYLOAD".to_vec());
}

#[test]
fn multipart_parser_rejects_malformed_bodies() {
    // wrong opening boundary
    assert!(whisper_gateway::multipart::parse_multipart(b"--X\r\n", b"B").is_none());
    // part without a blank line
    assert!(
        whisper_gateway::multipart::parse_multipart(
            b"--B\r\nContent-Disposition: form-data; name=\"x\"\r\n--B--\r\n",
            b"B"
        )
        .is_none()
    );
    // header line without a colon
    assert!(
        whisper_gateway::multipart::parse_multipart(
            b"--B\r\nbroken header\r\n\r\ndata\r\n--B--\r\n",
            b"B"
        )
        .is_none()
    );
    // part whose disposition never names the field
    assert!(
        whisper_gateway::multipart::parse_multipart(
            b"--B\r\nContent-Disposition: form-data\r\n\r\ndata\r\n--B--\r\n",
            b"B"
        )
        .is_none()
    );
}

#[test]
fn wav_header_check_enforces_mono_at_engine_rate() {
    let mono16k = wav_header(1, 16000);
    let info = whisper_gateway::wav::check_canonical_audio(&mono16k, 16000).expect("canonical");
    assert_eq!(info.channels, 1);
    assert_eq!(info.sample_rate, 16000);
    let stereo = wav_header(2, 16000);
    let e = whisper_gateway::wav::check_canonical_audio(&stereo, 16000).unwrap_err();
    assert!(matches!(e.kind, whisper_gateway::response::ErrorKind::ConversionFailure));
    let wrong_rate = wav_header(1, 44100);
    assert!(whisper_gateway::wav::check_canonical_audio(&wrong_rate, 16000).is_err());
    assert!(whisper_gateway::wav::check_canonical_audio(b"not a wav", 16000).is_err());
}

fn wav_header(channels: u16, rate: u32) -> Vec<u8> {
    let mut b = Vec::new();
    b.extend_from_slice(b"RIFF");
    b.extend_from_slice(&36u32.to_le_bytes());
    b.extend_from_slice(b"WAVE");
    b.extend_from_slice(b"fmt ");
    b.extend_from_slice(&16u32.to_le_bytes());
    b.extend_from_slice(&1u16.to_le_bytes());
    b.extend_from_slice(&channels.to_le_bytes());
    b.extend_from_slice(&rate.to_le_bytes());
    b.extend_from_slice(&(rate * 2).to_le_bytes());
    b.extend_from_slice(&2u16.to_le_bytes());
    b.extend_from_slice(&16u16.to_le_bytes());
    b
}
