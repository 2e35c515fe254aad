use whisper_gateway::engine::{decode_engine_output, EngineSession, EngineStep};
use whisper_gateway::gate::{check_task, parse_mode, OperatingMode, Task};
use whisper_gateway::gateway::{audio_success, Gateway, GatewayRequest, HttpMethod, Outcome};
use whisper_gateway::response::ErrorKind;

fn gw(mode: Option<OperatingMode>, key: Option<&str>) -> Gateway {
    let info = whisper_gateway::gateway::server_info_for(
        mode.unwrap_or(OperatingMode::Full),
        "default",
        "0.1.0",
        "8080",
    );
    Gateway::new(
        mode,
        key.map(|k| k.to_string()),
        Some(info),
        false,
        "archives".to_string(),
    )
}

fn post_multipart(path: &str, body: &[u8]) -> GatewayRequest {
    GatewayRequest {
        method: HttpMethod::Post,
        path: path.as_bytes().to_vec(),
        authorization: None,
        content_type: Some(b"multipart/form-data; boundary=B".to_vec()),
        body: body.to_vec(),
    }
}

fn get(path: &str) -> GatewayRequest {
    GatewayRequest {
        method: HttpMethod::Get,
        path: path.as_bytes().to_vec(),
        authorization: None,
        content_type: None,
        body: Vec::new(),
    }
}

fn body_of(o: &Outcome) -> (u16, String) {
    match o {
        Outcome::Reply(r) => (r.status, String::from_utf8(r.body.clone()).unwrap()),
        _ => panic!("expected a reply"),
    }
}

const VALID_BODY: &[u8] = b"--B\r\nContent-Disposition: form-data; name=\"file\"; filename=\"clip.wav\"\r\nContent-Type: audio/wav\r\n\r\nAUDIOBYTES\r\n--B\r\nContent-Disposition: form-data; name=\"language\"\r\n\r\nen\r\n--B--\r\n";

#[test]
fn valid_transcription_reaches_engine_and_archives_one_file() {
    let mut g = gw(Some(OperatingMode::Full), None);
    let o = whisper_gateway::gateway::handle(&mut g, post_multipart("/v1/audio/transcriptions", VALID_BODY));
    let job = match o {
        Outcome::Engine(job) => job,
        _ => panic!("expected an engine job"),
    };
    assert!(matches!(job.task, Task::Transcribe));
    assert_eq!(g.archive.len(), 1);
    let files = g.archive.list();
    assert_eq!(files.len(), 1);
    assert_eq!(files[0].bytes, b"AUDIOBYTES".len() as u64);
    assert_eq!(files[0].filename, "clip.wav");
    assert!(files[0].id.starts_with("file_"));
    assert_eq!(files[0].id.len(), "file_".len() + 36);
    assert!(files[0].created_at > 1_000_000_000);
    let file = job.request.file.as_ref().unwrap();
    assert_eq!(file.id, files[0].id);
    assert_eq!(file.bytes, files[0].bytes);
    assert_eq!(job.request.payload, b"AUDIOBYTES".to_vec());
    assert_eq!(job.request.language.as_deref(), Some("en"));

    // run the engine walk with a recording double and finish the request
    let mut session = job.session;
    let mut log: Vec<EngineStep> = Vec::new();
    while let Some(step) = session.next_step() {
        log.push(step);
        session.report(true);
    }
    assert_eq!(log, vec![EngineStep::SetInput, EngineStep::Compute, EngineStep::GetOutput]);
    let buffer = b"hello world".to_vec();
    let text = decode_engine_output(&buffer, buffer.len()).unwrap();
    assert!(!text.is_empty());
    let resp = audio_success(&text);
    assert_eq!(resp.status, 200);
    assert_eq!(String::from_utf8(resp.body).unwrap(), "{\"text\":\"hello world\"}");
}

#[test]
fn missing_file_field_is_bad_request_and_archive_unchanged() {
    let mut g = gw(Some(OperatingMode::Full), None);
    let body = b"--B\r\nContent-Disposition: form-data; name=\"language\"\r\n\r\nen\r\n--B--\r\n";
    let o = whisper_gateway::gateway::handle(&mut g, post_multipart("/v1/audio/transcriptions", body));
    let (status, text) = body_of(&o);
    assert_eq!(status, 400);
    assert!(text.contains("\"kind\":\"bad_request\""));
    assert_eq!(g.archive.len(), 0);
}

#[test]
fn unknown_field_aborts_before_any_engine_step() {
    let mut g = gw(Some(OperatingMode::Full), None);
    let body = b"--B\r\nContent-Disposition: form-data; name=\"surprise\"\r\n\r\nx\r\n--B--\r\n";
    let o = whisper_gateway::gateway::handle(&mut g, post_multipart("/v1/audio/transcriptions", body));
    assert!(matches!(o, Outcome::Reply(_)), "a field-name error never yields an engine job");
    let (status, text) = body_of(&o);
    assert_eq!(status, 400);
    assert!(text.contains("\"kind\":\"bad_request\""));
    assert!(text.contains("Invalid field name: surprise"), "the error names the offending field");
    assert_eq!(g.archive.len(), 0);
}

#[test]
fn normalizer_derives_the_artifact_name_and_path() {
    let info = whisper_gateway::gateway::server_info_for(OperatingMode::Full, "default", "0.1.0", "8080");
    let mut g = Gateway::new(
        Some(OperatingMode::Full),
        None,
        Some(info),
        true,
        "archives".to_string(),
    );
    let body = b"--B\r\nContent-Disposition: form-data; name=\"file\"; filename=\"clip.mp3\"\r\n\r\nAUDIO\r\n--B--\r\n";
    let o = whisper_gateway::gateway::handle(&mut g, post_multipart("/v1/audio/transcriptions", body));
    let job = match o {
        Outcome::Engine(job) => job,
        _ => panic!("expected an engine job"),
    };
    let file = job.request.file.as_ref().unwrap();
    // the derived WAV name replaces the client-supplied one
    assert_eq!(file.filename, "clip.wav");
    assert_eq!(job.artifact_path, format!("archives/{}/clip.wav", file.id));
    let listed = g.archive.list();
    assert_eq!(listed[0].filename, "clip.wav");
    assert_eq!(listed[0].bytes, 5);
}

#[test]
fn traversal_filenames_are_rejected_without_any_write() {
    for name in ["../../x.wav", "a/b.wav", "a\\b.wav", ".."] {
        let mut g = gw(Some(OperatingMode::Full), None);
        let body = format!(
            "--B\r\nContent-Disposition: form-data; name=\"file\"; filename=\"{}\"\r\n\r\nAB\r\n--B--\r\n",
            name
        );
        let o = whisper_gateway::gateway::handle(
            &mut g,
            post_multipart("/v1/audio/transcriptions", body.as_bytes()),
        );
        let (status, text) = body_of(&o);
        assert_eq!(status, 400, "{}", name);
        assert!(text.contains("\"kind\":\"bad_request\""), "{}", name);
        assert_eq!(g.archive.len(), 0, "{}", name);
    }
}

#[test]
fn scalar_failure_before_a_file_part_is_bad_request() {
    let mut g = gw(Some(OperatingMode::Full), None);
    let body = b"--B\r\nContent-Disposition: form-data; name=\"duration\"\r\n\r\nlong\r\n--B\r\nContent-Disposition: form-data; name=\"file\"; filename=\"a.wav\"\r\n\r\nAB\r\n--B--\r\n";
    let o = whisper_gateway::gateway::handle(&mut g, post_multipart("/v1/audio/transcriptions", body));
    let (status, text) = body_of(&o);
    assert_eq!(status, 400);
    assert!(text.contains("\"kind\":\"bad_request\""));
    assert_eq!(g.archive.len(), 0, "nothing archived before the failing field");
}

#[test]
fn deleting_a_nonexistent_id_twice_reports_false_both_times() {
    let mut g = gw(Some(OperatingMode::Full), None);
    let req = || GatewayRequest {
        method: HttpMethod::Delete,
        path: b"/v1/files/file_missing".to_vec(),
        authorization: None,
        content_type: None,
        body: Vec::new(),
    };
    for _ in 0..2 {
        let o = whisper_gateway::gateway::handle(&mut g, req());
        let (status, text) = body_of(&o);
        assert_eq!(status, 200);
        assert_eq!(text, "{\"id\":\"file_missing\",\"object\":\"file\",\"deleted\":false}");
    }
    assert_eq!(g.archive.len(), 0);
}

#[test]
fn two_engine_sessions_never_interleave_their_steps() {
    // the engine lock admits one session at a time; the recorded trace of
    // two sessions is two contiguous canonical blocks
    let mut log: Vec<(u8, EngineStep)> = Vec::new();
    let mut first = EngineSession::new(true);
    while let Some(step) = first.next_step() {
        log.push((1, step));
        first.report(true);
    }
    let mut second = EngineSession::new(false);
    while let Some(step) = second.next_step() {
        log.push((2, step));
        second.report(true);
    }
    assert_eq!(
        log,
        vec![
            (1, EngineStep::RebuildContext),
            (1, EngineStep::SetInput),
            (1, EngineStep::Compute),
            (1, EngineStep::GetOutput),
            (2, EngineStep::SetInput),
            (2, EngineStep::Compute),
            (2, EngineStep::GetOutput),
        ],
    );
}

#[test]
fn transcribe_only_mode_rejects_translation_without_side_effects() {
    let mut g = gw(Some(OperatingMode::TranscribeOnly), None);
    let o = whisper_gateway::gateway::handle(&mut g, post_multipart("/v1/audio/translations", VALID_BODY));
    assert!(matches!(o, Outcome::Reply(_)), "a gated request never yields an engine job");
    let (status, text) = body_of(&o);
    assert_eq!(status, 403);
    assert!(text.contains("\"kind\":\"task_not_enabled\""));
    assert!(text.contains("--task full"));
    assert_eq!(g.archive.len(), 0, "zero file persistence under a disabled task");
}

#[test]
fn unset_mode_fails_closed_before_any_persistence() {
    let mut g = gw(None, None);
    let o = whisper_gateway::gateway::handle(&mut g, post_multipart("/v1/audio/transcriptions", VALID_BODY));
    let (status, text) = body_of(&o);
    assert_eq!(status, 503);
    assert!(text.contains("\"kind\":\"not_ready\""));
    assert_eq!(g.archive.len(), 0);
}

#[test]
fn create_then_list_then_delete_round_trip() {
    let mut g = gw(Some(OperatingMode::Full), None);
    let o = whisper_gateway::gateway::handle(&mut g, post_multipart("/v1/audio/transcriptions", VALID_BODY));
    assert!(matches!(o, Outcome::Engine(_)));
    let created = g.archive.list();
    assert_eq!(created.len(), 1);

    let o = whisper_gateway::gateway::handle(&mut g, get("/v1/files"));
    let (status, text) = body_of(&o);
    assert_eq!(status, 200);
    let parsed: serde_json::Value = serde_json::from_str(&text).unwrap();
    assert_eq!(parsed["object"], "list");
    assert_eq!(parsed["data"].as_array().unwrap().len(), 1);
    assert_eq!(parsed["data"][0]["id"], created[0].id.as_str());
    assert_eq!(parsed["data"][0]["filename"], "clip.wav");
    assert_eq!(parsed["data"][0]["bytes"], b"AUDIOBYTES".len() as u64);
    assert_eq!(parsed["data"][0]["created_at"], created[0].created_at);
    assert_eq!(parsed["data"][0]["object"], "file");
    assert_eq!(parsed["data"][0]["purpose"], "assistants");

    let mut path = b"/v1/files/".to_vec();
    path.extend_from_slice(created[0].id.as_bytes());
    let o = whisper_gateway::gateway::handle(
        &mut g,
        GatewayRequest {
            method: HttpMethod::Delete,
            path,
            authorization: None,
            content_type: None,
            body: Vec::new(),
        },
    );
    let (status, text) = body_of(&o);
    assert_eq!(status, 200);
    assert!(text.contains("\"deleted\":true"));

    let o = whisper_gateway::gateway::handle(&mut g, get("/v1/files"));
    let (_, text) = body_of(&o);
    assert_eq!(text, "{\"object\":\"list\",\"data\":[]}");
}

#[test]
fn wrong_api_key_is_unauthorized() {
    let mut g = gw(Some(OperatingMode::Full), Some("correct-key"));
    let mut req = get("/v1/files");
    req.authorization = Some(b"Bearer wrong".to_vec());
    let o = whisper_gateway::gateway::handle(&mut g, req);
    let (status, text) = body_of(&o);
    assert_eq!(status, 401);
    assert!(text.contains("\"kind\":\"unauthorized\""));
}

#[test]
fn matching_api_key_and_empty_header_pass() {
    let mut g = gw(Some(OperatingMode::Full), Some("correct-key"));
    let mut req = get("/v1/files");
    req.authorization = Some(b"Bearer correct-key".to_vec());
    let o = whisper_gateway::gateway::handle(&mut g, req);
    assert_eq!(body_of(&o).0, 200);
    let mut req = get("/v1/files");
    req.authorization = Some(Vec::new());
    let o = whisper_gateway::gateway::handle(&mut g, req);
    assert_eq!(body_of(&o).0, 200, "an empty header is no auth attempt");
}

#[test]
fn echo_info_models_and_unknown_routes() {
    let mut g = gw(Some(OperatingMode::Full), None);
    let o = whisper_gateway::gateway::handle(&mut g, get("/echo"));
    let (status, text) = body_of(&o);
    assert_eq!((status, text.as_str()), (200, "echo test"));

    let o = whisper_gateway::gateway::handle(&mut g, get("/v1/info"));
    let (status, text) = body_of(&o);
    assert_eq!(status, 200);
    let parsed: serde_json::Value = serde_json::from_str(&text).unwrap();
    assert_eq!(parsed["type"], "whisper");
    assert_eq!(parsed["port"], "8080");
    assert_eq!(parsed["transcribe_model"]["name"], "default");
    assert_eq!(parsed["transcribe_model"]["type"], "transcribe");
    assert_eq!(parsed["translate_model"]["type"], "translate");

    let o = whisper_gateway::gateway::handle(&mut g, get("/v1/models"));
    let (status, text) = body_of(&o);
    assert_eq!(status, 200);
    let parsed: serde_json::Value = serde_json::from_str(&text).unwrap();
    assert_eq!(parsed["object"], "list");
    assert_eq!(parsed["data"].as_array().unwrap().len(), 2);

    let o = whisper_gateway::gateway::handle(&mut g, get("/nowhere"));
    assert_eq!(body_of(&o).0, 400);
}

#[test]
fn options_preflight_returns_empty_body() {
    let mut g = gw(Some(OperatingMode::Full), None);
    for path in ["/v1/audio/transcriptions", "/v1/audio/translations", "/v1/audio/speech", "/v1/files"] {
        let req = GatewayRequest {
            method: HttpMethod::Options,
            path: path.as_bytes().to_vec(),
            authorization: None,
            content_type: None,
            body: Vec::new(),
        };
        let (status, text) = body_of(&whisper_gateway::gateway::handle(&mut g, req));
        assert_eq!((status, text.as_str()), (200, ""), "{}", path);
    }
}

#[test]
fn strict_field_parsing_rejects_bad_values() {
    for (name, value) in [
        ("temperature", "warm"),
        ("detect_language", "yes"),
        ("offset_time", "-1"),
        ("duration", "1.5"),
        ("max_context", "many"),
        ("max_len", "18446744073709551616"),
        ("split_on_word", "TRUE"),
        ("use_new_context", "0"),
    ] {
        let mut g = gw(Some(OperatingMode::Full), None);
        let body = format!(
            "--B\r\nContent-Disposition: form-data; name=\"{}\"\r\n\r\n{}\r\n--B--\r\n",
            name, value
        );
        let o = whisper_gateway::gateway::handle(
            &mut g,
            post_multipart("/v1/audio/transcriptions", body.as_bytes()),
        );
        let (status, _) = body_of(&o);
        assert_eq!(status, 400, "{}={}", name, value);
        assert_eq!(g.archive.len(), 0);
    }
}

#[test]
fn decoded_fields_land_in_the_request() {
    let mut g = gw(Some(OperatingMode::Full), None);
    let body = b"--B\r\nContent-Disposition: form-data; name=\"file\"; filename=\"a.ogg\"\r\n\r\nAB\r\n--B\r\nContent-Disposition: form-data; name=\"temperature\"\r\n\r\n 0.7 \r\n--B\r\nContent-Disposition: form-data; name=\"detect_language\"\r\n\r\ntrue\r\n--B\r\nContent-Disposition: form-data; name=\"language\"\r\n\r\nde\r\n--B\r\nContent-Disposition: form-data; name=\"offset_time\"\r\n\r\n5\r\n--B\r\nContent-Disposition: form-data; name=\"max_context\"\r\n\r\n-3\r\n--B\r\nContent-Disposition: form-data; name=\"use_new_context\"\r\n\r\ntrue\r\n--B--\r\n";
    let o = whisper_gateway::gateway::handle(&mut g, post_multipart("/v1/audio/translations", body));
    let job = match o {
        Outcome::Engine(job) => job,
        _ => panic!("expected an engine job"),
    };
    assert!(matches!(job.task, Task::Translate));
    assert_eq!(job.request.temperature.as_deref(), Some(" 0.7 "));
    assert_eq!(job.request.detect_language, Some(true));
    // detect_language=true forces language="auto", overriding the explicit value
    assert_eq!(job.request.language.as_deref(), Some("auto"));
    assert_eq!(job.request.offset_time, Some(5));
    assert_eq!(job.request.max_context, Some(-3));
    assert!(job.request.use_new_context);
    assert!(job.session.use_new_context);
    // the raw upload kept its name: the normalizer was disabled
    assert_eq!(job.request.file.unwrap().filename, "a.ogg");
}

#[test]
fn engine_failures_are_reported_as_engine_errors() {
    let mut session = EngineSession::new(false);
    assert_eq!(session.next_step(), Some(EngineStep::SetInput));
    session.report(false);
    assert!(session.next_step().is_none());
    let e = session.failure();
    assert!(matches!(e.kind, ErrorKind::EngineFailure));
    let resp = e.encode();
    assert_eq!(resp.status, 500);
    assert!(String::from_utf8(resp.body).unwrap().contains("\"kind\":\"engine_failure\""));
}

#[test]
fn engine_output_beyond_capacity_or_non_utf8_fails_decoding() {
    let buffer = vec![0x61u8; 8];
    let e = decode_engine_output(&buffer, 9).unwrap_err();
    assert!(matches!(e.kind, ErrorKind::EngineFailure));
    let bad = vec![0xffu8, 0xfe];
    let e = decode_engine_output(&bad, 2).unwrap_err();
    assert!(matches!(e.kind, ErrorKind::EngineFailure));
    let ok = decode_engine_output(&buffer, 4).unwrap();
    assert_eq!(ok, "aaaa");
}

#[test]
fn mode_parsing_and_gating() {
    assert_eq!(parse_mode("transcribe"), Some(OperatingMode::TranscribeOnly));
    assert_eq!(parse_mode("translate"), Some(OperatingMode::TranslateOnly));
    assert_eq!(parse_mode("full"), Some(OperatingMode::Full));
    assert_eq!(parse_mode("everything"), None);
    assert!(check_task(Some(OperatingMode::Full), Task::Translate).is_none());
    assert!(check_task(Some(OperatingMode::TranscribeOnly), Task::Transcribe).is_none());
    let e = check_task(Some(OperatingMode::TranslateOnly), Task::Transcribe).unwrap();
    assert!(matches!(e.kind, ErrorKind::TaskNotEnabled));
    let e = check_task(None, Task::Transcribe).unwrap();
    assert!(matches!(e.kind, ErrorKind::NotReady));
}

#[test]
fn json_escaping_survives_a_round_trip() {
    let tricky = "a\"b\\c\nd\te\u{1}f";
    let resp = audio_success(tricky);
    let text = String::from_utf8(resp.body).unwrap();
    let parsed: serde_json::Value = serde_json::from_str(&text).unwrap();
    assert_eq!(parsed["text"], tricky);
}

#[test]
fn missing_boundary_or_malformed_body_is_bad_request() {
    let mut g = gw(Some(OperatingMode::Full), None);
    let mut req = post_multipart("/v1/audio/transcriptions", VALID_BODY);
    req.content_type = Some(b"multipart/form-data".to_vec());
    let (status, _) = body_of(&whisper_gateway::gateway::handle(&mut g, req));
    assert_eq!(status, 400);
    let (status, _) = body_of(&whisper_gateway::gateway::handle(
        &mut g,
        post_multipart("/v1/audio/transcriptions", b"--WRONG\r\n"),
    ));
    assert_eq!(status, 400);
    assert_eq!(g.archive.len(), 0);
}
