//! The request gateway: routing, authentication, and the handler pipeline.
//!
//! A single long-lived `Gateway` value owns the committed operating mode,
//! the configured API key, the server snapshot, and the file archive.  The
//! transport layer hands each request in as plain values and sends the
//! returned reply; a request that needs the engine comes back as a
//! prepared job that the embedding runs against the engine lock and then
//! finishes here.
use crate::archive::{FileArchive, FileView, UploadedFile};
use crate::engine::EngineSession;
use crate::gate::{OperatingMode, Task};
use crate::json::{json_bool, json_string, lit_bytes, push_bool, push_json_string, push_lit, push_u64};
use crate::multipart::has_prefix;
use crate::numtext::dec_str;
use crate::request::AudioRequest;
use crate::response::{ErrorKind, ErrorResponse, HttpResponse};
use vstd::prelude::*;

verus! {

/// One configured task model of the server snapshot.
pub struct ModelConfig {
    pub name: String,
    pub ty: String,
}

/// The immutable server snapshot served under the info route.
pub struct ServerInfo {
    pub ty: String,
    pub version: String,
    pub port: String,
    pub translate_model: Option<ModelConfig>,
    pub transcribe_model: Option<ModelConfig>,
}

/// The snapshot a mode commits at startup: the mode decides which task
/// models the server advertises.
pub fn server_info_for(mode: OperatingMode, model_name: &str, version: &str, port: &str) -> (r:
    ServerInfo)
    ensures
        r.ty@ == ("whisper")@,
        r.version@ == version@,
        r.port@ == port@,
        match r.transcribe_model {
            Some(m) => m.name@ == model_name@ && m.ty@ == ("transcribe")@ && mode
                != OperatingMode::TranslateOnly,
            None => mode == OperatingMode::TranslateOnly,
        },
        match r.translate_model {
            Some(m) => m.name@ == model_name@ && m.ty@ == ("translate")@ && mode
                != OperatingMode::TranscribeOnly,
            None => mode == OperatingMode::TranscribeOnly,
        },
{
    let transcribe_model = match mode {
        OperatingMode::TranslateOnly => None,
        _ => Some(
            ModelConfig {
                name: String::from_str(model_name),
                ty: String::from_str("transcribe"),
            },
        ),
    };
    let translate_model = match mode {
        OperatingMode::TranscribeOnly => None,
        _ => Some(
            ModelConfig { name: String::from_str(model_name), ty: String::from_str("translate") },
        ),
    };
    ServerInfo {
        ty: String::from_str("whisper"),
        version: String::from_str(version),
        port: String::from_str(port),
        translate_model,
        transcribe_model,
    }
}

/// The body of a transcription or translation reply.
pub open spec fn text_body(t: Seq<u8>) -> Seq<u8> {
    lit_bytes(("{\"text\":")@) + json_string(t) + lit_bytes(("}")@)
}

/// Encodes a transcription or translation reply.
pub fn encode_text_body(text: &str) -> (r: Vec<u8>)
    ensures
        r@ == text_body(vstd::utf8::encode_utf8(text@)),
{
    let mut out: Vec<u8> = Vec::new();
    push_lit(&mut out, "{\"text\":");
    push_json_string(&mut out, text.as_bytes());
    push_lit(&mut out, "}");
    out
}

/// The JSON object of one archived file.
pub open spec fn file_object_json(f: FileView) -> Seq<u8> {
    lit_bytes(("{\"id\":")@) + json_string(vstd::utf8::encode_utf8(f.id)) + lit_bytes(
        (",\"bytes\":")@,
    ) + dec_str(f.bytes as nat) + lit_bytes((",\"created_at\":")@) + dec_str(f.created_at as nat)
        + lit_bytes((",\"filename\":")@) + json_string(vstd::utf8::encode_utf8(f.filename))
        + lit_bytes((",\"object\":\"file\",\"purpose\":\"assistants\"}")@)
}

/// Appends the JSON object of one archived file.
pub fn push_file_object(out: &mut Vec<u8>, f: &UploadedFile)
    ensures
        final(out)@ == old(out)@ + file_object_json(f@),
{
    push_lit(out, "{\"id\":");
    push_json_string(out, f.id.as_str().as_bytes());
    push_lit(out, ",\"bytes\":");
    push_u64(out, f.bytes);
    push_lit(out, ",\"created_at\":");
    push_u64(out, f.created_at);
    push_lit(out, ",\"filename\":");
    push_json_string(out, f.filename.as_str().as_bytes());
    push_lit(out, ",\"object\":\"file\",\"purpose\":\"assistants\"}");
}

/// The comma-joined JSON objects of a run of files.
pub open spec fn file_objects_json(files: Seq<FileView>) -> Seq<u8>
    decreases files.len(),
{
    if files.len() == 0 {
        Seq::empty()
    } else if files.len() == 1 {
        file_object_json(files[0])
    } else {
        file_objects_json(files.drop_last()) + lit_bytes((",")@) + file_object_json(files.last())
    }
}

/// The body of the file-list reply.
pub open spec fn list_body(files: Seq<FileView>) -> Seq<u8> {
    lit_bytes(("{\"object\":\"list\",\"data\":[")@) + file_objects_json(files) + lit_bytes(("]}")@)
}

/// Encodes the file-list reply.
pub fn encode_list_body(files: &Vec<UploadedFile>) -> (r: Vec<u8>)
    ensures
        r@ == list_body(crate::archive::views_of(files@)),
{
    let ghost views = crate::archive::views_of(files@);
    let mut out: Vec<u8> = Vec::new();
    push_lit(&mut out, "{\"object\":\"list\",\"data\":[");
    let ghost mid = out@;
    let mut i: usize = 0;
    while i < files.len()
        invariant
            i <= files@.len(),
            views == crate::archive::views_of(files@),
            out@ == mid + file_objects_json(views.subrange(0, i as int)),
        decreases files@.len() - i,
    {
        if i > 0 {
            push_lit(&mut out, ",");
        }
        push_file_object(&mut out, &files[i]);
        proof {
            let pre = views.subrange(0, i as int);
            let post = views.subrange(0, i + 1);
            assert(post.drop_last() =~= pre);
            assert(post.last() == views[i as int]);
            assert(views[i as int] == files@[i as int]@);
            if i == 0 {
                assert(file_objects_json(post) == file_object_json(views[0]));
            } else {
                assert(file_objects_json(post) == file_objects_json(pre) + lit_bytes((",")@)
                    + file_object_json(views[i as int]));
            }
        }
        i = i + 1;
    }
    proof {
        assert(views.subrange(0, views.len() as int) =~= views);
    }
    push_lit(&mut out, "]}");
    out
}

/// The body of a file-deletion reply.
pub open spec fn delete_body(id: Seq<u8>, deleted: bool) -> Seq<u8> {
    lit_bytes(("{\"id\":")@) + json_string(id) + lit_bytes((",\"object\":\"file\",\"deleted\":")@)
        + json_bool(deleted) + lit_bytes(("}")@)
}

/// Encodes a file-deletion reply.
pub fn encode_delete_body(id: &[u8], deleted: bool) -> (r: Vec<u8>)
    ensures
        r@ == delete_body(id@, deleted),
{
    let mut out: Vec<u8> = Vec::new();
    push_lit(&mut out, "{\"id\":");
    push_json_string(&mut out, id);
    push_lit(&mut out, ",\"object\":\"file\",\"deleted\":");
    push_bool(&mut out, deleted);
    push_lit(&mut out, "}");
    out
}

/// The JSON object of one configured model.
pub open spec fn model_json(name: Seq<char>, ty: Seq<char>) -> Seq<u8> {
    lit_bytes(("{\"name\":")@) + json_string(vstd::utf8::encode_utf8(name)) + lit_bytes(
        (",\"type\":")@,
    ) + json_string(vstd::utf8::encode_utf8(ty)) + lit_bytes(("}")@)
}

/// Appends the JSON object of one configured model.
fn push_model(out: &mut Vec<u8>, m: &ModelConfig)
    ensures
        final(out)@ == old(out)@ + model_json(m.name@, m.ty@),
{
    push_lit(out, "{\"name\":");
    push_json_string(out, m.name.as_str().as_bytes());
    push_lit(out, ",\"type\":");
    push_json_string(out, m.ty.as_str().as_bytes());
    push_lit(out, "}");
}

/// The optional model entry of the info body: the key and object, or
/// nothing when the mode leaves the model unconfigured.
pub open spec fn opt_model_json(key: Seq<char>, m: Option<(Seq<char>, Seq<char>)>) -> Seq<u8> {
    match m {
        Some(nt) => lit_bytes(key) + model_json(nt.0, nt.1),
        None => Seq::empty(),
    }
}

/// The view of an optional model config.
pub open spec fn opt_model_view(m: Option<ModelConfig>) -> Option<(Seq<char>, Seq<char>)> {
    match m {
        Some(c) => Some((c.name@, c.ty@)),
        None => None,
    }
}

/// The body of the info reply.
pub open spec fn info_body(info: &ServerInfo) -> Seq<u8> {
    lit_bytes(("{\"type\":")@) + json_string(vstd::utf8::encode_utf8(info.ty@)) + lit_bytes(
        (",\"version\":")@,
    ) + json_string(vstd::utf8::encode_utf8(info.version@)) + lit_bytes((",\"port\":")@)
        + json_string(vstd::utf8::encode_utf8(info.port@)) + opt_model_json(
        (",\"translate_model\":")@,
        opt_model_view(info.translate_model),
    ) + opt_model_json((",\"transcribe_model\":")@, opt_model_view(info.transcribe_model))
        + lit_bytes((",\"extras\":{}}")@)
}

/// Encodes the info reply.
pub fn encode_info_body(info: &ServerInfo) -> (r: Vec<u8>)
    ensures
        r@ == info_body(info),
{
    let mut out: Vec<u8> = Vec::new();
    push_lit(&mut out, "{\"type\":");
    push_json_string(&mut out, info.ty.as_str().as_bytes());
    push_lit(&mut out, ",\"version\":");
    push_json_string(&mut out, info.version.as_str().as_bytes());
    push_lit(&mut out, ",\"port\":");
    push_json_string(&mut out, info.port.as_str().as_bytes());
    match &info.translate_model {
        Some(m) => {
            push_lit(&mut out, ",\"translate_model\":");
            push_model(&mut out, m);
        },
        None => {},
    }
    match &info.transcribe_model {
        Some(m) => {
            push_lit(&mut out, ",\"transcribe_model\":");
            push_model(&mut out, m);
        },
        None => {},
    }
    push_lit(&mut out, ",\"extras\":{}}");
    proof {
        assert(out@ =~= info_body(info));
    }
    out
}

/// The body of the models reply: the configured task models as a list.
pub open spec fn models_body(info: &ServerInfo) -> Seq<u8> {
    let transcribe: Seq<u8> = match opt_model_view(info.transcribe_model) {
        Some(nt) => model_json(nt.0, nt.1),
        None => Seq::empty(),
    };
    let translate: Seq<u8> = match opt_model_view(info.translate_model) {
        Some(nt) => if info.transcribe_model is Some {
            lit_bytes((",")@) + model_json(nt.0, nt.1)
        } else {
            model_json(nt.0, nt.1)
        },
        None => Seq::empty(),
    };
    lit_bytes(("{\"object\":\"list\",\"data\":[")@) + transcribe + translate + lit_bytes(("]}")@)
}

/// Encodes the models reply.
pub fn encode_models_body(info: &ServerInfo) -> (r: Vec<u8>)
    ensures
        r@ == models_body(info),
{
    let mut out: Vec<u8> = Vec::new();
    push_lit(&mut out, "{\"object\":\"list\",\"data\":[");
    let mut first = true;
    match &info.transcribe_model {
        Some(m) => {
            push_model(&mut out, m);
            first = false;
        },
        None => {},
    }
    match &info.translate_model {
        Some(m) => {
            if !first {
                push_lit(&mut out, ",");
            }
            push_model(&mut out, m);
        },
        None => {},
    }
    push_lit(&mut out, "]}");
    proof {
        assert(out@ =~= models_body(info));
    }
    out
}


/// The HTTP methods the gateway distinguishes.
#[derive(Clone, Copy, Debug, PartialEq, Eq, Structural)]
pub enum HttpMethod {
    Get,
    Post,
    Delete,
    Options,
    Other,
}

/// The service routes.
#[derive(Clone, Copy, Debug, PartialEq, Eq, Structural)]
pub enum Route {
    Echo,
    AudioTranscriptions,
    AudioTranslations,
    AudioSpeech,
    Models,
    Info,
    Files,
    Unknown,
}

/// The route a path selects.
pub open spec fn route_of(p: Seq<u8>) -> Route {
    if p == lit_bytes(("/echo")@) || has_prefix(p, lit_bytes(("/echo/")@)) {
        Route::Echo
    } else if p == lit_bytes(("/v1/audio/transcriptions")@) {
        Route::AudioTranscriptions
    } else if p == lit_bytes(("/v1/audio/translations")@) {
        Route::AudioTranslations
    } else if p == lit_bytes(("/v1/audio/speech")@) {
        Route::AudioSpeech
    } else if p == lit_bytes(("/v1/models")@) {
        Route::Models
    } else if p == lit_bytes(("/v1/info")@) {
        Route::Info
    } else if p == lit_bytes(("/v1/files")@) || has_prefix(p, lit_bytes(("/v1/files/")@)) {
        Route::Files
    } else {
        Route::Unknown
    }
}

/// Maps a path to its route.
pub fn route(p: &[u8]) -> (r: Route)
    ensures
        r == route_of(p@),
{
    if crate::bytes::bytes_eq(p, "/echo".as_bytes()) || crate::bytes::starts_with(
        p,
        "/echo/".as_bytes(),
    ) {
        Route::Echo
    } else if crate::bytes::bytes_eq(p, "/v1/audio/transcriptions".as_bytes()) {
        Route::AudioTranscriptions
    } else if crate::bytes::bytes_eq(p, "/v1/audio/translations".as_bytes()) {
        Route::AudioTranslations
    } else if crate::bytes::bytes_eq(p, "/v1/audio/speech".as_bytes()) {
        Route::AudioSpeech
    } else if crate::bytes::bytes_eq(p, "/v1/models".as_bytes()) {
        Route::Models
    } else if crate::bytes::bytes_eq(p, "/v1/info".as_bytes()) {
        Route::Info
    } else if crate::bytes::bytes_eq(p, "/v1/files".as_bytes()) || crate::bytes::starts_with(
        p,
        "/v1/files/".as_bytes(),
    ) {
        Route::Files
    } else {
        Route::Unknown
    }
}

/// The bearer token of an authorization header: the text after the first
/// space, up to the next space or the end.  A header without a space has
/// an empty token.
pub open spec fn auth_token(h: Seq<u8>) -> Seq<u8> {
    match crate::numtext::first_byte2(h, 0, 0x20, 0x20) {
        None => Seq::empty(),
        Some(i) => {
            let tail = h.subrange(i + 1, h.len() as int);
            match crate::numtext::first_byte2(tail, 0, 0x20, 0x20) {
                None => tail,
                Some(j) => tail.subrange(0, j),
            }
        },
    }
}

/// Reads the bearer token out of an authorization header.
pub fn bearer_token(h: &[u8]) -> (r: Vec<u8>)
    ensures
        r@ == auth_token(h@),
{
    match crate::numtext::find_byte2(h, 0x20, 0x20) {
        None => Vec::new(),
        Some(i) => {
            let hlen = h.len();
            proof {
                crate::numtext::lemma_first_byte2(h@, 0, 0x20, 0x20);
            }
            let tail = crate::bytes::sub_bytes(h, i + 1, hlen);
            match crate::numtext::find_byte2(tail.as_slice(), 0x20, 0x20) {
                None => tail,
                Some(j) => {
                    proof {
                        crate::numtext::lemma_first_byte2(tail@, 0, 0x20, 0x20);
                    }
                    crate::bytes::sub_bytes(tail.as_slice(), 0, j)
                },
            }
        },
    }
}

/// Whether a request passes the API key check: no header or an empty
/// header is no auth attempt and passes; otherwise the bearer token must
/// match the configured key, and with no key configured everything
/// passes.
pub open spec fn auth_ok(auth: Option<Seq<u8>>, key: Option<Seq<char>>) -> bool {
    match auth {
        None => true,
        Some(h) => h.len() == 0 || match key {
            None => true,
            Some(k) => auth_token(h) == vstd::utf8::encode_utf8(k),
        },
    }
}

/// The view of an optional byte vector.
pub open spec fn opt_bytes_view(b: Option<Vec<u8>>) -> Option<Seq<u8>> {
    match b {
        Some(v) => Some(v@),
        None => None,
    }
}

/// The view of an optional string.
pub open spec fn opt_string_view(s: Option<String>) -> Option<Seq<char>> {
    match s {
        Some(v) => Some(v@),
        None => None,
    }
}

/// Checks the API key.
pub fn authorize(auth: &Option<Vec<u8>>, key: &Option<String>) -> (r: Option<ErrorResponse>)
    ensures
        match r {
            None => auth_ok(opt_bytes_view(*auth), opt_string_view(*key)),
            Some(e) => !auth_ok(opt_bytes_view(*auth), opt_string_view(*key)) && e.kind
                == ErrorKind::Unauthorized,
        },
{
    let h = match auth {
        None => {
            return None;
        },
        Some(h) => h,
    };
    if h.len() == 0 {
        return None;
    }
    let k = match key {
        None => {
            return None;
        },
        Some(k) => k,
    };
    let token = bearer_token(h.as_slice());
    if crate::bytes::bytes_eq(token.as_slice(), k.as_str().as_bytes()) {
        None
    } else {
        Some(ErrorResponse::new(ErrorKind::Unauthorized, "Invalid API key."))
    }
}

/// The boundary token of a multipart content type: the text after the
/// first `boundary=`.
pub open spec fn boundary_of(ct: Option<Seq<u8>>) -> Option<Seq<u8>> {
    match ct {
        None => None,
        Some(c) => match crate::bytes::first_match(c, lit_bytes(("boundary=")@), 0) {
            None => None,
            Some(i) => Some(c.subrange(i + lit_bytes(("boundary=")@).len(), c.len() as int)),
        },
    }
}

/// Reads the boundary token out of the content type.
pub fn read_boundary(ct: &Option<Vec<u8>>) -> (r: Option<Vec<u8>>)
    ensures
        match r {
            Some(b) => boundary_of(opt_bytes_view(*ct)) == Some(b@),
            None => boundary_of(opt_bytes_view(*ct)) is None,
        },
{
    let c = match ct {
        None => {
            return None;
        },
        Some(c) => c,
    };
    let key = "boundary=".as_bytes();
    match crate::bytes::find_from(c.as_slice(), key, 0) {
        None => None,
        Some(i) => {
            let clen = c.len();
            proof {
                crate::bytes::lemma_first_match(c@, key@, 0);
            }
            Some(crate::bytes::sub_bytes(c.as_slice(), i + key.len(), clen))
        },
    }
}

/// A reply whose body is the uniform error envelope of `k`.
pub open spec fn is_error_reply(r: &HttpResponse, k: ErrorKind) -> bool {
    &&& r.status == crate::response::kind_status(k)
    &&& exists|m: Seq<u8>| r.body@ == crate::response::error_body(k, m)
}


/// The path with trailing slashes removed.
pub open spec fn trim_slash(p: Seq<u8>) -> Seq<u8>
    decreases p.len(),
{
    if p.len() > 0 && p.last() == 0x2f {
        trim_slash(p.drop_last())
    } else {
        p
    }
}

/// Removes trailing slashes.
fn trim_trailing_slash(p: &[u8]) -> (r: Vec<u8>)
    ensures
        r@ == trim_slash(p@),
{
    let mut hi: usize = p.len();
    proof {
        assert(p@.subrange(0, p@.len() as int) =~= p@);
    }
    while hi > 0 && p[hi - 1] == 0x2f
        invariant
            hi <= p@.len(),
            trim_slash(p@) == trim_slash(p@.subrange(0, hi as int)),
        decreases hi,
    {
        proof {
            let cur = p@.subrange(0, hi as int);
            assert(cur.last() == p@[hi - 1]);
            assert(cur.drop_last() =~= p@.subrange(0, hi - 1));
        }
        hi = hi - 1;
    }
    let out = crate::bytes::sub_bytes(p, 0, hi);
    proof {
        let cur = p@.subrange(0, hi as int);
        if hi > 0 {
            assert(cur.last() == p@[hi - 1]);
        }
        assert(trim_slash(cur) == cur);
    }
    out
}

/// The id a deletion path names: the text after `/v1/files/`, or the
/// whole path when that prefix is missing.
pub open spec fn delete_id_of(p: Seq<u8>) -> Seq<u8> {
    if has_prefix(p, lit_bytes(("/v1/files/")@)) {
        p.subrange(lit_bytes(("/v1/files/")@).len() as int, p.len() as int)
    } else {
        p
    }
}

/// One inbound request, handed over as plain values.
pub struct GatewayRequest {
    pub method: HttpMethod,
    pub path: Vec<u8>,
    pub authorization: Option<Vec<u8>>,
    pub content_type: Option<Vec<u8>>,
    pub body: Vec<u8>,
}

/// A decoded audio request waiting for the engine.
pub struct PreparedJob {
    pub task: Task,
    pub request: AudioRequest,
    pub session: EngineSession,
    /// Where the artifact lives under the archive root: the normalizer
    /// writes the canonical WAV there, or the embedding persists the raw
    /// payload there when normalization is off.
    pub artifact_path: String,
}

/// What the gateway decides about one request: an immediate reply, an
/// audio job for the engine, or a speech-synthesis body for the
/// embedding to carry out.
pub enum Outcome {
    Reply(HttpResponse),
    Engine(PreparedJob),
    Speech(Vec<u8>),
}

/// The long-lived server state: configuration committed at startup and
/// the file archive.
pub struct Gateway {
    /// The committed operating mode; `None` fails every task closed.
    pub mode: Option<OperatingMode>,
    /// The configured API key, if any.
    pub api_key: Option<String>,
    /// The startup snapshot; `None` fails the info routes closed.
    pub info: Option<ServerInfo>,
    /// Whether uploads are normalized before archiving.
    pub preprocess: bool,
    /// The directory converted artifacts are written under.
    pub archive_dir: String,
    /// The archive of uploaded artifacts.
    pub archive: FileArchive,
}

impl Gateway {
    /// A gateway with an empty archive.
    pub fn new(
        mode: Option<OperatingMode>,
        api_key: Option<String>,
        info: Option<ServerInfo>,
        preprocess: bool,
        archive_dir: String,
    ) -> (r: Gateway)
        ensures
            r.mode == mode,
            r.info == info,
            r.preprocess == preprocess,
            r.archive@ == Seq::<FileView>::empty(),
            r.archive.wf(),
    {
        Gateway {
            mode,
            api_key,
            info,
            preprocess,
            archive_dir,
            archive: FileArchive::new(),
        }
    }
}

/// Encodes an error as a reply.
fn error_reply(e: &ErrorResponse) -> (r: HttpResponse)
    ensures
        is_error_reply(&r, e.kind),
{
    let r = e.encode();
    proof {
        assert(r.body@ == crate::response::error_body(e.kind, e.message@));
    }
    r
}

/// Encodes a successful transcription or translation as a reply.
pub fn audio_success(text: &str) -> (r: HttpResponse)
    ensures
        r.status == 200,
        r.body@ == text_body(vstd::utf8::encode_utf8(text@)),
{
    crate::response::json_response(encode_text_body(text))
}

/// Whether a route selects a speech task and which.
pub open spec fn task_of_route(r: Route) -> Option<Task> {
    match r {
        Route::AudioTranscriptions => Some(Task::Transcribe),
        Route::AudioTranslations => Some(Task::Translate),
        _ => None,
    }
}

/// Handles one request.  The reply and every state change are fixed by
/// the route, the method, the credentials, the committed mode, and the
/// body, as the clauses below state; an `Engine` outcome is produced
/// only for a fully decoded, authorized, mode-permitted audio request,
/// so no decode error is ever followed by an engine step.
#[verifier::rlimit(30)]
pub fn handle(gw: &mut Gateway, req: GatewayRequest) -> (o: Outcome)
    requires
        old(gw).archive.wf(),
    ensures
        final(gw).mode == old(gw).mode,
        final(gw).api_key == old(gw).api_key,
        final(gw).info == old(gw).info,
        final(gw).preprocess == old(gw).preprocess,
        final(gw).archive.wf(),
        ({
            let rt = route_of(req.path@);
            let authorized = auth_ok(
                opt_bytes_view(req.authorization),
                opt_string_view(old(gw).api_key),
            );
            &&& (!authorized ==> final(gw).archive@ == old(gw).archive@ && (o
                matches Outcome::Reply(resp) && is_error_reply(&resp, ErrorKind::Unauthorized)))
            &&& (authorized && rt == Route::Echo ==> final(gw).archive@ == old(gw).archive@
                && (o matches Outcome::Reply(resp) && resp.status == 200 && resp.body@
                == lit_bytes(("echo test")@)))
            &&& (authorized && rt == Route::Unknown ==> final(gw).archive@ == old(gw).archive@
                && (o matches Outcome::Reply(resp) && is_error_reply(
                    &resp,
                    ErrorKind::BadRequest,
                )))
            &&& (authorized && rt == Route::Models ==> final(gw).archive@ == old(gw).archive@
                && (o matches Outcome::Reply(resp) && (match old(gw).info {
                    Some(info) => resp.status == 200 && resp.body@ == models_body(&info),
                    None => is_error_reply(&resp, ErrorKind::NotReady),
                })))
            &&& (authorized && rt == Route::Info ==> final(gw).archive@ == old(gw).archive@
                && (o matches Outcome::Reply(resp) && (match old(gw).info {
                    Some(info) => resp.status == 200 && resp.body@ == info_body(&info),
                    None => is_error_reply(&resp, ErrorKind::NotReady),
                })))
            &&& (authorized && rt == Route::Files && req.method == HttpMethod::Options ==> final(gw).archive@ == old(gw).archive@ && (o matches Outcome::Reply(resp) && resp.status == 200
                && resp.body@ == Seq::<u8>::empty()))
            &&& (authorized && rt == Route::Files && req.method == HttpMethod::Get ==> final(gw).archive@ == old(gw).archive@ && (o matches Outcome::Reply(resp) && (if trim_slash(
                crate::bytes::lower_seq(req.path@),
            ) == lit_bytes(("/v1/files")@) {
                resp.status == 200 && resp.body@ == list_body(old(gw).archive@)
            } else {
                is_error_reply(&resp, ErrorKind::BadRequest)
            })))
            &&& (authorized && rt == Route::Files && req.method == HttpMethod::Delete ==> {
                let id = delete_id_of(req.path@);
                o matches Outcome::Reply(resp) && (if vstd::utf8::valid_utf8(id) {
                    match crate::archive::find_id(
                        old(gw).archive@,
                        vstd::utf8::decode_utf8(id),
                        0,
                    ) {
                        Some(i) => final(gw).archive@ == old(gw).archive@.remove(i) && resp.status
                            == 200 && resp.body@ == delete_body(id, true),
                        None => final(gw).archive@ == old(gw).archive@ && resp.status == 200
                            && resp.body@ == delete_body(id, false),
                    }
                } else {
                    final(gw).archive@ == old(gw).archive@ && is_error_reply(
                        &resp,
                        ErrorKind::BadRequest,
                    )
                })
            })
            &&& (authorized && rt == Route::Files && req.method != HttpMethod::Get && req.method
                != HttpMethod::Delete && req.method != HttpMethod::Options ==> final(gw).archive@
                == old(gw).archive@ && (o matches Outcome::Reply(resp) && is_error_reply(
                &resp,
                ErrorKind::BadRequest,
            )))
            &&& (authorized && rt == Route::AudioSpeech ==> final(gw).archive@ == old(gw).archive@
                && (match req.method {
                HttpMethod::Options => o matches Outcome::Reply(resp) && resp.status == 200
                    && resp.body@ == Seq::<u8>::empty(),
                HttpMethod::Post => o matches Outcome::Speech(b) && b@ == req.body@,
                _ => o matches Outcome::Reply(resp) && is_error_reply(
                    &resp,
                    ErrorKind::BadRequest,
                ),
            }))
            &&& (authorized && task_of_route(rt) is Some ==> {
                let task = task_of_route(rt)->Some_0;
                match req.method {
                    HttpMethod::Options => final(gw).archive@ == old(gw).archive@
                        && (o matches Outcome::Reply(resp) && resp.status == 200 && resp.body@
                        == Seq::<u8>::empty()),
                    HttpMethod::Post => {
                        &&& (old(gw).mode is None ==> final(gw).archive@ == old(gw).archive@
                            && (o matches Outcome::Reply(resp) && resp.status == 503
                            && resp.body@ == crate::response::error_body(
                            ErrorKind::NotReady,
                            crate::gate::not_ready_message(),
                        )))
                        &&& (match old(gw).mode {
                            Some(m) => !crate::gate::task_allowed(m, task) ==> final(gw).archive@
                                == old(gw).archive@ && (o matches Outcome::Reply(resp)
                                && resp.status == 403 && resp.body@
                                == crate::response::error_body(
                                ErrorKind::TaskNotEnabled,
                                crate::gate::disabled_task_message(task),
                            )),
                            None => true,
                        })
                        &&& (match old(gw).mode {
                            Some(m) => crate::gate::task_allowed(m, task) ==> audio_post_ok(
                                old(gw).archive@,
                                final(gw).archive@,
                                old(gw).preprocess,
                                old(gw).archive_dir@,
                                opt_bytes_view(req.content_type),
                                req.body@,
                                task,
                                &o,
                            ),
                            None => true,
                        })
                    },
                    _ => final(gw).archive@ == old(gw).archive@ && (o
                        matches Outcome::Reply(resp) && is_error_reply(
                        &resp,
                        ErrorKind::BadRequest,
                    )),
                }
            })
        }),
{
    let path_route = route(req.path.as_slice());
    if let Some(e) = authorize(&req.authorization, &gw.api_key) {
        return Outcome::Reply(error_reply(&e));
    }
    match path_route {
        Route::Echo => {
            let mut body: Vec<u8> = Vec::new();
            push_lit(&mut body, "echo test");
            Outcome::Reply(crate::response::json_response(body))
        },
        Route::Unknown => {
            let e = ErrorResponse::new(
                ErrorKind::BadRequest,
                "The requested service endpoint is not found.",
            );
            Outcome::Reply(error_reply(&e))
        },
        Route::Models => {
            match &gw.info {
                Some(info) => Outcome::Reply(
                    crate::response::json_response(encode_models_body(info)),
                ),
                None => {
                    let e = ErrorResponse::new(
                        ErrorKind::NotReady,
                        "The server information is not set.",
                    );
                    Outcome::Reply(error_reply(&e))
                },
            }
        },
        Route::Info => {
            match &gw.info {
                Some(info) => Outcome::Reply(
                    crate::response::json_response(encode_info_body(info)),
                ),
                None => {
                    let e = ErrorResponse::new(
                        ErrorKind::NotReady,
                        "The server information is not set.",
                    );
                    Outcome::Reply(error_reply(&e))
                },
            }
        },
        Route::Files => handle_files(gw, &req),
        Route::AudioSpeech => {
            match req.method {
                HttpMethod::Options => Outcome::Reply(crate::response::preflight_response()),
                HttpMethod::Post => Outcome::Speech(req.body),
                _ => {
                    let e = ErrorResponse::new(ErrorKind::BadRequest, "Invalid HTTP Method.");
                    Outcome::Reply(error_reply(&e))
                },
            }
        },
        Route::AudioTranscriptions => handle_audio(gw, req, Task::Transcribe),
        Route::AudioTranslations => handle_audio(gw, req, Task::Translate),
    }
}


/// What holds after an authorized, mode-permitted audio post: the body
/// decides everything further.  A missing boundary or a malformed body
/// is rejected whole; a decoded request is handed on as an engine job
/// whose archive effects follow the decoder contract; and an error reply
/// leaves the archive with at most the already-persisted uploads.
pub open spec fn audio_post_ok(
    olda: Seq<FileView>,
    newa: Seq<FileView>,
    preprocess: bool,
    dir: Seq<char>,
    ct: Option<Seq<u8>>,
    body: Seq<u8>,
    task: Task,
    o: &Outcome,
) -> bool {
    match boundary_of(ct) {
        None => newa == olda && (o matches Outcome::Reply(resp) && is_error_reply(
            &resp,
            ErrorKind::BadRequest,
        )),
        Some(b) => match crate::multipart::spec_parse_multipart(body, b) {
            None => newa == olda && (o matches Outcome::Reply(resp) && is_error_reply(
                &resp,
                ErrorKind::BadRequest,
            )),
            Some(pvs) => audio_decode_ok(olda, newa, preprocess, dir, pvs, task, o),
        },
    }
}

/// What holds of the outcome once the body has parsed into `pvs`: an
/// engine job carries the decoded request and the archive effects of the
/// decoder, and an error reply follows the decoder's error contract.
pub open spec fn audio_decode_ok(
    olda: Seq<FileView>,
    newa: Seq<FileView>,
    preprocess: bool,
    dir: Seq<char>,
    pvs: Seq<crate::multipart::PartView>,
    task: Task,
    o: &Outcome,
) -> bool {
    {
        {
            {
                let fps = crate::request::file_parts(pvs);
                let scanned = crate::request::spec_scan(
                    pvs,
                    preprocess,
                    crate::request::empty_scalars(),
                );
                match o {
                    Outcome::Engine(job) => {
                        &&& job.task == task
                        &&& job.session.phase == crate::engine::Phase::Queued
                        &&& job.session.wf()
                        &&& job.session.steps@ == Seq::<crate::engine::EngineStep>::empty()
                        &&& job.session.use_new_context
                            == job.request@.scalars.use_new_context
                        &&& scanned is Some
                        &&& job.request@.scalars == crate::request::spec_finalize(
                            scanned->Some_0,
                        )
                        &&& fps.len() >= 1
                        &&& newa.len() == olda.len() + fps.len()
                        &&& olda.is_prefix_of(newa)
                        &&& forall|j: int|
                            0 <= j < fps.len() ==> {
                                let e = #[trigger] newa[olda.len() + j];
                                &&& e.bytes == fps[j].data.len()
                                &&& vstd::utf8::encode_utf8(e.filename)
                                    == crate::request::stored_name_bytes(
                                    fps[j].filename->Some_0,
                                    preprocess,
                                )
                                &&& crate::archive::is_generated_id(e.id)
                            }
                        &&& job.request@.file == Some(newa.last())
                        &&& job.request@.payload == fps.last().data
                        &&& job.artifact_path@ == crate::convert::artifact_path_chars(
                            dir,
                            newa.last().id,
                            newa.last().filename,
                        )
                    },
                    Outcome::Reply(resp) => {
                        let bad = crate::request::first_bad_part(pvs, preprocess);
                        &&& (is_error_reply(&resp, ErrorKind::BadRequest) || is_error_reply(
                            &resp,
                            ErrorKind::IOFailure,
                        ))
                        &&& olda.is_prefix_of(newa)
                        &&& newa.len() <= olda.len() + fps.len()
                        &&& (fps.len() == 0 ==> newa == olda && is_error_reply(
                            &resp,
                            ErrorKind::BadRequest,
                        ))
                        &&& (is_error_reply(&resp, ErrorKind::BadRequest) ==> match bad {
                            Some(i) => {
                                &&& newa.len() == olda.len() + crate::request::file_parts(
                                    pvs.take(i),
                                ).len()
                                &&& (crate::request::file_parts(pvs.take(i)).len() == 0
                                    ==> newa == olda)
                                &&& (crate::request::field_kind_of(pvs[i].name) is None
                                    ==> resp.body@ == crate::response::error_body(
                                    ErrorKind::BadRequest,
                                    lit_bytes(("Invalid field name: ")@) + pvs[i].name,
                                ))
                            },
                            None => newa == olda,
                        })
                        &&& (bad matches Some(i) && crate::request::file_parts(
                            pvs.take(i),
                        ).len() == 0 ==> is_error_reply(&resp, ErrorKind::BadRequest))
                        &&& (is_error_reply(&resp, ErrorKind::IOFailure) ==> fps.len() >= 1)
                        &&& (bad is None && fps.len() >= 1 ==> is_error_reply(
                            &resp,
                            ErrorKind::IOFailure,
                        ))
                    },
                    Outcome::Speech(_) => false,
                }
            }
        }
    }
}

/// Handles the file-store routes: list, delete, preflight.
#[verifier::loop_isolation(false)]
fn handle_files(gw: &mut Gateway, req: &GatewayRequest) -> (o: Outcome)
    requires
        old(gw).archive.wf(),
    ensures
        final(gw).mode == old(gw).mode,
        final(gw).api_key == old(gw).api_key,
        final(gw).info == old(gw).info,
        final(gw).preprocess == old(gw).preprocess,
        final(gw).archive.wf(),
        match req.method {
            HttpMethod::Options => final(gw).archive@ == old(gw).archive@
                && (o matches Outcome::Reply(resp) && resp.status == 200 && resp.body@
                == Seq::<u8>::empty()),
            HttpMethod::Get => final(gw).archive@ == old(gw).archive@
                && (o matches Outcome::Reply(resp) && (if trim_slash(
                crate::bytes::lower_seq(req.path@),
            ) == lit_bytes(("/v1/files")@) {
                resp.status == 200 && resp.body@ == list_body(old(gw).archive@)
            } else {
                is_error_reply(&resp, ErrorKind::BadRequest)
            })),
            HttpMethod::Delete => {
                let id = delete_id_of(req.path@);
                o matches Outcome::Reply(resp) && (if vstd::utf8::valid_utf8(id) {
                    match crate::archive::find_id(
                        old(gw).archive@,
                        vstd::utf8::decode_utf8(id),
                        0,
                    ) {
                        Some(i) => final(gw).archive@ == old(gw).archive@.remove(i) && resp.status
                            == 200 && resp.body@ == delete_body(id, true),
                        None => final(gw).archive@ == old(gw).archive@ && resp.status == 200
                            && resp.body@ == delete_body(id, false),
                    }
                } else {
                    final(gw).archive@ == old(gw).archive@ && is_error_reply(
                        &resp,
                        ErrorKind::BadRequest,
                    )
                })
            },
            _ => final(gw).archive@ == old(gw).archive@ && (o matches Outcome::Reply(resp)
                && is_error_reply(&resp, ErrorKind::BadRequest)),
        },
{
    match req.method {
        HttpMethod::Options => Outcome::Reply(crate::response::preflight_response()),
        HttpMethod::Get => {
            let lowered = crate::bytes::lower_vec(req.path.as_slice());
            let trimmed = trim_trailing_slash(lowered.as_slice());
            if crate::bytes::bytes_eq(trimmed.as_slice(), "/v1/files".as_bytes()) {
                let files = gw.archive.list();
                Outcome::Reply(crate::response::json_response(encode_list_body(&files)))
            } else {
                let e = ErrorResponse::new(ErrorKind::BadRequest, "Unsupported URI path.");
                Outcome::Reply(error_reply(&e))
            }
        },
        HttpMethod::Delete => {
            let key = "/v1/files/".as_bytes();
            let id_vec: Vec<u8> = if crate::bytes::starts_with(req.path.as_slice(), key) {
                crate::bytes::sub_bytes(req.path.as_slice(), key.len(), req.path.len())
            } else {
                crate::bytes::sub_bytes(req.path.as_slice(), 0, req.path.len())
            };
            proof {
                if has_prefix(req.path@, key@) {
                    assert(id_vec@ == delete_id_of(req.path@));
                } else {
                    assert(id_vec@ =~= req.path@);
                    assert(id_vec@ == delete_id_of(req.path@));
                }
            }
            let id_copy = crate::bytes::sub_bytes(id_vec.as_slice(), 0, id_vec.len());
            proof {
                assert(id_copy@ =~= id_vec@);
            }
            let id_str = match crate::convert::string_from_utf8(id_copy) {
                None => {
                    let e = ErrorResponse::new(
                        ErrorKind::BadRequest,
                        "The file id is not valid text.",
                    );
                    return Outcome::Reply(error_reply(&e));
                },
                Some(s) => s,
            };
            let deleted = gw.archive.delete(id_str.as_str());
            let body = encode_delete_body(id_vec.as_slice(), deleted);
            Outcome::Reply(crate::response::json_response(body))
        },
        _ => {
            let e = ErrorResponse::new(ErrorKind::BadRequest, "Invalid HTTP Method.");
            Outcome::Reply(error_reply(&e))
        },
    }
}

/// Handles an audio task post: gate, decode, and hand the job on.
/// The post-gate half of an audio task post: boundary, parse, decode,
/// and the engine job.
#[verifier::rlimit(100)]
fn audio_post(gw: &mut Gateway, req: GatewayRequest, task: Task) -> (o: Outcome)
    requires
        old(gw).archive.wf(),
    ensures
        final(gw).mode == old(gw).mode,
        final(gw).api_key == old(gw).api_key,
        final(gw).info == old(gw).info,
        final(gw).preprocess == old(gw).preprocess,
        final(gw).archive.wf(),
        audio_post_ok(
            old(gw).archive@,
            final(gw).archive@,
            old(gw).preprocess,
            old(gw).archive_dir@,
            opt_bytes_view(req.content_type),
            req.body@,
            task,
            &o,
        ),
{
    let boundary = match read_boundary(&req.content_type) {
        None => {
            let e = ErrorResponse::new(
                ErrorKind::BadRequest,
                "Failed to get the boundary from the request.",
            );
            return Outcome::Reply(error_reply(&e));
        },
        Some(b) => b,
    };
    let parts = match crate::multipart::parse_multipart(
        req.body.as_slice(),
        boundary.as_slice(),
    ) {
        None => {
            let e = ErrorResponse::new(
                ErrorKind::BadRequest,
                "Failed to parse the multipart body of the request.",
            );
            return Outcome::Reply(error_reply(&e));
        },
        Some(p) => p,
    };
    audio_decode(gw, parts, task)
}

/// Decodes the parsed parts and packages the engine job.
#[verifier::rlimit(100)]
fn audio_decode(gw: &mut Gateway, parts: Vec<crate::multipart::RawPart>, task: Task) -> (o:
    Outcome)
    requires
        old(gw).archive.wf(),
    ensures
        final(gw).mode == old(gw).mode,
        final(gw).api_key == old(gw).api_key,
        final(gw).info == old(gw).info,
        final(gw).preprocess == old(gw).preprocess,
        final(gw).archive.wf(),
        audio_decode_ok(
            old(gw).archive@,
            final(gw).archive@,
            old(gw).preprocess,
            old(gw).archive_dir@,
            crate::multipart::part_views(parts@),
            task,
            &o,
        ),
{
    let preprocess = gw.preprocess;
    let dir = String::from_str(gw.archive_dir.as_str());
    match crate::request::decode_request(&mut gw.archive, &parts, preprocess, dir.as_str()) {
        Err(e) => {
            let r = e.encode();
            proof {
                assert(r.body@ == crate::response::error_body(e.kind, e.message@));
            }
            Outcome::Reply(r)
        },
        Ok(request) => {
            let artifact_path = match &request.file {
                Some(f) => crate::convert::artifact_path(
                    dir.as_str(),
                    f.id.as_str(),
                    f.filename.as_str(),
                ),
                None => {
                    proof {
                        assert(false);
                    }
                    String::new()
                },
            };
            let session = crate::engine::EngineSession::new(request.use_new_context);
            Outcome::Engine(PreparedJob { task, request, session, artifact_path })
        },
    }
}

fn handle_audio(gw: &mut Gateway, req: GatewayRequest, task: Task) -> (o: Outcome)
    requires
        old(gw).archive.wf(),
    ensures
        final(gw).mode == old(gw).mode,
        final(gw).api_key == old(gw).api_key,
        final(gw).info == old(gw).info,
        final(gw).preprocess == old(gw).preprocess,
        final(gw).archive.wf(),
        match req.method {
            HttpMethod::Options => final(gw).archive@ == old(gw).archive@
                && (o matches Outcome::Reply(resp) && resp.status == 200 && resp.body@
                == Seq::<u8>::empty()),
            HttpMethod::Post => {
                &&& (old(gw).mode is None ==> final(gw).archive@ == old(gw).archive@
                    && (o matches Outcome::Reply(resp) && resp.status == 503 && resp.body@
                    == crate::response::error_body(
                    ErrorKind::NotReady,
                    crate::gate::not_ready_message(),
                )))
                &&& (match old(gw).mode {
                    Some(m) => !crate::gate::task_allowed(m, task) ==> final(gw).archive@ == old(
                        gw,
                    ).archive@ && (o matches Outcome::Reply(resp) && resp.status == 403
                        && resp.body@ == crate::response::error_body(
                        ErrorKind::TaskNotEnabled,
                        crate::gate::disabled_task_message(task),
                    )),
                    None => true,
                })
                &&& (match old(gw).mode {
                    Some(m) => crate::gate::task_allowed(m, task) ==> audio_post_ok(
                        old(gw).archive@,
                        final(gw).archive@,
                        old(gw).preprocess,
                        old(gw).archive_dir@,
                        opt_bytes_view(req.content_type),
                        req.body@,
                        task,
                        &o,
                    ),
                    None => true,
                })
            },
            _ => final(gw).archive@ == old(gw).archive@ && (o matches Outcome::Reply(resp)
                && is_error_reply(&resp, ErrorKind::BadRequest)),
        },
{
    match req.method {
        HttpMethod::Options => {
            return Outcome::Reply(crate::response::preflight_response());
        },
        HttpMethod::Post => {},
        _ => {
            let e = ErrorResponse::new(ErrorKind::BadRequest, "Invalid HTTP Method.");
            return Outcome::Reply(error_reply(&e));
        },
    }
    if let Some(e) = crate::gate::check_task(gw.mode, task) {
        return Outcome::Reply(e.encode());
    }
    audio_post(gw, req, task)
}

/// A parsed body without a file field is rejected as a bad request and
/// the archive is exactly what it was: no partial writes.
pub proof fn lemma_missing_file_rejected(
    olda: Seq<FileView>,
    newa: Seq<FileView>,
    preprocess: bool,
    dir: Seq<char>,
    ct: Option<Seq<u8>>,
    body: Seq<u8>,
    task: Task,
    o: &Outcome,
    b: Seq<u8>,
    pvs: Seq<crate::multipart::PartView>,
)
    requires
        audio_post_ok(olda, newa, preprocess, dir, ct, body, task, o),
        boundary_of(ct) == Some(b),
        crate::multipart::spec_parse_multipart(body, b) == Some(pvs),
        crate::request::file_parts(pvs).len() == 0,
    ensures
        newa == olda,
        o matches Outcome::Reply(resp) && is_error_reply(&resp, ErrorKind::BadRequest),
{
}

/// A decoded upload is archived exactly once: when a parsed body holds
/// one file part and the request reaches the engine, the archive gained
/// exactly one entry, whose recorded size is the uploaded payload length
/// and which the request carries as its file metadata.
pub proof fn lemma_single_upload_archived(
    olda: Seq<FileView>,
    newa: Seq<FileView>,
    preprocess: bool,
    dir: Seq<char>,
    ct: Option<Seq<u8>>,
    body: Seq<u8>,
    task: Task,
    o: &Outcome,
    b: Seq<u8>,
    pvs: Seq<crate::multipart::PartView>,
)
    requires
        audio_post_ok(olda, newa, preprocess, dir, ct, body, task, o),
        boundary_of(ct) == Some(b),
        crate::multipart::spec_parse_multipart(body, b) == Some(pvs),
        crate::request::file_parts(pvs).len() == 1,
        o matches Outcome::Engine(job),
    ensures
        newa.len() == olda.len() + 1,
        newa.last().bytes == crate::request::file_parts(pvs)[0].data.len(),
        o matches Outcome::Engine(job) && job.request@.file == Some(newa.last()),
{
    match o {
        Outcome::Engine(job) => {
            let j: int = 0;
            assert(newa[olda.len() + j].bytes == crate::request::file_parts(pvs)[j].data.len());
            assert(newa.last() == newa[olda.len() + j]);
        },
        _ => {},
    }
}

/// A parsed body holding an unknown field name never reaches the engine:
/// the outcome is a reply, not an engine job.
pub proof fn lemma_unknown_field_no_engine(
    olda: Seq<FileView>,
    newa: Seq<FileView>,
    preprocess: bool,
    dir: Seq<char>,
    ct: Option<Seq<u8>>,
    body: Seq<u8>,
    task: Task,
    o: &Outcome,
    b: Seq<u8>,
    pvs: Seq<crate::multipart::PartView>,
    i: int,
)
    requires
        audio_post_ok(olda, newa, preprocess, dir, ct, body, task, o),
        boundary_of(ct) == Some(b),
        crate::multipart::spec_parse_multipart(body, b) == Some(pvs),
        0 <= i < pvs.len(),
        crate::request::field_kind_of(pvs[i].name) is None,
    ensures
        !(o matches Outcome::Engine(job)),
{
    crate::request::lemma_unknown_field_scans_none(
        pvs,
        preprocess,
        crate::request::empty_scalars(),
        i,
    );
}

} // verus!
