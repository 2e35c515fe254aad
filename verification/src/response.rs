//! The uniform response envelope.
//!
//! Every reply of the gateway is an `HttpResponse`: a status code and a
//! JSON body.  The transport layer adds the same permissive CORS headers
//! (`Access-Control-Allow-Origin`, `-Methods`, `-Headers`, all `*`) and
//! `Content-Type: application/json` to every response it sends.
use crate::json::{lit_bytes, json_string, push_json_string, push_lit};
use vstd::prelude::*;

verus! {

/// The failure classes a request can end in.  Every internal failure is
/// converted into exactly one of these at the handler boundary.
#[derive(Clone, Copy, Debug, PartialEq, Eq, Structural)]
pub enum ErrorKind {
    /// A malformed or unparseable field, an unsupported file, or an
    /// unknown field name.
    BadRequest,
    /// A missing or wrong API key.
    Unauthorized,
    /// A path that names a task the operating mode has disabled.
    TaskNotEnabled,
    /// An archive read or write that failed.
    IOFailure,
    /// An audio normalization that failed.
    ConversionFailure,
    /// A set-input, compute, or get-output step that failed, or engine
    /// output that could not be decoded.
    EngineFailure,
    /// A response that could not be encoded by an outside serializer.
    SerializationFailure,
    /// A request that arrived before the server committed its state.
    NotReady,
}

/// The HTTP status class of each failure kind.
pub open spec fn kind_status(k: ErrorKind) -> u16 {
    match k {
        ErrorKind::BadRequest => 400,
        ErrorKind::Unauthorized => 401,
        ErrorKind::TaskNotEnabled => 403,
        ErrorKind::NotReady => 503,
        ErrorKind::IOFailure => 500,
        ErrorKind::ConversionFailure => 500,
        ErrorKind::EngineFailure => 500,
        ErrorKind::SerializationFailure => 500,
    }
}

/// The label under which each kind is reported in the JSON envelope.
pub open spec fn kind_label(k: ErrorKind) -> Seq<char> {
    match k {
        ErrorKind::BadRequest => ("bad_request")@,
        ErrorKind::Unauthorized => ("unauthorized")@,
        ErrorKind::TaskNotEnabled => ("task_not_enabled")@,
        ErrorKind::NotReady => ("not_ready")@,
        ErrorKind::IOFailure => ("io_failure")@,
        ErrorKind::ConversionFailure => ("conversion_failure")@,
        ErrorKind::EngineFailure => ("engine_failure")@,
        ErrorKind::SerializationFailure => ("serialization_failure")@,
    }
}

/// A failed request: its kind and a human-readable message.  The message
/// is kept as bytes; it is embedded, escaped, into the JSON body.
#[derive(Debug)]
pub struct ErrorResponse {
    pub kind: ErrorKind,
    pub message: Vec<u8>,
}

/// A finished reply: the status code and the JSON body bytes.
pub struct HttpResponse {
    pub status: u16,
    pub body: Vec<u8>,
}

/// The JSON error envelope.
pub open spec fn error_body(k: ErrorKind, message: Seq<u8>) -> Seq<u8> {
    lit_bytes(("{\"error\":{\"kind\":\"")@) + lit_bytes(kind_label(k)) + lit_bytes(
        ("\",\"message\":")@,
    ) + json_string(message) + lit_bytes(("}}")@)
}

/// Appends the label of `k`.
fn push_kind_label(out: &mut Vec<u8>, k: ErrorKind)
    ensures
        final(out)@ == old(out)@ + lit_bytes(kind_label(k)),
{
    match k {
        ErrorKind::BadRequest => {
            push_lit(out, "bad_request");
        },
        ErrorKind::Unauthorized => {
            push_lit(out, "unauthorized");
        },
        ErrorKind::TaskNotEnabled => {
            push_lit(out, "task_not_enabled");
        },
        ErrorKind::NotReady => {
            push_lit(out, "not_ready");
        },
        ErrorKind::IOFailure => {
            push_lit(out, "io_failure");
        },
        ErrorKind::ConversionFailure => {
            push_lit(out, "conversion_failure");
        },
        ErrorKind::EngineFailure => {
            push_lit(out, "engine_failure");
        },
        ErrorKind::SerializationFailure => {
            push_lit(out, "serialization_failure");
        },
    }
}

impl ErrorResponse {
    /// Builds an error with a message given as a literal.
    pub fn new(kind: ErrorKind, message: &str) -> (r: ErrorResponse)
        ensures
            r.kind == kind,
            r.message@ == lit_bytes(message@),
    {
        let mut m: Vec<u8> = Vec::new();
        push_lit(&mut m, message);
        ErrorResponse { kind, message: m }
    }

    /// Encodes the error as its uniform JSON reply.
    pub fn encode(&self) -> (r: HttpResponse)
        ensures
            r.status == kind_status(self.kind),
            r.body@ == error_body(self.kind, self.message@),
    {
        let mut body: Vec<u8> = Vec::new();
        push_lit(&mut body, "{\"error\":{\"kind\":\"");
        push_kind_label(&mut body, self.kind);
        push_lit(&mut body, "\",\"message\":");
        push_json_string(&mut body, self.message.as_slice());
        push_lit(&mut body, "}}");
        let status: u16 = match self.kind {
            ErrorKind::BadRequest => 400,
            ErrorKind::Unauthorized => 401,
            ErrorKind::TaskNotEnabled => 403,
            ErrorKind::NotReady => 503,
            ErrorKind::IOFailure => 500,
            ErrorKind::ConversionFailure => 500,
            ErrorKind::EngineFailure => 500,
            ErrorKind::SerializationFailure => 500,
        };
        HttpResponse { status, body }
    }
}

/// The empty-body reply to a CORS preflight request.
pub fn preflight_response() -> (r: HttpResponse)
    ensures
        r.status == 200,
        r.body@ == Seq::<u8>::empty(),
{
    let body: Vec<u8> = Vec::new();
    HttpResponse { status: 200, body }
}

/// A success reply carrying an already-encoded JSON body.
pub fn json_response(body: Vec<u8>) -> (r: HttpResponse)
    ensures
        r.status == 200,
        r.body@ == body@,
{
    HttpResponse { status: 200, body }
}

} // verus!
