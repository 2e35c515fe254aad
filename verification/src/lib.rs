//! A verified core for a speech-to-text request gateway.
//!
//! The library parses untrusted multipart uploads field by field, enforces a
//! server-wide operating mode, keeps a content-addressed archive of uploaded
//! artifacts, sequences access to a single shared inference engine, and
//! encodes uniform JSON responses.  Network transport and the engine itself
//! live outside the library; they hand plain values in and take plain values
//! back.
pub mod archive;
pub mod bytes;
pub mod convert;
pub mod engine;
pub mod gate;
pub mod gateway;
pub mod json;
pub mod multipart;
pub mod numtext;
pub mod request;
pub mod response;
pub mod wav;

use vstd::prelude::*;

verus! {

} // verus!
