//! The task gate.
//!
//! The server commits exactly one operating mode at startup; every request
//! whose path selects a task is checked against it.  The mode is
//! write-once and read without locking; a request that arrives before the
//! mode is committed fails closed as not-ready, never default-allow.
use crate::response::{ErrorKind, ErrorResponse};
use vstd::prelude::*;

verus! {

/// The speech tasks a request can select.
#[derive(Clone, Copy, Debug, PartialEq, Eq, Structural)]
pub enum Task {
    Transcribe,
    Translate,
}

/// The server-wide operating mode, committed once at startup.
#[derive(Clone, Copy, Debug, PartialEq, Eq, Structural)]
pub enum OperatingMode {
    TranscribeOnly,
    TranslateOnly,
    Full,
}

/// Which tasks each mode permits.
pub open spec fn task_allowed(mode: OperatingMode, task: Task) -> bool {
    match mode {
        OperatingMode::Full => true,
        OperatingMode::TranscribeOnly => task == Task::Transcribe,
        OperatingMode::TranslateOnly => task == Task::Translate,
    }
}

/// Parses the startup mode flag: `transcribe`, `translate` or `full`.
pub fn parse_mode(s: &str) -> (r: Option<OperatingMode>)
    ensures
        r == Some(OperatingMode::TranscribeOnly) <==> s@ == ("transcribe")@,
        r == Some(OperatingMode::TranslateOnly) <==> s@ == ("translate")@,
        r == Some(OperatingMode::Full) <==> s@ == ("full")@,
{
    proof {
        reveal_strlit("transcribe");
        reveal_strlit("translate");
        reveal_strlit("full");
        assert(("transcribe")@.len() == 10);
        assert(("translate")@.len() == 9);
        assert(("full")@.len() == 4);
        assert(("transcribe")@ != ("translate")@);
        assert(("transcribe")@ != ("full")@);
        assert(("translate")@ != ("full")@);
    }
    if crate::bytes::str_eq(s, "transcribe") {
        Some(OperatingMode::TranscribeOnly)
    } else if crate::bytes::str_eq(s, "translate") {
        Some(OperatingMode::TranslateOnly)
    } else if crate::bytes::str_eq(s, "full") {
        Some(OperatingMode::Full)
    } else {
        None
    }
}

/// The message of a not-ready rejection.
pub open spec fn not_ready_message() -> Seq<u8> {
    crate::json::lit_bytes(("The task is not set.")@)
}

/// The actionable message of a disabled-task rejection: it names the
/// startup options that would enable the requested task.
pub open spec fn disabled_task_message(task: Task) -> Seq<u8> {
    match task {
        Task::Translate => crate::json::lit_bytes(
            ("The current API server only supports transcription tasks. To support translation tasks, please restart the API server with `--task full` or `--task translate`.")@,
        ),
        Task::Transcribe => crate::json::lit_bytes(
            ("The current API server only supports translation tasks. To support transcription tasks, please restart the API server with `--task full` or `--task transcribe`.")@,
        ),
    }
}

/// Checks a task against the operating mode.  `None` passes the check;
/// `Some` carries the error: not-ready while no mode is set, otherwise
/// the actionable message naming the startup options that would enable
/// the task.
pub fn check_task(mode: Option<OperatingMode>, task: Task) -> (r: Option<ErrorResponse>)
    ensures
        match mode {
            None => r matches Some(e) && e.kind == ErrorKind::NotReady && e.message@
                == not_ready_message(),
            Some(m) => if task_allowed(m, task) {
                r is None
            } else {
                r matches Some(e) && e.kind == ErrorKind::TaskNotEnabled && e.message@
                    == disabled_task_message(task)
            },
        },
{
    let m = match mode {
        None => {
            return Some(
                ErrorResponse::new(ErrorKind::NotReady, "The task is not set."),
            );
        },
        Some(m) => m,
    };
    match (m, task) {
        (OperatingMode::Full, _) => None,
        (OperatingMode::TranscribeOnly, Task::Transcribe) => None,
        (OperatingMode::TranslateOnly, Task::Translate) => None,
        (OperatingMode::TranscribeOnly, Task::Translate) => Some(
            ErrorResponse::new(
                ErrorKind::TaskNotEnabled,
                "The current API server only supports transcription tasks. To support translation tasks, please restart the API server with `--task full` or `--task translate`.",
            ),
        ),
        (OperatingMode::TranslateOnly, Task::Transcribe) => Some(
            ErrorResponse::new(
                ErrorKind::TaskNotEnabled,
                "The current API server only supports translation tasks. To support transcription tasks, please restart the API server with `--task full` or `--task transcribe`.",
            ),
        ),
    }
}

} // verus!
