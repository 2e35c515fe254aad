//! The inference invoker.
//!
//! One engine exists process-wide and every invocation runs the same
//! sequence: optionally rebuild the execution context, set the input
//! tensor, compute, read the output.  The session type below fixes that
//! order: the caller asks for the next step, performs it against the real
//! engine while holding exclusive access, and reports the outcome.  A
//! failed step ends the session; nothing is retried.  Output retrieval
//! uses a fixed-capacity buffer, and a reported size beyond the capacity
//! is a failure of its own, never a silent truncation.
use crate::response::{ErrorKind, ErrorResponse};
use vstd::prelude::*;

verus! {

/// The byte capacity of the scratch buffer engine output is read into.
pub const OUTPUT_BUFFER_CAPACITY: usize = 16384;

/// The steps of one engine invocation.
#[derive(Clone, Copy, Debug, PartialEq, Eq, Structural)]
pub enum EngineStep {
    /// Discard and rebuild the execution context.
    RebuildContext,
    /// Feed the audio tensor to the engine.
    SetInput,
    /// Run the compute step.
    Compute,
    /// Read the output buffer.
    GetOutput,
}

/// The phases of a session, from queued to done or failed.
#[derive(Clone, Copy, Debug, PartialEq, Eq, Structural)]
pub enum Phase {
    Queued,
    Rebuilt,
    InputSet,
    Computed,
    Done,
    Failed,
}

/// The steps a session has performed when it stands in `phase`.
pub open spec fn steps_for(use_new_context: bool, phase: Phase) -> Seq<EngineStep> {
    let head: Seq<EngineStep> = if use_new_context {
        seq![EngineStep::RebuildContext]
    } else {
        Seq::empty()
    };
    match phase {
        Phase::Queued => Seq::empty(),
        Phase::Rebuilt => seq![EngineStep::RebuildContext],
        Phase::InputSet => head + seq![EngineStep::SetInput],
        Phase::Computed => head + seq![EngineStep::SetInput, EngineStep::Compute],
        Phase::Done => head + seq![EngineStep::SetInput, EngineStep::Compute, EngineStep::GetOutput],
        Phase::Failed => Seq::empty(),
    }
}

/// The full sequence a successful invocation performs.
pub open spec fn canonical_steps(use_new_context: bool) -> Seq<EngineStep> {
    steps_for(use_new_context, Phase::Done)
}

/// The step a session in `phase` performs next.
pub open spec fn spec_next_step(use_new_context: bool, phase: Phase) -> Option<EngineStep> {
    match phase {
        Phase::Queued => if use_new_context {
            Some(EngineStep::RebuildContext)
        } else {
            Some(EngineStep::SetInput)
        },
        Phase::Rebuilt => Some(EngineStep::SetInput),
        Phase::InputSet => Some(EngineStep::Compute),
        Phase::Computed => Some(EngineStep::GetOutput),
        Phase::Done => None,
        Phase::Failed => None,
    }
}

/// The phase after the pending step succeeds.
pub open spec fn spec_advance(use_new_context: bool, phase: Phase) -> Phase {
    match phase {
        Phase::Queued => if use_new_context {
            Phase::Rebuilt
        } else {
            Phase::InputSet
        },
        Phase::Rebuilt => Phase::InputSet,
        Phase::InputSet => Phase::Computed,
        Phase::Computed => Phase::Done,
        Phase::Done => Phase::Done,
        Phase::Failed => Phase::Failed,
    }
}

/// One request's walk through the engine.  The caller must hold the
/// engine exclusively for the whole walk; the borrow rules make two
/// interleaved walks over one session impossible, and the embedding
/// serializes sessions on the engine lock.
pub struct EngineSession {
    /// Whether this request asked for a fresh execution context.
    pub use_new_context: bool,
    /// Where the session stands.
    pub phase: Phase,
    /// The steps performed so far, in order.
    pub steps: Ghost<Seq<EngineStep>>,
}

impl EngineSession {
    /// The recorded steps always match the phase, and only a session that
    /// asked for a fresh context passes through the rebuilt phase.
    pub open spec fn wf(&self) -> bool {
        &&& (self.phase == Phase::Rebuilt ==> self.use_new_context)
        &&& (self.phase != Phase::Failed ==> self.steps@ == steps_for(
            self.use_new_context,
            self.phase,
        ))
    }

    /// A session queued behind the engine lock.
    pub fn new(use_new_context: bool) -> (r: EngineSession)
        ensures
            r.use_new_context == use_new_context,
            r.phase == Phase::Queued,
            r.steps@ == Seq::<EngineStep>::empty(),
            r.wf(),
    {
        EngineSession { use_new_context, phase: Phase::Queued, steps: Ghost(Seq::empty()) }
    }

    /// The step to perform next, or `None` when the session is over.
    pub fn next_step(&self) -> (r: Option<EngineStep>)
        ensures
            r == spec_next_step(self.use_new_context, self.phase),
    {
        match self.phase {
            Phase::Queued => if self.use_new_context {
                Some(EngineStep::RebuildContext)
            } else {
                Some(EngineStep::SetInput)
            },
            Phase::Rebuilt => Some(EngineStep::SetInput),
            Phase::InputSet => Some(EngineStep::Compute),
            Phase::Computed => Some(EngineStep::GetOutput),
            Phase::Done => None,
            Phase::Failed => None,
        }
    }

    /// Reports the outcome of the pending step: success advances the
    /// session along the fixed order, failure ends it.
    pub fn report(&mut self, ok: bool)
        requires
            spec_next_step(old(self).use_new_context, old(self).phase) is Some,
            old(self).wf(),
        ensures
            final(self).use_new_context == old(self).use_new_context,
            final(self).steps@ == old(self).steps@.push(
                spec_next_step(old(self).use_new_context, old(self).phase)->Some_0,
            ),
            final(self).phase == if ok {
                spec_advance(old(self).use_new_context, old(self).phase)
            } else {
                Phase::Failed
            },
            final(self).wf(),
    {
        let step = match self.next_step() {
            Some(s) => s,
            None => {
                proof {
                    assert(false);
                }
                EngineStep::SetInput
            },
        };
        proof {
            self.steps@ = self.steps@.push(step);
        }
        if ok {
            self.phase = match self.phase {
                Phase::Queued => if self.use_new_context {
                    Phase::Rebuilt
                } else {
                    Phase::InputSet
                },
                Phase::Rebuilt => Phase::InputSet,
                Phase::InputSet => Phase::Computed,
                Phase::Computed => Phase::Done,
                Phase::Done => Phase::Done,
                Phase::Failed => Phase::Failed,
            };
            proof {
                assert(self.steps@ =~= steps_for(self.use_new_context, self.phase));
            }
        } else {
            self.phase = Phase::Failed;
        }
    }

    /// The error a failed session reports.
    pub fn failure(&self) -> (r: ErrorResponse)
        ensures
            r.kind == ErrorKind::EngineFailure,
    {
        ErrorResponse::new(
            ErrorKind::EngineFailure,
            "The engine failed to process the audio.",
        )
    }
}

/// Every session that reaches `Done` has performed exactly the canonical
/// sequence, in order and without interleaving: rebuild when asked, then
/// set-input, compute, get-output.
pub proof fn lemma_done_session_steps(s: EngineSession)
    requires
        s.wf(),
        s.phase == Phase::Done,
    ensures
        s.steps@ == canonical_steps(s.use_new_context),
{
}

/// Two sessions run one after the other see their canonical sequences as
/// contiguous blocks: the combined trace of steps holds no interleaving.
pub proof fn lemma_sessions_serialize(a: EngineSession, b: EngineSession)
    requires
        a.wf(),
        b.wf(),
        a.phase == Phase::Done,
        b.phase == Phase::Done,
    ensures
        a.steps@ + b.steps@ == canonical_steps(a.use_new_context) + canonical_steps(
            b.use_new_context,
        ),
{
}

/// Decodes the bytes an engine invocation produced: `size` bytes of the
/// fixed-capacity scratch buffer as UTF-8 text.  A size beyond the buffer
/// and bytes that are not UTF-8 are engine failures, reported as such.
pub fn decode_engine_output(buffer: &Vec<u8>, size: usize) -> (r: Result<String, ErrorResponse>)
    ensures
        match r {
            Ok(s) => {
                &&& size <= buffer@.len()
                &&& vstd::utf8::valid_utf8(buffer@.subrange(0, size as int))
                &&& s@ == vstd::utf8::decode_utf8(buffer@.subrange(0, size as int))
            },
            Err(e) => {
                &&& e.kind == ErrorKind::EngineFailure
                &&& (size > buffer@.len() || !vstd::utf8::valid_utf8(
                    buffer@.subrange(0, size as int),
                ))
            },
        },
{
    if size > buffer.len() {
        return Err(
            ErrorResponse::new(
                ErrorKind::EngineFailure,
                "The engine output exceeds the output buffer capacity.",
            ),
        );
    }
    let out = crate::bytes::sub_bytes(buffer.as_slice(), 0, size);
    match crate::convert::string_from_utf8(out) {
        Some(s) => Ok(s),
        None => Err(
            ErrorResponse::new(
                ErrorKind::EngineFailure,
                "Failed to decode the engine output as UTF-8 text.",
            ),
        ),
    }
}

} // verus!
