//! The upload orchestration, as a state machine.  The surrounding program
//! performs each emitted action (scanning the source directory, prompting
//! the operator, replacing the remote secret) and hands the outcome back as
//! the next event; every decision in between is made here.

use crate::bundle::Bundle;
use crate::codec::{encode, encode_spec};
use crate::confirm::{spec_answer, Answer};
use crate::errors::{ErrorKind, SyncError};
use crate::scan::{first_bad, scan_entries, scan_err_message, scan_map, scan_ok, RawEntry};
use vstd::prelude::*;

verus! {

/// Where the upload stands.
pub enum PutState {
    /// Waiting for the source directory's entries.
    AwaitScan,
    /// Waiting for a line of operator input about this bundle.
    Confirming { bundle: Bundle },
    /// Waiting for the store's answer to the replace request.
    AwaitReplace,
    /// The upload finished.
    Done,
    /// The operator declined; the upload ended successfully with nothing
    /// written.
    Cancelled,
    /// The upload failed.
    Failed,
}

/// What the surrounding program reports back.
pub enum PutEvent {
    /// The observed entries of the source directory, or how the program
    /// displays the source path if the path is not a directory.
    Scanned { result: Result<Vec<RawEntry>, String> },
    /// One line of operator input.
    Line { input: String },
    /// The store's answer: the new secret version, if it reported one, or
    /// its message on failure.
    Replaced { result: Result<Option<String>, String> },
}

/// What the surrounding program is asked to do next.
pub enum PutAction {
    /// Show the sorted file names that will replace the remote content,
    /// warn that the existing content is discarded wholesale, and read a
    /// line of operator input.
    Prompt { names: Vec<String> },
    /// Ask again and read another line.
    Reprompt,
    /// Replace the remote secret with this payload, under this idempotency
    /// token.
    Replace { payload: String, token: String },
    /// Report the new secret version to the operator.
    ReportVersion { version: String },
    /// The upload is complete.
    Finish,
    /// The operator declined: stop successfully without contacting the
    /// store.
    Cancel,
    /// Stop and report this error.
    Fail { error: SyncError },
    /// Nothing; the machine has already stopped.
    Halt,
}

/// The message with which a source path that is not a directory is refused.
pub open spec fn indir_msg(display: Seq<char>) -> Seq<char> {
    "the input directory is not a directory: "@ + display
}

/// The transition relation of the upload.
pub open spec fn put_rel(s: PutState, e: PutEvent, r: (PutState, PutAction)) -> bool {
    match (s, e) {
        (PutState::AwaitScan, PutEvent::Scanned { result: Err(display) }) => {
            r.0 == PutState::Failed && (r.1 matches PutAction::Fail { error }
                && error.spec_kind() == ErrorKind::Validation && error.spec_message() == indir_msg(
                display@,
            ))
        },
        (PutState::AwaitScan, PutEvent::Scanned { result: Ok(entries) }) => {
            if scan_ok(entries@) {
                &&& r.0 matches PutState::Confirming { bundle }
                &&& bundle.wf()
                &&& bundle@ == scan_map(entries@)
                &&& r.1 matches PutAction::Prompt { names }
                &&& names@.len() == bundle.entries_seq().len()
                &&& forall|i: int| 0 <= i < names@.len() ==> names@[i]@ == bundle.entries_seq()[i].0
            } else {
                r.0 == PutState::Failed && (r.1 matches PutAction::Fail { error }
                    && error.spec_kind() == ErrorKind::Encoding && error.spec_message()
                    == scan_err_message(entries@[first_bad(entries@)]))
            }
        },
        (PutState::Confirming { bundle }, PutEvent::Line { input }) => match spec_answer(input@) {
            Answer::Affirm => {
                &&& r.0 == PutState::AwaitReplace
                &&& r.1 matches PutAction::Replace { payload, token }
                &&& payload@ == encode_spec(bundle.entries_seq())
                &&& token@.len() == 36
            },
            Answer::Deny => r == (PutState::Cancelled, PutAction::Cancel),
            Answer::Reprompt => r == (PutState::Confirming { bundle }, PutAction::Reprompt),
        },
        (PutState::AwaitReplace, PutEvent::Replaced { result }) => match result {
            Ok(Some(version)) => r == (PutState::Done, PutAction::ReportVersion { version }),
            Ok(None) => r == (PutState::Done, PutAction::Finish),
            Err(m) => r.0 == PutState::Failed && (r.1 matches PutAction::Fail { error }
                && error.spec_kind() == ErrorKind::Store && error.spec_message() == m@),
        },
        (PutState::Done, _) => r == (PutState::Done, PutAction::Halt),
        (PutState::Cancelled, _) => r == (PutState::Cancelled, PutAction::Halt),
        _ => r == (PutState::Failed, PutAction::Halt),
    }
}

/// Relies on `uuid::Uuid::new_v4` and its hyphenated display form: a fresh
/// random identifier written as 36 characters.  Nothing further can be said
/// of a random value.
#[verifier::external_body]
fn fresh_token() -> (r: String)
    ensures
        r@.len() == 36,
{
    uuid::Uuid::new_v4().to_string()
}

/// One step of the upload: consumes the current state and the observed
/// event, and yields the next state and the next action.
pub fn put_step(s: PutState, e: PutEvent) -> (r: (PutState, PutAction))
    ensures
        put_rel(s, e, r),
{
    match (s, e) {
        (PutState::AwaitScan, PutEvent::Scanned { result: Err(display) }) => {
            let message = String::from_str("the input directory is not a directory: ").concat(
                display.as_str(),
            );
            (PutState::Failed, PutAction::Fail { error: SyncError::Validation { message } })
        },
        (PutState::AwaitScan, PutEvent::Scanned { result: Ok(entries) }) => {
            match scan_entries(entries) {
                Err(error) => (PutState::Failed, PutAction::Fail { error }),
                Ok(bundle) => {
                    let names = bundle.names();
                    (PutState::Confirming { bundle }, PutAction::Prompt { names })
                },
            }
        },
        (PutState::Confirming { bundle }, PutEvent::Line { input }) => {
            match crate::confirm::classify_answer(input.as_str()) {
                Answer::Affirm => {
                    let payload = encode(&bundle);
                    let token = fresh_token();
                    (PutState::AwaitReplace, PutAction::Replace { payload, token })
                },
                Answer::Deny => (PutState::Cancelled, PutAction::Cancel),
                Answer::Reprompt => (PutState::Confirming { bundle }, PutAction::Reprompt),
            }
        },
        (PutState::AwaitReplace, PutEvent::Replaced { result }) => match result {
            Ok(Some(version)) => (PutState::Done, PutAction::ReportVersion { version }),
            Ok(None) => (PutState::Done, PutAction::Finish),
            Err(m) => (PutState::Failed, PutAction::Fail { error: SyncError::Store { message: m } }),
        },
        (PutState::Done, _) => (PutState::Done, PutAction::Halt),
        (PutState::Cancelled, _) => (PutState::Cancelled, PutAction::Halt),
        _ => (PutState::Failed, PutAction::Halt),
    }
}

/// A whole exchange: each step's states, event and action are related by
/// the transition relation.
pub open spec fn put_trace_ok(
    states: Seq<PutState>,
    events: Seq<PutEvent>,
    actions: Seq<PutAction>,
) -> bool {
    &&& states.len() == events.len() + 1
    &&& actions.len() == events.len()
    &&& forall|i: int|
        0 <= i < events.len() ==> put_rel(states[i], events[i], (states[i + 1], actions[i]))
}

proof fn lemma_put_stopped_absorbs(
    states: Seq<PutState>,
    events: Seq<PutEvent>,
    actions: Seq<PutAction>,
    k: int,
)
    requires
        put_trace_ok(states, events, actions),
        0 <= k < states.len(),
        states[k] == PutState::Failed || states[k] == PutState::Cancelled,
    ensures
        forall|i: int| k <= i < actions.len() ==> actions[i] == PutAction::Halt,
    decreases states.len() - k,
{
    if k < actions.len() {
        assert(put_rel(states[k], events[k], (states[k + 1], actions[k])));
        assert(states[k + 1] == states[k]);
        assert(actions[k] == PutAction::Halt);
        lemma_put_stopped_absorbs(states, events, actions, k + 1);
    }
}

/// An upload whose scan finds a file whose name or content is not valid
/// text fails with an encoding error at once: the first action reports it,
/// and no action of the whole exchange ever writes to the remote store.
pub proof fn lemma_put_rejects_bad_scan(
    states: Seq<PutState>,
    events: Seq<PutEvent>,
    actions: Seq<PutAction>,
)
    requires
        put_trace_ok(states, events, actions),
        states.len() > 1,
        states[0] == PutState::AwaitScan,
        events[0] matches PutEvent::Scanned { result: Ok(entries) } && !scan_ok(entries@),
    ensures
        actions[0] matches PutAction::Fail { error } && error.spec_kind() == ErrorKind::Encoding,
        forall|i: int| 0 <= i < actions.len() ==> !(#[trigger] actions[i] matches PutAction::Replace { .. }),
{
    assert(put_rel(states[0], events[0], (states[1], actions[0])));
    assert(states[1] == PutState::Failed);
    lemma_put_stopped_absorbs(states, events, actions, 1);
}

/// Declining at the confirmation gate ends the upload successfully and
/// without a single write: the first action cancels, and no action of the
/// whole exchange ever writes to the remote store.
pub proof fn lemma_put_decline_writes_nothing(
    states: Seq<PutState>,
    events: Seq<PutEvent>,
    actions: Seq<PutAction>,
)
    requires
        put_trace_ok(states, events, actions),
        states.len() > 1,
        states[0] matches PutState::Confirming { .. },
        events[0] matches PutEvent::Line { input } && spec_answer(input@) == Answer::Deny,
    ensures
        actions[0] == PutAction::Cancel,
        forall|i: int| 0 <= i < actions.len() ==> !(#[trigger] actions[i] matches PutAction::Replace { .. }),
{
    assert(put_rel(states[0], events[0], (states[1], actions[0])));
    assert(states[1] == PutState::Cancelled);
    lemma_put_stopped_absorbs(states, events, actions, 1);
}

} // verus!
