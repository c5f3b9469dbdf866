//! The download orchestration, as a state machine.  The surrounding program
//! performs each emitted action (checking the target directory, fetching the
//! secret, creating one file) and hands the outcome back as the next event;
//! every decision in between is made here.

use crate::bundle::{map_of, sorted_unique};
use crate::codec::{decode, decode_err_message, parse_payload};
use crate::errors::{ErrorKind, SyncError};
use crate::materialize::{materialize_plan, plan_matches, FilePlan};
use vstd::prelude::*;

verus! {

/// What the surrounding program found the target directory to be.
#[derive(Clone, Copy, Debug, PartialEq, Eq, Structural)]
pub enum DirStatus {
    /// The path does not exist.
    Missing,
    /// The path is a directory with no entries.
    EmptyDir,
    /// The path is a directory with entries.
    NonEmptyDir,
    /// The path exists and is not a directory.
    NotADir,
}

/// Where the download stands.
pub enum GetState {
    /// Waiting for the target directory's status.
    AwaitDir,
    /// Waiting for the target directory to be created.
    AwaitCreate,
    /// Waiting for the secret's payload.
    AwaitFetch,
    /// Writing files; these remain after the one just requested.
    Writing { remaining: Vec<FilePlan> },
    /// The download finished.
    Done,
    /// The download failed.
    Failed,
}

/// What the surrounding program reports back.
pub enum GetEvent {
    /// The target directory's status.
    DirStatus { status: DirStatus },
    /// Whether creating the target directory succeeded.
    DirCreated { result: Result<(), String> },
    /// The fetched payload: `Ok(None)` when the secret has no content,
    /// `Err` with the store's message on failure.
    Fetched { result: Result<Option<String>, String> },
    /// Whether the requested file was created and written.
    FileWritten { result: Result<(), String> },
}

/// What the surrounding program is asked to do next.
pub enum GetAction {
    /// Create the target directory and its missing parents.
    CreateDir,
    /// Fetch the secret's payload from the store.
    Fetch,
    /// Create this file exclusively, with its mode, and write its content.
    CreateFile { plan: FilePlan },
    /// The download is complete.
    Finish,
    /// Stop and report this error.
    Fail { error: SyncError },
    /// Nothing; the machine has already stopped.
    Halt,
}

/// The message with which a usable target directory is refused.
pub open spec fn outdir_msg() -> Seq<char> {
    "the output directory is not an empty directory"@
}

/// The message when the store holds no payload for the secret.
pub open spec fn no_content_msg() -> Seq<char> {
    "the secret has no content"@
}

/// The step that begins writing a decoded bundle: either there is nothing to
/// write and the download is done, or the first file of the sorted plan is
/// requested and the rest is kept.
pub open spec fn get_writes_ok(mm: Map<Seq<char>, Seq<char>>, r: (GetState, GetAction)) -> bool {
    exists|es: Seq<(Seq<char>, Seq<char>)>|
        sorted_unique(es) && map_of(es) == mm && (if es.len() == 0 {
            r == (GetState::Done, GetAction::Finish)
        } else {
            &&& r.0 matches GetState::Writing { remaining }
            &&& r.1 matches GetAction::CreateFile { plan }
            &&& plan_matches(seq![plan] + remaining@, es)
        })
}

/// The transition relation of the download.
pub open spec fn get_rel(s: GetState, e: GetEvent, r: (GetState, GetAction)) -> bool {
    match (s, e) {
        (GetState::AwaitDir, GetEvent::DirStatus { status }) => match status {
            DirStatus::EmptyDir => r == (GetState::AwaitFetch, GetAction::Fetch),
            DirStatus::Missing => r == (GetState::AwaitCreate, GetAction::CreateDir),
            _ => r.0 == GetState::Failed && (r.1 matches GetAction::Fail { error }
                && error.spec_kind() == ErrorKind::Validation && error.spec_message()
                == outdir_msg()),
        },
        (GetState::AwaitCreate, GetEvent::DirCreated { result }) => match result {
            Ok(_) => r == (GetState::AwaitFetch, GetAction::Fetch),
            Err(m) => r.0 == GetState::Failed && (r.1 matches GetAction::Fail { error }
                && error.spec_kind() == ErrorKind::FileSystem && error.spec_message() == m@),
        },
        (GetState::AwaitFetch, GetEvent::Fetched { result }) => match result {
            Err(m) => r.0 == GetState::Failed && (r.1 matches GetAction::Fail { error }
                && error.spec_kind() == ErrorKind::Store && error.spec_message() == m@),
            Ok(None) => r.0 == GetState::Failed && (r.1 matches GetAction::Fail { error }
                && error.spec_kind() == ErrorKind::Store && error.spec_message()
                == no_content_msg()),
            Ok(Some(payload)) => match parse_payload(payload@) {
                None => r.0 == GetState::Failed && (r.1 matches GetAction::Fail { error }
                    && error.spec_kind() == ErrorKind::Decode && error.spec_message()
                    == decode_err_message()),
                Some(mm) => get_writes_ok(mm, r),
            },
        },
        (GetState::Writing { remaining }, GetEvent::FileWritten { result }) => match result {
            Err(m) => r.0 == GetState::Failed && (r.1 matches GetAction::Fail { error }
                && error.spec_kind() == ErrorKind::FileSystem && error.spec_message() == m@),
            Ok(_) => {
                if remaining@.len() == 0 {
                    r == (GetState::Done, GetAction::Finish)
                } else {
                    &&& r.1 matches GetAction::CreateFile { plan }
                    &&& plan == remaining@[0]
                    &&& r.0 matches GetState::Writing { remaining: rest }
                    &&& rest@ == remaining@.skip(1)
                }
            },
        },
        (GetState::Done, _) => r == (GetState::Done, GetAction::Halt),
        _ => r == (GetState::Failed, GetAction::Halt),
    }
}

fn validation_outdir_err() -> (e: SyncError)
    ensures
        e.spec_kind() == ErrorKind::Validation,
        e.spec_message() == outdir_msg(),
{
    SyncError::Validation {
        message: String::from_str("the output directory is not an empty directory"),
    }
}

/// One step of the download: consumes the current state and the observed
/// event, and yields the next state and the next action.
pub fn get_step(s: GetState, e: GetEvent) -> (r: (GetState, GetAction))
    ensures
        get_rel(s, e, r),
{
    match (s, e) {
        (GetState::AwaitDir, GetEvent::DirStatus { status }) => match status {
            DirStatus::EmptyDir => (GetState::AwaitFetch, GetAction::Fetch),
            DirStatus::Missing => (GetState::AwaitCreate, GetAction::CreateDir),
            _ => (GetState::Failed, GetAction::Fail { error: validation_outdir_err() }),
        },
        (GetState::AwaitCreate, GetEvent::DirCreated { result }) => match result {
            Ok(_) => (GetState::AwaitFetch, GetAction::Fetch),
            Err(m) => (
                GetState::Failed,
                GetAction::Fail { error: SyncError::FileSystem { message: m } },
            ),
        },
        (GetState::AwaitFetch, GetEvent::Fetched { result }) => match result {
            Err(m) => (GetState::Failed, GetAction::Fail { error: SyncError::Store { message: m } }),
            Ok(None) => (
                GetState::Failed,
                GetAction::Fail {
                    error: SyncError::Store {
                        message: String::from_str("the secret has no content"),
                    },
                },
            ),
            Ok(Some(payload)) => match decode(payload.as_str()) {
                Err(error) => (GetState::Failed, GetAction::Fail { error }),
                Ok(b) => {
                    let ghost es = b.entries_seq();
                    let mut plan = materialize_plan(&b);
                    if plan.len() == 0 {
                        let r = (GetState::Done, GetAction::Finish);
                        proof {
                            assert(sorted_unique(es) && map_of(es) == b@ && es.len() == 0);
                        }
                        r
                    } else {
                        let first = plan.remove(0);
                        let r = (
                            GetState::Writing { remaining: plan },
                            GetAction::CreateFile { plan: first },
                        );
                        proof {
                            assert(sorted_unique(es) && map_of(es) == b@);
                            assert(r.0 matches GetState::Writing { remaining } && r.1
                                matches GetAction::CreateFile { plan: p2 } && plan_matches(
                                seq![p2] + remaining@,
                                es,
                            ));
                        }
                        r
                    }
                },
            },
        },
        (GetState::Writing { remaining }, GetEvent::FileWritten { result }) => match result {
            Err(m) => (
                GetState::Failed,
                GetAction::Fail { error: SyncError::FileSystem { message: m } },
            ),
            Ok(_) => {
                let mut remaining = remaining;
                if remaining.len() == 0 {
                    (GetState::Done, GetAction::Finish)
                } else {
                    let first = remaining.remove(0);
                    (GetState::Writing { remaining }, GetAction::CreateFile { plan: first })
                }
            },
        },
        (GetState::Done, _) => (GetState::Done, GetAction::Halt),
        _ => (GetState::Failed, GetAction::Halt),
    }
}

/// A whole exchange: each step's states, event and action are related by
/// the transition relation.
pub open spec fn get_trace_ok(
    states: Seq<GetState>,
    events: Seq<GetEvent>,
    actions: Seq<GetAction>,
) -> bool {
    &&& states.len() == events.len() + 1
    &&& actions.len() == events.len()
    &&& forall|i: int|
        0 <= i < events.len() ==> get_rel(states[i], events[i], (states[i + 1], actions[i]))
}

proof fn lemma_get_failed_absorbs(
    states: Seq<GetState>,
    events: Seq<GetEvent>,
    actions: Seq<GetAction>,
    k: int,
)
    requires
        get_trace_ok(states, events, actions),
        0 <= k < states.len(),
        states[k] == GetState::Failed,
    ensures
        forall|i: int| k <= i < actions.len() ==> actions[i] == GetAction::Halt,
        forall|i: int| k <= i < states.len() ==> states[i] == GetState::Failed,
    decreases states.len() - k,
{
    if k < actions.len() {
        assert(get_rel(states[k], events[k], (states[k + 1], actions[k])));
        assert(states[k + 1] == GetState::Failed);
        assert(actions[k] == GetAction::Halt);
        lemma_get_failed_absorbs(states, events, actions, k + 1);
    }
}

/// A download whose target directory is not an empty directory fails with a
/// validation error at once: the first action reports it, and no action of
/// the whole exchange ever fetches the secret or creates a file.
pub proof fn lemma_get_rejects_unusable_dir(
    states: Seq<GetState>,
    events: Seq<GetEvent>,
    actions: Seq<GetAction>,
)
    requires
        get_trace_ok(states, events, actions),
        states.len() > 1,
        states[0] == GetState::AwaitDir,
        events[0] matches GetEvent::DirStatus { status } && (status == DirStatus::NonEmptyDir
            || status == DirStatus::NotADir),
    ensures
        actions[0] matches GetAction::Fail { error } && error.spec_kind() == ErrorKind::Validation
            && error.spec_message() == outdir_msg(),
        forall|i: int|
            0 <= i < actions.len() ==> !(#[trigger] actions[i] matches GetAction::CreateFile { .. })
                && actions[i] != GetAction::Fetch,
{
    assert(get_rel(states[0], events[0], (states[1], actions[0])));
    assert(states[1] == GetState::Failed);
    lemma_get_failed_absorbs(states, events, actions, 1);
}

} // verus!
