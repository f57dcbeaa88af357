//! The per-invocation capture session. One invocation walks the states
//! `Idle -> ScratchCreated -> Editing -> Read -> {Abandoned | Validated}
//! -> {Skipped | Committed}`, or ends in a failure state. The caller
//! performs the filesystem and subprocess work and reports each outcome as
//! an event; the step function here decides the next state, and no
//! transition ever re-enters an earlier state.

use vstd::prelude::*;

use crate::errors::GardenError;

verus! {

/// Where one capture invocation stands.
#[derive(Clone, Copy, Debug, PartialEq, Eq, Structural)]
pub enum SessionState {
    /// Nothing has happened yet.
    Idle,
    /// The scratch file exists, seeded with the skeleton.
    ScratchCreated,
    /// The editor runs; the session blocks until it exits.
    Editing,
    /// The scratch content has been read back as text.
    Read,
    /// The draft holds nothing beyond the seeded skeleton.
    Abandoned,
    /// The draft holds real content and may be persisted.
    Validated,
    /// Terminal: nothing was saved, and that is not an error.
    Skipped,
    /// Terminal: the entry stands in the garden.
    Committed,
    /// Terminal: the invocation failed at the step the error names.
    Failed(GardenError),
}

/// What the caller reports after doing the work the current state asks of
/// it.
#[derive(Clone, Copy, Debug)]
pub enum SessionEvent {
    /// The scratch file was created, or could not be.
    ScratchMade { ok: bool },
    /// The editor subprocess started, or could not be found or spawned.
    EditorStarted { ok: bool },
    /// The editor exited: with status zero or not, and the file read back
    /// as UTF-8 text or not.
    EditorExited { exited_ok: bool, decoded: bool },
    /// The library classified the draft as abandoned or not.
    Classified { abandoned: bool },
    /// An abandoned draft was dropped.
    Dropped,
    /// The entry was persisted; `root_ok` reports whether the garden root
    /// was usable, `stored` whether the write-and-rename went through.
    Persisted { root_ok: bool, stored: bool },
}

impl SessionState {
    /// Terminal states: the invocation is over, for good or ill.
    pub open spec fn is_terminal(self) -> bool {
        match self {
            SessionState::Skipped => true,
            SessionState::Committed => true,
            SessionState::Failed(_) => true,
            _ => false,
        }
    }

    /// How far along the pipeline a state stands. Every transition moves
    /// strictly upward, which is how the machine never re-enters an
    /// earlier state.
    pub open spec fn rank(self) -> int {
        match self {
            SessionState::Idle => 0,
            SessionState::ScratchCreated => 1,
            SessionState::Editing => 2,
            SessionState::Read => 3,
            SessionState::Abandoned => 4,
            SessionState::Validated => 4,
            SessionState::Skipped => 5,
            SessionState::Committed => 5,
            SessionState::Failed(_) => 5,
        }
    }

    /// The event a state expects from the caller.
    pub open spec fn expects(self, e: SessionEvent) -> bool {
        match (self, e) {
            (SessionState::Idle, SessionEvent::ScratchMade { .. }) => true,
            (SessionState::ScratchCreated, SessionEvent::EditorStarted { .. }) => true,
            (SessionState::Editing, SessionEvent::EditorExited { .. }) => true,
            (SessionState::Read, SessionEvent::Classified { .. }) => true,
            (SessionState::Abandoned, SessionEvent::Dropped) => true,
            (SessionState::Validated, SessionEvent::Persisted { .. }) => true,
            _ => false,
        }
    }

    /// Where an event takes a state. An expected event advances the
    /// machine; anything else, including any event in a terminal state,
    /// leaves the state as it stands.
    pub open spec fn next_state(self, e: SessionEvent) -> SessionState {
        match (self, e) {
            (SessionState::Idle, SessionEvent::ScratchMade { ok }) => if ok {
                SessionState::ScratchCreated
            } else {
                SessionState::Failed(GardenError::ScratchCreation)
            },
            (SessionState::ScratchCreated, SessionEvent::EditorStarted { ok }) => if ok {
                SessionState::Editing
            } else {
                SessionState::Failed(GardenError::EditorLaunch)
            },
            (SessionState::Editing, SessionEvent::EditorExited { exited_ok, decoded }) => if !exited_ok {
                SessionState::Failed(GardenError::EditorLaunch)
            } else if !decoded {
                SessionState::Failed(GardenError::InvalidContent)
            } else {
                SessionState::Read
            },
            (SessionState::Read, SessionEvent::Classified { abandoned }) => if abandoned {
                SessionState::Abandoned
            } else {
                SessionState::Validated
            },
            (SessionState::Abandoned, SessionEvent::Dropped) => SessionState::Skipped,
            (SessionState::Validated, SessionEvent::Persisted { root_ok, stored }) => if !root_ok {
                SessionState::Failed(GardenError::GardenRoot)
            } else if !stored {
                SessionState::Failed(GardenError::Persist)
            } else {
                SessionState::Committed
            },
            (s, _) => s,
        }
    }

    /// Drives the session one step, exactly as `next_state` states it.
    pub fn step(self, e: SessionEvent) -> (next: SessionState)
        ensures
            next == self.next_state(e),
    {
        match (self, e) {
            (SessionState::Idle, SessionEvent::ScratchMade { ok }) => if ok {
                SessionState::ScratchCreated
            } else {
                SessionState::Failed(GardenError::ScratchCreation)
            },
            (SessionState::ScratchCreated, SessionEvent::EditorStarted { ok }) => if ok {
                SessionState::Editing
            } else {
                SessionState::Failed(GardenError::EditorLaunch)
            },
            (SessionState::Editing, SessionEvent::EditorExited { exited_ok, decoded }) => if !exited_ok {
                SessionState::Failed(GardenError::EditorLaunch)
            } else if !decoded {
                SessionState::Failed(GardenError::InvalidContent)
            } else {
                SessionState::Read
            },
            (SessionState::Read, SessionEvent::Classified { abandoned }) => if abandoned {
                SessionState::Abandoned
            } else {
                SessionState::Validated
            },
            (SessionState::Abandoned, SessionEvent::Dropped) => SessionState::Skipped,
            (SessionState::Validated, SessionEvent::Persisted { root_ok, stored }) => if !root_ok {
                SessionState::Failed(GardenError::GardenRoot)
            } else if !stored {
                SessionState::Failed(GardenError::Persist)
            } else {
                SessionState::Committed
            },
            (s, _) => s,
        }
    }
}

/// No transition re-enters an earlier state: whatever the caller reports,
/// the machine only moves forward; an expected event moves it strictly
/// forward, and a terminal state never moves at all.
pub proof fn lemma_session_never_goes_back(s: SessionState, e: SessionEvent)
    ensures
        s.next_state(e).rank() >= s.rank(),
        s.expects(e) ==> s.next_state(e).rank() > s.rank(),
        s.is_terminal() ==> s.next_state(e) == s,
{
}

} // verus!
