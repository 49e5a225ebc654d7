//! The per-file processing task's state machine.
//!
//! Each qualifying event spawns one task per affected path; the task reads
//! the file, embeds its content, and upserts the resulting points. The task
//! is a one-shot: every step either advances to the next stage or fails,
//! no stage is ever revisited, and a terminal stage is never left.

use vstd::prelude::*;

verus! {

/// Where a per-file task stands.
#[derive(Clone, Copy, Debug, PartialEq, Eq, Structural)]
pub enum TaskState {
    /// Spawned, nothing done yet.
    Pending,
    /// Reading the file's content.
    Reading,
    /// Waiting for the embedding service.
    Embedding,
    /// Waiting for the vector store to acknowledge the upsert.
    Upserting,
    /// Every point of the file is durably stored.
    Done,
    /// Some step failed; the task is abandoned without retry.
    Failed,
}

/// The stage a task reaches after one step: forward on success, `Failed`
/// on failure.
pub open spec fn spec_advance(s: TaskState, ok: bool) -> TaskState {
    if s == TaskState::Done || s == TaskState::Failed {
        s
    } else if !ok {
        TaskState::Failed
    } else {
        match s {
            TaskState::Pending => TaskState::Reading,
            TaskState::Reading => TaskState::Embedding,
            TaskState::Embedding => TaskState::Upserting,
            _ => TaskState::Done,
        }
    }
}

impl TaskState {
    /// How far along the task is; terminal stages rank highest.
    pub open spec fn rank(self) -> nat {
        match self {
            TaskState::Pending => 0,
            TaskState::Reading => 1,
            TaskState::Embedding => 2,
            TaskState::Upserting => 3,
            TaskState::Done => 4,
            TaskState::Failed => 4,
        }
    }

    /// Whether the task has ended, successfully or not.
    pub open spec fn spec_is_terminal(self) -> bool {
        self == TaskState::Done || self == TaskState::Failed
    }

    #[verifier::when_used_as_spec(spec_is_terminal)]
    pub fn is_terminal(self) -> (r: bool)
        ensures
            r == self.spec_is_terminal(),
    {
        match self {
            TaskState::Done => true,
            TaskState::Failed => true,
            _ => false,
        }
    }

    /// One step of the task: the host reports whether the current stage's
    /// work succeeded, and the state moves strictly forward.
    pub fn advance(self, ok: bool) -> (next: TaskState)
        requires
            !self.spec_is_terminal(),
        ensures
            next == spec_advance(self, ok),
            next.rank() > self.rank(),
    {
        if !ok {
            TaskState::Failed
        } else {
            match self {
                TaskState::Pending => TaskState::Reading,
                TaskState::Reading => TaskState::Embedding,
                TaskState::Embedding => TaskState::Upserting,
                _ => TaskState::Done,
            }
        }
    }
}

/// One-shot law: a step from a non-terminal stage strictly increases the
/// rank, so no stage is ever revisited and every task reaches a terminal
/// stage within four steps; a step from a terminal stage changes nothing.
pub proof fn lemma_task_one_shot(s: TaskState, ok: bool)
    ensures
        !s.spec_is_terminal() ==> spec_advance(s, ok).rank() > s.rank(),
        s.spec_is_terminal() ==> spec_advance(s, ok) == s,
{
}

} // verus!
