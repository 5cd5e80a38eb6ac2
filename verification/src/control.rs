use vstd::prelude::*;
use vstd::string::StringExecFns;

verus! {

/// The externally observable state of one run's control object.
#[derive(Clone, Copy, PartialEq, Eq, Structural, Debug)]
pub enum ExecutionStatus {
    Idle,
    Running,
    Paused,
    Stopping,
}

/// The terminal signal a checkpoint returns once a stop took effect (or no
/// run is active), carrying the human-readable stop reason.
pub struct ExecutionInterrupt {
    pub reason: String,
}

/// What a checkpoint tells the engine: go on, suspend until resumed, or
/// abort the run.
pub enum CheckpointSignal {
    Proceed,
    Wait,
    Interrupted(ExecutionInterrupt),
}

/// The shared run-control state machine. A run owns one value; the caller
/// side issues pause/resume/stop requests against it while the engine polls
/// `checkpoint`. Blocking while paused is the embedder's concern: it holds
/// this value behind its lock and waits whenever `checkpoint` says `Wait`.
pub struct ExecutionControl {
    pub status: ExecutionStatus,
    pub stop_reason: Option<String>,
}

impl ExecutionControl {
    /// A run starts in the `Running` state with no stop reason recorded.
    pub fn new() -> (r: Self)
        ensures
            r.status is Running,
            r.stop_reason is None,
    {
        ExecutionControl { status: ExecutionStatus::Running, stop_reason: None }
    }

    /// The current state, without blocking.
    pub fn status(&self) -> (r: ExecutionStatus)
        ensures
            r == self.status,
    {
        self.status
    }

    /// Running becomes Paused; every other state is left untouched.
    pub fn request_pause(&mut self)
        ensures
            old(self).status is Running ==> *final(self) == (ExecutionControl {
                status: ExecutionStatus::Paused,
                ..*old(self)
            }),
            !(old(self).status is Running) ==> *final(self) == *old(self),
    {
        if self.status == ExecutionStatus::Running {
            self.status = ExecutionStatus::Paused;
        }
    }

    /// Paused becomes Running; every other state is left untouched.
    pub fn request_resume(&mut self)
        ensures
            old(self).status is Paused ==> *final(self) == (ExecutionControl {
                status: ExecutionStatus::Running,
                ..*old(self)
            }),
            !(old(self).status is Paused) ==> *final(self) == *old(self),
    {
        if self.status == ExecutionStatus::Paused {
            self.status = ExecutionStatus::Running;
        }
    }

    /// Unconditionally moves to Stopping and records the reason.
    pub fn request_stop(&mut self, reason: Option<String>)
        ensures
            final(self).status is Stopping,
            final(self).stop_reason == reason,
    {
        self.status = ExecutionStatus::Stopping;
        self.stop_reason = reason;
    }

    /// The cooperative cancellation poll: Running proceeds, Paused asks the
    /// caller to wait, Stopping and Idle end the run with an interrupt. The
    /// interrupt carries the recorded stop reason, or a fixed wording when
    /// none was recorded or no run is active.
    pub fn checkpoint(&self) -> (r: CheckpointSignal)
        ensures
            self.status is Running ==> r is Proceed,
            self.status is Paused ==> r is Wait,
            self.status is Stopping ==> (r matches CheckpointSignal::Interrupted(i)
                && (match self.stop_reason {
                    Some(reason) => i.reason@ == reason@,
                    None => i.reason@ == "Execution interrupted"@,
                })),
            self.status is Idle ==> (r matches CheckpointSignal::Interrupted(i) && i.reason@
                == "No active run"@),
    {
        match self.status {
            ExecutionStatus::Running => CheckpointSignal::Proceed,
            ExecutionStatus::Paused => CheckpointSignal::Wait,
            ExecutionStatus::Stopping => {
                let reason = match &self.stop_reason {
                    Some(r) => r.clone(),
                    None => String::from_str("Execution interrupted"),
                };
                CheckpointSignal::Interrupted(ExecutionInterrupt { reason })
            },
            ExecutionStatus::Idle => CheckpointSignal::Interrupted(
                ExecutionInterrupt { reason: String::from_str("No active run") },
            ),
        }
    }

    /// Once the run is over the control object returns to Idle and forgets
    /// any stop reason, so a caller can observe final status and reuse it.
    pub fn mark_finished(&mut self)
        ensures
            final(self).status is Idle,
            final(self).stop_reason is None,
    {
        self.status = ExecutionStatus::Idle;
        self.stop_reason = None;
    }
}

/// Pausing is a pure delay: a pause request followed by a resume request
/// leaves the control state exactly as it was, and while paused the
/// checkpoint only ever asks the engine to wait - it neither advances nor
/// aborts the run, so the sequence of operations the engine performs is the
/// same as in an unpaused run.
pub proof fn lemma_pause_resume_is_identity(c: ExecutionControl)
    requires
        c.status is Running,
    ensures
        ({
            let paused = ExecutionControl { status: ExecutionStatus::Paused, ..c };
            let resumed = ExecutionControl { status: ExecutionStatus::Running, ..paused };
            resumed == c
        }),
{
}

} // verus!
