//! The process-lifecycle model: an exclusively owned handle to one spawned
//! child, and the snapshot of its termination result.
//!
//! Blocking on the operating system's wait primitive is the collaborator's
//! job; this module decides what a wait returns. The first recorded
//! termination is the process's one terminal status: waiting again returns
//! that same status, whatever the operating system reports later.

use vstd::prelude::*;

verus! {

/// Immutable snapshot of a process's termination result.
#[derive(Debug, Clone, Copy, PartialEq, Eq, Structural)]
pub enum ExitStatus {
    Status(u32),
}

impl ExitStatus {
    /// Whether the process terminated in a state considered successful:
    /// a normal exit with status code zero, and nothing else.
    pub fn success(&self) -> (r: bool)
        ensures
            r == (*self == ExitStatus::Status(0)),
    {
        match self {
            ExitStatus::Status(code) => *code == 0,
        }
    }
}

/// Exclusively owned record of one spawned child process: the opaque
/// identifier of the native handle the collaborator holds, and the terminal
/// status once the child has been waited for. The type is not `Clone`, so
/// the underlying native resource cannot be released twice.
pub struct Process {
    handle: u64,
    status: Option<ExitStatus>,
}

impl Process {
    /// The opaque identifier of the native process handle.
    pub closed spec fn handle_id(&self) -> u64 {
        self.handle
    }

    /// The terminal status recorded so far, if the process was waited for.
    pub closed spec fn recorded(&self) -> Option<ExitStatus> {
        self.status
    }

    /// A record for a freshly spawned child: nothing recorded yet.
    pub fn new(handle: u64) -> (p: Process)
        ensures
            p.handle_id() == handle,
            p.recorded() is None,
    {
        Process { handle, status: None }
    }

    /// The opaque identifier of the native process handle.
    pub fn handle(&self) -> (r: u64)
        ensures
            r == self.handle_id(),
    {
        self.handle
    }

    /// The terminal status recorded so far, if any.
    pub fn exit_recorded(&self) -> (r: Option<ExitStatus>)
        ensures
            r == self.recorded(),
    {
        self.status
    }

    /// What one wait returns: the already-recorded terminal status if there
    /// is one, else the status built from the code the operating system's
    /// wait primitive reported now.
    pub open spec fn wait_outcome(self, code: u32) -> ExitStatus {
        match self.recorded() {
            Some(s) => s,
            None => ExitStatus::Status(code),
        }
    }

    /// Concludes one wait on this process. `code` is the exit code the
    /// operating system's wait primitive reported; it is ignored when a
    /// terminal status was already recorded, because a process terminates
    /// only once.
    pub fn record_exit(&mut self, code: u32) -> (r: ExitStatus)
        ensures
            r == old(self).wait_outcome(code),
            final(self).recorded() == Some(r),
            final(self).handle_id() == old(self).handle_id(),
    {
        match self.status {
            Some(s) => s,
            None => {
                let s = ExitStatus::Status(code);
                self.status = Some(s);
                s
            },
        }
    }
}

/// Waiting twice on a completed process returns the same terminal status:
/// once a wait has recorded `first`, every later wait returns `first`,
/// whatever exit code the operating system reports for it.
pub proof fn lemma_wait_idempotent(p: Process, first: ExitStatus, later_code: u32)
    requires
        p.recorded() == Some(first),
    ensures
        p.wait_outcome(later_code) == first,
{
}

} // verus!
