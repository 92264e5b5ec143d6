//! The command sequencer: hands out an ordered list of remote commands one
//! at a time and records each outcome. The first recorded failure stops the
//! sequence — no later command is ever handed out, nothing already run is
//! rolled back — and the error keeps the failing command's text, captured
//! output and exit status for diagnostics.

use vstd::prelude::*;
use vstd::string::StringExecFns;

verus! {

/// A remote command that failed: its text, what it printed, and its exit
/// status, if the command ran at all rather than the transport failing.
#[derive(Debug)]
pub struct ExecError {
    pub cmd: String,
    pub output: String,
    pub exit_status: Option<u64>,
}

impl ExecError {
    /// A diagnostic text naming the failing command.
    pub fn describe(&self) -> (r: String)
        ensures
            r@ == "remote command failed: "@ + self.cmd@,
    {
        let mut out = String::from_str("remote command failed: ");
        out.append(self.cmd.as_str());
        out
    }
}

/// One ordered run of remote commands, executed strictly in order with a
/// fail-fast stop at the first failure.
pub struct Sequencer {
    cmds: Vec<String>,
    next: usize,
    error: Option<ExecError>,
}

impl Sequencer {
    /// The full command list this sequencer hands out.
    pub closed spec fn commands(self) -> Seq<Seq<char>> {
        self.cmds@.map_values(|s: String| s@)
    }

    /// How many commands have been handed out so far.
    pub closed spec fn issued(self) -> int {
        self.next as int
    }

    /// Whether a failure has been recorded.
    pub closed spec fn failed(self) -> bool {
        self.error is Some
    }

    /// The recorded failure, if one stopped the sequence.
    pub closed spec fn failure(self) -> Option<ExecError> {
        self.error
    }

    /// The sequencer's invariant: the issued prefix never passes the end,
    /// and a recorded failure names the last issued command.
    pub closed spec fn wf(self) -> bool {
        &&& self.next <= self.cmds@.len()
        &&& match self.error {
            Some(e) => 1 <= self.next && e.cmd@ == self.cmds@[self.next - 1]@,
            None => true,
        }
    }

    /// The whole sequence ran and nothing failed.
    pub open spec fn complete_ok(self) -> bool {
        !self.failed() && self.issued() == self.commands().len()
    }

    /// Starts a run over the given commands.
    pub fn new(cmds: Vec<String>) -> (r: Sequencer)
        ensures
            r.wf(),
            r.commands() == cmds@.map_values(|s: String| s@),
            r.issued() == 0,
            !r.failed(),
    {
        Sequencer { cmds, next: 0, error: None }
    }

    /// The next command to run: nothing once the sequence has failed or
    /// finished — a failure discards every remaining command.
    pub fn next_command(&self) -> (r: Option<String>)
        requires
            self.wf(),
        ensures
            match r {
                Some(c) => {
                    &&& !self.failed()
                    &&& self.issued() < self.commands().len()
                    &&& c@ == self.commands()[self.issued()]
                },
                None => self.failed() || self.issued() == self.commands().len(),
            },
    {
        if self.error.is_some() {
            return None;
        }
        if self.next < self.cmds.len() {
            Some(self.cmds[self.next].clone())
        } else {
            None
        }
    }

    /// Records that the command just handed out completed successfully.
    pub fn record_success(&mut self)
        requires
            old(self).wf(),
            !old(self).failed(),
            old(self).issued() < old(self).commands().len(),
        ensures
            final(self).wf(),
            final(self).commands() == old(self).commands(),
            final(self).issued() == old(self).issued() + 1,
            !final(self).failed(),
    {
        proof {
            assert(old(self).commands().len() == old(self).cmds@.len());
        }
        let n = self.cmds.len();
        assert(self.next < n);
        self.next = self.next + 1;
    }

    /// Records that the command just handed out failed, with its captured
    /// output and exit status; the sequence stops here.
    pub fn record_failure(&mut self, output: String, exit_status: Option<u64>)
        requires
            old(self).wf(),
            !old(self).failed(),
            old(self).issued() < old(self).commands().len(),
        ensures
            final(self).wf(),
            final(self).commands() == old(self).commands(),
            final(self).issued() == old(self).issued() + 1,
            final(self).failed(),
            final(self).failure() matches Some(e) && e.cmd@ == old(self).commands()[old(
                self,
            ).issued()] && e.output == output && e.exit_status == exit_status,
    {
        proof {
            assert(old(self).commands().len() == old(self).cmds@.len());
        }
        let n = self.cmds.len();
        assert(self.next < n);
        let cmd = self.cmds[self.next].clone();
        self.error = Some(ExecError { cmd, output, exit_status });
        self.next = self.next + 1;
    }

    /// The run's outcome, once no command is left to hand out: success
    /// exactly when every command ran and none failed, else the first
    /// failure.
    pub fn into_result(self) -> (r: Result<(), ExecError>)
        requires
            self.wf(),
            self.failed() || self.issued() == self.commands().len(),
        ensures
            match r {
                Ok(()) => self.complete_ok(),
                Err(e) => {
                    &&& self.failed()
                    &&& self.failure() == Some(e)
                    &&& e.cmd@ == self.commands()[self.issued() - 1]
                },
            },
    {
        match self.error {
            None => Ok(()),
            Some(e) => Err(e),
        }
    }
}

/// Fail fast: once a failure is recorded, no further command is ever handed
/// out — the issued prefix ends at the failing command, whose text the
/// recorded error carries, and every command after it is discarded.
pub proof fn lemma_fail_fast(s: Sequencer)
    requires
        s.wf(),
        s.failed(),
    ensures
        s.failure() matches Some(e) && e.cmd@ == s.commands()[s.issued() - 1],
        !s.complete_ok(),
{
}

} // verus!
