//! The policy for running a helper program (git, gh, bd) with a hard deadline: how
//! much of its output is kept, how often it is polled, and what each poll decides.
use vstd::prelude::*;
use crate::text::{chars_of, find_char, index_of, trim, trim_spec};

verus! {

/// At most this many bytes of a child's stdout are kept.
pub const STDOUT_CAP: usize = 262144;

/// At most this many bytes of a child's stderr are kept.
pub const STDERR_CAP: usize = 65536;

/// The pause between two polls of a running child, in milliseconds.
pub const POLL_INTERVAL_MS: u64 = 40;

/// What one poll of the child found.
#[derive(PartialEq, Eq, Structural, Debug, Clone, Copy)]
pub enum Poll {
    /// The child has exited.
    Exited,
    /// The child is still running.
    Running,
    /// Its state could not be read.
    Failed,
}

/// What the runner does after a poll.
#[derive(PartialEq, Eq, Structural, Debug, Clone, Copy)]
pub enum PollStep {
    /// Collect the exit status and the captured output.
    Collect,
    /// Sleep for the poll interval, then poll again.
    Sleep,
    /// The deadline has passed: kill the child, reap it, and give no output.
    KillAndGiveUp,
    /// Give no output.
    GiveUp,
}

/// The runner's decision after a poll taken `elapsed_ms` after the start, with a
/// deadline of `timeout_ms`.
pub fn poll_step(p: Poll, elapsed_ms: u64, timeout_ms: u64) -> (r: PollStep)
    ensures
        r == match p {
            Poll::Exited => PollStep::Collect,
            Poll::Failed => PollStep::GiveUp,
            Poll::Running => if elapsed_ms > timeout_ms {
                PollStep::KillAndGiveUp
            } else {
                PollStep::Sleep
            },
        },
{
    match p {
        Poll::Exited => PollStep::Collect,
        Poll::Failed => PollStep::GiveUp,
        Poll::Running => if elapsed_ms > timeout_ms {
            PollStep::KillAndGiveUp
        } else {
            PollStep::Sleep
        },
    }
}

/// The text of a run: the trimmed stdout when the child succeeded, else nothing.
pub fn output_text(success: bool, stdout: &str) -> (r: Option<String>)
    ensures
        success ==> (r matches Some(t) && t@ == trim_spec(stdout@)),
        !success ==> r is None,
{
    if success {
        Some(trim(stdout))
    } else {
        None
    }
}

/// Whether a `bd` candidate is worth running: a bare name always is (the search
/// path decides), a path only when something exists there.
pub fn bd_should_try(program: &str, exists: bool) -> (r: bool)
    ensures
        r == (index_of(program@, '/') is None || exists),
{
    let v = chars_of(program);
    let at = find_char(&v, 0, v.len(), '/');
    proof {
        assert(v@.subrange(0, v@.len() as int) =~= v@);
    }
    at == v.len() || exists
}

} // verus!
