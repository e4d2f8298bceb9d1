//! Classification of one health-probe outcome into the typed status
//! state machine: Ready, keep Waiting, or a fatal failure.

use vstd::prelude::*;

verus! {

/// What one HTTP probe against a server's health URL came back with,
/// reduced to plain values. `Transport` carries the description of a
/// transport failure other than connection-refused or timeout (DNS,
/// TLS, and the like).
#[derive(Debug, Clone)]
pub enum ProbeOutcome {
    Status(u16),
    ConnectionRefused,
    TimedOut,
    Transport(String),
}

/// The classification of one probe.
#[derive(Debug, Clone, Copy, PartialEq, Eq, Structural)]
pub enum HealthClass {
    /// The response status is in the expected set.
    Ready,
    /// Not ready yet: retry on the next poll cycle.
    Waiting,
    /// A response with status 500 or above outside the expected set:
    /// the server is broken, never retried.
    FatalServer(u16),
    /// A transport failure other than connection-refused or timeout.
    FatalConnect,
}

/// How a probe outcome is classified against an expected-status set:
/// an expected status is Ready; an unexpected status of 500 or above is
/// fatal; any other status keeps the server Waiting; connection-refused
/// and timeout keep it Waiting; any other transport failure is fatal.
pub open spec fn classify_spec(outcome: &ProbeOutcome, expected: Seq<u16>) -> HealthClass {
    match outcome {
        ProbeOutcome::Status(code) => if expected.contains(*code) {
            HealthClass::Ready
        } else if *code >= 500 {
            HealthClass::FatalServer(*code)
        } else {
            HealthClass::Waiting
        },
        ProbeOutcome::ConnectionRefused => HealthClass::Waiting,
        ProbeOutcome::TimedOut => HealthClass::Waiting,
        ProbeOutcome::Transport(_) => HealthClass::FatalConnect,
    }
}

fn contains_u16(haystack: &Vec<u16>, needle: u16) -> (r: bool)
    ensures
        r == haystack@.contains(needle),
{
    let n = haystack.len();
    let mut k: usize = 0;
    while k < n
        invariant
            k <= n,
            n == haystack@.len(),
            forall|i: int| 0 <= i < k ==> haystack@[i] != needle,
        decreases n - k,
    {
        if haystack[k] == needle {
            return true;
        }
        k += 1;
    }
    false
}

/// Classifies one probe outcome against the server's expected-status set.
pub fn classify(outcome: &ProbeOutcome, expected: &Vec<u16>) -> (c: HealthClass)
    ensures
        c == classify_spec(outcome, expected@),
{
    match outcome {
        ProbeOutcome::Status(code) => {
            if contains_u16(expected, *code) {
                HealthClass::Ready
            } else if *code >= 500 {
                HealthClass::FatalServer(*code)
            } else {
                HealthClass::Waiting
            }
        },
        ProbeOutcome::ConnectionRefused => HealthClass::Waiting,
        ProbeOutcome::TimedOut => HealthClass::Waiting,
        ProbeOutcome::Transport(_) => HealthClass::FatalConnect,
    }
}

} // verus!
