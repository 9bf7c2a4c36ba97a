//! One reachability probe: the command that performs it and the verdict on
//! what came back.
//!
//! A probe is a single ICMP echo request, sent by the system's `ping`
//! utility. Only the utility's exit status is read. The round-trip time is the
//! wall-clock time that the caller measured around the whole invocation, so it
//! includes the cost of starting the process: an upper bound on the network
//! latency, not the latency itself. How that time is written is the caller's
//! business too: it is a fraction of milliseconds, and this crate holds no
//! floating-point arithmetic.

use crate::address::ProbeTarget;
use crate::decimal::{decimal, decimal_string};
use vstd::prelude::*;
use vstd::string::*;

verus! {

/// Number of echo requests sent per probe.
pub const ECHO_COUNT: u32 = 1;

/// Time that a probe waits for a reply, in milliseconds.
pub const PROBE_TIMEOUT_MS: u32 = 100;

/// How the invocation of the probe utility ended.
#[derive(Clone, Copy, Debug, PartialEq, Eq, Structural)]
pub enum ProbeOutcome {
    /// The utility could not be started.
    SpawnFailed,
    /// The utility ran and exited; `success` is set when its exit status
    /// reports a reply.
    Exited { success: bool },
}

/// A measured round-trip time, in nanoseconds.
#[derive(Clone, Copy, Debug, PartialEq, Eq, Structural)]
pub struct RoundTrip {
    pub nanos: u128,
}

/// The utility and the arguments of one probe.
pub struct ProbeCommand {
    pub program: String,
    pub arguments: Vec<String>,
}

impl ProbeOutcome {
    /// Whether the host answered: the utility ran and reported success.
    /// A missing reply, a timeout and a utility that did not start all count
    /// as no answer.
    pub open spec fn is_reply(self) -> bool {
        self == (ProbeOutcome::Exited { success: true })
    }

    /// Tells whether the host answered.
    pub fn replied(&self) -> (answered: bool)
        ensures
            answered == self.is_reply(),
    {
        match self {
            ProbeOutcome::Exited { success } => *success,
            ProbeOutcome::SpawnFailed => false,
        }
    }
}

/// The result of a probe: the elapsed time if the host answered, nothing
/// otherwise.
pub open spec fn result_of(outcome: ProbeOutcome, elapsed_nanos: u128) -> Option<RoundTrip> {
    if outcome.is_reply() {
        Some(RoundTrip { nanos: elapsed_nanos })
    } else {
        None
    }
}

/// The arguments that make the utility send `ECHO_COUNT` requests to
/// `target` and wait `PROBE_TIMEOUT_MS` for the reply.
pub open spec fn probe_arguments(target: ProbeTarget) -> Seq<Seq<char>> {
    seq![
        "-n"@,
        decimal(ECHO_COUNT as nat),
        "-w"@,
        decimal(PROBE_TIMEOUT_MS as nat),
        target.text(),
    ]
}

/// Judges a finished probe. A reply yields the elapsed time; anything else
/// yields nothing.
pub fn probe_result(outcome: ProbeOutcome, elapsed_nanos: u128) -> (result: Option<RoundTrip>)
    ensures
        result == result_of(outcome, elapsed_nanos),
        result is Some <==> outcome.is_reply(),
{
    if outcome.replied() {
        Some(RoundTrip { nanos: elapsed_nanos })
    } else {
        None
    }
}

/// The command that probes `target`.
pub fn probe_command(target: &ProbeTarget) -> (command: ProbeCommand)
    ensures
        command.program@ == "ping"@,
        command.arguments.deep_view() == probe_arguments(*target),
{
    let mut arguments: Vec<String> = Vec::new();
    arguments.push(String::from_str("-n"));
    arguments.push(decimal_string(ECHO_COUNT as u128));
    arguments.push(String::from_str("-w"));
    arguments.push(decimal_string(PROBE_TIMEOUT_MS as u128));
    arguments.push(target.to_text());
    assert(arguments.deep_view() =~= probe_arguments(*target));
    ProbeCommand { program: String::from_str("ping"), arguments }
}

} // verus!
