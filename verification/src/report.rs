//! The lines that a scan prints, and the error that stops it.

use crate::address::{append_dotted_quad, LocalAddress, ProbeTarget};
use vstd::prelude::*;
use vstd::string::*;

verus! {

/// Why a scan could not run at all.
#[derive(Clone, Copy, Debug, PartialEq, Eq, Structural)]
pub enum ScanError {
    /// The platform's `ping` does not take the arguments that the probes
    /// use.
    UnsupportedPlatform,
}

/// The line that opens a scan from `address`.
pub open spec fn scanning_text(address: LocalAddress) -> Seq<char> {
    "Scanning LAN from IP: "@ + address.text()
}

/// The line that reports a host that answered; `rtt_text` is its round-trip
/// time in milliseconds, as it is to be written.
pub open spec fn active_text(target: ProbeTarget, rtt_text: Seq<char>) -> Seq<char> {
    "Active IP: "@ + target.text() + ", RTT: "@ + rtt_text + " ms"@
}

/// The line printed when the local address is not known.
pub open spec fn no_address_text() -> Seq<char> {
    "Could not determine local IP address. Exiting..."@
}

impl ScanError {
    /// What the error tells the user.
    pub open spec fn text(self) -> Seq<char> {
        match self {
            ScanError::UnsupportedPlatform => "This program only runs on Windows."@,
        }
    }

    /// The error's message.
    pub fn message(&self) -> (text: String)
        ensures
            text@ == self.text(),
    {
        match self {
            ScanError::UnsupportedPlatform => String::from_str(
                "This program only runs on Windows.",
            ),
        }
    }
}

/// Writes the line that opens a scan from `address`.
pub fn scanning_line(address: &LocalAddress) -> (line: String)
    ensures
        line@ == scanning_text(*address),
{
    let mut line = String::from_str("Scanning LAN from IP: ");
    append_dotted_quad(&mut line, address.a, address.b, address.c, address.d);
    line
}

/// Writes the line that reports `target` as active; `rtt_text` is its
/// round-trip time in milliseconds, as it is to be written.
pub fn active_line(target: &ProbeTarget, rtt_text: &str) -> (line: String)
    ensures
        line@ == active_text(*target, rtt_text@),
{
    let mut line = String::from_str("Active IP: ");
    append_dotted_quad(
        &mut line,
        target.prefix.a,
        target.prefix.b,
        target.prefix.c,
        target.suffix,
    );
    line.append(", RTT: ");
    line.append(rtt_text);
    line.append(" ms");
    line
}

/// Writes the line printed when the local address is not known.
pub fn no_address_line() -> (line: String)
    ensures
        line@ == no_address_text(),
{
    String::from_str("Could not determine local IP address. Exiting...")
}

} // verus!
