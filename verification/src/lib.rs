//! Host discovery on the local /24 network, without the I/O.
//!
//! The crate holds the rules of a LAN sweep: which subnet a local address
//! belongs to, which candidate hosts are probed, how a finished probe is
//! judged, what is printed, and when the sweep is over. Sockets, processes
//! and the clock stay with the caller, who feeds their results in as plain
//! values.

pub mod address;
pub mod decimal;
pub mod probe;
pub mod report;
pub mod scan;
pub mod sweep;
