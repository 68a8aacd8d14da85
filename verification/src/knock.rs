//! A knock: one datagram received on one of the ports of the sequence.
use vstd::prelude::*;

verus! {

/// A knock received from `ip` on the UDP port `port` at the instant `when`.
///
/// Addresses are kept as 128-bit numbers (an IPv4 address in its IPv4-mapped
/// IPv6 form) and instants as nanoseconds on the daemon's monotonic clock.
#[derive(Debug, Clone, Copy, PartialEq, Eq, Structural)]
pub struct Knock {
    pub ip: u128,
    pub port: u16,
    pub when: u64,
}

impl Knock {
    /// The knock of `ip` on `port`, received at `when`.
    pub fn new(ip: u128, port: u16, when: u64) -> (k: Knock)
        ensures
            k.ip == ip,
            k.port == port,
            k.when == when,
    {
        Knock { ip, port, when }
    }
}

} // verus!
