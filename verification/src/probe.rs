//! What a connection attempt can come to, and what that says of the port.

use vstd::prelude::*;

verus! {

/// Seconds after which a connection attempt is given up.
pub const PROBE_TIMEOUT_SECS: u64 = 3;

/// How one attempt to connect to a port ended.
#[derive(Clone, Copy, Debug, PartialEq, Eq, Structural)]
pub enum ConnectSignal {
    /// The handshake completed before the deadline.
    Connected,
    /// The peer refused the connection.
    Refused,
    /// The peer reset the connection.
    Reset,
    /// The deadline passed without an answer.
    TimedOut,
    /// The host cannot be reached.
    HostUnreachable,
    /// The network cannot be reached.
    NetworkUnreachable,
    /// The attempt was not permitted.
    PermissionDenied,
    /// No socket address could be made of the address and the port.
    NoSocketAddress,
    /// Any other failure.
    Other,
}

/// What a probe says of a port.
#[derive(Clone, Copy, Debug, PartialEq, Eq, Structural)]
pub enum PortOutcome {
    /// The port accepted the connection.
    Open,
    /// The port turned the connection down.
    Closed,
    /// Nothing definite came back.
    Filtered,
}

/// Whether the peer itself turned the connection down.
pub open spec fn is_refusal(signal: ConnectSignal) -> bool {
    signal == ConnectSignal::Refused || signal == ConnectSignal::Reset
}

/// The outcome that a signal stands for: a completed handshake means open,
/// a refusal by the peer means closed, and everything else means filtered.
pub open spec fn outcome_of(signal: ConnectSignal) -> PortOutcome {
    if signal == ConnectSignal::Connected {
        PortOutcome::Open
    } else if is_refusal(signal) {
        PortOutcome::Closed
    } else {
        PortOutcome::Filtered
    }
}

/// Classifies the end of one connection attempt.
pub fn classify(signal: ConnectSignal) -> (outcome: PortOutcome)
    ensures
        outcome == outcome_of(signal),
{
    match signal {
        ConnectSignal::Connected => PortOutcome::Open,
        ConnectSignal::Refused | ConnectSignal::Reset => PortOutcome::Closed,
        ConnectSignal::TimedOut
        | ConnectSignal::HostUnreachable
        | ConnectSignal::NetworkUnreachable
        | ConnectSignal::PermissionDenied
        | ConnectSignal::NoSocketAddress
        | ConnectSignal::Other => PortOutcome::Filtered,
    }
}

} // verus!
