//! The ways in which a scan request can be refused.

use vstd::prelude::*;

verus! {

/// Why no scan was started.
#[derive(Clone, Copy, Debug, PartialEq, Eq, Structural)]
pub enum ScanError {
    /// The command line lacks a flag, a flag's value, or arguments.
    Usage,
    /// The target is neither an IPv4 nor an IPv6 literal.
    InvalidAddress,
    /// A single port is not a decimal number from 1 to 65535.
    InvalidPort,
    /// A port range is malformed, or its start lies beyond its end.
    InvalidRange,
}

impl ScanError {
    /// The text of the one-line diagnostic for this error.
    pub open spec fn diagnostic_text(self) -> Seq<char> {
        match self {
            ScanError::Usage => "usage: scanner -ip <ADDRESS> -port <PORT | START_PORT-END_PORT>"@,
            ScanError::InvalidAddress => "Invalid address. Please use an IPv4 or IPv6 literal"@,
            ScanError::InvalidPort => "Invalid port. Please use a number from 1 to 65535"@,
            ScanError::InvalidRange => "Invalid port range format. Please use <START_PORT>-<END_PORT>"@,
        }
    }

    /// A one-line diagnostic that names the problem.
    pub fn diagnostic(&self) -> (line: &'static str)
        ensures
            line@ == self.diagnostic_text(),
    {
        match self {
            ScanError::Usage => "usage: scanner -ip <ADDRESS> -port <PORT | START_PORT-END_PORT>",
            ScanError::InvalidAddress => "Invalid address. Please use an IPv4 or IPv6 literal",
            ScanError::InvalidPort => "Invalid port. Please use a number from 1 to 65535",
            ScanError::InvalidRange => "Invalid port range format. Please use <START_PORT>-<END_PORT>",
        }
    }
}

} // verus!
