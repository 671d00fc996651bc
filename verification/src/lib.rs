//! A TCP connect scanner without the sockets.
//!
//! The crate holds everything a port scanner decides: how a port
//! specification and a target address are read, how the command line is
//! taken apart, how the outcome of a connection attempt is classified, and
//! how the classified ports are tallied and rendered. Opening the
//! connections is left to the caller, who feeds each attempt's outcome back
//! into a [`scan::Scan`].

pub mod address;
pub mod driver;
pub mod error;
pub mod ports;
pub mod probe;
pub mod report;
pub mod scan;
pub mod text;
