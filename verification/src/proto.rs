//! Small value enums: DNS record types, timer kinds, ALPN protocols and the
//! protocol compound carried by a connection attempt.

use vstd::prelude::*;

verus! {

/// DNS record types the engine queries.
#[derive(Debug, Clone, Copy, PartialEq, Eq, Structural, Hash)]
pub enum DnsRecordType {
    Https,
    Aaaa,
    A,
}

/// Timer kinds for the delays the engine asks the caller to wake it for.
#[derive(Debug, Clone, Copy, PartialEq, Eq, Structural, Hash)]
pub enum TimerType {
    /// Resolution Delay (50 ms recommended).
    ResolutionDelay,
    /// Connection Attempt Delay (250 ms recommended).
    ConnectionAttemptDelay,
    /// Last Resort Local Synthesis Delay (2 s recommended).
    LastResortSynthesis,
}

/// An ALPN protocol token.
#[derive(Debug, Clone, Copy, PartialEq, Eq, Structural, Hash)]
pub enum AlpnProtocol {
    H1,
    H2,
    H3,
}

/// The protocol a single connection attempt is made with.
///
/// A QUIC attempt can only carry HTTP/3, whereas one TCP+TLS attempt can
/// negotiate HTTP/2 or HTTP/1.1 via ALPN; `H2OrH1` is the compound used when
/// both are allowed. The listed order is the preference order, `H3`
/// strongest.
#[derive(Debug, Clone, Copy, PartialEq, Eq, Structural, Hash)]
pub enum ConnectionAttemptProtocol {
    H3,
    H2OrH1,
    H2,
    H1,
}

} // verus!
