//! Error kinds surfaced by the proxy core.

use vstd::prelude::*;

verus! {

/// Failures while decoding or framing protocol bytes.
#[derive(Debug, Clone, Copy, PartialEq, Eq, Structural)]
pub enum ProtoError {
    /// A packet with an unexpected packet id.
    UnexpectedPacket,
    /// The buffer ended before a full item could be read.
    Eof,
    /// The handshake's server address held no usable hostname.
    NoHostname,
    /// A length field exceeded its limit.
    SizeLimit,
    /// A varint ran past its 5-byte limit.
    VarInt,
    /// A string field held invalid UTF-8.
    Utf8,
    /// A value outside the expected set of variants.
    InvalidVariant,
}

/// Routing failures.
#[derive(Debug, Clone, Copy, PartialEq, Eq, Structural)]
pub enum RouterError {
    /// No route matches the requested hostname.
    NoServer,
}

/// A metrics injector failure, carried as its description. Metrics are
/// best-effort: these are logged and never propagated.
#[derive(Debug)]
pub struct MetricsError {
    pub description: String,
}

impl MetricsError {
    pub fn new(description: String) -> (r: MetricsError)
        ensures
            r.description@ == description@,
    {
        MetricsError { description }
    }
}

/// A configuration load or reload failure, carried as its description.
#[derive(Debug)]
pub struct ServerConfigError {
    pub description: String,
}

/// The unified error of the per-connection engine.
#[derive(Debug, Clone, Copy, PartialEq, Eq, Structural)]
pub enum HopperError {
    /// Framing or decode failure.
    Protocol(ProtoError),
    /// Application-level reject: a spoofed or forbidden handshake field.
    Invalid,
    /// Routing found no match.
    NoServer,
    /// The backend dial failed.
    Connect,
    /// The handshake or dial deadline passed.
    TimeOut,
    /// An I/O failure during the established phase.
    Disconnected,
    /// A configuration failure.
    Config,
    /// The listener could not bind.
    Bind,
    /// Shutdown was requested.
    Signal,
    /// A metrics injector failure.
    Metrics,
}

impl HopperError {
    /// A short human-readable description, used as the disconnect chat reason.
    pub fn message(&self) -> (r: &'static str)
        ensures
            r@ == self.message_spec(),
    {
        let r: &'static str = match self {
            HopperError::Protocol(_) => "the client sent malformed protocol data",
            HopperError::Invalid => "the user sent invalid handshake data",
            HopperError::NoServer => "no server with such hostname has been found",
            HopperError::Connect => "unable to connect to the backend server",
            HopperError::TimeOut => "one of the two parties took too long to respond",
            HopperError::Disconnected => "one of the two parties terminated the connection",
            HopperError::Config => "configuration error",
            HopperError::Bind => "cannot listen on the specified ip",
            HopperError::Signal => "received shutdown signal",
            HopperError::Metrics => "metrics error",
        };
        r
    }

    /// The description text of each error kind.
    pub open spec fn message_spec(&self) -> Seq<char> {
        match self {
            HopperError::Protocol(_) => "the client sent malformed protocol data"@,
            HopperError::Invalid => "the user sent invalid handshake data"@,
            HopperError::NoServer => "no server with such hostname has been found"@,
            HopperError::Connect => "unable to connect to the backend server"@,
            HopperError::TimeOut => "one of the two parties took too long to respond"@,
            HopperError::Disconnected => "one of the two parties terminated the connection"@,
            HopperError::Config => "configuration error"@,
            HopperError::Bind => "cannot listen on the specified ip"@,
            HopperError::Signal => "received shutdown signal"@,
            HopperError::Metrics => "metrics error"@,
        }
    }
}

} // verus!
