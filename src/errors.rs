//! The error kinds that the client reports.
use vstd::prelude::*;

verus! {

/// Raised by the pool when no slot holds a live connection.
#[derive(Debug, PartialEq, Eq, Structural, Clone, Copy)]
pub enum ConnectionsError {
    ThereIsNoTcpConnectionValid,
}

/// Ways in which a target address can be malformed.
#[derive(Debug, PartialEq, Eq, Structural, Clone, Copy)]
pub enum UriParsingErr {
    /// the address starts with a scheme other than http or https
    InvalidSchema,
    /// the address holds a malformed IP address
    InvalidIp,
    /// the address holds a malformed port number
    InvalidPortNumber,
    /// the address holds a malformed domain name
    InvalidDomainName,
}

/// Why one exchange failed; each is final for that exchange.
#[derive(Debug, PartialEq, Eq, Structural, Clone, Copy)]
pub enum SendingRequestError {
    /// no connection could be acquired
    TcpCErrors(ConnectionsError),
    /// writing the request to the stream failed
    WritingErrors,
    /// reading the response head failed or timed out, or the head was malformed
    ReadingErrors,
    /// the response declares a body longer than the configured bound
    BodyTooLarge,
}

/// Why a response body could not be materialised.
#[derive(Debug, PartialEq, Eq)]
pub enum GettingBodyErrors {
    /// the response carries no body
    NoBody,
    /// the stream closed before the final chunk; holds what had arrived
    ConnectionError(Option<Vec<u8>>),
}

impl ConnectionsError {
    /// The exchange error under which a pool failure is reported.
    pub fn into_sending_error(self) -> (r: SendingRequestError)
        ensures
            r == SendingRequestError::TcpCErrors(self),
    {
        SendingRequestError::TcpCErrors(self)
    }
}

} // verus!
