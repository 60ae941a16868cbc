//! The error taxonomy: one flat discriminated value for every failure that a
//! request or WebSocket operation can surface.

use vstd::prelude::*;

verus! {

/// Every failure a request, response, or WebSocket operation can report.
#[derive(Clone, Copy, Debug, PartialEq, Eq, Structural)]
pub enum RequestError {
    /// The URL could not be parsed, or has no host.
    InvalidUrl,
    /// The TCP connection was refused or the host is unroutable.
    ConnectionFailure,
    /// A single I/O operation exceeded its timeout.
    Timeout,
    /// The TLS handshake or record layer failed.
    Tls,
    /// An HTTP CONNECT answered non-2xx, or SOCKS5 negotiation was refused.
    ProxyHandshake,
    /// Malformed status line, truncated headers, bad chunked framing, or an
    /// invalid WebSocket frame.
    Protocol,
    /// The redirect bound was exceeded.
    TooManyRedirects,
    /// The WebSocket upgrade was rejected or the accept key did not match.
    HandshakeFailed,
    /// An operation was attempted on a closed WebSocket.
    Closed,
    /// Any other stream failure.
    Io,
}

impl RequestError {
    /// A short human-readable description of the error.
    pub fn message(&self) -> (r: &'static str)
        ensures
            r@.len() > 0,
    {
        proof {
            reveal_strlit("invalid url");
            reveal_strlit("connection failure");
            reveal_strlit("timeout");
            reveal_strlit("tls failure");
            reveal_strlit("proxy handshake failed");
            reveal_strlit("protocol error");
            reveal_strlit("too many redirects");
            reveal_strlit("websocket handshake failed");
            reveal_strlit("websocket closed");
            reveal_strlit("io error");
        }
        match self {
            RequestError::InvalidUrl => "invalid url",
            RequestError::ConnectionFailure => "connection failure",
            RequestError::Timeout => "timeout",
            RequestError::Tls => "tls failure",
            RequestError::ProxyHandshake => "proxy handshake failed",
            RequestError::Protocol => "protocol error",
            RequestError::TooManyRedirects => "too many redirects",
            RequestError::HandshakeFailed => "websocket handshake failed",
            RequestError::Closed => "websocket closed",
            RequestError::Io => "io error",
        }
    }
}

} // verus!
