//! Errors of the network endpoints.
use vstd::prelude::*;
use crate::sync::{sync_error_text, SyncError};
use crate::zone_transfer::{transfer_error_text, TransferError};
use crate::text::{decimal, decimal_chars};

verus! {

#[verifier::external_type_specification]
#[verifier::external_body]
pub struct ExIoError(std::io::Error);

#[derive(Debug)]
pub enum EndpointError {
    Tls(String),
    Bind(std::io::Error),
    /// A QUIC connection error, by its description.
    Quinn(String),
    Auth(String),
    WebTransport(String),
    WebSocket(String),
    Send(SendError),
    Sync(SyncError),
    ZoneTransfer(TransferError),
}

#[derive(Debug, PartialEq, Eq)]
pub enum SendError {
    DatagramTooLarge { size: usize, max: usize },
    ConnectionLost(String),
    StreamClosed,
}

/// The text of a send error.
pub open spec fn send_error_text(e: SendError) -> Seq<char> {
    match e {
        SendError::DatagramTooLarge { size, max } => "datagram too large: "@ + decimal_chars(
            size as nat,
        ) + " bytes, max "@ + decimal_chars(max as nat),
        SendError::ConnectionLost(reason) => "connection lost: "@ + reason@,
        SendError::StreamClosed => "stream closed"@,
    }
}

impl SendError {
    /// Human-readable description of the error.
    pub fn to_string(&self) -> (s: String)
        ensures
            s@ == send_error_text(*self),
    {
        match self {
            SendError::DatagramTooLarge { size, max } => {
                let mut s = String::from_str("datagram too large: ");
                s.append(decimal(*size as u64).as_str());
                s.append(" bytes, max ");
                s.append(decimal(*max as u64).as_str());
                s
            },
            SendError::ConnectionLost(reason) => {
                let mut s = String::from_str("connection lost: ");
                s.append(reason.as_str());
                s
            },
            SendError::StreamClosed => String::from_str("stream closed"),
        }
    }
}

/// The description `std::io::Error` displays (the OS message, which depends on the
/// machine); nothing is promised of the text.
#[verifier::external_body]
fn io_error_text(e: &std::io::Error) -> String {
    format!("{e}")
}

impl EndpointError {
    /// Human-readable description of the error.
    pub fn to_string(&self) -> (s: String)
        ensures
            match self {
                EndpointError::Tls(m) => s@ == "TLS error: "@ + m@,
                EndpointError::Bind(_) => exists|t: Seq<char>| s@ == "bind error: "@ + t,
                EndpointError::Quinn(m) => s@ == "QUIC connection error: "@ + m@,
                EndpointError::Auth(m) => s@ == "auth error: "@ + m@,
                EndpointError::WebTransport(m) => s@ == "WebTransport error: "@ + m@,
                EndpointError::WebSocket(m) => s@ == "WebSocket error: "@ + m@,
                EndpointError::Send(e) => s@ == "send error: "@ + send_error_text(*e),
                EndpointError::Sync(e) => s@ == "sync error: "@ + sync_error_text(*e),
                EndpointError::ZoneTransfer(e) => s@ == "zone transfer error: "@ + transfer_error_text(*e),
            },
    {
        let (prefix, rest) = match self {
            EndpointError::Tls(m) => (String::from_str("TLS error: "), m.clone()),
            EndpointError::Bind(err) => (String::from_str("bind error: "), io_error_text(err)),
            EndpointError::Quinn(m) => (String::from_str("QUIC connection error: "), m.clone()),
            EndpointError::Auth(m) => (String::from_str("auth error: "), m.clone()),
            EndpointError::WebTransport(m) => (String::from_str("WebTransport error: "), m.clone()),
            EndpointError::WebSocket(m) => (String::from_str("WebSocket error: "), m.clone()),
            EndpointError::Send(e) => (String::from_str("send error: "), e.to_string()),
            EndpointError::Sync(e) => (String::from_str("sync error: "), e.to_string()),
            EndpointError::ZoneTransfer(e) => (String::from_str("zone transfer error: "), e.to_string()),
        };
        let mut s = prefix;
        s.append(rest.as_str());
        s
    }
}

} // verus!
