//! The transport-independent view of a client session.
use vstd::prelude::*;
use std::time::Duration;
use crate::error::SendError;

verus! {

/// Transport protocol type for a session.
#[derive(Debug, Clone, Copy, PartialEq, Eq, Structural)]
pub enum TransportType {
    Quic,
    WebTransport,
    WebSocket,
}

/// Cross-transport session interface, implemented by each transport.
pub trait Session {
    fn send_unreliable(&self, data: &[u8]) -> Result<(), SendError>;

    fn send_reliable(&self, stream_id: u32, data: &[u8]) -> Result<(), SendError>;

    fn recv_datagram(&self) -> Option<Vec<u8>>;

    fn transport_type(&self) -> TransportType;

    fn rtt(&self) -> Duration;
}

} // verus!
