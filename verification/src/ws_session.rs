//! WebSocket framing: one flags byte (reliable / unreliable) before the payload; and
//! what a WebSocket connection does with each message it reads, while authenticating
//! and after.
use vstd::prelude::*;
use crate::error::EndpointError;
use crate::checkpoint::codec::copy_bytes;

verus! {

pub const FLAG_RELIABLE: u8 = 0x00;

pub const FLAG_UNRELIABLE: u8 = 0x01;

/// Minimum valid frame size: 1-byte flags header + at least 1 byte of payload.
pub const MIN_FRAME_LEN: usize = 2;

pub fn encode_frame(flags: u8, data: &[u8]) -> (frame: Vec<u8>)
    ensures
        frame@ == seq![flags] + data@,
{
    let mut frame: Vec<u8> = Vec::new();
    frame.push(flags);
    crate::wire::push_bytes(&mut frame, data);
    frame
}

/// The payload of a frame; `None` for frames too short to carry one.
pub fn decode_frame(data: &[u8]) -> (payload: Option<&[u8]>)
    ensures
        data.len() >= MIN_FRAME_LEN ==> (payload matches Some(p) && p@ == data@.subrange(
            1,
            data@.len() as int,
        )),
        data.len() < MIN_FRAME_LEN ==> payload is None,
{
    if data.len() >= MIN_FRAME_LEN {
        Some(&data[1..data.len()])
    } else {
        None
    }
}

/// Decoding a frame gives back the payload it was encoded with, whenever that payload is
/// not empty.
pub proof fn law_frame_roundtrip(flags: u8, data: Seq<u8>)
    requires
        data.len() >= 1,
    ensures
        (seq![flags] + data).len() >= MIN_FRAME_LEN,
        (seq![flags] + data).subrange(1, (seq![flags] + data).len() as int) == data,
{
    assert((seq![flags] + data).subrange(1, (seq![flags] + data).len() as int) =~= data);
}

/// A message read from a WebSocket, by kind.
#[derive(Debug)]
pub enum WsInbound {
    Binary(Vec<u8>),
    Close,
    /// Text, ping or pong.
    Other,
}

/// What the authentication phase does with a message.
#[derive(Debug)]
pub enum WsAuthStep {
    /// Decode these bytes as the authentication request and answer it.
    Authenticate(Vec<u8>),
    /// Give up with this error.
    Fail(EndpointError),
    /// Wait for the next message.
    Skip,
}

/// During authentication the first binary message is the request; a close ends the
/// attempt with `Auth("client closed before auth")`; anything else is skipped.
pub fn ws_auth_step(msg: WsInbound) -> (step: WsAuthStep)
    ensures
        match msg {
            WsInbound::Binary(d) => step matches WsAuthStep::Authenticate(b) && b@ == d@,
            WsInbound::Close => step matches WsAuthStep::Fail(EndpointError::Auth(m)) && m@
                == "client closed before auth"@,
            WsInbound::Other => step is Skip,
        },
{
    match msg {
        WsInbound::Binary(d) => WsAuthStep::Authenticate(d),
        WsInbound::Close => WsAuthStep::Fail(EndpointError::Auth(String::from_str("client closed before auth"))),
        WsInbound::Other => WsAuthStep::Skip,
    }
}

/// The error when the stream ends before any authentication message.
pub fn ws_auth_ended() -> (e: EndpointError)
    ensures
        e matches EndpointError::Auth(m) && m@ == "stream ended before auth"@,
{
    EndpointError::Auth(String::from_str("stream ended before auth"))
}

/// What an authenticated connection's reader does with a message.
#[derive(Debug)]
pub enum WsReadStep {
    /// Hand this payload to the session.
    Deliver(Vec<u8>),
    /// A binary message too short to be a frame: dropped.
    DropMalformed,
    /// The peer closed: stop reading.
    Stop,
    /// Not a binary message: ignored.
    Skip,
}

/// A binary message is a frame whose payload is delivered, or dropped when too short;
/// a close stops the reader; anything else is ignored.
pub fn ws_read_step(msg: &WsInbound) -> (step: WsReadStep)
    ensures
        match *msg {
            WsInbound::Binary(d) => if d@.len() >= MIN_FRAME_LEN {
                step matches WsReadStep::Deliver(p) && p@ == d@.subrange(1, d@.len() as int)
            } else {
                step is DropMalformed
            },
            WsInbound::Close => step is Stop,
            WsInbound::Other => step is Skip,
        },
{
    match msg {
        WsInbound::Binary(d) => match decode_frame(d.as_slice()) {
            Some(p) => WsReadStep::Deliver(copy_bytes(p)),
            None => WsReadStep::DropMalformed,
        },
        WsInbound::Close => WsReadStep::Stop,
        WsInbound::Other => WsReadStep::Skip,
    }
}

} // verus!
