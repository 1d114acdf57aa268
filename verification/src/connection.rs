//! The decisions of accepting a connection: which protocol it speaks, by the ALPN
//! protocol it negotiated, and whether its authentication admits it. The QUIC and
//! WebTransport I/O around them is the caller's.
use vstd::prelude::*;
use crate::auth::{bytes_equal_constant_time, AuthResponse};
use crate::error::EndpointError;
use crate::tick::types::{ClientInput, SessionId};
use crate::types::EntitySlot;

verus! {

/// The application close code sent when authentication fails, times out or is rejected.
pub const CLOSE_AUTH_FAILURE: u32 = 2;

/// The protocol a connection speaks.
#[derive(Debug, PartialEq, Eq, Structural)]
pub enum AlpnRoute {
    /// The native protocol, ALPN "quanta-v1".
    QuantaV1,
    /// WebTransport over HTTP/3, ALPN "h3".
    WebTransport,
}

pub open spec fn quanta_v1_alpn() -> Seq<u8> {
    seq![0x71u8, 0x75u8, 0x61u8, 0x6eu8, 0x74u8, 0x61u8, 0x2du8, 0x76u8, 0x31u8]
}

pub open spec fn h3_alpn() -> Seq<u8> {
    seq![0x68u8, 0x33u8]
}

/// The text that `String::from_utf8_lossy` makes of `bytes`.
pub uninterp spec fn utf8_lossy(bytes: Seq<u8>) -> Seq<char>;

/// The bytes as text, each invalid UTF-8 sequence replaced by U+FFFD
/// (`String::from_utf8_lossy`): `utf8_lossy(bytes)`, which is the text the bytes encode
/// when they are valid UTF-8.
#[verifier::external_body]
fn lossy_text(bytes: &[u8]) -> (t: String)
    ensures
        t@ == utf8_lossy(bytes@),
        vstd::utf8::valid_utf8(bytes@) ==> vstd::utf8::encode_utf8(t@) == bytes@,
{
    String::from_utf8_lossy(bytes).into_owned()
}

/// How a negotiated ALPN is named in messages: its text, or "none" when there is none.
pub open spec fn alpn_name(alpn: Option<Seq<u8>>) -> Seq<char> {
    match alpn {
        Some(b) => utf8_lossy(b),
        None => "none"@,
    }
}

pub open spec fn opt_slice(o: Option<&[u8]>) -> Option<Seq<u8>> {
    match o {
        Some(b) => Some(b@),
        None => None,
    }
}

/// The protocol for a connection that negotiated `alpn`; any other protocol, or none,
/// is refused with `Auth("unknown ALPN: <name>")`.
pub fn route_alpn(alpn: Option<&[u8]>) -> (r: Result<AlpnRoute, EndpointError>)
    ensures
        opt_slice(alpn) == Some(quanta_v1_alpn()) ==> r == Ok::<AlpnRoute, EndpointError>(AlpnRoute::QuantaV1),
        opt_slice(alpn) == Some(h3_alpn()) ==> r == Ok::<AlpnRoute, EndpointError>(AlpnRoute::WebTransport),
        opt_slice(alpn) != Some(quanta_v1_alpn()) && opt_slice(alpn) != Some(h3_alpn()) ==> (r matches Err(
            EndpointError::Auth(m),
        ) && m@ == "unknown ALPN: "@ + alpn_name(opt_slice(alpn))),
{
    let quanta: [u8; 9] = [0x71u8, 0x75u8, 0x61u8, 0x6eu8, 0x74u8, 0x61u8, 0x2du8, 0x76u8, 0x31u8];
    let h3: [u8; 2] = [0x68u8, 0x33u8];
    assert(quanta@ =~= quanta_v1_alpn());
    assert(h3@ =~= h3_alpn());
    let mut msg = String::from_str("unknown ALPN: ");
    match alpn {
        Some(b) => {
            if bytes_equal_constant_time(b, quanta.as_slice()) {
                return Ok(AlpnRoute::QuantaV1);
            }
            if bytes_equal_constant_time(b, h3.as_slice()) {
                return Ok(AlpnRoute::WebTransport);
            }
            let name = lossy_text(b);
            msg.append(name.as_str());
        },
        None => {
            msg.append("none");
        },
    }
    Err(EndpointError::Auth(msg))
}

/// What an authentication attempt leaves of a connection.
#[derive(Debug)]
pub enum Admission {
    /// The client is in, with its session id and the session token it offered.
    Admitted { session_id: u64, session_token: Option<u64> },
    /// The connection is closed with `CLOSE_AUTH_FAILURE` and `close_reason`, and the
    /// attempt fails with `error`.
    Refused { close_reason: String, error: EndpointError },
}

/// Whether an authentication attempt admits the client. `outcome` is `None` when the
/// handshake timed out, else what the handshake gave: a failed handshake is refused
/// with its error ("auth failed"), a timeout with `Auth("auth timeout")`, and a
/// rejection with `Auth("rejected: <reason>")` ("auth rejected").
pub fn admission_of(outcome: Option<Result<(AuthResponse, Option<u64>), EndpointError>>) -> (a: Admission)
    ensures
        match outcome {
            None => a matches Admission::Refused { close_reason, error: EndpointError::Auth(m) }
                && close_reason@ == "auth timeout"@ && m@ == "auth timeout"@,
            Some(Err(e)) => a matches Admission::Refused { close_reason, error }
                && close_reason@ == "auth failed"@ && error == e,
            Some(Ok((resp, token))) => if resp.accepted {
                a == (Admission::Admitted { session_id: resp.session_id, session_token: token })
            } else {
                a matches Admission::Refused { close_reason, error: EndpointError::Auth(m) }
                    && close_reason@ == "auth rejected"@ && m@ == "rejected: "@ + resp.reason@
            },
        },
{
    match outcome {
        None => Admission::Refused {
            close_reason: String::from_str("auth timeout"),
            error: EndpointError::Auth(String::from_str("auth timeout")),
        },
        Some(Err(e)) => Admission::Refused { close_reason: String::from_str("auth failed"), error: e },
        Some(Ok((resp, token))) => {
            if resp.accepted {
                Admission::Admitted { session_id: resp.session_id, session_token: token }
            } else {
                let mut m = String::from_str("rejected: ");
                m.append(resp.reason.as_str());
                Admission::Refused { close_reason: String::from_str("auth rejected"), error: EndpointError::Auth(m) }
            }
        },
    }
}

/// The shortest wait between polls of an idle datagram reader.
pub const READER_MIN_BACKOFF_MS: u64 = 1;

/// The longest wait between polls of an idle datagram reader.
pub const READER_MAX_BACKOFF_MS: u64 = 5;

/// A registered client's datagram reader: each datagram becomes an input numbered by a
/// local sequence (wrapping); an empty poll waits, the wait doubling up to a ceiling
/// and falling back to the floor when a datagram comes.
pub struct DatagramReader {
    local_seq: u32,
    backoff_ms: u64,
}

impl DatagramReader {
    pub closed spec fn seq_spec(&self) -> u32 {
        self.local_seq
    }

    pub closed spec fn backoff_spec(&self) -> u64 {
        self.backoff_ms
    }

    /// The wait stays between the floor and the ceiling.
    pub closed spec fn wf(&self) -> bool {
        READER_MIN_BACKOFF_MS <= self.backoff_ms <= READER_MAX_BACKOFF_MS
    }

    pub fn new() -> (r: DatagramReader)
        ensures
            r.wf(),
            r.seq_spec() == 0,
            r.backoff_spec() == READER_MIN_BACKOFF_MS,
    {
        DatagramReader { local_seq: 0, backoff_ms: READER_MIN_BACKOFF_MS }
    }

    /// A datagram came from session `session_id`: the input to forward for `slot`,
    /// numbered by the next local sequence; the wait falls back to the floor.
    pub fn on_datagram(&mut self, session_id: &str, slot: EntitySlot, payload: Vec<u8>) -> (input: ClientInput)
        requires
            old(self).wf(),
        ensures
            final(self).wf(),
            final(self).seq_spec() == old(self).seq_spec().wrapping_add(1),
            final(self).backoff_spec() == READER_MIN_BACKOFF_MS,
            input.session_id@ == session_id@,
            input.entity_slot == slot,
            input.input_seq == final(self).seq_spec(),
            input.payload@ == payload@,
    {
        self.backoff_ms = READER_MIN_BACKOFF_MS;
        self.local_seq = self.local_seq.wrapping_add(1);
        ClientInput { session_id: SessionId::new(session_id), entity_slot: slot, input_seq: self.local_seq, payload }
    }

    /// The poll found nothing: how long to wait before the next one. The next wait is
    /// twice this one, but no more than the ceiling.
    pub fn on_empty(&mut self) -> (wait_ms: u64)
        requires
            old(self).wf(),
        ensures
            final(self).wf(),
            wait_ms == old(self).backoff_spec(),
            final(self).seq_spec() == old(self).seq_spec(),
            final(self).backoff_spec() == if 2 * old(self).backoff_spec() < READER_MAX_BACKOFF_MS {
                2 * old(self).backoff_spec()
            } else {
                READER_MAX_BACKOFF_MS as int
            },
    {
        let wait = self.backoff_ms;
        if self.backoff_ms < READER_MAX_BACKOFF_MS {
            let doubled = self.backoff_ms * 2;
            self.backoff_ms = if doubled < READER_MAX_BACKOFF_MS { doubled } else { READER_MAX_BACKOFF_MS };
        }
        wait
    }
}

} // verus!
