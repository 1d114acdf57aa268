use quanta_realtime_server::auth::AuthResponse;
use quanta_realtime_server::connection::{
    admission_of, route_alpn, Admission, AlpnRoute, DatagramReader, CLOSE_AUTH_FAILURE,
};
use quanta_realtime_server::types::EntitySlot;
use quanta_realtime_server::error::EndpointError;

fn auth_message(r: Result<AlpnRoute, EndpointError>) -> String {
    match r {
        Err(EndpointError::Auth(m)) => m,
        other => panic!("expected an auth error, got {other:?}"),
    }
}

#[test]
fn alpn_selects_protocol() {
    assert_eq!(route_alpn(Some(b"quanta-v1")).unwrap(), AlpnRoute::QuantaV1);
    assert_eq!(route_alpn(Some(b"h3")).unwrap(), AlpnRoute::WebTransport);
}

#[test]
fn unknown_alpn_is_refused_by_name() {
    assert_eq!(auth_message(route_alpn(Some(b"h2"))), "unknown ALPN: h2");
    assert_eq!(auth_message(route_alpn(None)), "unknown ALPN: none");
    assert_eq!(auth_message(route_alpn(Some(&[b'x', 0xff]))), "unknown ALPN: x\u{FFFD}");
    assert_eq!(auth_message(route_alpn(Some(b"quanta-v2"))), "unknown ALPN: quanta-v2");
}

#[test]
fn accepted_handshake_admits_with_token() {
    let resp = AuthResponse { session_id: 42, accepted: true, reason: String::new() };
    match admission_of(Some(Ok((resp, Some(7))))) {
        Admission::Admitted { session_id, session_token } => {
            assert_eq!(session_id, 42);
            assert_eq!(session_token, Some(7));
        }
        other => panic!("expected admission, got {other:?}"),
    }
}

#[test]
fn rejected_timed_out_and_failed_handshakes_are_refused() {
    let resp = AuthResponse { session_id: 0, accepted: false, reason: "invalid token".into() };
    match admission_of(Some(Ok((resp, None)))) {
        Admission::Refused { close_reason, error: EndpointError::Auth(m) } => {
            assert_eq!(close_reason, "auth rejected");
            assert_eq!(m, "rejected: invalid token");
        }
        other => panic!("expected refusal, got {other:?}"),
    }
    match admission_of(None) {
        Admission::Refused { close_reason, error: EndpointError::Auth(m) } => {
            assert_eq!(close_reason, "auth timeout");
            assert_eq!(m, "auth timeout");
        }
        other => panic!("expected refusal, got {other:?}"),
    }
    match admission_of(Some(Err(EndpointError::Quinn("reset".into())))) {
        Admission::Refused { close_reason, error: EndpointError::Quinn(m) } => {
            assert_eq!(close_reason, "auth failed");
            assert_eq!(m, "reset");
        }
        other => panic!("expected refusal, got {other:?}"),
    }
    assert_eq!(CLOSE_AUTH_FAILURE, 2);
}

#[test]
fn reader_numbers_inputs_and_backs_off() {
    let mut r = DatagramReader::new();
    let a = r.on_datagram("17", EntitySlot(3), vec![1, 2]);
    assert_eq!(a.input_seq, 1);
    assert_eq!(a.entity_slot, EntitySlot(3));
    assert_eq!(a.session_id.as_str(), "17");
    assert_eq!(a.payload, vec![1, 2]);
    let waits: Vec<u64> = (0..5).map(|_| r.on_empty()).collect();
    assert_eq!(waits, vec![1, 2, 4, 5, 5], "doubling up to the 5 ms ceiling");
    let b = r.on_datagram("17", EntitySlot(3), vec![]);
    assert_eq!(b.input_seq, 2);
    assert_eq!(r.on_empty(), 1, "a datagram resets the wait");
}

use quanta_realtime_server::ws_session::{
    decode_frame, encode_frame, ws_auth_ended, ws_auth_step, ws_read_step, WsAuthStep, WsInbound, WsReadStep,
    FLAG_RELIABLE, FLAG_UNRELIABLE,
};

#[test]
fn ws_frame_roundtrip_and_short_frames() {
    let f = encode_frame(FLAG_UNRELIABLE, b"abc");
    assert_eq!(f, vec![0x01, b'a', b'b', b'c']);
    assert_eq!(decode_frame(&f), Some(&b"abc"[..]));
    assert_eq!(decode_frame(&encode_frame(FLAG_RELIABLE, b"")), None, "a frame needs a payload byte");
    assert_eq!(decode_frame(&[]), None);
}

#[test]
fn ws_auth_phase_steps() {
    match ws_auth_step(WsInbound::Binary(vec![9, 8])) {
        WsAuthStep::Authenticate(b) => assert_eq!(b, vec![9, 8]),
        other => panic!("expected the request bytes, got {other:?}"),
    }
    match ws_auth_step(WsInbound::Close) {
        WsAuthStep::Fail(EndpointError::Auth(m)) => assert_eq!(m, "client closed before auth"),
        other => panic!("expected a failure, got {other:?}"),
    }
    assert!(matches!(ws_auth_step(WsInbound::Other), WsAuthStep::Skip));
    match ws_auth_ended() {
        EndpointError::Auth(m) => assert_eq!(m, "stream ended before auth"),
        other => panic!("expected an auth error, got {other:?}"),
    }
}

#[test]
fn ws_reader_steps() {
    match ws_read_step(&WsInbound::Binary(vec![FLAG_RELIABLE, 1, 2])) {
        WsReadStep::Deliver(p) => assert_eq!(p, vec![1, 2]),
        other => panic!("expected a payload, got {other:?}"),
    }
    assert!(matches!(ws_read_step(&WsInbound::Binary(vec![FLAG_RELIABLE])), WsReadStep::DropMalformed));
    assert!(matches!(ws_read_step(&WsInbound::Close), WsReadStep::Stop));
    assert!(matches!(ws_read_step(&WsInbound::Other), WsReadStep::Skip));
}
