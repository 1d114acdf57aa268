use quanta_realtime_server::auth::{
    auth_exchange, decode_auth_request, decode_auth_response, decode_ws_auth_request, encode_auth_request,
    encode_auth_response, AuthResponse, ws_auth_exchange, auth_request_length, handshake_response, length_prefixed, MAX_AUTH_REQUEST_BYTES,
    bytes_equal_constant_time, AcceptAllValidator, AuthRequest, AuthValidator, DevTokenValidator,
    DEFAULT_DEV_TOKEN,
};
use quanta_realtime_server::error::EndpointError;
use quanta_realtime_server::testing::TestValidator;

fn dev_req(token: &str) -> AuthRequest {
    AuthRequest {
        token: token.into(),
        client_version: "0.1.0".into(),
        session_token: None,
        transfer_token: None,
    }
}

#[test]
fn accept_all_validator_returns_ok() {
    let validator = AcceptAllValidator::new();
    let req = AuthRequest {
        token: "anything".into(),
        client_version: "0.0.1".into(),
        session_token: None,
        transfer_token: None,
    };
    let resp = validator.validate(&req).unwrap();
    assert!(resp.accepted);
    assert!(resp.session_id > 0);
}

#[test]
fn accept_all_validator_increments_session_id() {
    let validator = AcceptAllValidator::new();
    let req = AuthRequest {
        token: "t".into(),
        client_version: "v".into(),
        session_token: None,
        transfer_token: None,
    };
    let r1 = validator.validate(&req).unwrap();
    let r2 = validator.validate(&req).unwrap();
    assert_eq!(r2.session_id, r1.session_id + 1);
}

#[test]
fn dev_token_validator_accepts_matching_token() {
    let v = DevTokenValidator::new("qk_rw_dev_xxx");
    let r = v.validate(&dev_req("qk_rw_dev_xxx")).unwrap();
    assert!(r.accepted);
    assert!(r.session_id > 0);
}

#[test]
fn dev_token_validator_rejects_wrong_token() {
    let v = DevTokenValidator::new("qk_rw_dev_xxx");
    let r = v.validate(&dev_req("bad")).unwrap();
    assert!(!r.accepted);
    assert_eq!(r.reason, "invalid token");
}

#[test]
fn dev_token_validator_rejects_empty_token() {
    let v = DevTokenValidator::new("qk_rw_dev_xxx");
    let r = v.validate(&dev_req("")).unwrap();
    assert!(!r.accepted);
}

#[test]
fn dev_token_validator_rejects_length_mismatch() {
    let v = DevTokenValidator::new("qk_rw_dev_xxx");
    // one char short
    let r = v.validate(&dev_req("qk_rw_dev_xx")).unwrap();
    assert!(!r.accepted);
}

#[test]
fn dev_token_validator_flags_shipped_token() {
    assert!(DevTokenValidator::new(DEFAULT_DEV_TOKEN).uses_default_dev_token());
    assert!(DevTokenValidator::new(DEFAULT_DEV_TOKEN).is_insecure_dev_token());
    assert!(!DevTokenValidator::new("qk_rw_dev_xxx").uses_default_dev_token());
    assert!(!AcceptAllValidator::new().is_insecure_dev_token());
}

#[test]
fn constant_time_comparison_matches_equality() {
    assert!(bytes_equal_constant_time(b"abc", b"abc"));
    assert!(!bytes_equal_constant_time(b"abc", b"abd"));
    assert!(!bytes_equal_constant_time(b"abc", b"ab"));
    assert!(bytes_equal_constant_time(b"", b""));
}

#[test]
fn test_validator_accepts_and_counts_up() {
    let v = TestValidator::new();
    let r1 = v.validate(&dev_req("whatever")).unwrap();
    let r2 = v.validate(&dev_req("")).unwrap();
    assert!(r1.accepted && r2.accepted);
    assert_eq!(r1.session_id, 1);
    assert_eq!(r2.session_id, 2);
    assert_eq!(r1.reason, "");
}

#[test]
fn auth_request_length_limits() {
    assert_eq!(auth_request_length(&[0, 1, 0, 0]).unwrap(), MAX_AUTH_REQUEST_BYTES);
    assert_eq!(auth_request_length(&[0, 0, 0, 5]).unwrap(), 5);
    match auth_request_length(&[0, 1, 0, 1]) {
        Err(EndpointError::Auth(msg)) => assert_eq!(msg, "request too large: 65537 bytes, max 65536"),
        other => panic!("unexpected {other:?}"),
    }
    assert_eq!(length_prefixed(&[7, 8]), vec![0, 0, 0, 2, 7, 8]);
}

#[test]
fn handshake_response_carries_reconnect_token() {
    let v = DevTokenValidator::new("tok");
    let mut req = dev_req("tok");
    req.session_token = Some(77);
    let (resp, token) = handshake_response(&*v, &req).unwrap();
    assert!(resp.accepted);
    assert_eq!(token, Some(77));
}

#[test]
fn bitcode_roundtrip_auth_request() {
    let req = AuthRequest {
        token: "test-token-123".into(),
        client_version: "0.1.0".into(),
        session_token: None,
        transfer_token: None,
    };
    let bytes = encode_auth_request(&req);
    let decoded: AuthRequest = decode_auth_request(&bytes).unwrap();
    assert_eq!(req, decoded);
}

#[test]
fn bitcode_roundtrip_auth_request_with_session_token() {
    let req = AuthRequest {
        token: "reconnect".into(),
        client_version: "0.1.0".into(),
        session_token: Some(42),
        transfer_token: None,
    };
    let bytes = encode_auth_request(&req);
    let decoded: AuthRequest = decode_auth_request(&bytes).unwrap();
    assert_eq!(req, decoded);
    assert_eq!(decoded.session_token, Some(42));
}

#[test]
fn bitcode_roundtrip_auth_response() {
    let resp = AuthResponse { session_id: 42, accepted: true, reason: String::new() };
    let bytes = encode_auth_response(&resp);
    let decoded: AuthResponse = decode_auth_response(&bytes).unwrap();
    assert_eq!(resp, decoded);
}

#[test]
fn auth_request_bytes_are_bitcode_of_the_fields() {
    let req = AuthRequest {
        token: "t".into(),
        client_version: "v".into(),
        session_token: Some(7),
        transfer_token: Some(vec![1, 2, 3]),
    };
    let expected = bitcode::encode(&("t".to_string(), "v".to_string(), Some(7u64), Some(vec![1u8, 2, 3])));
    assert_eq!(encode_auth_request(&req), expected);
    assert_eq!(decode_ws_auth_request(&expected).unwrap(), req);
}

#[test]
fn exchange_answers_with_validator_response_bytes() {
    let v = DevTokenValidator::new("secret");
    let body = encode_auth_request(&AuthRequest {
        token: "secret".into(),
        client_version: "1".into(),
        session_token: Some(9),
        transfer_token: None,
    });
    let (resp, token, bytes) = auth_exchange(&*v, &body).unwrap();
    assert!(resp.accepted);
    assert_eq!(token, Some(9));
    assert_eq!(bytes, bitcode::encode(&(resp.session_id, true, String::new())));
    assert_eq!(decode_auth_response(&bytes).unwrap(), resp);

    let (rejected, _, _) = ws_auth_exchange(&*v, &encode_auth_request(&dev_req("wrong"))).unwrap();
    assert!(!rejected.accepted);
    assert_eq!(rejected.reason, "invalid token");
}

#[test]
fn undecodable_request_is_refused() {
    let v = DevTokenValidator::new("secret");
    match auth_exchange(&*v, &[]) {
        Err(EndpointError::Auth(m)) => assert!(m.starts_with("decode request: "), "{m}"),
        other => panic!("expected refusal, got {other:?}"),
    }
    match ws_auth_exchange(&*v, &[]) {
        Err(EndpointError::Auth(m)) => assert!(m.starts_with("decode auth: "), "{m}"),
        other => panic!("expected refusal, got {other:?}"),
    }
    assert!(decode_auth_response(&[]).is_none());
}

#[test]
fn shipped_dev_token_starts_only_on_loopback() {
    assert!(quanta_realtime_server::auth::start_allowed(true, true));
    assert!(!quanta_realtime_server::auth::start_allowed(true, false));
    assert!(quanta_realtime_server::auth::start_allowed(false, false));
}
