//! Client authentication: the request/response pair and the validators.
use vstd::prelude::*;
use std::sync::atomic::AtomicU64;
use std::sync::Arc;
use crate::clock::{os_random_u64, unix_time_nanos};
use crate::error::EndpointError;
use crate::text::{decimal, decimal_chars};
use crate::wire::{be32, push_be32, push_bytes, read_be32, read_u32_be};

verus! {

/// Largest auth request the handshake accepts.
pub const MAX_AUTH_REQUEST_BYTES: usize = 65_536;

/// The well-known dev token that ships in the server binary's fallback path. A validator
/// configured with it must refuse to run on non-loopback bind addresses.
pub const DEFAULT_DEV_TOKEN: &'static str = "qk_rw_dev_devdevdevdevdevdevdevdevdevdevde";

#[derive(Debug, Clone, PartialEq)]
pub struct AuthRequest {
    pub token: String,
    pub client_version: String,
    /// For fast reconnect: the session_id from a previous auth.
    pub session_token: Option<u64>,
    /// For cross-server zone transfer: a signed transfer token from the source server.
    pub transfer_token: Option<Vec<u8>>,
}

#[derive(Debug, Clone, PartialEq)]
pub struct AuthResponse {
    pub session_id: u64,
    pub accepted: bool,
    pub reason: String,
}

pub trait AuthValidator {
    fn validate(&self, req: &AuthRequest) -> Result<AuthResponse, EndpointError>;

    /// Whether this validator is configured with the shipped hardcoded dev token.
    fn is_insecure_dev_token(&self) -> (b: bool)
        default_ensures
            !b,
    {
        false
    }
}

/// Accepts every request, numbering sessions 1, 2, 3, ...
pub struct AcceptAllValidator {
    counter: AtomicU64,
}

impl AcceptAllValidator {
    pub fn new() -> Arc<AcceptAllValidator> {
        Arc::new(AcceptAllValidator { counter: AtomicU64::new(1) })
    }
}

/// Takes the next session number (`AtomicU64::fetch_add`, relaxed). The counter is shared
/// between threads; nothing is promised of the value.
#[verifier::external_body]
pub(crate) fn next_count(counter: &AtomicU64) -> u64 {
    counter.fetch_add(1, std::sync::atomic::Ordering::Relaxed)
}

impl AuthValidator for AcceptAllValidator {
    fn validate(&self, req: &AuthRequest) -> (r: Result<AuthResponse, EndpointError>)
        ensures
            r matches Ok(resp) && resp.accepted && resp.reason@.len() == 0,
    {
        let session_id = next_count(&self.counter);
        Ok(AuthResponse { session_id, accepted: true, reason: String::new() })
    }
}

/// Accepts requests whose `token` exactly matches the configured dev token. For local
/// demo scenarios only.
pub struct DevTokenValidator {
    expected_token: String,
}

impl DevTokenValidator {
    pub fn new(expected_token: &str) -> (v: Arc<DevTokenValidator>)
        ensures
            v.expected()@ == expected_token@,
    {
        Arc::new(DevTokenValidator { expected_token: String::from_str(expected_token) })
    }

    pub closed spec fn expected(&self) -> String {
        self.expected_token
    }

    /// The outcome for `req`: accepted with a fresh non-zero session id when the token
    /// matches, rejected with session id 0 and reason "invalid token" otherwise.
    pub fn check(&self, req: &AuthRequest) -> (r: AuthResponse)
        ensures
            r.accepted == (req.token@ == self.expected()@),
            r.accepted ==> r.session_id != 0 && r.reason@ == Seq::<char>::empty(),
            !r.accepted ==> r.session_id == 0 && r.reason@ == "invalid token"@,
    {
        let matches = bytes_equal_constant_time(req.token.as_str().as_bytes(), self.expected_token.as_str().as_bytes());
        proof {
            lemma_utf8_bytes_determine_chars(req.token@, self.expected_token@);
        }
        if !matches {
            return AuthResponse { session_id: 0, accepted: false, reason: String::from_str("invalid token") };
        }
        AuthResponse { session_id: fresh_session_id(), accepted: true, reason: String::new() }
    }

    /// Whether the configured token is the shipped dev token.
    pub fn uses_default_dev_token(&self) -> (b: bool)
        ensures
            b == (self.expected()@ == DEFAULT_DEV_TOKEN@),
    {
        let r = bytes_equal_constant_time(self.expected_token.as_str().as_bytes(), DEFAULT_DEV_TOKEN.as_bytes());
        proof {
            lemma_utf8_bytes_determine_chars(self.expected_token@, DEFAULT_DEV_TOKEN@);
        }
        r
    }
}

impl AuthValidator for DevTokenValidator {
    fn validate(&self, req: &AuthRequest) -> (r: Result<AuthResponse, EndpointError>)
        ensures
            r matches Ok(resp) && resp.accepted == (req.token@ == self.expected()@) && (resp.accepted
                ==> resp.session_id != 0 && resp.reason@.len() == 0) && (!resp.accepted
                ==> resp.session_id == 0 && resp.reason@ == "invalid token"@),
    {
        Ok(self.check(req))
    }

    fn is_insecure_dev_token(&self) -> (b: bool)
        ensures
            b == (self.expected()@ == DEFAULT_DEV_TOKEN@),
    {
        self.uses_default_dev_token()
    }
}

/// Two strings are equal exactly when their UTF-8 encodings are.
proof fn lemma_utf8_bytes_determine_chars(a: Seq<char>, b: Seq<char>)
    ensures
        (vstd::utf8::encode_utf8(a) == vstd::utf8::encode_utf8(b)) == (a == b),
{
    vstd::utf8::encode_utf8_decode_utf8(a);
    vstd::utf8::encode_utf8_decode_utf8(b);
}

/// Byte-slice equality that looks at every byte whatever the contents, so its timing
/// reveals only the lengths.
pub fn bytes_equal_constant_time(a: &[u8], b: &[u8]) -> (eq: bool)
    ensures
        eq == (a@ == b@),
{
    if a.len() != b.len() {
        return false;
    }
    let mut acc: u8 = 0;
    let mut i: usize = 0;
    assert(a@.subrange(0, 0) =~= b@.subrange(0, 0));
    while i < a.len()
        invariant
            a.len() == b.len(),
            i <= a.len(),
            (acc == 0) == (a@.subrange(0, i as int) == b@.subrange(0, i as int)),
        decreases a.len() - i,
    {
        let x = a[i];
        let y = b[i];
        let ghost prev = acc;
        acc = acc | (x ^ y);
        assert((acc == 0) == (prev == 0 && x == y)) by (bit_vector)
            requires
                acc == prev | (x ^ y),
        ;
        proof {
            let j: int = i as int;
            let a0 = a@.subrange(0, j);
            let b0 = b@.subrange(0, j);
            let a1 = a@.subrange(0, j + 1);
            let b1 = b@.subrange(0, j + 1);
            assert(a1 =~= a0.push(x));
            assert(b1 =~= b0.push(y));
            if prev == 0 && x != y {
                assert(a1[j] != b1[j]);
            }
            if prev != 0 {
                assert(a0 != b0);
                if a1 == b1 {
                    assert(a0 =~= a1.subrange(0, j));
                    assert(b0 =~= b1.subrange(0, j));
                }
            }
        }
        i = i + 1;
    }
    assert(a@.subrange(0, a.len() as int) =~= a@);
    assert(b@.subrange(0, b.len() as int) =~= b@);
    acc == 0
}

/// A fresh 64-bit session id from the operating system's CSPRNG, never zero (zero marks a
/// rejected auth): it draws again until it gets a non-zero value. When the CSPRNG fails,
/// the wall clock's nanoseconds stand in. The drawing is counted in a `u64`; should all
/// 2^64 - 1 draws come up zero, 1 is returned.
pub fn fresh_session_id() -> (id: u64)
    ensures
        id != 0,
{
    let mut attempts: u64 = 0;
    while attempts < u64::MAX
        decreases u64::MAX - attempts,
    {
        match os_random_u64() {
            Some(id) => {
                if id != 0 {
                    return id;
                }
            },
            None => {
                let now: u64 = match unix_time_nanos() {
                    Some(n) => n as u64,
                    None => 1,
                };
                if now != 0 {
                    return now;
                }
            },
        }
        attempts = attempts + 1;
    }
    1
}

/// Whether the server may start listening: a validator holding the shipped dev token may
/// only be exposed on loopback addresses (every listen address must be loopback).
pub fn start_allowed(insecure_dev_token: bool, all_addresses_loopback: bool) -> (b: bool)
    ensures
        b == (!insecure_dev_token || all_addresses_loopback),
{
    !insecure_dev_token || all_addresses_loopback
}

/// The message that refuses an auth request of `len` bytes.
pub open spec fn too_large_text(len: nat) -> Seq<char> {
    "request too large: "@ + decimal_chars(len) + " bytes, max "@ + decimal_chars(MAX_AUTH_REQUEST_BYTES as nat)
}

/// The body length an auth request announces in its 4-byte big-endian prefix; refused
/// when it exceeds `MAX_AUTH_REQUEST_BYTES`.
pub fn auth_request_length(prefix: &[u8; 4]) -> (r: Result<usize, EndpointError>)
    ensures
        read_be32(prefix@, 0) <= MAX_AUTH_REQUEST_BYTES ==> r == Ok::<usize, EndpointError>(
            read_be32(prefix@, 0) as usize,
        ),
        read_be32(prefix@, 0) > MAX_AUTH_REQUEST_BYTES ==> (r matches Err(EndpointError::Auth(msg)) && msg@
            == too_large_text(read_be32(prefix@, 0) as nat)),
{
    let len = read_u32_be(prefix.as_slice(), 0);
    if len as usize > MAX_AUTH_REQUEST_BYTES {
        let mut msg = String::from_str("request too large: ");
        msg.append(decimal(len as u64).as_str());
        msg.append(" bytes, max ");
        msg.append(decimal(MAX_AUTH_REQUEST_BYTES as u64).as_str());
        return Err(EndpointError::Auth(msg));
    }
    Ok(len as usize)
}

/// The validator's answer to a decoded request, with the client's reconnect token.
pub fn handshake_response<V: AuthValidator>(validator: &V, req: &AuthRequest) -> (r: Result<
    (AuthResponse, Option<u64>),
    EndpointError,
>)
    ensures
        exists|v: Result<AuthResponse, EndpointError>|
            #[trigger] call_ensures(V::validate, (validator, req), v) && r == match v {
                Ok(resp) => Ok((resp, req.session_token)),
                Err(e) => Err::<(AuthResponse, Option<u64>), EndpointError>(e),
            },
{
    let token = req.session_token;
    let v = validator.validate(req);
    match v {
        Ok(resp) => Ok((resp, token)),
        Err(e) => Err(e),
    }
}

/// `body` behind its length as a 4-byte big-endian prefix (the length truncated to 32
/// bits).
pub fn length_prefixed(body: &[u8]) -> (framed: Vec<u8>)
    ensures
        framed@ == be32(body@.len() as u32) + body@,
{
    let mut framed: Vec<u8> = Vec::new();
    #[verifier::truncate]
    let len: u32 = body.len() as u32;
    push_be32(&mut framed, len);
    push_bytes(&mut framed, body);
    framed
}

/// An auth request's fields as plain values: token, client version, reconnect token,
/// transfer token.
pub type AuthRequestFields = (Seq<char>, Seq<char>, Option<u64>, Option<Seq<u8>>);

pub open spec fn request_fields(r: AuthRequest) -> AuthRequestFields {
    (r.token@, r.client_version@, r.session_token, crate::tick::types::opt_bytes(r.transfer_token))
}

/// The fields that `bitcode::decode` reads from `bytes` as an auth request, if any.
pub uninterp spec fn bitcode_auth_request_of(bytes: Seq<u8>) -> Option<AuthRequestFields>;

/// The bytes `bitcode::encode` makes of an auth response with these fields.
pub uninterp spec fn bitcode_auth_response(session_id: u64, accepted: bool, reason: Seq<char>) -> Seq<u8>;

/// `bitcode::decode` of an auth request's fields, in declaration order: `Ok` exactly when
/// `bitcode_auth_request_of(body)` is, and then those fields. The error text is bitcode's.
#[verifier::external_body]
fn decode_auth_tuple(body: &[u8]) -> (r: Result<(String, String, Option<u64>, Option<Vec<u8>>), String>)
    ensures
        r is Ok <==> bitcode_auth_request_of(body@) is Some,
        r matches Ok(v) ==> bitcode_auth_request_of(body@) == Some(
            (v.0@, v.1@, v.2, crate::tick::types::opt_bytes(v.3)),
        ),
{
    match bitcode::decode::<(String, String, Option<u64>, Option<Vec<u8>>)>(body) {
        Ok(v) => Ok(v),
        Err(e) => Err(e.to_string()),
    }
}

/// `bitcode::encode` of an auth response's fields, in declaration order:
/// `bitcode_auth_response(session_id, accepted, reason)`.
#[verifier::external_body]
fn encode_auth_tuple(session_id: u64, accepted: bool, reason: &str) -> (b: Vec<u8>)
    ensures
        b@ == bitcode_auth_response(session_id, accepted, reason@),
        bitcode_auth_response_of(b@) == Some((session_id, accepted, reason@)),
{
    bitcode::encode(&(session_id, accepted, reason.to_string()))
}

fn decode_auth_as(body: &[u8], prefix: &str) -> (r: Result<AuthRequest, EndpointError>)
    ensures
        match bitcode_auth_request_of(body@) {
            Some(f) => r matches Ok(req) && request_fields(req) == f,
            None => r matches Err(EndpointError::Auth(m)) && exists|t: Seq<char>| m@ == prefix@ + t,
        },
{
    match decode_auth_tuple(body) {
        Ok((token, client_version, session_token, transfer_token)) => {
            Ok(AuthRequest { token, client_version, session_token, transfer_token })
        },
        Err(e) => {
            let mut m = String::from_str(prefix);
            m.append(e.as_str());
            Err(EndpointError::Auth(m))
        },
    }
}

/// The auth request a handshake stream carries (its bitcode body, without the length
/// prefix); refused with `Auth("decode request: <bitcode's error>")` when it does not decode.
pub fn decode_auth_request(body: &[u8]) -> (r: Result<AuthRequest, EndpointError>)
    ensures
        match bitcode_auth_request_of(body@) {
            Some(f) => r matches Ok(req) && request_fields(req) == f,
            None => r matches Err(EndpointError::Auth(m)) && exists|t: Seq<char>| m@ == "decode request: "@ + t,
        },
{
    decode_auth_as(body, "decode request: ")
}

/// The auth request a WebSocket's first binary message carries; refused with
/// `Auth("decode auth: <bitcode's error>")` when it does not decode.
pub fn decode_ws_auth_request(body: &[u8]) -> (r: Result<AuthRequest, EndpointError>)
    ensures
        match bitcode_auth_request_of(body@) {
            Some(f) => r matches Ok(req) && request_fields(req) == f,
            None => r matches Err(EndpointError::Auth(m)) && exists|t: Seq<char>| m@ == "decode auth: "@ + t,
        },
{
    decode_auth_as(body, "decode auth: ")
}

/// The bitcode bytes of an auth response.
pub fn encode_auth_response(resp: &AuthResponse) -> (b: Vec<u8>)
    ensures
        b@ == bitcode_auth_response(resp.session_id, resp.accepted, resp.reason@),
        bitcode_auth_response_of(b@) == Some((resp.session_id, resp.accepted, resp.reason@)),
{
    encode_auth_tuple(resp.session_id, resp.accepted, resp.reason.as_str())
}

/// What an exchange leaves: the decoding of `body`, and for a decoded request the
/// validator's answer with the request's reconnect token and the response's bytes.
pub open spec fn exchanged<V: AuthValidator>(
    validator: &V,
    body: Seq<u8>,
    prefix: Seq<char>,
    r: Result<(AuthResponse, Option<u64>, Vec<u8>), EndpointError>,
) -> bool {
    match bitcode_auth_request_of(body) {
        None => r matches Err(EndpointError::Auth(m)) && exists|t: Seq<char>| m@ == prefix + t,
        Some(f) => exists|req: AuthRequest, v: Result<AuthResponse, EndpointError>|
            request_fields(req) == f && #[trigger] call_ensures(V::validate, (validator, &req), v) && match v {
                Ok(resp) => r matches Ok((resp2, token, bytes)) && resp2 == resp && token == f.2
                    && bytes@ == bitcode_auth_response(resp.session_id, resp.accepted, resp.reason@),
                Err(e) => r == Err::<(AuthResponse, Option<u64>, Vec<u8>), EndpointError>(e),
            },
    }
}

fn exchange_as<V: AuthValidator>(validator: &V, body: &[u8], prefix: &str) -> (r: Result<
    (AuthResponse, Option<u64>, Vec<u8>),
    EndpointError,
>)
    ensures
        exchanged(validator, body@, prefix@, r),
{
    let req = match decode_auth_as(body, prefix) {
        Ok(req) => req,
        Err(e) => return Err(e),
    };
    let token = req.session_token;
    let v = validator.validate(&req);
    match v {
        Ok(resp) => {
            let bytes = encode_auth_response(&resp);
            Ok((resp, token, bytes))
        },
        Err(e) => Err(e),
    }
}

/// The handshake on a decoded stream: decode the request body, ask the validator, and
/// give its response, the client's reconnect token and the response's bitcode bytes
/// (to be sent behind their length). A body that does not decode is refused with
/// `Auth("decode request: ...")`; a validator's error is passed on.
pub fn auth_exchange<V: AuthValidator>(validator: &V, body: &[u8]) -> (r: Result<
    (AuthResponse, Option<u64>, Vec<u8>),
    EndpointError,
>)
    ensures
        exchanged(validator, body@, "decode request: "@, r),
{
    exchange_as(validator, body, "decode request: ")
}

/// The same exchange on a WebSocket's first binary message (response sent as is); a
/// message that does not decode is refused with `Auth("decode auth: ...")`.
pub fn ws_auth_exchange<V: AuthValidator>(validator: &V, body: &[u8]) -> (r: Result<
    (AuthResponse, Option<u64>, Vec<u8>),
    EndpointError,
>)
    ensures
        exchanged(validator, body@, "decode auth: "@, r),
{
    exchange_as(validator, body, "decode auth: ")
}

/// The bytes `bitcode::encode` makes of an auth request with these fields.
pub uninterp spec fn bitcode_auth_request(f: AuthRequestFields) -> Seq<u8>;

/// The fields that `bitcode::decode` reads from `bytes` as an auth response, if any.
pub uninterp spec fn bitcode_auth_response_of(bytes: Seq<u8>) -> Option<(u64, bool, Seq<char>)>;

/// `bitcode::encode` of an auth request's fields, in declaration order:
/// `bitcode_auth_request` of them, which decodes back to them.
#[verifier::external_body]
fn encode_request_tuple(req: &AuthRequest) -> (b: Vec<u8>)
    ensures
        b@ == bitcode_auth_request(request_fields(*req)),
        bitcode_auth_request_of(b@) == Some(request_fields(*req)),
{
    bitcode::encode(&(req.token.clone(), req.client_version.clone(), req.session_token, req.transfer_token.clone()))
}

/// `bitcode::decode` of an auth response's fields: `Some` exactly when
/// `bitcode_auth_response_of(body)` is, and then those fields.
#[verifier::external_body]
fn decode_response_tuple(body: &[u8]) -> (r: Option<(u64, bool, String)>)
    ensures
        r is Some <==> bitcode_auth_response_of(body@) is Some,
        r matches Some(v) ==> bitcode_auth_response_of(body@) == Some((v.0, v.1, v.2@)),
{
    match bitcode::decode::<(u64, bool, String)>(body) {
        Ok(v) => Some(v),
        Err(_) => None,
    }
}

/// The bitcode bytes of an auth request, as a client sends them; they decode back to it.
pub fn encode_auth_request(req: &AuthRequest) -> (b: Vec<u8>)
    ensures
        b@ == bitcode_auth_request(request_fields(*req)),
        bitcode_auth_request_of(b@) == Some(request_fields(*req)),
{
    encode_request_tuple(req)
}

/// The auth response a client reads from the response's bitcode bytes; `None` when they
/// do not decode.
pub fn decode_auth_response(body: &[u8]) -> (r: Option<AuthResponse>)
    ensures
        match bitcode_auth_response_of(body@) {
            Some(f) => r matches Some(resp) && resp.session_id == f.0 && resp.accepted == f.1 && resp.reason@ == f.2,
            None => r is None,
        },
{
    match decode_response_tuple(body) {
        Some((session_id, accepted, reason)) => Some(AuthResponse { session_id, accepted, reason }),
        None => None,
    }
}


} // verus!
