//! Checkpoint framing: `[js_seq:u64][state_ver:u16][nonce:u64][checkpoint_tick:u64]`
//! (big-endian, 26 bytes) followed by the encoded entity payload.
use vstd::prelude::*;
use crate::wire::{
    be16, be64, read_be16, read_be64, read_u16_be, read_u64_be, lemma_read_be16_at, lemma_read_be64_at,
    push_bytes,
};
use crate::text::{decimal, decimal_chars};

verus! {

/// Checkpoint header size: js_seq(8) + state_ver(2) + nonce(8) + checkpoint_tick(8).
pub const CHECKPOINT_HEADER_SIZE: usize = 26;

/// Current checkpoint state version. Bumped when the payload layout changes.
pub const CHECKPOINT_STATE_VERSION: u16 = 1;

/// Errors during checkpoint encoding/decoding.
#[derive(Debug, PartialEq)]
#[allow(inconsistent_fields)]
pub enum CheckpointCodecError {
    TruncatedInput { expected: usize, got: usize },
    UnsupportedVersion { expected: u16, got: u16 },
    InvalidPayload(String),
}

impl CheckpointCodecError {
    /// Human-readable description of the error.
    pub fn to_string(&self) -> (s: String)
        ensures
            s@ == (match self {
                CheckpointCodecError::TruncatedInput { expected, got } =>
                    "truncated checkpoint: expected at least "@ + decimal_chars(*expected as nat)
                    + " bytes, got "@ + decimal_chars(*got as nat),
                CheckpointCodecError::UnsupportedVersion { expected, got } =>
                    "unsupported checkpoint version: expected "@ + decimal_chars(*expected as nat)
                    + ", got "@ + decimal_chars(*got as nat),
                CheckpointCodecError::InvalidPayload(msg) => "invalid checkpoint payload: "@ + msg@,
            }),
    {
        match self {
            CheckpointCodecError::TruncatedInput { expected, got } => {
                let mut s = String::from_str("truncated checkpoint: expected at least ");
                s.append(decimal(*expected as u64).as_str());
                s.append(" bytes, got ");
                s.append(decimal(*got as u64).as_str());
                s
            },
            CheckpointCodecError::UnsupportedVersion { expected, got } => {
                let mut s = String::from_str("unsupported checkpoint version: expected ");
                s.append(decimal(*expected as u64).as_str());
                s.append(", got ");
                s.append(decimal(*got as u64).as_str());
                s
            },
            CheckpointCodecError::InvalidPayload(msg) => {
                let mut s = String::from_str("invalid checkpoint payload: ");
                s.append(msg.as_str());
                s
            },
        }
    }
}

/// The 26 header bytes.
pub open spec fn checkpoint_header(js_seq: u64, state_version: u16, nonce: u64, checkpoint_tick: u64) -> Seq<u8> {
    be64(js_seq) + be16(state_version) + be64(nonce) + be64(checkpoint_tick)
}

/// Encode checkpoint header: `[js_seq:8][state_ver:2][nonce:8][checkpoint_tick:8]`.
pub fn encode_checkpoint_header(js_seq: u64, state_version: u16, nonce: u64, checkpoint_tick: u64)
    -> (buf: [u8; 26])
    ensures
        buf@ == checkpoint_header(js_seq, state_version, nonce, checkpoint_tick),
{
    let buf: [u8; 26] = [
        (js_seq >> 56u64) as u8,
        (js_seq >> 48u64) as u8,
        (js_seq >> 40u64) as u8,
        (js_seq >> 32u64) as u8,
        (js_seq >> 24u64) as u8,
        (js_seq >> 16u64) as u8,
        (js_seq >> 8u64) as u8,
        js_seq as u8,
        (state_version >> 8u16) as u8,
        state_version as u8,
        (nonce >> 56u64) as u8,
        (nonce >> 48u64) as u8,
        (nonce >> 40u64) as u8,
        (nonce >> 32u64) as u8,
        (nonce >> 24u64) as u8,
        (nonce >> 16u64) as u8,
        (nonce >> 8u64) as u8,
        nonce as u8,
        (checkpoint_tick >> 56u64) as u8,
        (checkpoint_tick >> 48u64) as u8,
        (checkpoint_tick >> 40u64) as u8,
        (checkpoint_tick >> 32u64) as u8,
        (checkpoint_tick >> 24u64) as u8,
        (checkpoint_tick >> 16u64) as u8,
        (checkpoint_tick >> 8u64) as u8,
        checkpoint_tick as u8,
    ];
    assert(buf@ =~= checkpoint_header(js_seq, state_version, nonce, checkpoint_tick));
    buf
}

/// Decode checkpoint header, returning `(js_seq, state_version, nonce, checkpoint_tick, data)`.
pub fn decode_checkpoint_header(bytes: &[u8]) -> (res: Result<
    (u64, u16, u64, u64, &[u8]),
    CheckpointCodecError,
>)
    ensures
        bytes.len() < CHECKPOINT_HEADER_SIZE ==> res == Err::<(u64, u16, u64, u64, &[u8]), CheckpointCodecError>(
            CheckpointCodecError::TruncatedInput { expected: CHECKPOINT_HEADER_SIZE, got: bytes.len() },
        ),
        bytes.len() >= CHECKPOINT_HEADER_SIZE ==> (res matches Ok((js_seq, ver, nonce, tick, data))
            && js_seq == read_be64(bytes@, 0) && ver == read_be16(bytes@, 8) && nonce == read_be64(
            bytes@,
            10,
        ) && tick == read_be64(bytes@, 18) && data@ == bytes@.subrange(26, bytes@.len() as int)),
{
    if bytes.len() < CHECKPOINT_HEADER_SIZE {
        return Err(
            CheckpointCodecError::TruncatedInput { expected: CHECKPOINT_HEADER_SIZE, got: bytes.len() },
        );
    }
    let js_seq = read_u64_be(bytes, 0);
    let state_version = read_u16_be(bytes, 8);
    let nonce = read_u64_be(bytes, 10);
    let checkpoint_tick = read_u64_be(bytes, 18);
    let data = &bytes[26..bytes.len()];
    Ok((js_seq, state_version, nonce, checkpoint_tick, data))
}

/// Decoding an encoded header gives back its four fields and the bytes after it.
pub proof fn lemma_checkpoint_header_roundtrip(
    js_seq: u64,
    state_version: u16,
    nonce: u64,
    checkpoint_tick: u64,
    data: Seq<u8>,
)
    ensures
        ({
            let s = checkpoint_header(js_seq, state_version, nonce, checkpoint_tick) + data;
            &&& s.len() >= CHECKPOINT_HEADER_SIZE
            &&& read_be64(s, 0) == js_seq
            &&& read_be16(s, 8) == state_version
            &&& read_be64(s, 10) == nonce
            &&& read_be64(s, 18) == checkpoint_tick
            &&& s.subrange(26, s.len() as int) == data
        }),
{
    let s = checkpoint_header(js_seq, state_version, nonce, checkpoint_tick) + data;
    assert(s.subrange(0, 8) =~= be64(js_seq));
    assert(s.subrange(8, 10) =~= be16(state_version));
    assert(s.subrange(10, 18) =~= be64(nonce));
    assert(s.subrange(18, 26) =~= be64(checkpoint_tick));
    lemma_read_be64_at(s, 0, js_seq);
    lemma_read_be16_at(s, 8, state_version);
    lemma_read_be64_at(s, 10, nonce);
    lemma_read_be64_at(s, 18, checkpoint_tick);
    assert(s.subrange(26, s.len() as int) =~= data);
}

// ---------------------------------------------------------------------------
// Payload
// ---------------------------------------------------------------------------

/// A single entity's state within a checkpoint.
#[derive(Debug, Clone, PartialEq)]
pub struct CheckpointEntity {
    pub slot: u32,
    pub state: Vec<u8>,
    pub owner_session: Option<String>,
}

/// The entity states a checkpoint carries.
#[derive(Debug, Clone, PartialEq)]
pub struct CheckpointPayload {
    pub entities: Vec<CheckpointEntity>,
}

/// An entity state as plain values: slot, state bytes, owning session.
pub type EntityRecord = (u32, Seq<u8>, Option<Seq<char>>);

pub open spec fn opt_text(o: Option<String>) -> Option<Seq<char>> {
    match o {
        Some(s) => Some(s@),
        None => None,
    }
}

pub open spec fn record_of(e: CheckpointEntity) -> EntityRecord {
    (e.slot, e.state@, opt_text(e.owner_session))
}

pub open spec fn records_of(es: Seq<CheckpointEntity>) -> Seq<EntityRecord> {
    es.map_values(|e: CheckpointEntity| record_of(e))
}

pub open spec fn tuple_records(ts: Seq<(u32, Vec<u8>, Option<String>)>) -> Seq<EntityRecord> {
    ts.map_values(|t: (u32, Vec<u8>, Option<String>)| (t.0, t.1@, opt_text(t.2)))
}

/// The bytes `bitcode::encode` gives for a list of entity records.
pub uninterp spec fn bitcode_records(records: Seq<EntityRecord>) -> Seq<u8>;

/// What `bitcode::decode` reads from `bytes` as a list of entity records, if it reads one.
pub uninterp spec fn bitcode_records_of(bytes: Seq<u8>) -> Option<Seq<EntityRecord>>;

/// `bitcode::encode` of a list of `(slot, state, owner)` tuples. The bytes are
/// `bitcode_records` of the list, and `bitcode::decode` reads the same list back from them
/// (the round trip bitcode's own tests check).
#[verifier::external_body]
pub(crate) fn encode_records(records: &Vec<(u32, Vec<u8>, Option<String>)>) -> (b: Vec<u8>)
    ensures
        b@ == bitcode_records(tuple_records(records@)),
        bitcode_records_of(b@) == Some(tuple_records(records@)),
{
    bitcode::encode(records)
}

/// `bitcode::decode` of a list of `(slot, state, owner)` tuples: `Ok` exactly when
/// `bitcode_records_of(bytes)` is a list, and then that list. The error text is bitcode's.
#[verifier::external_body]
pub(crate) fn decode_records(bytes: &[u8]) -> (r: Result<Vec<(u32, Vec<u8>, Option<String>)>, String>)
    ensures
        r is Ok <==> bitcode_records_of(bytes@) is Some,
        r matches Ok(v) ==> Some(tuple_records(v@)) == bitcode_records_of(bytes@),
{
    match bitcode::decode::<Vec<(u32, Vec<u8>, Option<String>)>>(bytes) {
        Ok(v) => Ok(v),
        Err(e) => Err(e.to_string()),
    }
}

/// A copy of the bytes.
pub fn copy_bytes(b: &[u8]) -> (c: Vec<u8>)
    ensures
        c@ == b@,
{
    let mut c: Vec<u8> = Vec::new();
    push_bytes(&mut c, b);
    c
}

/// A copy of an optional text.
pub fn copy_opt_text(o: &Option<String>) -> (c: Option<String>)
    ensures
        opt_text(c) == opt_text(*o),
{
    match o {
        Some(s) => Some(s.clone()),
        None => None,
    }
}

/// The payload's entities as plain tuples.
pub fn payload_records(payload: &CheckpointPayload) -> (ts: Vec<(u32, Vec<u8>, Option<String>)>)
    ensures
        tuple_records(ts@) == records_of(payload.entities@),
{
    let mut ts: Vec<(u32, Vec<u8>, Option<String>)> = Vec::new();
    let mut i: usize = 0;
    while i < payload.entities.len()
        invariant
            i <= payload.entities.len(),
            tuple_records(ts@) == records_of(payload.entities@).take(i as int),
        decreases payload.entities.len() - i,
    {
        let e = &payload.entities[i];
        let t = (e.slot, copy_bytes(e.state.as_slice()), copy_opt_text(&e.owner_session));
        proof {
            assert(tuple_records(ts@.push(t)) =~= tuple_records(ts@).push((t.0, t.1@, opt_text(t.2))));
            assert(records_of(payload.entities@).take(i + 1) =~= records_of(payload.entities@).take(
                i as int,
            ).push(record_of(payload.entities@[i as int])));
        }
        ts.push(t);
        i = i + 1;
    }
    assert(records_of(payload.entities@).take(i as int) =~= records_of(payload.entities@));
    ts
}

/// Entities from plain tuples.
pub fn payload_from_records(ts: &Vec<(u32, Vec<u8>, Option<String>)>) -> (p: CheckpointPayload)
    ensures
        records_of(p.entities@) == tuple_records(ts@),
{
    let mut es: Vec<CheckpointEntity> = Vec::new();
    let mut i: usize = 0;
    while i < ts.len()
        invariant
            i <= ts.len(),
            records_of(es@) == tuple_records(ts@).take(i as int),
        decreases ts.len() - i,
    {
        let t = &ts[i];
        let e = CheckpointEntity {
            slot: t.0,
            state: copy_bytes(t.1.as_slice()),
            owner_session: copy_opt_text(&t.2),
        };
        proof {
            assert(records_of(es@.push(e)) =~= records_of(es@).push(record_of(e)));
            assert(tuple_records(ts@).take(i + 1) =~= tuple_records(ts@).take(i as int).push(
                tuple_records(ts@)[i as int],
            ));
        }
        es.push(e);
        i = i + 1;
    }
    assert(tuple_records(ts@).take(i as int) =~= tuple_records(ts@));
    CheckpointPayload { entities: es }
}

/// The bytes of a checkpoint of `payload` at `tick` with this nonce.
pub open spec fn checkpoint_bytes(tick: u64, nonce: u64, payload: Seq<EntityRecord>) -> Seq<u8> {
    checkpoint_header(0, CHECKPOINT_STATE_VERSION, nonce, tick) + bitcode_records(payload)
}

/// What a checkpoint decodes to: its tick and entity records, when the header is whole,
/// of the current state version, and the payload reads back as records.
pub open spec fn decoded_checkpoint(b: Seq<u8>) -> Option<(u64, Seq<EntityRecord>)> {
    if b.len() < CHECKPOINT_HEADER_SIZE || read_be16(b, 8) != CHECKPOINT_STATE_VERSION {
        None
    } else {
        match bitcode_records_of(b.subrange(CHECKPOINT_HEADER_SIZE as int, b.len() as int)) {
            Some(rs) => Some((read_be64(b, 18), rs)),
            None => None,
        }
    }
}

/// A full checkpoint with the given nonce: header (`js_seq` 0, the current state version)
/// followed by the bitcode payload.
pub fn encode_checkpoint_with_nonce(tick: u64, payload: &CheckpointPayload, nonce: u64) -> (buf: Vec<u8>)
    ensures
        buf@ == checkpoint_bytes(tick, nonce, records_of(payload.entities@)),
        bitcode_records_of(buf@.subrange(CHECKPOINT_HEADER_SIZE as int, buf@.len() as int)) == Some(
            records_of(payload.entities@),
        ),
        decoded_checkpoint(buf@) == Some((tick, records_of(payload.entities@))),
{
    let header = encode_checkpoint_header(0, CHECKPOINT_STATE_VERSION, nonce, tick);
    let body = encode_records(&payload_records(payload));
    let mut buf: Vec<u8> = Vec::new();
    push_bytes(&mut buf, &header);
    push_bytes(&mut buf, body.as_slice());
    proof {
        lemma_checkpoint_header_roundtrip(0, CHECKPOINT_STATE_VERSION, nonce, tick, body@);
        assert(buf@.subrange(CHECKPOINT_HEADER_SIZE as int, buf@.len() as int) =~= body@);
    }
    buf
}

/// A nonce from the wall clock: the nanoseconds since the Unix epoch, truncated to 64 bits
/// (0 when the clock reads earlier than the epoch).
pub fn nonce_from_timestamp() -> u64 {
    match crate::clock::unix_time_nanos() {
        Some(n) => n as u64,
        None => 0,
    }
}

/// Encode a full checkpoint: header + bitcode payload, with a wall-clock nonce. Uses
/// `js_seq = 0` for realtime checkpoints (no JetStream event stream).
pub fn encode_checkpoint(tick: u64, payload: &CheckpointPayload) -> (buf: Vec<u8>)
    ensures
        exists|nonce: u64| buf@ == checkpoint_bytes(tick, nonce, records_of(payload.entities@)),
        bitcode_records_of(buf@.subrange(CHECKPOINT_HEADER_SIZE as int, buf@.len() as int)) == Some(
            records_of(payload.entities@),
        ),
        decoded_checkpoint(buf@) == Some((tick, records_of(payload.entities@))),
{
    let nonce = nonce_from_timestamp();
    encode_checkpoint_with_nonce(tick, payload, nonce)
}

/// Decode a full checkpoint, returning `(tick, payload)`.
pub fn decode_checkpoint(bytes: &[u8]) -> (res: Result<(u64, CheckpointPayload), CheckpointCodecError>)
    ensures
        bytes.len() < CHECKPOINT_HEADER_SIZE ==> res == Err::<(u64, CheckpointPayload), CheckpointCodecError>(
            CheckpointCodecError::TruncatedInput { expected: CHECKPOINT_HEADER_SIZE, got: bytes.len() },
        ),
        bytes.len() >= CHECKPOINT_HEADER_SIZE && read_be16(bytes@, 8) != CHECKPOINT_STATE_VERSION ==> res
            == Err::<(u64, CheckpointPayload), CheckpointCodecError>(
            CheckpointCodecError::UnsupportedVersion {
                expected: CHECKPOINT_STATE_VERSION,
                got: read_be16(bytes@, 8),
            },
        ),
        bytes.len() >= CHECKPOINT_HEADER_SIZE && read_be16(bytes@, 8) == CHECKPOINT_STATE_VERSION ==> match
            bitcode_records_of(bytes@.subrange(26, bytes.len() as int)) {
            None => res matches Err(CheckpointCodecError::InvalidPayload(_)),
            Some(rs) => res matches Ok((tick, p)) && tick == read_be64(bytes@, 18) && records_of(
                p.entities@,
            ) == rs,
        },
        match decoded_checkpoint(bytes@) {
            Some((t, rs)) => res matches Ok((tick, p)) && tick == t && records_of(p.entities@) == rs,
            None => res is Err,
        },
{
    let (_js_seq, state_ver, _nonce, tick, data) = match decode_checkpoint_header(bytes) {
        Ok(h) => h,
        Err(e) => {
            return Err(e);
        },
    };
    if state_ver != CHECKPOINT_STATE_VERSION {
        return Err(
            CheckpointCodecError::UnsupportedVersion { expected: CHECKPOINT_STATE_VERSION, got: state_ver },
        );
    }
    match decode_records(data) {
        Ok(ts) => Ok((tick, payload_from_records(&ts))),
        Err(msg) => Err(CheckpointCodecError::InvalidPayload(msg)),
    }
}

/// Decoding an encoded checkpoint gives back its tick and entities.
pub proof fn law_checkpoint_roundtrip(tick: u64, nonce: u64, payload: Seq<EntityRecord>)
    ensures
        ({
            let b = checkpoint_bytes(tick, nonce, payload);
            &&& b.len() >= CHECKPOINT_HEADER_SIZE
            &&& read_be16(b, 8) == CHECKPOINT_STATE_VERSION
            &&& read_be64(b, 18) == tick
            &&& b.subrange(26, b.len() as int) == bitcode_records(payload)
        }),
{
    lemma_checkpoint_header_roundtrip(0, CHECKPOINT_STATE_VERSION, nonce, tick, bitcode_records(payload));
}

} // verus!
