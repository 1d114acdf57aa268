//! Initial state synchronisation: the full-state message a client receives
//! right after authentication, and the baseline acknowledgement it answers with.
//!
//! Wire format of `InitialStateMessage` (big-endian):
//! ```text
//! [baseline_tick:u64][flags:u8][schema_version:u8]
//! [optional: schema_len:u32 + compiled_schema_bytes]
//! [entity_count:u32]
//! [repeated: entity_slot:u32 + state_len:u32 + state_bytes]
//! ```
use vstd::prelude::*;
use crate::wire::{be32, be64, push_be32, push_be64, push_bytes, copy_range, read_be32, read_be64,
    read_u32_be, read_u64_be, lemma_read_be32_at, lemma_read_be64_at, lemma_be32_of_read, lemma_be64_of_read};
use crate::text::{decimal, decimal_chars};

verus! {

/// Flag: compiled schema bytes are included after the schema_version field.
pub const FLAG_INCLUDES_SCHEMA: u8 = 0x01;

/// Maximum entity count in a single InitialStateMessage.
pub const MAX_INITIAL_ENTITIES: u32 = 10_000;

/// Minimum header size: baseline_tick(8) + flags(1) + schema_version(1) + entity_count(4).
pub const HEADER_SIZE: usize = 14;

/// Full entity state snapshot sent to a client over a reliable stream
/// immediately after authentication.
#[derive(Debug, Clone, PartialEq)]
pub struct InitialStateMessage {
    pub baseline_tick: u64,
    pub flags: u8,
    pub schema_version: u8,
    pub compiled_schema: Option<Vec<u8>>,
    pub entities: Vec<EntityPayload>,
}

/// A single entity's slot index and serialized state within an InitialStateMessage.
#[derive(Debug, Clone, PartialEq)]
pub struct EntityPayload {
    pub entity_slot: u32,
    pub state: Vec<u8>,
}

pub struct EntityPayloadView {
    pub entity_slot: u32,
    pub state: Seq<u8>,
}

pub struct InitialStateView {
    pub baseline_tick: u64,
    pub flags: u8,
    pub schema_version: u8,
    pub compiled_schema: Option<Seq<u8>>,
    pub entities: Seq<EntityPayloadView>,
}

impl View for EntityPayload {
    type V = EntityPayloadView;

    open spec fn view(&self) -> EntityPayloadView {
        EntityPayloadView { entity_slot: self.entity_slot, state: self.state@ }
    }
}

pub open spec fn entity_views(es: Seq<EntityPayload>) -> Seq<EntityPayloadView> {
    es.map_values(|e: EntityPayload| e@)
}

impl View for InitialStateMessage {
    type V = InitialStateView;

    open spec fn view(&self) -> InitialStateView {
        InitialStateView {
            baseline_tick: self.baseline_tick,
            flags: self.flags,
            schema_version: self.schema_version,
            compiled_schema: match self.compiled_schema {
                Some(s) => Some(s@),
                None => None,
            },
            entities: entity_views(self.entities@),
        }
    }
}

/// Client acknowledgment that the baseline snapshot was received and applied.
#[derive(Debug, Clone, PartialEq, Eq, Structural)]
pub struct BaselineAck {
    pub baseline_tick: u64,
}

#[derive(Debug, PartialEq)]
pub enum SyncError {
    TruncatedInput { expected: usize, got: usize },
    InvalidPayload(String),
    EntityCountExceeded { count: u32, max: u32 },
    StreamError(String),
    Timeout,
}

/// The text of a sync error.
pub open spec fn sync_error_text(e: SyncError) -> Seq<char> {
    match e {
        SyncError::TruncatedInput { expected, got } => "truncated input: expected "@ + decimal_chars(
            expected as nat,
        ) + " bytes, got "@ + decimal_chars(got as nat),
        SyncError::InvalidPayload(msg) => "invalid payload: "@ + msg@,
        SyncError::EntityCountExceeded { count, max } => "entity count "@ + decimal_chars(count as nat)
            + " exceeds maximum "@ + decimal_chars(max as nat),
        SyncError::StreamError(msg) => "stream error: "@ + msg@,
        SyncError::Timeout => "sync timed out"@,
    }
}

impl SyncError {
    /// Human-readable description of the error.
    pub fn to_string(&self) -> (s: String)
        ensures
            s@ == sync_error_text(*self),
    {
        match self {
            SyncError::TruncatedInput { expected, got } => {
                let mut s = String::from_str("truncated input: expected ");
                s.append(decimal(*expected as u64).as_str());
                s.append(" bytes, got ");
                s.append(decimal(*got as u64).as_str());
                s
            },
            SyncError::InvalidPayload(msg) => {
                let mut s = String::from_str("invalid payload: ");
                s.append(msg.as_str());
                s
            },
            SyncError::EntityCountExceeded { count, max } => {
                let mut s = String::from_str("entity count ");
                s.append(decimal(*count as u64).as_str());
                s.append(" exceeds maximum ");
                s.append(decimal(*max as u64).as_str());
                s
            },
            SyncError::StreamError(msg) => {
                let mut s = String::from_str("stream error: ");
                s.append(msg.as_str());
                s
            },
            SyncError::Timeout => String::from_str("sync timed out"),
        }
    }
}

// ---------------------------------------------------------------------------
// The format
// ---------------------------------------------------------------------------

pub open spec fn encode_entity(e: EntityPayloadView) -> Seq<u8> {
    be32(e.entity_slot) + be32(e.state.len() as u32) + e.state
}

pub open spec fn encode_entities(es: Seq<EntityPayloadView>) -> Seq<u8>
    decreases es.len(),
{
    if es.len() == 0 {
        seq![]
    } else {
        encode_entities(es.drop_last()) + encode_entity(es.last())
    }
}

pub open spec fn encode_schema(schema: Option<Seq<u8>>) -> Seq<u8> {
    match schema {
        Some(s) => be32(s.len() as u32) + s,
        None => seq![],
    }
}

/// The bytes `encode_initial_state` produces for a message.
pub open spec fn initial_state_bytes(m: InitialStateView) -> Seq<u8> {
    be64(m.baseline_tick) + seq![m.flags, m.schema_version] + encode_schema(m.compiled_schema) + be32(
        m.entities.len() as u32,
    ) + encode_entities(m.entities)
}

/// `x` as a `usize`, saturating at `usize::MAX`.
pub open spec fn sat(x: int) -> usize {
    if x > usize::MAX {
        usize::MAX
    } else {
        x as usize
    }
}

/// The truncation error for a read that needed `expected` bytes.
pub open spec fn truncated(expected: int, got: int) -> SyncError {
    SyncError::TruncatedInput { expected: sat(expected), got: got as usize }
}

/// Reading `count` entities starting at `pos`: the entities and the position after them.
pub open spec fn parse_entities(s: Seq<u8>, pos: int, count: nat) -> Result<
    (Seq<EntityPayloadView>, int),
    SyncError,
>
    decreases count,
{
    if count == 0 {
        Ok((seq![], pos))
    } else {
        match parse_entities(s, pos, (count - 1) as nat) {
            Err(e) => Err(e),
            Ok((es, p)) => {
                if p + 4 > s.len() {
                    Err(truncated(p + 4, s.len() as int))
                } else if p + 8 > s.len() {
                    Err(truncated(p + 8, s.len() as int))
                } else {
                    let n = read_be32(s, p + 4) as int;
                    if p + 8 + n > s.len() {
                        Err(truncated(p + 8 + n, s.len() as int))
                    } else {
                        Ok(
                            (
                                es.push(
                                    EntityPayloadView {
                                        entity_slot: read_be32(s, p),
                                        state: s.subrange(p + 8, p + 8 + n),
                                    },
                                ),
                                p + 8 + n,
                            ),
                        )
                    }
                }
            },
        }
    }
}

/// The schema section: the schema and the position after it.
pub open spec fn parse_schema(s: Seq<u8>, flags: u8) -> Result<(Option<Seq<u8>>, int), SyncError> {
    if flags & FLAG_INCLUDES_SCHEMA != 0 {
        let n = read_be32(s, 10) as int;
        if 14 + n > s.len() {
            Err(truncated(14 + n, s.len() as int))
        } else {
            Ok((Some(s.subrange(14, 14 + n)), 14 + n))
        }
    } else {
        Ok((None, 10))
    }
}

/// What `decode_initial_state` makes of a byte string.
pub open spec fn parse_initial_state(s: Seq<u8>) -> Result<InitialStateView, SyncError> {
    if s.len() < HEADER_SIZE {
        Err(truncated(HEADER_SIZE as int, s.len() as int))
    } else {
        match parse_schema(s, s[8]) {
            Err(e) => Err(e),
            Ok((schema, p)) => {
                if p + 4 > s.len() {
                    Err(truncated(p + 4, s.len() as int))
                } else {
                    let count = read_be32(s, p);
                    if count > MAX_INITIAL_ENTITIES {
                        Err(SyncError::EntityCountExceeded { count, max: MAX_INITIAL_ENTITIES })
                    } else {
                        match parse_entities(s, p + 4, count as nat) {
                            Err(e) => Err(e),
                            Ok((es, _)) => Ok(
                                InitialStateView {
                                    baseline_tick: read_be64(s, 0),
                                    flags: s[8],
                                    schema_version: s[9],
                                    compiled_schema: schema,
                                    entities: es,
                                },
                            ),
                        }
                    }
                }
            },
        }
    }
}

/// A message the format can carry: its flags announce exactly the schema it has,
/// and every length fits the 32-bit fields.
pub open spec fn well_formed_message(m: InitialStateView) -> bool {
    &&& ((m.flags & FLAG_INCLUDES_SCHEMA != 0) <==> m.compiled_schema is Some)
    &&& (m.compiled_schema matches Some(s) ==> s.len() <= u32::MAX)
    &&& m.entities.len() <= MAX_INITIAL_ENTITIES
    &&& forall|i: int| 0 <= i < m.entities.len() ==> #[trigger] m.entities[i].state.len() <= u32::MAX
}

// ---------------------------------------------------------------------------
// Encoding
// ---------------------------------------------------------------------------

/// Encode an `InitialStateMessage` into the binary wire format.
pub fn encode_initial_state(msg: &InitialStateMessage) -> (buf: Vec<u8>)
    ensures
        buf@ == initial_state_bytes(msg@),
{
    let mut buf: Vec<u8> = Vec::new();
    push_be64(&mut buf, msg.baseline_tick);
    buf.push(msg.flags);
    buf.push(msg.schema_version);
    match &msg.compiled_schema {
        Some(schema) => {
            push_be32(&mut buf, schema.len() as u32);
            push_bytes(&mut buf, schema.as_slice());
        },
        None => {},
    }
    push_be32(&mut buf, msg.entities.len() as u32);
    let ghost prefix = buf@;
    let ghost es = msg@.entities;
    let mut i: usize = 0;
    while i < msg.entities.len()
        invariant
            i <= msg.entities.len(),
            es == entity_views(msg.entities@),
            buf@ == prefix + encode_entities(es.take(i as int)),
        decreases msg.entities.len() - i,
    {
        let entity = &msg.entities[i];
        push_be32(&mut buf, entity.entity_slot);
        push_be32(&mut buf, entity.state.len() as u32);
        push_bytes(&mut buf, entity.state.as_slice());
        proof {
            assert(es.take(i + 1).drop_last() =~= es.take(i as int));
            assert(es.take(i + 1).last() == entity@);
        }
        i = i + 1;
    }
    proof {
        assert(es.take(msg.entities.len() as int) =~= es);
        assert(buf@ =~= initial_state_bytes(msg@));
    }
    buf
}


// ---------------------------------------------------------------------------
// Decoding what was encoded
// ---------------------------------------------------------------------------

proof fn lemma_encode_entities_prefix(es: Seq<EntityPayloadView>, j: int)
    requires
        0 <= j <= es.len(),
    ensures
        encode_entities(es.take(j)).len() <= encode_entities(es).len(),
        encode_entities(es).subrange(0, encode_entities(es.take(j)).len() as int) == encode_entities(
            es.take(j),
        ),
    decreases es.len(),
{
    if j == es.len() {
        assert(es.take(j) =~= es);
        assert(encode_entities(es).subrange(0, encode_entities(es).len() as int) =~= encode_entities(es));
    } else {
        let d = es.drop_last();
        assert(es.take(j) =~= d.take(j));
        lemma_encode_entities_prefix(d, j);
        let a = encode_entities(d);
        let b = encode_entity(es.last());
        assert(encode_entities(es) == a + b);
        let l = encode_entities(d.take(j)).len() as int;
        assert((a + b).subrange(0, l) =~= a.subrange(0, l));
    }
}

#[verifier::spinoff_prover]
#[verifier::rlimit(40)]
proof fn lemma_parse_encoded_entities(s: Seq<u8>, p: int, es: Seq<EntityPayloadView>, k: nat)
    requires
        0 <= p,
        k <= es.len(),
        p + encode_entities(es).len() <= s.len(),
        s.subrange(p, p + encode_entities(es).len()) == encode_entities(es),
        forall|i: int| 0 <= i < es.len() ==> #[trigger] es[i].state.len() <= u32::MAX,
    ensures
        parse_entities(s, p, k) == Ok::<(Seq<EntityPayloadView>, int), SyncError>(
            (es.take(k as int), p + encode_entities(es.take(k as int)).len()),
        ),
    decreases k,
{
    if k == 0 {
        assert(es.take(0) =~= Seq::<EntityPayloadView>::empty());
    } else {
        let km = (k - 1) as nat;
        lemma_parse_encoded_entities(s, p, es, km);
        let prev = es.take(km as int);
        let cur = es.take(k as int);
        let e = es[km as int];
        assert(cur.drop_last() =~= prev);
        assert(cur.last() == e);
        let ep = encode_entities(prev);
        let el = ep.len() as int;
        let ee = encode_entity(e);
        assert(encode_entities(cur) == ep + ee);
        lemma_encode_entities_prefix(es, k as int);
        let q = p + el;
        let n = e.state.len() as int;
        assert(e.state.len() <= u32::MAX);
        // the bytes of this entity inside `s`
        assert(s.subrange(p, p + encode_entities(cur).len() as int) =~= ep + ee) by {
            assert(s.subrange(p, p + encode_entities(cur).len() as int) =~= s.subrange(
                p,
                p + encode_entities(es).len() as int,
            ).subrange(0, encode_entities(cur).len() as int));
        }
        assert(s.subrange(q, q + 4) =~= (ep + ee).subrange(el, el + 4));
        assert((ep + ee).subrange(el, el + 4) =~= be32(e.entity_slot));
        lemma_read_be32_at(s, q, e.entity_slot);
        assert(s.subrange(q + 4, q + 8) =~= (ep + ee).subrange(el + 4, el + 8));
        assert((ep + ee).subrange(el + 4, el + 8) =~= be32(e.state.len() as u32));
        lemma_read_be32_at(s, q + 4, e.state.len() as u32);
        assert(s.subrange(q + 8, q + 8 + n) =~= (ep + ee).subrange(el + 8, el + 8 + n));
        assert((ep + ee).subrange(el + 8, el + 8 + n) =~= e.state);
        assert(prev.push(EntityPayloadView { entity_slot: e.entity_slot, state: e.state }) =~= cur);
    }
}

/// Decoding the encoding of a message the format can carry gives the message back,
/// whatever bytes follow it.
pub proof fn law_initial_state_roundtrip(m: InitialStateView, rest: Seq<u8>)
    requires
        well_formed_message(m),
    ensures
        parse_initial_state(initial_state_bytes(m) + rest) == Ok::<InitialStateView, SyncError>(m),
{
    let s = initial_state_bytes(m) + rest;
    let head = be64(m.baseline_tick) + seq![m.flags, m.schema_version];
    let sch = encode_schema(m.compiled_schema);
    let cnt = be32(m.entities.len() as u32);
    let body = encode_entities(m.entities);
    assert(s =~= head + sch + cnt + body + rest);
    assert(s.subrange(0, 8) =~= be64(m.baseline_tick));
    lemma_read_be64_at(s, 0, m.baseline_tick);
    assert(s[8] == m.flags);
    assert(s[9] == m.schema_version);
    let p = 10 + sch.len() as int;
    match m.compiled_schema {
        Some(sc) => {
            assert(s.subrange(10, 14) =~= be32(sc.len() as u32));
            lemma_read_be32_at(s, 10, sc.len() as u32);
            assert(s.subrange(14, 14 + sc.len() as int) =~= sc);
        },
        None => {},
    }
    assert(parse_schema(s, m.flags) == Ok::<(Option<Seq<u8>>, int), SyncError>((m.compiled_schema, p)));
    assert(s.subrange(p, p + 4) =~= cnt);
    lemma_read_be32_at(s, p, m.entities.len() as u32);
    assert(s.subrange(p + 4, p + 4 + body.len() as int) =~= body);
    lemma_parse_encoded_entities(s, p + 4, m.entities, m.entities.len());
    assert(m.entities.take(m.entities.len() as int) =~= m.entities);
}

/// The entities read from `pos` on are exactly the bytes between `pos` and where reading stopped.
proof fn lemma_parsed_entities_reencode(s: Seq<u8>, pos: int, k: nat)
    requires
        0 <= pos <= s.len(),
        parse_entities(s, pos, k) is Ok,
    ensures
        ({
            let (es, q) = parse_entities(s, pos, k)->Ok_0;
            &&& es.len() == k
            &&& pos <= q <= s.len()
            &&& q == pos + encode_entities(es).len()
            &&& s.subrange(pos, q) == encode_entities(es)
            &&& forall|i: int| 0 <= i < es.len() ==> #[trigger] es[i].state.len() <= u32::MAX
        }),
    decreases k,
{
    if k == 0 {
        assert(s.subrange(pos, pos) =~= encode_entities(seq![]));
    } else {
        let km = (k - 1) as nat;
        lemma_parsed_entities_reencode(s, pos, km);
        let (prev, p) = parse_entities(s, pos, km)->Ok_0;
        let n = read_be32(s, p + 4) as int;
        let e = EntityPayloadView { entity_slot: read_be32(s, p), state: s.subrange(p + 8, p + 8 + n) };
        let es = prev.push(e);
        assert(es.drop_last() =~= prev);
        assert(es.last() == e);
        lemma_be32_of_read(s, p);
        lemma_be32_of_read(s, p + 4);
        assert(e.state.len() == n);
        assert(encode_entity(e) =~= s.subrange(p, p + 8 + n));
        assert(s.subrange(pos, p + 8 + n) =~= s.subrange(pos, p) + s.subrange(p, p + 8 + n));
        assert forall|i: int| 0 <= i < es.len() implies #[trigger] es[i].state.len() <= u32::MAX by {
            if i < prev.len() {
                assert(es[i] == prev[i]);
            }
        }
    }
}

/// A message read from bytes is one the format can carry, and encoding it again gives
/// exactly the bytes that were read: a prefix of the input (what follows is ignored).
pub proof fn law_decoded_initial_state_reencodes(s: Seq<u8>)
    requires
        parse_initial_state(s) is Ok,
    ensures
        ({
            let m = parse_initial_state(s)->Ok_0;
            &&& well_formed_message(m)
            &&& initial_state_bytes(m).len() <= s.len()
            &&& s.subrange(0, initial_state_bytes(m).len() as int) == initial_state_bytes(m)
        }),
{
    let m = parse_initial_state(s)->Ok_0;
    let (schema, p) = parse_schema(s, s[8])->Ok_0;
    let count = read_be32(s, p);
    lemma_parsed_entities_reencode(s, p + 4, count as nat);
    let (es, q) = parse_entities(s, p + 4, count as nat)->Ok_0;
    lemma_be64_of_read(s, 0);
    lemma_be32_of_read(s, p);
    let head = be64(m.baseline_tick) + seq![m.flags, m.schema_version];
    assert(head =~= s.subrange(0, 10));
    assert(encode_schema(schema) =~= s.subrange(10, p)) by {
        if s[8] & FLAG_INCLUDES_SCHEMA != 0 {
            lemma_be32_of_read(s, 10);
        }
    }
    assert(be32(m.entities.len() as u32) == s.subrange(p, p + 4));
    assert(initial_state_bytes(m) =~= s.subrange(0, 10) + s.subrange(10, p) + s.subrange(p, p + 4)
        + s.subrange(p + 4, q));
    assert(s.subrange(0, q) =~= s.subrange(0, 10) + s.subrange(10, p) + s.subrange(p, p + 4)
        + s.subrange(p + 4, q));
}

// ---------------------------------------------------------------------------
// Decoding
// ---------------------------------------------------------------------------

/// Once reading the entities fails, reading more of them fails the same way.
proof fn lemma_parse_entities_error_persists(s: Seq<u8>, pos: int, k: nat, n: nat)
    requires
        k <= n,
        parse_entities(s, pos, k) is Err,
    ensures
        parse_entities(s, pos, n) == parse_entities(s, pos, k),
    decreases n - k,
{
    if k < n {
        lemma_parse_entities_error_persists(s, pos, k, (n - 1) as nat);
    }
}

/// Read a fixed-size big-endian `u32` at `pos`, advancing `pos`.
fn read_array(bytes: &[u8], pos: &mut usize) -> (res: Result<u32, SyncError>)
    requires
        *old(pos) <= bytes.len(),
    ensures
        *old(pos) + 4 > bytes.len() ==> res == Err::<u32, SyncError>(
            truncated(*old(pos) + 4, bytes.len() as int),
        ) && *final(pos) == *old(pos),
        *old(pos) + 4 <= bytes.len() ==> res == Ok::<u32, SyncError>(read_be32(bytes@, *old(pos) as int))
            && *final(pos) == *old(pos) + 4,
{
    if 4 > bytes.len() - *pos {
        return Err(SyncError::TruncatedInput { expected: pos.saturating_add(4), got: bytes.len() });
    }
    let x = read_u32_be(bytes, *pos);
    *pos = *pos + 4;
    Ok(x)
}

/// Decode an `InitialStateMessage` from the binary wire format.
pub fn decode_initial_state(bytes: &[u8]) -> (res: Result<InitialStateMessage, SyncError>)
    ensures
        match (res, parse_initial_state(bytes@)) {
            (Ok(m), Ok(v)) => m@ == v,
            (Err(e), Err(f)) => e == f,
            _ => false,
        },
{
    if bytes.len() < HEADER_SIZE {
        return Err(SyncError::TruncatedInput { expected: HEADER_SIZE, got: bytes.len() });
    }
    let baseline_tick = read_u64_be(bytes, 0);
    let flags = bytes[8];
    let schema_version = bytes[9];
    let mut pos: usize = 10;

    let compiled_schema = if flags & FLAG_INCLUDES_SCHEMA != 0 {
        let schema_len = match read_array(bytes, &mut pos) {
            Ok(n) => n as usize,
            Err(e) => return Err(e),
        };
        if schema_len > bytes.len() - pos {
            return Err(SyncError::TruncatedInput { expected: pos.saturating_add(schema_len), got: bytes.len() });
        }
        let schema = copy_range(bytes, pos, pos + schema_len);
        pos = pos + schema_len;
        Some(schema)
    } else {
        None
    };
    let ghost schema_view: Option<Seq<u8>> = match &compiled_schema {
        Some(s) => Some(s@),
        None => None,
    };
    assert(parse_schema(bytes@, flags) == Ok::<(Option<Seq<u8>>, int), SyncError>((schema_view, pos as int)));

    let entity_count = match read_array(bytes, &mut pos) {
        Ok(n) => n,
        Err(e) => return Err(e),
    };
    if entity_count > MAX_INITIAL_ENTITIES {
        return Err(SyncError::EntityCountExceeded { count: entity_count, max: MAX_INITIAL_ENTITIES });
    }

    let ghost start = pos as int;
    let mut entities: Vec<EntityPayload> = Vec::new();
    let mut i: u32 = 0;
    assert(entity_views(entities@) =~= Seq::<EntityPayloadView>::empty());
    while i < entity_count
        invariant
            i <= entity_count,
            entities@.len() == i,
            entity_count <= MAX_INITIAL_ENTITIES,
            bytes@.len() >= HEADER_SIZE,
            4 <= start <= pos <= bytes.len(),
            flags == bytes@[8],
            schema_version == bytes@[9],
            baseline_tick == read_be64(bytes@, 0),
            parse_schema(bytes@, flags) == Ok::<(Option<Seq<u8>>, int), SyncError>((schema_view, start - 4)),
            entity_count == read_be32(bytes@, start - 4),
            schema_view == match &compiled_schema {
                Some(s) => Some(s@),
                None => None::<Seq<u8>>,
            },
            parse_entities(bytes@, start, i as nat) == Ok::<(Seq<EntityPayloadView>, int), SyncError>(
                (entity_views(entities@), pos as int),
            ),
        decreases entity_count - i,
    {
        let entity_slot = match read_array(bytes, &mut pos) {
            Ok(n) => n,
            Err(e) => {
                proof { lemma_parse_entities_error_persists(bytes@, start, (i + 1) as nat, entity_count as nat); }
                return Err(e);
            },
        };
        let state_len = match read_array(bytes, &mut pos) {
            Ok(n) => n as usize,
            Err(e) => {
                proof { lemma_parse_entities_error_persists(bytes@, start, (i + 1) as nat, entity_count as nat); }
                return Err(e);
            },
        };
        if state_len > bytes.len() - pos {
            proof { lemma_parse_entities_error_persists(bytes@, start, (i + 1) as nat, entity_count as nat); }
            return Err(SyncError::TruncatedInput { expected: pos.saturating_add(state_len), got: bytes.len() });
        }
        let state = copy_range(bytes, pos, pos + state_len);
        let ghost old_views = entity_views(entities@);
        entities.push(EntityPayload { entity_slot, state });
        pos = pos + state_len;
        proof {
            assert(entity_views(entities@) =~= old_views.push(entities@[i as int]@));
        }
        i = i + 1;
    }
    Ok(InitialStateMessage { baseline_tick, flags, schema_version, compiled_schema, entities })
}


/// The bytes `bitcode::encode` gives for a `u64`.
pub uninterp spec fn bitcode_u64_bytes(v: u64) -> Seq<u8>;

/// What `bitcode::decode` reads from `bytes` as a `u64`, if it reads one.
pub uninterp spec fn bitcode_u64_of(bytes: Seq<u8>) -> Option<u64>;

/// `bitcode::encode` of a `u64`: the bytes are `bitcode_u64_bytes(v)`, and
/// `bitcode::decode` reads `v` back from exactly those bytes.
#[verifier::external_body]
fn encode_u64_payload(v: u64) -> (b: Vec<u8>)
    ensures
        b@ == bitcode_u64_bytes(v),
        bitcode_u64_of(b@) == Some(v),
{
    bitcode::encode(&v)
}

/// `bitcode::decode` of a `u64`: `Some` exactly when `bitcode_u64_of(bytes)` is.
#[verifier::external_body]
fn decode_u64_payload(bytes: &[u8]) -> (r: Option<u64>)
    ensures
        r == bitcode_u64_of(bytes@),
{
    match bitcode::decode::<u64>(bytes) {
        Ok(v) => Some(v),
        Err(_) => None,
    }
}

/// What the server writes on the initial-state stream: the encoded message behind its
/// length as a 4-byte big-endian prefix (the length truncated to 32 bits). The client
/// answers with `encode_baseline_ack` of the message's baseline tick.
pub fn initial_state_stream_bytes(msg: &InitialStateMessage) -> (buf: Vec<u8>)
    ensures
        buf@ == be32(initial_state_bytes(msg@).len() as u32) + initial_state_bytes(msg@),
{
    let body = encode_initial_state(msg);
    crate::auth::length_prefixed(body.as_slice())
}

/// The wire form of a baseline acknowledgement: a 4-byte big-endian length
/// prefix, then the bitcode bytes of the tick.
pub open spec fn baseline_ack_bytes(tick: u64) -> Seq<u8> {
    be32(bitcode_u64_bytes(tick).len() as u32) + bitcode_u64_bytes(tick)
}

/// Encode a `BaselineAck` with a 4-byte big-endian length prefix (bitcode payload).
pub fn encode_baseline_ack(ack: &BaselineAck) -> (buf: Vec<u8>)
    ensures
        buf@ == baseline_ack_bytes(ack.baseline_tick),
{
    let payload = encode_u64_payload(ack.baseline_tick);
    let mut buf: Vec<u8> = Vec::new();
    #[verifier::truncate]
    let len: u32 = payload.len() as u32;
    push_be32(&mut buf, len);
    push_bytes(&mut buf, payload.as_slice());
    buf
}

/// Decode a `BaselineAck` from a length-prefixed bitcode buffer.
pub fn decode_baseline_ack(bytes: &[u8]) -> (res: Result<BaselineAck, SyncError>)
    ensures
        bytes.len() < 4 ==> res == Err::<BaselineAck, SyncError>(
            SyncError::TruncatedInput { expected: 4, got: bytes.len() }),
        bytes.len() >= 4 && bytes.len() < 4 + read_be32(bytes@, 0) ==> (res
            matches Err(SyncError::TruncatedInput { expected, got }) && got == bytes.len() && (
            expected == 4 + read_be32(bytes@, 0) || (expected == usize::MAX && 4 + read_be32(bytes@, 0)
            > usize::MAX))),
        bytes.len() >= 4 + read_be32(bytes@, 0) ==> match bitcode_u64_of(
            bytes@.subrange(4, 4 + read_be32(bytes@, 0) as int),
        ) {
            Some(t) => res == Ok::<BaselineAck, SyncError>(BaselineAck { baseline_tick: t }),
            None => res matches Err(SyncError::InvalidPayload(_)),
        },
{
    if bytes.len() < 4 {
        return Err(SyncError::TruncatedInput { expected: 4, got: bytes.len() });
    }
    let len = read_u32_be(bytes, 0) as usize;
    if bytes.len() - 4 < len {
        return Err(SyncError::TruncatedInput { expected: 4usize.saturating_add(len), got: bytes.len() });
    }
    let body = copy_range(bytes, 4, 4 + len);
    match decode_u64_payload(body.as_slice()) {
        Some(t) => Ok(BaselineAck { baseline_tick: t }),
        None => Err(SyncError::InvalidPayload(String::from_str("decode BaselineAck"))),
    }
}

/// A baseline acknowledgement decodes back to itself.
pub proof fn law_baseline_ack_roundtrip(tick: u64)
    ensures
        bitcode_u64_bytes(tick).len() <= u32::MAX ==> ({
            let b = baseline_ack_bytes(tick);
            &&& b.len() >= 4
            &&& read_be32(b, 0) == bitcode_u64_bytes(tick).len()
            &&& b.subrange(4, 4 + read_be32(b, 0) as int) == bitcode_u64_bytes(tick)
        }),
{
    let p = bitcode_u64_bytes(tick);
    if p.len() <= u32::MAX {
        let b = baseline_ack_bytes(tick);
        assert(b.subrange(0, 4) =~= be32(p.len() as u32));
        lemma_read_be32_at(b, 0, p.len() as u32);
        assert(b.subrange(4, 4 + p.len() as int) =~= p);
    }
}

/// Configuration for bandwidth ramping during initial sync. The bandwidth
/// multiplier applied during the ramp is a float and lives with the sender.
#[derive(Debug, Clone, Copy)]
pub struct BandwidthRampConfig {
    /// Duration of the ramp-up period after connect, in milliseconds (default 500).
    pub ramp_duration_ms: u64,
    /// Maximum entities to send immediately in the initial burst (default 200).
    pub immediate_entity_limit: usize,
}

impl BandwidthRampConfig {
    /// The defaults: a 500 ms ramp and at most 200 entities in the first burst.
    pub fn default_config() -> (c: BandwidthRampConfig)
        ensures
            c.ramp_duration_ms == 500,
            c.immediate_entity_limit == 200,
    {
        BandwidthRampConfig { ramp_duration_ms: 500, immediate_entity_limit: 200 }
    }
}

/// Split entities into an immediate batch and a deferred batch for bandwidth ramping.
///
/// If there are at most `config.immediate_entity_limit` entities, all go in the immediate
/// batch. Otherwise, the first `immediate_entity_limit` go immediately and the rest
/// are deferred.
pub fn split_for_ramping(entities: Vec<EntityPayload>, config: &BandwidthRampConfig) -> (r: (
    Vec<EntityPayload>,
    Vec<EntityPayload>,
))
    ensures
        entities.len() <= config.immediate_entity_limit ==> r.0@ == entities@ && r.1@.len() == 0,
        entities.len() > config.immediate_entity_limit ==> r.0@ == entities@.take(
            config.immediate_entity_limit as int,
        ) && r.1@ == entities@.skip(config.immediate_entity_limit as int),
        r.0@ + r.1@ == entities@,
{
    if entities.len() <= config.immediate_entity_limit {
        proof { assert(entities@ + Seq::<EntityPayload>::empty() =~= entities@); }
        (entities, Vec::new())
    } else {
        let mut entities = entities;
        let ghost all = entities@;
        let deferred = entities.split_off(config.immediate_entity_limit);
        proof { assert(entities@ + deferred@ =~= all); }
        (entities, deferred)
    }
}

} // verus!
