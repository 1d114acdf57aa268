//! Zone Transition Protocol
//!
//! Two-phase protocol for player transfer between simulation islands.
//! Phase 1 (Prepare): old zone creates a signed token, marks player as transferring.
//! Phase 2 (Execute): new zone validates token, creates player entity, acknowledges.
//!
//! A token is signed with HMAC-SHA256 over the exact bytes of its fields in the token wire
//! format, so validation checks the bytes that were signed.
use vstd::prelude::*;
use hmac::Mac;
use crate::types::IslandId;
use crate::wire::{
    be32, be64, copy_range, le64, push_le64, read_le64, read_u64_le, lemma_read_le64_at, lemma_read_be32_at, lemma_read_be64_at, push_be32, push_be64,
    push_bytes, read_be32, read_be64, read_u32_be, read_u64_be,
};

verus! {

pub const MAX_PLAYER_ID_LEN: usize = 256;

pub const MAX_TOKEN_BYTES: usize = 16_384;

#[derive(Debug, Clone, PartialEq)]
pub struct BuffState {
    pub buff_id: String,
    pub remaining_ms: u32,
    pub data: Vec<u8>,
}

#[verifier::ext_equal]
pub struct BuffView {
    pub buff_id: Seq<char>,
    pub remaining_ms: u32,
    pub data: Seq<u8>,
}

impl View for BuffState {
    type V = BuffView;

    open spec fn view(&self) -> BuffView {
        BuffView { buff_id: self.buff_id@, remaining_ms: self.remaining_ms, data: self.data@ }
    }
}

pub open spec fn buff_views(bs: Seq<BuffState>) -> Seq<BuffView> {
    bs.map_values(|b: BuffState| b@)
}

/// Signed zone transfer token.
///
/// Created by the old zone during Phase 1, validated by the new zone in Phase 2.
/// The HMAC-SHA256 covers all fields except `hmac` itself. Positions and velocities are
/// the IEEE-754 bit patterns of the `f32` components.
#[derive(Debug, Clone, PartialEq)]
pub struct ZoneTransferToken {
    pub player_id: String,
    pub source_zone: IslandId,
    pub target_zone: IslandId,
    pub position_bits: [u32; 3],
    pub velocity_bits: [u32; 3],
    pub buffs: Vec<BuffState>,
    pub timestamp: u64,
    pub ttl_ms: u32,
    pub hmac: [u8; 32],
}

#[verifier::ext_equal]
pub struct TokenView {
    pub player_id: Seq<char>,
    pub source_zone: Seq<char>,
    pub target_zone: Seq<char>,
    pub position_bits: Seq<u32>,
    pub velocity_bits: Seq<u32>,
    pub buffs: Seq<BuffView>,
    pub timestamp: u64,
    pub ttl_ms: u32,
    pub hmac: Seq<u8>,
}

impl View for ZoneTransferToken {
    type V = TokenView;

    open spec fn view(&self) -> TokenView {
        TokenView {
            player_id: self.player_id@,
            source_zone: self.source_zone@,
            target_zone: self.target_zone@,
            position_bits: self.position_bits@,
            velocity_bits: self.velocity_bits@,
            buffs: buff_views(self.buffs@),
            timestamp: self.timestamp,
            ttl_ms: self.ttl_ms,
            hmac: self.hmac@,
        }
    }
}

#[derive(Debug, Clone, PartialEq, Eq)]
pub enum TransferError {
    InvalidHmac,
    TokenExpired,
    /// Target zone does not match. Zone names omitted to avoid topology leakage.
    ZoneMismatch,
    DuplicateToken { player_id: String },
    PlayerNotTransferring { player_id: String },
    InvalidToken,
    InvalidPlayerId,
    AtCapacity,
}

/// The description of a transfer error.
pub open spec fn transfer_error_text(e: TransferError) -> Seq<char> {
    match e {
        TransferError::InvalidHmac => "transfer token signature invalid"@,
        TransferError::TokenExpired => "transfer token expired"@,
        TransferError::ZoneMismatch => "transfer token target mismatch"@,
        TransferError::DuplicateToken { .. } => "transfer token already used"@,
        TransferError::PlayerNotTransferring { .. } => "player not in active transfer"@,
        TransferError::InvalidToken => "transfer token decode failed"@,
        TransferError::InvalidPlayerId => "player id exceeds maximum length"@,
        TransferError::AtCapacity => "transfer capacity exceeded"@,
    }
}

impl TransferError {
    /// Human-readable description of the error.
    pub fn to_string(&self) -> (s: String)
        ensures
            s@ == transfer_error_text(*self),
    {
        match self {
            TransferError::InvalidHmac => String::from_str("transfer token signature invalid"),
            TransferError::TokenExpired => String::from_str("transfer token expired"),
            TransferError::ZoneMismatch => String::from_str("transfer token target mismatch"),
            TransferError::DuplicateToken { .. } => String::from_str("transfer token already used"),
            TransferError::PlayerNotTransferring { .. } => String::from_str("player not in active transfer"),
            TransferError::InvalidToken => String::from_str("transfer token decode failed"),
            TransferError::InvalidPlayerId => String::from_str("player id exceeds maximum length"),
            TransferError::AtCapacity => String::from_str("transfer capacity exceeded"),
        }
    }
}

/// Whether a token's wire form of `len` bytes is small enough to be decoded.
pub fn token_size_allowed(len: usize) -> (ok: bool)
    ensures
        ok == (len <= MAX_TOKEN_BYTES),
{
    len <= MAX_TOKEN_BYTES
}

// ---------------------------------------------------------------------------
// HMAC-SHA256
// ---------------------------------------------------------------------------

/// HMAC-SHA256 of `data` under `key`, as the `hmac` and `sha2` crates compute it.
pub uninterp spec fn hmac_sha256(key: Seq<u8>, data: Seq<u8>) -> Seq<u8>;

/// HMAC-SHA256 of `data` under `key` (`Hmac::<Sha256>::new_from_slice`, `update`,
/// `finalize`). HMAC accepts keys of any length, so the construction cannot fail. The
/// result is the 32-byte tag `hmac_sha256(key, data)`.
#[verifier::external_body]
fn compute_hmac(key: &[u8], data: &[u8]) -> (tag: [u8; 32])
    ensures
        tag@ == hmac_sha256(key@, data@),
{
    let mut mac = hmac::Hmac::<sha2::Sha256>::new_from_slice(key).expect("HMAC accepts any key length");
    mac.update(data);
    let mut out = [0u8; 32];
    out.copy_from_slice(&mac.finalize().into_bytes());
    out
}

/// Checks `tag` against the HMAC-SHA256 of `data` under `key` in constant time
/// (`Mac::verify_slice`): true exactly when `tag` is the 32-byte tag `hmac_sha256(key, data)`.
#[verifier::external_body]
fn verify_hmac(key: &[u8], data: &[u8], tag: &[u8]) -> (ok: bool)
    ensures
        ok == (tag@ == hmac_sha256(key@, data@)),
{
    let mut mac = hmac::Hmac::<sha2::Sha256>::new_from_slice(key).expect("HMAC accepts any key length");
    mac.update(data);
    mac.verify_slice(tag).is_ok()
}

// ---------------------------------------------------------------------------
// Signing and validation
// ---------------------------------------------------------------------------

pub open spec fn token_is_expired(timestamp: u64, ttl_ms: u32, now_ms: u64) -> bool {
    now_ms > timestamp + ttl_ms
}

impl ZoneTransferToken {
    pub fn is_expired(&self, now_ms: u64) -> (b: bool)
        ensures
            b == token_is_expired(self.timestamp, self.ttl_ms, now_ms),
    {
        now_ms as u128 > self.timestamp as u128 + self.ttl_ms as u128
    }

}

pub struct TokenSigner {
    key: Vec<u8>,
    default_ttl_ms: u32,
}

/// What validation of token `t` for `expected_target` at `now_ms` answers under `key`,
/// with `payload` the bitcode encoding of the token's signed fields: the signature
/// first, then the target zone, then expiry.
pub open spec fn validation_result(
    key: Seq<u8>,
    t: TokenView,
    payload: Seq<u8>,
    expected_target: Seq<char>,
    now_ms: u64,
) -> Result<(), TransferError> {
    if t.hmac != hmac_sha256(key, payload) {
        Err(TransferError::InvalidHmac)
    } else if t.target_zone != expected_target {
        Err(TransferError::ZoneMismatch)
    } else if token_is_expired(t.timestamp, t.ttl_ms, now_ms) {
        Err(TransferError::TokenExpired)
    } else {
        Ok(())
    }
}

impl TokenSigner {
    pub closed spec fn key(&self) -> Seq<u8> {
        self.key@
    }

    pub closed spec fn default_ttl_ms(&self) -> u32 {
        self.default_ttl_ms
    }

    pub fn new(secret: &[u8], default_ttl_ms: u32) -> (s: TokenSigner)
        ensures
            s.key() == secret@,
            s.default_ttl_ms() == default_ttl_ms,
    {
        let mut key: Vec<u8> = Vec::new();
        push_bytes(&mut key, secret);
        TokenSigner { key, default_ttl_ms }
    }

    /// The TTL the signer gives its tokens.
    pub fn ttl_ms(&self) -> (t: u32)
        ensures
            t == self.default_ttl_ms(),
    {
        self.default_ttl_ms
    }

    /// A token for these fields, stamped `timestamp`, valid for the signer's default TTL,
    /// and signed over `payload`: the bitcode encoding of the signed fields (player id,
    /// zones, position and velocity as `f32`, buffs, `timestamp` and the TTL), which the
    /// caller makes since its floats are outside this library.
    pub fn sign_at(
        &self,
        player_id: String,
        source_zone: IslandId,
        target_zone: IslandId,
        position_bits: [u32; 3],
        velocity_bits: [u32; 3],
        buffs: Vec<BuffState>,
        timestamp: u64,
        payload: &[u8],
    ) -> (t: ZoneTransferToken)
        ensures
            t@.player_id == player_id@,
            t@.source_zone == source_zone@,
            t@.target_zone == target_zone@,
            t@.position_bits == position_bits@,
            t@.velocity_bits == velocity_bits@,
            t@.buffs == buff_views(buffs@),
            t.timestamp == timestamp,
            t.ttl_ms == self.default_ttl_ms(),
            t@.hmac == hmac_sha256(self.key(), payload@),
    {
        let hmac = compute_hmac(self.key.as_slice(), payload);
        ZoneTransferToken {
            player_id,
            source_zone,
            target_zone,
            position_bits,
            velocity_bits,
            buffs,
            timestamp,
            ttl_ms: self.default_ttl_ms,
            hmac,
        }
    }

    /// Validate a token, `payload` being the bitcode encoding of its signed fields:
    /// the HMAC first, then the target zone, then expiry.
    pub fn validate_at(&self, token: &ZoneTransferToken, payload: &[u8], expected_target: &IslandId, now_ms: u64) -> (r: Result<
        (),
        TransferError,
    >)
        ensures
            r == validation_result(self.key(), token@, payload@, expected_target@, now_ms),
    {
        if !verify_hmac(self.key.as_slice(), payload, &token.hmac) {
            return Err(TransferError::InvalidHmac);
        }
        if !token.target_zone.same(expected_target) {
            return Err(TransferError::ZoneMismatch);
        }
        if token.is_expired(now_ms) {
            return Err(TransferError::TokenExpired);
        }
        Ok(())
    }

    /// Like `validate_at`, against the current wall-clock time.
    pub fn validate(&self, token: &ZoneTransferToken, payload: &[u8], expected_target: &IslandId) -> (r: Result<(), TransferError>)
        ensures
            exists|now: u64| r == validation_result(self.key(), token@, payload@, expected_target@, now),
    {
        let now = crate::clock::now_ms();
        self.validate_at(token, payload, expected_target, now)
    }
}

/// A token signed at `ts` over `payload` passes validation with that payload for its
/// target zone under the same key at every time up to its expiry, and is rejected as
/// expired after it.
pub proof fn law_signed_token_validates(key: Seq<u8>, t: TokenView, payload: Seq<u8>, now: u64)
    requires
        t.hmac == hmac_sha256(key, payload),
    ensures
        now <= t.timestamp + t.ttl_ms ==> validation_result(key, t, payload, t.target_zone, now) == Ok::<(), TransferError>(()),
        now > t.timestamp + t.ttl_ms ==> validation_result(key, t, payload, t.target_zone, now) == Err::<(), TransferError>(TransferError::TokenExpired),
{
}

/// A token whose HMAC is not the tag of its payload under the validating key is rejected
/// with `InvalidHmac`, whatever its zone and timestamp.
pub proof fn law_tampered_token_rejected(key: Seq<u8>, t: TokenView, payload: Seq<u8>, target: Seq<char>, now: u64)
    requires
        t.hmac != hmac_sha256(key, payload),
    ensures
        validation_result(key, t, payload, target, now) == Err::<(), TransferError>(TransferError::InvalidHmac),
{
}

// ---------------------------------------------------------------------------
// Transfer manager
// ---------------------------------------------------------------------------

/// A player whose transfer out of this zone awaits acknowledgement.
pub struct InFlightTransfer {
    pub token: ZoneTransferToken,
    pub started_at_ms: u64,
}

/// The state a receiving zone creates the player's entity from.
#[derive(Debug, Clone, PartialEq)]
pub struct TransferredPlayer {
    pub player_id: String,
    pub source_zone: IslandId,
    pub position_bits: [u32; 3],
    pub velocity_bits: [u32; 3],
    pub buffs: Vec<BuffState>,
}

/// Transfer settings; durations are in milliseconds. `dedup_store_path` names the file of
/// accepted-token records shared across manager restarts. The manager reads and writes no
/// file itself: callers hand `accept_transfer_at` the file's bytes, and append
/// `dedup_record` after a token is accepted.
#[derive(Debug, Clone)]
pub struct ZoneTransferConfig {
    pub hmac_secret: Vec<u8>,
    pub token_ttl_ms: u32,
    pub ack_timeout_ms: u64,
    pub dedup_retention_ms: u64,
    pub max_in_flight: usize,
    pub max_dedup_entries: usize,
    pub dedup_store_path: Option<String>,
}

impl ZoneTransferConfig {
    /// A copy with the same settings.
    pub fn clone_config(&self) -> (c: ZoneTransferConfig)
        ensures
            c.hmac_secret@ == self.hmac_secret@,
            c.token_ttl_ms == self.token_ttl_ms,
            c.ack_timeout_ms == self.ack_timeout_ms,
            c.dedup_retention_ms == self.dedup_retention_ms,
            c.max_in_flight == self.max_in_flight,
            c.max_dedup_entries == self.max_dedup_entries,
            opt_path(c.dedup_store_path) == opt_path(self.dedup_store_path),
    {
        let mut hmac_secret: Vec<u8> = Vec::new();
        push_bytes(&mut hmac_secret, self.hmac_secret.as_slice());
        ZoneTransferConfig {
            hmac_secret,
            token_ttl_ms: self.token_ttl_ms,
            ack_timeout_ms: self.ack_timeout_ms,
            dedup_retention_ms: self.dedup_retention_ms,
            max_in_flight: self.max_in_flight,
            max_dedup_entries: self.max_dedup_entries,
            dedup_store_path: match &self.dedup_store_path {
                Some(p) => Some(p.clone()),
                None => None,
            },
        }
    }

    /// Settings for tests: a fixed secret, 10 s tokens, a 5 s acknowledgement timeout,
    /// 30 s dedup retention, room for 1000 transfers and 10 000 dedup entries, no store.
    pub fn for_testing() -> (c: ZoneTransferConfig)
        ensures
            c.hmac_secret@ == vstd::utf8::encode_utf8("test-only-secret-do-not-use-prod"@),
            c.token_ttl_ms == 10_000,
            c.ack_timeout_ms == 5_000,
            c.dedup_retention_ms == 30_000,
            c.max_in_flight == 1000,
            c.max_dedup_entries == 10_000,
            c.dedup_store_path is None,
    {
        let secret = "test-only-secret-do-not-use-prod";
        let mut hmac_secret: Vec<u8> = Vec::new();
        push_bytes(&mut hmac_secret, secret.as_bytes());
        ZoneTransferConfig {
            hmac_secret,
            token_ttl_ms: 10_000,
            ack_timeout_ms: 5_000,
            dedup_retention_ms: 30_000,
            max_in_flight: 1000,
            max_dedup_entries: 10_000,
            dedup_store_path: None,
        }
    }
}

pub open spec fn opt_path(o: Option<String>) -> Option<Seq<char>> {
    match o {
        Some(p) => Some(p@),
        None => None,
    }
}

pub open spec fn key_ne<K>(k: K) -> spec_fn((K, u64)) -> bool {
    |e: (K, u64)| e.0 != k
}

/// The entries of `s` whose key is not `k`, in order.
pub open spec fn without_key<K>(s: Seq<(K, u64)>, k: K) -> Seq<(K, u64)> {
    s.filter(key_ne(k))
}

pub open spec fn has_key<K>(s: Seq<(K, u64)>, k: K) -> bool {
    exists|i: int| 0 <= i < s.len() && (#[trigger] s[i]).0 == k
}

/// Whether the acknowledgement of a transfer started at `started` is overdue at `now`.
pub open spec fn timed_out(started: u64, now: u64, timeout_ms: u64) -> bool {
    (if now >= started { now - started } else { 0 }) >= timeout_ms
}

pub open spec fn is_overdue(now: u64, timeout_ms: u64) -> spec_fn((Seq<char>, u64)) -> bool {
    |e: (Seq<char>, u64)| timed_out(e.1, now, timeout_ms)
}

pub open spec fn is_pending(now: u64, timeout_ms: u64) -> spec_fn((Seq<char>, u64)) -> bool {
    |e: (Seq<char>, u64)| !timed_out(e.1, now, timeout_ms)
}

pub open spec fn is_unexpired(now: u64) -> spec_fn((Seq<u8>, u64)) -> bool {
    |e: (Seq<u8>, u64)| now < e.1
}

/// The dedup entries still in force at `now`.
pub open spec fn unexpired(s: Seq<(Seq<u8>, u64)>, now: u64) -> Seq<(Seq<u8>, u64)> {
    s.filter(is_unexpired(now))
}

/// Some entry for `k` is still in force at `now`.
pub open spec fn live_key(s: Seq<(Seq<u8>, u64)>, k: Seq<u8>, now: u64) -> bool {
    exists|i: int| 0 <= i < s.len() && (#[trigger] s[i]).0 == k && now < s[i].1
}

pub open spec fn sat_add(a: u64, b: u64) -> u64 {
    if a + b > u64::MAX {
        u64::MAX
    } else {
        (a + b) as u64
    }
}

pub open spec fn first_keys(s: Seq<(Seq<char>, u64)>) -> Seq<Seq<char>> {
    s.map_values(|e: (Seq<char>, u64)| e.0)
}

pub open spec fn flight_entries(v: Seq<InFlightTransfer>) -> Seq<(Seq<char>, u64)> {
    v.map_values(|f: InFlightTransfer| (f.token.player_id@, f.started_at_ms))
}

pub open spec fn dedup_entries(v: Seq<([u8; 32], u64)>) -> Seq<(Seq<u8>, u64)> {
    v.map_values(|e: ([u8; 32], u64)| (e.0@, e.1))
}

proof fn lemma_filter_take_step<A>(s: Seq<A>, p: spec_fn(A) -> bool, j: int)
    requires
        0 <= j < s.len(),
    ensures
        s.take(j + 1).filter(p) == (if p(s[j]) {
            s.take(j).filter(p).push(s[j])
        } else {
            s.take(j).filter(p)
        }),
{
    reveal(Seq::filter);
    let t = s.take(j + 1);
    assert(t.len() == j + 1);
    assert(t.last() == s[j]);
    assert(t.drop_last() =~= s.take(j));
}

/// Byte length of a persisted dedup record: a 32-byte HMAC, then its expiry in Unix
/// milliseconds as a little-endian `u64`.
pub const DEDUP_RECORD_BYTES: usize = 40;

/// The records of a dedup store's bytes; a trailing partial record is ignored.
pub open spec fn dedup_records(b: Seq<u8>) -> Seq<(Seq<u8>, u64)> {
    Seq::new(b.len() / 40, |i: int| (b.subrange(40 * i, 40 * i + 32), read_le64(b, 40 * i + 32)))
}

/// The store's bytes record `hmac` with an expiry after `now`.
pub open spec fn persisted_live(b: Seq<u8>, hmac: Seq<u8>, now: u64) -> bool {
    exists|i: int|
        0 <= i < dedup_records(b).len() && (#[trigger] dedup_records(b)[i]).0 == hmac && dedup_records(b)[i].1
            > now
}

/// The store record of an accepted token.
pub open spec fn dedup_record_bytes(hmac: Seq<u8>, expiry_ms: u64) -> Seq<u8> {
    hmac + le64(expiry_ms)
}

/// The records held in a dedup store's bytes, in file order.
pub fn parse_dedup_records(bytes: &[u8]) -> (out: Vec<([u8; 32], u64)>)
    ensures
        dedup_entries(out@) == dedup_records(bytes@),
{
    let n = bytes.len() / DEDUP_RECORD_BYTES;
    let mut out: Vec<([u8; 32], u64)> = Vec::new();
    let mut i: usize = 0;
    while i < n
        invariant
            n == bytes.len() / 40,
            i <= n,
            dedup_entries(out@) == dedup_records(bytes@).take(i as int),
        decreases n - i,
    {
        let start = i * DEDUP_RECORD_BYTES;
        assert(start + 40 <= bytes.len()) by (nonlinear_arith)
            requires
                start == i * 40,
                i < n,
                n == bytes.len() / 40,
        ;
        let mut hmac: [u8; 32] = [0u8; 32];
        let mut k: usize = 0;
        while k < 32
            invariant
                k <= 32,
                start + 40 <= bytes.len(),
                forall|j: int| 0 <= j < k ==> hmac@[j] == bytes@[start + j],
            decreases 32 - k,
        {
            hmac[k] = bytes[start + k];
            k = k + 1;
        }
        let expiry = read_u64_le(bytes, start + 32);
        proof {
            assert(hmac@ =~= bytes@.subrange(40 * i, 40 * i + 32));
            assert(dedup_entries(out@.push((hmac, expiry))) =~= dedup_entries(out@).push((hmac@, expiry)));
            assert(dedup_records(bytes@).take(i + 1) =~= dedup_records(bytes@).take(i as int).push(
                dedup_records(bytes@)[i as int],
            ));
        }
        out.push((hmac, expiry));
        i = i + 1;
    }
    assert(dedup_records(bytes@).take(n as int) =~= dedup_records(bytes@));
    out
}

/// The 40 bytes that record an accepted token in the dedup store.
pub fn dedup_record(hmac: &[u8; 32], expiry_unix_ms: u64) -> (rec: Vec<u8>)
    ensures
        rec@ == dedup_record_bytes(hmac@, expiry_unix_ms),
{
    let mut rec: Vec<u8> = Vec::new();
    push_bytes(&mut rec, hmac);
    push_le64(&mut rec, expiry_unix_ms);
    rec
}

/// A record written by `dedup_record` reads back as itself.
pub proof fn law_dedup_record_roundtrip(hmac: Seq<u8>, expiry_ms: u64)
    requires
        hmac.len() == 32,
    ensures
        dedup_records(dedup_record_bytes(hmac, expiry_ms)) == seq![(hmac, expiry_ms)],
{
    let b = dedup_record_bytes(hmac, expiry_ms);
    assert(b.subrange(32, 40) =~= le64(expiry_ms));
    lemma_read_le64_at(b, 32, expiry_ms);
    assert(b.subrange(0, 32) =~= hmac);
    assert(dedup_records(b) =~= seq![(hmac, expiry_ms)]);
}

/// Whether the store's bytes hold a record of `hmac` that expires after `now`.
pub fn persisted_contains(bytes: &[u8], hmac: &[u8; 32], now: u64) -> (b: bool)
    ensures
        b == persisted_live(bytes@, hmac@, now),
{
    let recs = parse_dedup_records(bytes);
    let ghost r = dedup_records(bytes@);
    let mut i: usize = 0;
    while i < recs.len()
        invariant
            i <= recs.len(),
            dedup_entries(recs@) == r,
            r == dedup_records(bytes@),
            forall|j: int| 0 <= j < i ==> !((#[trigger] r[j]).0 == hmac@ && r[j].1 > now),
        decreases recs.len() - i,
    {
        let (h, exp) = recs[i];
        assert(r[i as int] == (h@, exp));
        if bytes_equal(&h, hmac) && exp > now {
            return true;
        }
        i = i + 1;
    }
    false
}

fn bytes_equal(a: &[u8; 32], b: &[u8; 32]) -> (eq: bool)
    ensures
        eq == (a@ == b@),
{
    let mut i: usize = 0;
    while i < 32
        invariant
            i <= 32,
            forall|j: int| 0 <= j < i ==> a@[j] == b@[j],
        decreases 32 - i,
    {
        if a[i] != b[i] {
            return false;
        }
        i = i + 1;
    }
    assert(a@ =~= b@);
    true
}

/// How the receiving zone answers a token, as far as dedup state decides it.
pub enum AcceptVerdict {
    /// Refused before dedup was consulted, or for want of dedup room.
    Refused(TransferError),
    /// The token was accepted before and its dedup entry is in force.
    Duplicate,
    Accepted,
}

/// What `accept_transfer_at` answers for token `t` (signed fields encoded as `payload`)
/// arriving at `zone` at `now`, and the
/// dedup entries afterwards, given the entries `d` before, the signer's key, the dedup
/// capacity and retention, and the bytes of the shared dedup store.
pub open spec fn accept_model(
    key: Seq<u8>,
    max_dedup: usize,
    retention_ms: u64,
    d: Seq<(Seq<u8>, u64)>,
    t: TokenView,
    payload: Seq<u8>,
    zone: Seq<char>,
    now: u64,
    store: Seq<u8>,
) -> (AcceptVerdict, Seq<(Seq<u8>, u64)>) {
    if vstd::utf8::encode_utf8(t.player_id).len() > MAX_PLAYER_ID_LEN {
        (AcceptVerdict::Refused(TransferError::InvalidPlayerId), d)
    } else if validation_result(key, t, payload, zone, now) is Err {
        (AcceptVerdict::Refused(validation_result(key, t, payload, zone, now)->Err_0), d)
    } else if live_key(d, t.hmac, now) {
        (AcceptVerdict::Duplicate, d)
    } else {
        let d1 = without_key(d, t.hmac);
        if persisted_live(store, t.hmac, now) {
            (AcceptVerdict::Duplicate, d1)
        } else {
            let d2 = if d1.len() >= max_dedup {
                unexpired(d1, now)
            } else {
                d1
            };
            if d2.len() >= max_dedup {
                (AcceptVerdict::Refused(TransferError::AtCapacity), d2)
            } else {
                (AcceptVerdict::Accepted, d2.push((t.hmac, sat_add(now, retention_ms))))
            }
        }
    }
}

impl BuffState {
    /// A copy with the same contents.
    pub fn duplicate(&self) -> (c: BuffState)
        ensures
            c@ == self@,
    {
        let mut data: Vec<u8> = Vec::new();
        push_bytes(&mut data, self.data.as_slice());
        BuffState { buff_id: self.buff_id.clone(), remaining_ms: self.remaining_ms, data }
    }
}

/// A copy of each buff, in order.
pub fn duplicate_buffs(bs: &Vec<BuffState>) -> (c: Vec<BuffState>)
    ensures
        buff_views(c@) == buff_views(bs@),
{
    let mut c: Vec<BuffState> = Vec::new();
    let mut i: usize = 0;
    while i < bs.len()
        invariant
            i <= bs.len(),
            buff_views(c@) == buff_views(bs@).take(i as int),
        decreases bs.len() - i,
    {
        let b = bs[i].duplicate();
        proof {
            assert(buff_views(c@.push(b)) =~= buff_views(c@).push(b@));
            assert(buff_views(bs@).take(i + 1) =~= buff_views(bs@).take(i as int).push(bs@[i as int]@));
        }
        c.push(b);
        i = i + 1;
    }
    assert(buff_views(bs@).take(bs.len() as int) =~= buff_views(bs@));
    c
}

impl ZoneTransferToken {
    /// A copy with the same contents.
    pub fn duplicate(&self) -> (c: ZoneTransferToken)
        ensures
            c@ == self@,
    {
        ZoneTransferToken {
            player_id: self.player_id.clone(),
            source_zone: IslandId::new(self.source_zone.as_str()),
            target_zone: IslandId::new(self.target_zone.as_str()),
            position_bits: self.position_bits,
            velocity_bits: self.velocity_bits,
            buffs: duplicate_buffs(&self.buffs),
            timestamp: self.timestamp,
            ttl_ms: self.ttl_ms,
            hmac: self.hmac,
        }
    }
}

/// Coordinates zone transfers on a single server.
pub struct ZoneTransferManager {
    signer: TokenSigner,
    config: ZoneTransferConfig,
    in_flight: Vec<InFlightTransfer>,
    dedup_set: Vec<([u8; 32], u64)>,
}

impl ZoneTransferManager {
    /// Players in transfer with the time each transfer started, oldest first.
    pub closed spec fn in_flight_view(&self) -> Seq<(Seq<char>, u64)> {
        flight_entries(self.in_flight@)
    }

    /// Accepted token HMACs with the time each stops counting as a duplicate.
    pub closed spec fn dedup_view(&self) -> Seq<(Seq<u8>, u64)> {
        dedup_entries(self.dedup_set@)
    }

    pub closed spec fn config_spec(&self) -> ZoneTransferConfig {
        self.config
    }

    pub closed spec fn key(&self) -> Seq<u8> {
        self.signer.key()
    }

    pub closed spec fn ttl(&self) -> u32 {
        self.signer.default_ttl_ms()
    }

    /// The TTL of the tokens this manager signs.
    pub fn token_ttl_ms(&self) -> (t: u32)
        ensures
            t == self.ttl(),
    {
        self.signer.ttl_ms()
    }

    pub fn new(config: ZoneTransferConfig) -> (m: ZoneTransferManager)
        ensures
            m.in_flight_view() == Seq::<(Seq<char>, u64)>::empty(),
            m.dedup_view() == Seq::<(Seq<u8>, u64)>::empty(),
            m.config_spec() == config,
            m.key() == config.hmac_secret@,
            m.ttl() == config.token_ttl_ms,
    {
        let signer = TokenSigner::new(config.hmac_secret.as_slice(), config.token_ttl_ms);
        let m = ZoneTransferManager { signer, config, in_flight: Vec::new(), dedup_set: Vec::new() };
        assert(m.in_flight_view() =~= Seq::<(Seq<char>, u64)>::empty());
        assert(m.dedup_view() =~= Seq::<(Seq<u8>, u64)>::empty());
        m
    }

    /// Drops every in-flight entry of `player_id`.
    fn drop_in_flight(&mut self, player_id: &String)
        ensures
            final(self).in_flight_view() == without_key(old(self).in_flight_view(), player_id@),
            final(self).dedup_view() == old(self).dedup_view(),
            final(self).config_spec() == old(self).config_spec(),
            final(self).key() == old(self).key(),
            final(self).ttl() == old(self).ttl(),
    {
        let ghost o = flight_entries(self.in_flight@);
        let ghost k = player_id@;
        let mut i: usize = 0;
        let ghost mut j: int = 0;
        while i < self.in_flight.len()
            invariant
                0 <= i <= j <= o.len(),
                self.in_flight@.len() == i + (o.len() - j),
                flight_entries(self.in_flight@).take(i as int) == o.take(j).filter(key_ne(k)),
                flight_entries(self.in_flight@).skip(i as int) == o.skip(j),
                self.dedup_view() == old(self).dedup_view(),
                self.config_spec() == old(self).config_spec(),
                self.key() == old(self).key(),
                self.ttl() == old(self).ttl(),
                k == player_id@,
                o == flight_entries(old(self).in_flight@),
            decreases self.in_flight.len() - i,
        {
            let ghost v = flight_entries(self.in_flight@);
            assert(v[i as int] == v.skip(i as int)[0]);
            assert(o[j] == o.skip(j)[0]);
            proof {
                lemma_filter_take_step(o, key_ne(k), j);
            }
            if self.in_flight[i].token.player_id == *player_id {
                proof {
                    assert(o[j].0 == k);
                }
                let _ = self.in_flight.remove(i);
                proof {
                    let v2 = flight_entries(self.in_flight@);
                    assert(v2 =~= v.remove(i as int));
                    assert(v2.take(i as int) =~= v.take(i as int));
                    assert(v2.skip(i as int) =~= v.skip(i + 1));
                    assert(v.skip(i + 1) =~= o.skip(j + 1)) by {
                        assert(v.skip(i + 1) =~= v.skip(i as int).skip(1));
                        assert(o.skip(j + 1) =~= o.skip(j).skip(1));
                    }
                    j = j + 1;
                }
            } else {
                proof {
                    assert(o[j].0 != k);
                    assert(v.take(i + 1) =~= v.take(i as int).push(v[i as int]));
                    assert(v.skip(i + 1) =~= o.skip(j + 1)) by {
                        assert(v.skip(i + 1) =~= v.skip(i as int).skip(1));
                        assert(o.skip(j + 1) =~= o.skip(j).skip(1));
                    }
                    j = j + 1;
                }
                i = i + 1;
            }
        }
        proof {
            assert(j == o.len());
            assert(o.take(j) =~= o);
            assert(flight_entries(self.in_flight@).take(i as int) =~= flight_entries(self.in_flight@));
        }
    }

    /// Phase 1: sign a token for the player, stamped `now_ms`, over `payload` (the
    /// bitcode encoding of its signed fields, see `TokenSigner::sign_at`), and mark the
    /// player as transferring since `now_ms`. Player ids over 256 bytes are refused, and so is a
    /// transfer when `max_in_flight` are already under way.
    pub fn prepare_transfer_at(
        &mut self,
        player_id: String,
        source_zone: IslandId,
        target_zone: IslandId,
        position_bits: [u32; 3],
        velocity_bits: [u32; 3],
        buffs: Vec<BuffState>,
        now_ms: u64,
        payload: &[u8],
    ) -> (r: Result<ZoneTransferToken, TransferError>)
        ensures
            final(self).dedup_view() == old(self).dedup_view(),
            final(self).config_spec() == old(self).config_spec(),
            final(self).key() == old(self).key(),
            final(self).ttl() == old(self).ttl(),
            vstd::utf8::encode_utf8(player_id@).len() > MAX_PLAYER_ID_LEN ==> r == Err::<
                ZoneTransferToken,
                TransferError,
            >(TransferError::InvalidPlayerId) && final(self).in_flight_view() == old(self).in_flight_view(),
            vstd::utf8::encode_utf8(player_id@).len() <= MAX_PLAYER_ID_LEN && old(self).in_flight_view().len()
                >= old(self).config_spec().max_in_flight ==> r == Err::<ZoneTransferToken, TransferError>(
                TransferError::AtCapacity,
            ) && final(self).in_flight_view() == old(self).in_flight_view(),
            vstd::utf8::encode_utf8(player_id@).len() <= MAX_PLAYER_ID_LEN && old(self).in_flight_view().len()
                < old(self).config_spec().max_in_flight ==> (r matches Ok(t) && t@.player_id == player_id@
                && t@.source_zone == source_zone@ && t@.target_zone == target_zone@ && t@.position_bits
                == position_bits@ && t@.velocity_bits == velocity_bits@ && t@.buffs == buff_views(buffs@)
                && t.timestamp == now_ms && t.ttl_ms == old(self).ttl() && t@.hmac == hmac_sha256(
                old(self).key(),
                payload@,
            ) && final(self).in_flight_view() == without_key(old(self).in_flight_view(), player_id@).push(
                (player_id@, now_ms),
            )),
    {
        if player_id.as_str().as_bytes().len() > MAX_PLAYER_ID_LEN {
            return Err(TransferError::InvalidPlayerId);
        }
        if self.in_flight.len() >= self.config.max_in_flight {
            return Err(TransferError::AtCapacity);
        }
        let token = self.signer.sign_at(
            player_id,
            source_zone,
            target_zone,
            position_bits,
            velocity_bits,
            buffs,
            now_ms,
            payload,
        );
        self.drop_in_flight(&token.player_id);
        let copy = token.duplicate();
        let ghost before = self.in_flight@;
        self.in_flight.push(InFlightTransfer { token: copy, started_at_ms: now_ms });
        proof {
            assert(flight_entries(self.in_flight@) =~= flight_entries(before).push((token.player_id@, now_ms)));
        }
        Ok(token)
    }

    /// Drops every dedup entry for `hmac`.
    fn drop_dedup(&mut self, hmac: &[u8; 32])
        ensures
            final(self).dedup_view() == without_key(old(self).dedup_view(), hmac@),
            final(self).in_flight_view() == old(self).in_flight_view(),
            final(self).config_spec() == old(self).config_spec(),
            final(self).key() == old(self).key(),
            final(self).ttl() == old(self).ttl(),
    {
        let ghost o = dedup_entries(self.dedup_set@);
        let ghost k = hmac@;
        let mut i: usize = 0;
        let ghost mut j: int = 0;
        while i < self.dedup_set.len()
            invariant
                0 <= i <= j <= o.len(),
                self.dedup_set@.len() == i + (o.len() - j),
                dedup_entries(self.dedup_set@).take(i as int) == o.take(j).filter(key_ne(k)),
                dedup_entries(self.dedup_set@).skip(i as int) == o.skip(j),
                self.in_flight_view() == old(self).in_flight_view(),
                self.config_spec() == old(self).config_spec(),
                self.key() == old(self).key(),
                self.ttl() == old(self).ttl(),
                k == hmac@,
                o == dedup_entries(old(self).dedup_set@),
            decreases self.dedup_set.len() - i,
        {
            let ghost v = dedup_entries(self.dedup_set@);
            assert(v[i as int] == v.skip(i as int)[0]);
            assert(o[j] == o.skip(j)[0]);
            proof {
                lemma_filter_take_step(o, key_ne(k), j);
            }
            let matches_key = bytes_equal(&self.dedup_set[i].0, hmac);
            if matches_key {
                let _ = self.dedup_set.remove(i);
                proof {
                    let v2 = dedup_entries(self.dedup_set@);
                    assert(v2 =~= v.remove(i as int));
                    assert(v2.take(i as int) =~= v.take(i as int));
                    assert(v2.skip(i as int) =~= v.skip(i + 1));
                    assert(v.skip(i + 1) =~= o.skip(j + 1)) by {
                        assert(v.skip(i + 1) =~= v.skip(i as int).skip(1));
                        assert(o.skip(j + 1) =~= o.skip(j).skip(1));
                    }
                    j = j + 1;
                }
            } else {
                proof {
                    assert(v.take(i + 1) =~= v.take(i as int).push(v[i as int]));
                    assert(v.skip(i + 1) =~= o.skip(j + 1)) by {
                        assert(v.skip(i + 1) =~= v.skip(i as int).skip(1));
                        assert(o.skip(j + 1) =~= o.skip(j).skip(1));
                    }
                    j = j + 1;
                }
                i = i + 1;
            }
        }
        proof {
            assert(o.take(j) =~= o);
            assert(dedup_entries(self.dedup_set@).take(i as int) =~= dedup_entries(self.dedup_set@));
        }
    }

    /// Drops the dedup entries that no longer count at `now`.
    pub fn purge_expired_dedup_at(&mut self, now: u64)
        ensures
            final(self).dedup_view() == unexpired(old(self).dedup_view(), now),
            final(self).in_flight_view() == old(self).in_flight_view(),
            final(self).config_spec() == old(self).config_spec(),
            final(self).key() == old(self).key(),
            final(self).ttl() == old(self).ttl(),
    {
        let ghost o = dedup_entries(self.dedup_set@);
        let mut i: usize = 0;
        let ghost mut j: int = 0;
        while i < self.dedup_set.len()
            invariant
                0 <= i <= j <= o.len(),
                self.dedup_set@.len() == i + (o.len() - j),
                dedup_entries(self.dedup_set@).take(i as int) == o.take(j).filter(is_unexpired(now)),
                dedup_entries(self.dedup_set@).skip(i as int) == o.skip(j),
                self.in_flight_view() == old(self).in_flight_view(),
                self.config_spec() == old(self).config_spec(),
                self.key() == old(self).key(),
                self.ttl() == old(self).ttl(),
                o == dedup_entries(old(self).dedup_set@),
            decreases self.dedup_set.len() - i,
        {
            let ghost v = dedup_entries(self.dedup_set@);
            assert(v[i as int] == v.skip(i as int)[0]);
            assert(o[j] == o.skip(j)[0]);
            proof {
                lemma_filter_take_step(o, is_unexpired(now), j);
            }
            if now >= self.dedup_set[i].1 {
                let _ = self.dedup_set.remove(i);
                proof {
                    let v2 = dedup_entries(self.dedup_set@);
                    assert(v2 =~= v.remove(i as int));
                    assert(v2.take(i as int) =~= v.take(i as int));
                    assert(v2.skip(i as int) =~= v.skip(i + 1));
                    assert(v.skip(i + 1) =~= o.skip(j + 1)) by {
                        assert(v.skip(i + 1) =~= v.skip(i as int).skip(1));
                        assert(o.skip(j + 1) =~= o.skip(j).skip(1));
                    }
                    j = j + 1;
                }
            } else {
                proof {
                    assert(v.take(i + 1) =~= v.take(i as int).push(v[i as int]));
                    assert(v.skip(i + 1) =~= o.skip(j + 1)) by {
                        assert(v.skip(i + 1) =~= v.skip(i as int).skip(1));
                        assert(o.skip(j + 1) =~= o.skip(j).skip(1));
                    }
                    j = j + 1;
                }
                i = i + 1;
            }
        }
        proof {
            assert(o.take(j) =~= o);
            assert(dedup_entries(self.dedup_set@).take(i as int) =~= dedup_entries(self.dedup_set@));
        }
    }

    /// Like `purge_expired_dedup_at`, at the current wall-clock time.
    pub fn purge_expired_dedup(&mut self)
        ensures
            exists|now: u64| final(self).dedup_view() == unexpired(old(self).dedup_view(), now),
            final(self).in_flight_view() == old(self).in_flight_view(),
    {
        let now = crate::clock::now_ms();
        self.purge_expired_dedup_at(now);
    }

    fn dedup_live(&self, hmac: &[u8; 32], now: u64) -> (b: bool)
        ensures
            b == live_key(self.dedup_view(), hmac@, now),
    {
        let ghost d = self.dedup_view();
        let mut i: usize = 0;
        while i < self.dedup_set.len()
            invariant
                i <= self.dedup_set.len(),
                d == dedup_entries(self.dedup_set@),
                forall|j: int| 0 <= j < i ==> !((#[trigger] d[j]).0 == hmac@ && now < d[j].1),
            decreases self.dedup_set.len() - i,
        {
            assert(d[i as int] == (self.dedup_set@[i as int].0@, self.dedup_set@[i as int].1));
            if bytes_equal(&self.dedup_set[i].0, hmac) && now < self.dedup_set[i].1 {
                return true;
            }
            i = i + 1;
        }
        false
    }

    /// Phase 2: accept `token` arriving at `this_zone` at `now`. The player id's length is
    /// checked, then the signature, target zone and expiry, then whether this token was
    /// accepted before, here or (per `store`, the bytes of the shared dedup store) by a
    /// sibling or an earlier incarnation. An accepted token is remembered for the dedup
    /// retention; callers append `dedup_record(&token.hmac, dedup_expiry(now))` to the store.
    pub fn accept_transfer_at(
        &mut self,
        token: &ZoneTransferToken,
        payload: &[u8],
        this_zone: &IslandId,
        now: u64,
        store: &[u8],
    ) -> (r: Result<TransferredPlayer, TransferError>)
        ensures
            ({
                let (verdict, d) = accept_model(
                    old(self).key(),
                    old(self).config_spec().max_dedup_entries,
                    old(self).config_spec().dedup_retention_ms,
                    old(self).dedup_view(),
                    token@,
                    payload@,
                    this_zone@,
                    now,
                    store@,
                );
                &&& final(self).dedup_view() == d
                &&& verdict matches AcceptVerdict::Refused(e) ==> r == Err::<TransferredPlayer, TransferError>(e)
                &&& verdict is Duplicate ==> (r matches Err(TransferError::DuplicateToken { player_id })
                    && player_id@ == token@.player_id)
                &&& verdict is Accepted ==> (r matches Ok(p) && p.player_id@ == token@.player_id
                    && p.source_zone@ == token@.source_zone && p.position_bits == token.position_bits
                    && p.velocity_bits == token.velocity_bits && buff_views(p.buffs@) == token@.buffs)
            }),
            final(self).in_flight_view() == old(self).in_flight_view(),
            final(self).config_spec() == old(self).config_spec(),
            final(self).key() == old(self).key(),
            final(self).ttl() == old(self).ttl(),
    {
        if token.player_id.as_str().as_bytes().len() > MAX_PLAYER_ID_LEN {
            return Err(TransferError::InvalidPlayerId);
        }
        match self.signer.validate_at(token, payload, this_zone, now) {
            Err(e) => {
                return Err(e);
            },
            Ok(()) => {},
        }
        if self.dedup_live(&token.hmac, now) {
            return Err(TransferError::DuplicateToken { player_id: token.player_id.clone() });
        }
        self.drop_dedup(&token.hmac);
        if persisted_contains(store, &token.hmac, now) {
            return Err(TransferError::DuplicateToken { player_id: token.player_id.clone() });
        }
        if self.dedup_set.len() >= self.config.max_dedup_entries {
            self.purge_expired_dedup_at(now);
            if self.dedup_set.len() >= self.config.max_dedup_entries {
                return Err(TransferError::AtCapacity);
            }
        }
        let expiry = now.saturating_add(self.config.dedup_retention_ms);
        let ghost before = self.dedup_set@;
        self.dedup_set.push((token.hmac, expiry));
        proof {
            assert(dedup_entries(self.dedup_set@) =~= dedup_entries(before).push((token@.hmac, expiry)));
        }
        Ok(
            TransferredPlayer {
                player_id: token.player_id.clone(),
                source_zone: IslandId::new(token.source_zone.as_str()),
                position_bits: token.position_bits,
                velocity_bits: token.velocity_bits,
                buffs: duplicate_buffs(&token.buffs),
            },
        )
    }

    /// Like `accept_transfer_at`, at the current wall-clock time.
    pub fn accept_transfer(&mut self, token: &ZoneTransferToken, payload: &[u8], this_zone: &IslandId, store: &[u8]) -> (r: Result<
        TransferredPlayer,
        TransferError,
    >)
        ensures
            exists|now: u64|
                {
                    let (verdict, d) = #[trigger] accept_model(
                        old(self).key(),
                        old(self).config_spec().max_dedup_entries,
                        old(self).config_spec().dedup_retention_ms,
                        old(self).dedup_view(),
                        token@,
                        payload@,
                        this_zone@,
                        now,
                        store@,
                    );
                    &&& final(self).dedup_view() == d
                    &&& verdict matches AcceptVerdict::Refused(e) ==> r == Err::<TransferredPlayer, TransferError>(e)
                    &&& verdict is Duplicate ==> (r matches Err(TransferError::DuplicateToken { player_id })
                        && player_id@ == token@.player_id)
                    &&& verdict is Accepted ==> (r matches Ok(p) && p.player_id@ == token@.player_id)
                },
            final(self).in_flight_view() == old(self).in_flight_view(),
    {
        let now = crate::clock::now_ms();
        self.accept_transfer_at(token, payload, this_zone, now, store)
    }

    /// The expiry that a token accepted at `now` is recorded with.
    pub fn dedup_expiry(&self, now: u64) -> (e: u64)
        ensures
            e == sat_add(now, self.config_spec().dedup_retention_ms),
    {
        now.saturating_add(self.config.dedup_retention_ms)
    }

    /// The player's transfer completed: forget it.
    pub fn acknowledge_transfer(&mut self, player_id: &str) -> (r: Result<(), TransferError>)
        ensures
            has_key(old(self).in_flight_view(), player_id@) ==> r is Ok && final(self).in_flight_view()
                == without_key(old(self).in_flight_view(), player_id@),
            !has_key(old(self).in_flight_view(), player_id@) ==> (r matches Err(
                TransferError::PlayerNotTransferring { player_id: p },
            ) && p@ == player_id@) && final(self).in_flight_view() == old(self).in_flight_view(),
            final(self).dedup_view() == old(self).dedup_view(),
    {
        self.remove_in_flight(player_id)
    }

    /// The player's transfer is abandoned: forget it.
    pub fn rollback_transfer(&mut self, player_id: &str) -> (r: Result<(), TransferError>)
        ensures
            has_key(old(self).in_flight_view(), player_id@) ==> r is Ok && final(self).in_flight_view()
                == without_key(old(self).in_flight_view(), player_id@),
            !has_key(old(self).in_flight_view(), player_id@) ==> (r matches Err(
                TransferError::PlayerNotTransferring { player_id: p },
            ) && p@ == player_id@) && final(self).in_flight_view() == old(self).in_flight_view(),
            final(self).dedup_view() == old(self).dedup_view(),
    {
        self.remove_in_flight(player_id)
    }

    fn remove_in_flight(&mut self, player_id: &str) -> (r: Result<(), TransferError>)
        ensures
            has_key(old(self).in_flight_view(), player_id@) ==> r is Ok && final(self).in_flight_view()
                == without_key(old(self).in_flight_view(), player_id@),
            !has_key(old(self).in_flight_view(), player_id@) ==> (r matches Err(
                TransferError::PlayerNotTransferring { player_id: p },
            ) && p@ == player_id@) && final(self).in_flight_view() == old(self).in_flight_view(),
            final(self).dedup_view() == old(self).dedup_view(),
    {
        let id = String::from_str(player_id);
        if !self.transferring(&id) {
            return Err(TransferError::PlayerNotTransferring { player_id: id });
        }
        self.drop_in_flight(&id);
        Ok(())
    }

    fn transferring(&self, id: &String) -> (b: bool)
        ensures
            b == has_key(self.in_flight_view(), id@),
    {
        let ghost v = self.in_flight_view();
        let mut i: usize = 0;
        while i < self.in_flight.len()
            invariant
                i <= self.in_flight.len(),
                v == flight_entries(self.in_flight@),
                forall|j: int| 0 <= j < i ==> (#[trigger] v[j]).0 != id@,
            decreases self.in_flight.len() - i,
        {
            assert(v[i as int].0 == self.in_flight@[i as int].token.player_id@);
            if self.in_flight[i].token.player_id == *id {
                return true;
            }
            i = i + 1;
        }
        false
    }

    /// Whether the player's transfer awaits acknowledgement.
    pub fn is_transferring(&self, player_id: &str) -> (b: bool)
        ensures
            b == has_key(self.in_flight_view(), player_id@),
    {
        let id = String::from_str(player_id);
        self.transferring(&id)
    }

    /// Rolls back every transfer whose acknowledgement is overdue at `now`, returning the
    /// players in the order their transfers started.
    pub fn check_timeouts_at(&mut self, now: u64) -> (rolled_back: Vec<String>)
        ensures
            rolled_back@.map_values(|p: String| p@) == first_keys(
                old(self).in_flight_view().filter(is_overdue(now, old(self).config_spec().ack_timeout_ms)),
            ),
            final(self).in_flight_view() == old(self).in_flight_view().filter(
                is_pending(now, old(self).config_spec().ack_timeout_ms),
            ),
            final(self).dedup_view() == old(self).dedup_view(),
            final(self).config_spec() == old(self).config_spec(),
            final(self).key() == old(self).key(),
            final(self).ttl() == old(self).ttl(),
    {
        let timeout = self.config.ack_timeout_ms;
        let ghost o = flight_entries(self.in_flight@);
        let mut out: Vec<String> = Vec::new();
        let mut i: usize = 0;
        let ghost mut j: int = 0;
        while i < self.in_flight.len()
            invariant
                0 <= i <= j <= o.len(),
                timeout == self.config_spec().ack_timeout_ms,
                self.in_flight@.len() == i + (o.len() - j),
                flight_entries(self.in_flight@).take(i as int) == o.take(j).filter(is_pending(now, timeout)),
                flight_entries(self.in_flight@).skip(i as int) == o.skip(j),
                out@.map_values(|p: String| p@) == first_keys(o.take(j).filter(is_overdue(now, timeout))),
                self.dedup_view() == old(self).dedup_view(),
                self.config_spec() == old(self).config_spec(),
                self.key() == old(self).key(),
                self.ttl() == old(self).ttl(),
                o == flight_entries(old(self).in_flight@),
            decreases self.in_flight.len() - i,
        {
            let ghost v = flight_entries(self.in_flight@);
            assert(v[i as int] == v.skip(i as int)[0]);
            assert(o[j] == o.skip(j)[0]);
            proof {
                lemma_filter_take_step(o, is_pending(now, timeout), j);
                lemma_filter_take_step(o, is_overdue(now, timeout), j);
            }
            let started = self.in_flight[i].started_at_ms;
            let elapsed: u64 = if now >= started {
                now - started
            } else {
                0
            };
            if elapsed >= timeout {
                let f = self.in_flight.remove(i);
                proof {
                    let v2 = flight_entries(self.in_flight@);
                    assert(v2 =~= v.remove(i as int));
                    assert(v2.take(i as int) =~= v.take(i as int));
                    assert(v2.skip(i as int) =~= v.skip(i + 1));
                    assert(v.skip(i + 1) =~= o.skip(j + 1)) by {
                        assert(v.skip(i + 1) =~= v.skip(i as int).skip(1));
                        assert(o.skip(j + 1) =~= o.skip(j).skip(1));
                    }
                    let ov = o.take(j).filter(is_overdue(now, timeout));
                    assert(first_keys(ov.push(o[j])) =~= first_keys(ov).push(o[j].0));
                    assert(out@.push(f.token.player_id).map_values(|p: String| p@) =~= out@.map_values(
                        |p: String| p@,
                    ).push(f.token.player_id@));
                    j = j + 1;
                }
                out.push(f.token.player_id);
            } else {
                proof {
                    assert(v.take(i + 1) =~= v.take(i as int).push(v[i as int]));
                    assert(v.skip(i + 1) =~= o.skip(j + 1)) by {
                        assert(v.skip(i + 1) =~= v.skip(i as int).skip(1));
                        assert(o.skip(j + 1) =~= o.skip(j).skip(1));
                    }
                    j = j + 1;
                }
                i = i + 1;
            }
        }
        proof {
            assert(o.take(j) =~= o);
            assert(flight_entries(self.in_flight@).take(i as int) =~= flight_entries(self.in_flight@));
        }
        out
    }

    /// Like `check_timeouts_at`, at the current wall-clock time.
    pub fn check_timeouts(&mut self) -> (rolled_back: Vec<String>)
        ensures
            exists|now: u64|
                #[trigger] first_keys(old(self).in_flight_view().filter(is_overdue(now, old(self).config_spec().ack_timeout_ms)))
                    == rolled_back@.map_values(|p: String| p@) && final(self).in_flight_view()
                    == old(self).in_flight_view().filter(is_pending(now, old(self).config_spec().ack_timeout_ms)),
            final(self).dedup_view() == old(self).dedup_view(),
    {
        let now = crate::clock::now_ms();
        self.check_timeouts_at(now)
    }

    pub fn in_flight_count(&self) -> (n: usize)
        ensures
            n == self.in_flight_view().len(),
    {
        self.in_flight.len()
    }

    pub fn dedup_count(&self) -> (n: usize)
        ensures
            n == self.dedup_view().len(),
    {
        self.dedup_set.len()
    }

    pub fn signer(&self) -> (s: &TokenSigner)
        ensures
            s.key() == self.key(),
            s.default_ttl_ms() == self.ttl(),
    {
        &self.signer
    }
}

/// A token with no dedup record yet, accepted while the dedup set has room, adds exactly
/// one record: its HMAC, in force until `retention_ms` after `now`.
pub proof fn law_accepted_token_recorded(
    key: Seq<u8>,
    max_dedup: usize,
    retention_ms: u64,
    d: Seq<(Seq<u8>, u64)>,
    t: TokenView,
    payload: Seq<u8>,
    zone: Seq<char>,
    now: u64,
    store: Seq<u8>,
)
    requires
        accept_model(key, max_dedup, retention_ms, d, t, payload, zone, now, store).0 is Accepted,
        !has_key(d, t.hmac),
        d.len() < max_dedup,
    ensures
        accept_model(key, max_dedup, retention_ms, d, t, payload, zone, now, store).1 == d.push(
            (t.hmac, sat_add(now, retention_ms)),
        ),
{
    assert forall|i: int| 0 <= i < d.len() implies key_ne(t.hmac)(#[trigger] d[i]) by {
        if d[i].0 == t.hmac {
            assert(has_key(d, t.hmac));
        }
    }
    crate::tick::engine::lemma_filter_all(d, key_ne(t.hmac));
}

/// A token accepted at `now` is answered as a duplicate if it arrives again while its
/// dedup entry is in force, however valid it still is.
pub proof fn law_replayed_token_rejected(
    key: Seq<u8>,
    max_dedup: usize,
    retention_ms: u64,
    d: Seq<(Seq<u8>, u64)>,
    t: TokenView,
    payload: Seq<u8>,
    zone: Seq<char>,
    now: u64,
    store: Seq<u8>,
    later: u64,
    later_store: Seq<u8>,
)
    requires
        accept_model(key, max_dedup, retention_ms, d, t, payload, zone, now, store).0 is Accepted,
        later < sat_add(now, retention_ms),
        validation_result(key, t, payload, zone, later) is Ok,
    ensures
        accept_model(
            key,
            max_dedup,
            retention_ms,
            accept_model(key, max_dedup, retention_ms, d, t, payload, zone, now, store).1,
            t,
            payload,
            zone,
            later,
            later_store,
        ).0 is Duplicate,
{
    let d2 = accept_model(key, max_dedup, retention_ms, d, t, payload, zone, now, store).1;
    let n = (d2.len() - 1) as int;
    assert(d2[n].0 == t.hmac && later < d2[n].1);
    assert(live_key(d2, t.hmac, later));
}

/// Acknowledging (or rolling back) a prepared transfer leaves the player no longer
/// transferring, and other players' transfers untouched.
pub proof fn law_acknowledge_clears(s: Seq<(Seq<char>, u64)>, id: Seq<char>, other: Seq<char>)
    requires
        other != id,
    ensures
        !has_key(without_key(s, id), id),
        has_key(without_key(s, id), other) == has_key(s, other),
{
    broadcast use vstd::seq_lib::group_filter_ensures;
    assert(without_key(s, id) == s.filter(key_ne(id)));
    if has_key(without_key(s, id), id) {
        let i = choose|i: int| 0 <= i < without_key(s, id).len() && (#[trigger] without_key(s, id)[i]).0 == id;
        s.lemma_filter_pred(key_ne(id), i);
    }
    if has_key(s, other) {
        let i = choose|i: int| 0 <= i < s.len() && (#[trigger] s[i]).0 == other;
        s.lemma_filter_contains(key_ne(id), i);
        let j = choose|j: int| 0 <= j < without_key(s, id).len() && without_key(s, id)[j] == s[i];
        assert(without_key(s, id)[j].0 == other);
    }
    if has_key(without_key(s, id), other) {
        let i = choose|i: int| 0 <= i < without_key(s, id).len() && (#[trigger] without_key(s, id)[i]).0 == other;
        s.lemma_filter_pred(key_ne(id), i);
        s.lemma_filter_contains_rev(key_ne(id), without_key(s, id)[i]);
        let j = choose|j: int| 0 <= j < s.len() && s[j] == without_key(s, id)[i];
        assert(s[j].0 == other);
    }
}

} // verus!
