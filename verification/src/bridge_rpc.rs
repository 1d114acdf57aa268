//! Bridge request-reply bookkeeping, r2d batching and d2r coalescing.
//!
//! - **RequestReplyMap**: tracks pending r2d requests by correlation ID, with deadlines
//! - **R2dBatcher**: collects r2d messages during a tick, one batch per target
//! - **D2rCoalescer**: coalesces state-sync d2r messages within a time window (latest wins)
//!
//! Times are milliseconds on one clock, passed in by the caller. Delivering a reply
//! payload to whoever waits on a request is the caller's part: `resolve` says which
//! entity the reply belongs to.
use vstd::prelude::*;
use crate::tick::types::CorrelationId;
use crate::types::EntitySlot;
use crate::wire::{be16, be64, le64, push_be16, push_be64, push_le64};
use crate::clock::{now_ms, os_random_u64};
use crate::checkpoint::codec::copy_bytes;

verus! {

/// Why a bridge request did not get a reply.
#[derive(Debug, PartialEq, Eq, Structural)]
pub enum RequestError {
    Timeout,
    NoResponders,
    AtCapacity,
}

impl RequestError {
    /// Human-readable description of the error.
    pub fn to_string(&self) -> (s: String)
        ensures
            s@ == (match self {
                RequestError::Timeout => "request timed out"@,
                RequestError::NoResponders => "no responders on target subject"@,
                RequestError::AtCapacity => "pending request map at capacity"@,
            }),
    {
        match self {
            RequestError::Timeout => String::from_str("request timed out"),
            RequestError::NoResponders => String::from_str("no responders on target subject"),
            RequestError::AtCapacity => String::from_str("pending request map at capacity"),
        }
    }
}

/// The override for message type `code`: the last pair in `s` with that code wins.
pub open spec fn override_for(s: Seq<(u8, u64)>, code: u8) -> Option<u64>
    decreases s.len(),
{
    if s.len() == 0 {
        None
    } else if s.last().0 == code {
        Some(s.last().1)
    } else {
        override_for(s.drop_last(), code)
    }
}

/// Timeouts of the bridge's data plane, in milliseconds.
#[derive(Debug, Clone)]
pub struct BridgeRpcConfig {
    pub d2r_timeout_ms: u64,
    pub r2d_timeout_ms: u64,
    pub coalesce_d2r_ms: Option<u64>,
    /// Per message-type timeouts, `(type code, ms)`; a later pair overrides an earlier one.
    pub timeout_overrides: Vec<(u8, u64)>,
    pub max_pending: usize,
}

impl BridgeRpcConfig {
    /// The defaults: 500 ms d2r, 200 ms r2d, no coalescing, no overrides, 1024 pending.
    pub fn default_config() -> (c: BridgeRpcConfig)
        ensures
            c.d2r_timeout_ms == 500,
            c.r2d_timeout_ms == 200,
            c.coalesce_d2r_ms is None,
            c.timeout_overrides@.len() == 0,
            c.max_pending == 1024,
    {
        BridgeRpcConfig {
            d2r_timeout_ms: 500,
            r2d_timeout_ms: 200,
            coalesce_d2r_ms: None,
            timeout_overrides: Vec::new(),
            max_pending: 1024,
        }
    }

    fn lookup_override(&self, code: u8) -> (r: Option<u64>)
        ensures
            r == override_for(self.timeout_overrides@, code),
    {
        let mut i = self.timeout_overrides.len();
        assert(self.timeout_overrides@.take(i as int) =~= self.timeout_overrides@);
        while i > 0
            invariant
                i <= self.timeout_overrides@.len(),
                override_for(self.timeout_overrides@, code) == override_for(
                    self.timeout_overrides@.take(i as int),
                    code,
                ),
            decreases i,
        {
            let (c, ms) = self.timeout_overrides[i - 1];
            assert(self.timeout_overrides@.take(i as int).drop_last() =~= self.timeout_overrides@.take(
                i - 1,
            ));
            if c == code {
                return Some(ms);
            }
            i = i - 1;
        }
        None
    }

    /// The r2d timeout for message type `code`, falling back to the default.
    pub fn r2d_timeout_for(&self, code: u8) -> (ms: u64)
        ensures
            ms == (match override_for(self.timeout_overrides@, code) {
                Some(o) => o,
                None => self.r2d_timeout_ms,
            }),
    {
        match self.lookup_override(code) {
            Some(o) => o,
            None => self.r2d_timeout_ms,
        }
    }

    /// The d2r timeout for message type `code`, falling back to the default.
    pub fn d2r_timeout_for(&self, code: u8) -> (ms: u64)
        ensures
            ms == (match override_for(self.timeout_overrides@, code) {
                Some(o) => o,
                None => self.d2r_timeout_ms,
            }),
    {
        match self.lookup_override(code) {
            Some(o) => o,
            None => self.d2r_timeout_ms,
        }
    }
}

/// The bytes of a correlation id (ULID-like): the low 6 bytes of the millisecond
/// timestamp (big-endian), the low 2 bytes of the counter (big-endian), then 8 random
/// bytes.
pub open spec fn correlation_id_bytes(ts_ms: u64, counter: u64, random: u64) -> Seq<u8> {
    be64(ts_ms).subrange(2, 8) + be16(counter as u16) + le64(random)
}

/// Lay out a correlation id from its timestamp, counter and random parts.
pub fn correlation_id_from(ts_ms: u64, counter: u64, random: u64) -> (id: CorrelationId)
    ensures
        id@ == correlation_id_bytes(ts_ms, counter, random),
{
    let mut b: Vec<u8> = Vec::new();
    push_be64(&mut b, ts_ms);
    #[verifier::truncate]
    let c16: u16 = counter as u16;
    push_be16(&mut b, c16);
    push_le64(&mut b, random);
    let id: [u8; 16] = [b[2], b[3], b[4], b[5], b[6], b[7], b[8], b[9], b[10], b[11], b[12], b[13],
        b[14], b[15], b[16], b[17]];
    assert(id@ =~= correlation_id_bytes(ts_ms, counter, random));
    id
}

/// Whether two correlation ids are the same bytes.
pub fn same_correlation_id(a: &CorrelationId, b: &CorrelationId) -> (r: bool)
    ensures
        r == (a@ == b@),
{
    let mut i: usize = 0;
    while i < 16
        invariant
            i <= 16,
            a@.len() == 16,
            b@.len() == 16,
            forall|k: int| 0 <= k < i ==> a@[k] == b@[k],
        decreases 16 - i,
    {
        if a[i] != b[i] {
            return false;
        }
        i = i + 1;
    }
    assert(a@ =~= b@);
    true
}

/// A pending r2d request: who asked, and until when the reply is awaited.
#[derive(Debug, Clone, Copy)]
pub struct PendingRequest {
    pub correlation_id: CorrelationId,
    pub source_entity: EntitySlot,
    pub deadline_ms: u64,
}

pub open spec fn has_cid(s: Seq<PendingRequest>, cid: Seq<u8>) -> bool {
    exists|i: int| 0 <= i < s.len() && s[i].correlation_id@ == cid
}

pub open spec fn distinct_cids(s: Seq<PendingRequest>) -> bool {
    forall|i: int, j: int| 0 <= i < j < s.len() ==> s[i].correlation_id@ != s[j].correlation_id@
}

pub open spec fn index_of_cid(s: Seq<PendingRequest>, cid: Seq<u8>) -> int {
    choose|i: int| 0 <= i < s.len() && s[i].correlation_id@ == cid
}

/// `a + b`, or `u64::MAX` when that does not fit.
pub open spec fn saturating_sum(a: u64, b: u64) -> u64 {
    if a + b > u64::MAX {
        u64::MAX
    } else {
        (a + b) as u64
    }
}

/// The pending list after recording a request: a request with the same id is
/// replaced in place, otherwise the new one is appended.
pub open spec fn with_request(s: Seq<PendingRequest>, p: PendingRequest) -> Seq<PendingRequest> {
    if has_cid(s, p.correlation_id@) {
        s.update(index_of_cid(s, p.correlation_id@), p)
    } else {
        s.push(p)
    }
}

/// The pending list without the request for `cid`.
pub open spec fn without_cid(s: Seq<PendingRequest>, cid: Seq<u8>) -> Seq<PendingRequest> {
    if has_cid(s, cid) {
        s.remove(index_of_cid(s, cid))
    } else {
        s
    }
}

/// The requests still awaited at `now` (deadline not reached), order kept.
pub open spec fn live_requests(s: Seq<PendingRequest>, now: u64) -> Seq<PendingRequest>
    decreases s.len(),
{
    if s.len() == 0 {
        s
    } else if now >= s.last().deadline_ms {
        live_requests(s.drop_last(), now)
    } else {
        live_requests(s.drop_last(), now).push(s.last())
    }
}

/// The `(id, entity)` of each request whose deadline has passed at `now`, in order.
pub open spec fn expired_requests(s: Seq<PendingRequest>, now: u64) -> Seq<(Seq<u8>, EntitySlot)>
    decreases s.len(),
{
    if s.len() == 0 {
        Seq::empty()
    } else if now >= s.last().deadline_ms {
        expired_requests(s.drop_last(), now).push((s.last().correlation_id@, s.last().source_entity))
    } else {
        expired_requests(s.drop_last(), now)
    }
}

proof fn lemma_index_of_cid(s: Seq<PendingRequest>, i: int)
    requires
        distinct_cids(s),
        0 <= i < s.len(),
    ensures
        has_cid(s, s[i].correlation_id@),
        index_of_cid(s, s[i].correlation_id@) == i,
{
    let c = s[i].correlation_id@;
    assert(has_cid(s, c));
    let j = index_of_cid(s, c);
    if j < i {
        assert(s[j].correlation_id@ != s[i].correlation_id@);
    } else if j > i {
        assert(s[i].correlation_id@ != s[j].correlation_id@);
    }
}

proof fn lemma_live_is_subsequence(s: Seq<PendingRequest>, now: u64)
    ensures
        forall|k: int| 0 <= k < live_requests(s, now).len() ==> exists|j: int| 0 <= j < s.len()
            && #[trigger] live_requests(s, now)[k] == s[j],
        distinct_cids(s) ==> distinct_cids(live_requests(s, now)),
    decreases s.len(),
{
    if s.len() > 0 {
        let t = s.drop_last();
        lemma_live_is_subsequence(t, now);
        let l = live_requests(s, now);
        let lt = live_requests(t, now);
        assert forall|k: int| 0 <= k < l.len() implies exists|j: int| 0 <= j < s.len() && #[trigger] l[k]
            == s[j] by {
            if k < lt.len() {
                let j = choose|j: int| 0 <= j < t.len() && lt[k] == t[j];
                assert(l[k] == lt[k] && t[j] == s[j]);
            } else {
                assert(l[k] == s[s.len() - 1]);
            }
        }
        if distinct_cids(s) {
            assert(distinct_cids(t));
            assert forall|a: int, b: int| 0 <= a < b < l.len() implies l[a].correlation_id@
                != l[b].correlation_id@ by {
                if b >= lt.len() {
                    assert(l[a] == lt[a]);
                    let j = choose|j: int| 0 <= j < t.len() && lt[a] == t[j];
                    assert(t[j] == s[j]);
                    assert(l[b] == s[s.len() - 1]);
                } else {
                    assert(l[a] == lt[a] && l[b] == lt[b]);
                }
            }
        }
    }
}

/// Tracks pending r2d requests by correlation ID with deadline-based expiry.
pub struct RequestReplyMap {
    pending: Vec<PendingRequest>,
    counter: u64,
    max_pending: usize,
}

impl RequestReplyMap {
    pub closed spec fn pending_spec(&self) -> Seq<PendingRequest> {
        self.pending@
    }

    pub closed spec fn counter_spec(&self) -> u64 {
        self.counter
    }

    pub closed spec fn max_spec(&self) -> usize {
        self.max_pending
    }

    /// No correlation id is pending twice.
    pub closed spec fn wf(&self) -> bool {
        distinct_cids(self.pending@)
    }

    /// An empty map with room for `max_pending` requests.
    pub fn new(max_pending: usize) -> (m: RequestReplyMap)
        ensures
            m.wf(),
            m.pending_spec().len() == 0,
            m.counter_spec() == 0,
            m.max_spec() == max_pending,
    {
        RequestReplyMap { pending: Vec::new(), counter: 0, max_pending }
    }

    /// Generate a new correlation ID: the counter steps (wrapping), and the id is laid
    /// out from the wall clock, the new counter and eight random bytes.
    pub fn next_correlation_id(&mut self) -> (id: CorrelationId)
        ensures
            final(self).counter_spec() == old(self).counter_spec().wrapping_add(1),
            final(self).pending_spec() == old(self).pending_spec(),
            final(self).max_spec() == old(self).max_spec(),
            exists|ts: u64, r: u64| id@ == correlation_id_bytes(ts, final(self).counter_spec(), r),
    {
        self.counter = self.counter.wrapping_add(1);
        let ts = now_ms();
        let random = match os_random_u64() {
            Some(r) => r,
            None => 0,
        };
        let id = correlation_id_from(ts, self.counter, random);
        assert(id@ == correlation_id_bytes(ts, self.counter_spec(), random));
        id
    }

    fn find(&self, cid: &CorrelationId) -> (r: Option<usize>)
        requires
            self.wf(),
        ensures
            r is None <==> !has_cid(self.pending@, cid@),
            r matches Some(i) ==> i < self.pending@.len() && index_of_cid(self.pending@, cid@) == i,
    {
        let mut i: usize = 0;
        while i < self.pending.len()
            invariant
                i <= self.pending@.len(),
                distinct_cids(self.pending@),
                forall|k: int| 0 <= k < i ==> self.pending@[k].correlation_id@ != cid@,
            decreases self.pending@.len() - i,
        {
            if same_correlation_id(&self.pending[i].correlation_id, cid) {
                proof { lemma_index_of_cid(self.pending@, i as int); }
                return Some(i);
            }
            i = i + 1;
        }
        None
    }

    /// Record a request from `source_entity` awaited for `timeout_ms` from now on the
    /// wall clock (milliseconds). Refused with `AtCapacity` when `max_pending` requests
    /// are already pending; otherwise recorded as `insert_at` records it at that time.
    pub fn insert(
        &mut self,
        correlation_id: CorrelationId,
        source_entity: EntitySlot,
        timeout_ms: u64,
    ) -> (r: Result<(), RequestError>)
        requires
            old(self).wf(),
        ensures
            final(self).wf(),
            final(self).counter_spec() == old(self).counter_spec(),
            final(self).max_spec() == old(self).max_spec(),
            old(self).pending_spec().len() >= old(self).max_spec() ==> r == Err::<(), RequestError>(
                RequestError::AtCapacity) && final(self).pending_spec() == old(self).pending_spec(),
            old(self).pending_spec().len() < old(self).max_spec() ==> r is Ok && exists|t: u64|
                final(self).pending_spec() == with_request(
                    old(self).pending_spec(),
                    PendingRequest {
                        correlation_id,
                        source_entity,
                        deadline_ms: saturating_sum(t, timeout_ms),
                    },
                ),
    {
        let t = now_ms();
        self.insert_at(correlation_id, source_entity, timeout_ms, t)
    }

    /// Record a request from `source_entity` awaited for `timeout_ms` from `now_ms`.
    /// Refused with `AtCapacity` when `max_pending` requests are already pending.
    pub fn insert_at(
        &mut self,
        correlation_id: CorrelationId,
        source_entity: EntitySlot,
        timeout_ms: u64,
        now_ms: u64,
    ) -> (r: Result<(), RequestError>)
        requires
            old(self).wf(),
        ensures
            final(self).wf(),
            final(self).counter_spec() == old(self).counter_spec(),
            final(self).max_spec() == old(self).max_spec(),
            old(self).pending_spec().len() >= old(self).max_spec() ==> r == Err::<(), RequestError>(
                RequestError::AtCapacity) && final(self).pending_spec() == old(self).pending_spec(),
            old(self).pending_spec().len() < old(self).max_spec() ==> r is Ok
                && final(self).pending_spec() == with_request(
                old(self).pending_spec(),
                PendingRequest {
                    correlation_id,
                    source_entity,
                    deadline_ms: saturating_sum(now_ms, timeout_ms),
                },
            ),
    {
        if self.pending.len() >= self.max_pending {
            return Err(RequestError::AtCapacity);
        }
        let p = PendingRequest {
            correlation_id,
            source_entity,
            deadline_ms: now_ms.saturating_add(timeout_ms),
        };
        let ghost s = self.pending@;
        match self.find(&correlation_id) {
            Some(i) => {
                self.pending.set(i, p);
                assert forall|a: int, b: int| 0 <= a < b < self.pending@.len() implies
                    self.pending@[a].correlation_id@ != self.pending@[b].correlation_id@ by {
                    if a != i && b != i {
                        assert(s[a].correlation_id@ != s[b].correlation_id@);
                    } else if a == i {
                        assert(s[a].correlation_id@ != s[b].correlation_id@);
                    } else {
                        assert(s[a].correlation_id@ != s[b].correlation_id@);
                    }
                }
            },
            None => {
                self.pending.push(p);
                assert forall|a: int, b: int| 0 <= a < b < self.pending@.len() implies
                    self.pending@[a].correlation_id@ != self.pending@[b].correlation_id@ by {
                    if b == s.len() {
                        assert(self.pending@[a] == s[a]);
                        if s[a].correlation_id@ == correlation_id@ {
                            assert(has_cid(s, correlation_id@));
                        }
                    }
                }
            },
        }
        Ok(())
    }

    /// Take the request for `correlation_id` out of the map; the entity that sent it,
    /// or `None` when no such request is pending.
    pub fn resolve(&mut self, correlation_id: &CorrelationId) -> (r: Option<EntitySlot>)
        requires
            old(self).wf(),
        ensures
            final(self).wf(),
            final(self).counter_spec() == old(self).counter_spec(),
            final(self).max_spec() == old(self).max_spec(),
            final(self).pending_spec() == without_cid(old(self).pending_spec(), correlation_id@),
            r == (if has_cid(old(self).pending_spec(), correlation_id@) {
                Some(
                    old(self).pending_spec()[index_of_cid(
                        old(self).pending_spec(),
                        correlation_id@,
                    )].source_entity,
                )
            } else {
                None::<EntitySlot>
            }),
    {
        let ghost s = self.pending@;
        match self.find(correlation_id) {
            Some(i) => {
                let req = self.pending.remove(i);
                assert forall|a: int, b: int| 0 <= a < b < self.pending@.len() implies
                    self.pending@[a].correlation_id@ != self.pending@[b].correlation_id@ by {
                    let a0 = if a < i { a } else { a + 1 };
                    let b0 = if b < i { b } else { b + 1 };
                    assert(self.pending@[a] == s[a0] && self.pending@[b] == s[b0]);
                }
                Some(req.source_entity)
            },
            None => None,
        }
    }

    /// Remove every request whose deadline has passed now on the wall clock
    /// (milliseconds), as `remove_expired_at` does at that time.
    pub fn remove_expired(&mut self) -> (expired: Vec<(CorrelationId, EntitySlot)>)
        requires
            old(self).wf(),
        ensures
            final(self).wf(),
            final(self).counter_spec() == old(self).counter_spec(),
            final(self).max_spec() == old(self).max_spec(),
            exists|t: u64|
                final(self).pending_spec() == live_requests(old(self).pending_spec(), t)
                    && expired@.map_values(|e: (CorrelationId, EntitySlot)| (e.0@, e.1))
                    == expired_requests(old(self).pending_spec(), t),
    {
        let t = now_ms();
        self.remove_expired_at(t)
    }

    /// Remove every request whose deadline has passed at `now_ms`; their ids and
    /// entities, in order.
    pub fn remove_expired_at(&mut self, now_ms: u64) -> (expired: Vec<(CorrelationId, EntitySlot)>)
        requires
            old(self).wf(),
        ensures
            final(self).wf(),
            final(self).counter_spec() == old(self).counter_spec(),
            final(self).max_spec() == old(self).max_spec(),
            final(self).pending_spec() == live_requests(old(self).pending_spec(), now_ms),
            expired@.map_values(|e: (CorrelationId, EntitySlot)| (e.0@, e.1)) == expired_requests(
                old(self).pending_spec(),
                now_ms,
            ),
    {
        let ghost all = self.pending@;
        let mut kept: Vec<PendingRequest> = Vec::new();
        let mut expired: Vec<(CorrelationId, EntitySlot)> = Vec::new();
        let mut i: usize = 0;
        while i < self.pending.len()
            invariant
                i <= all.len(),
                self.pending@ == all,
                kept@ == live_requests(all.take(i as int), now_ms),
                expired@.map_values(|e: (CorrelationId, EntitySlot)| (e.0@, e.1)) == expired_requests(
                    all.take(i as int),
                    now_ms,
                ),
            decreases all.len() - i,
        {
            let p = self.pending[i];
            assert(all.take(i as int + 1).drop_last() =~= all.take(i as int));
            if now_ms >= p.deadline_ms {
                let ghost before = expired@;
                expired.push((p.correlation_id, p.source_entity));
                assert(expired@.map_values(|e: (CorrelationId, EntitySlot)| (e.0@, e.1))
                    =~= before.map_values(|e: (CorrelationId, EntitySlot)| (e.0@, e.1)).push(
                    (p.correlation_id@, p.source_entity),
                ));
            } else {
                kept.push(p);
            }
            i = i + 1;
        }
        assert(all.take(i as int) =~= all);
        proof { lemma_live_is_subsequence(all, now_ms); }
        self.pending = kept;
        expired
    }

    /// How many requests are pending.
    pub fn pending_count(&self) -> (n: usize)
        ensures
            n == self.pending_spec().len(),
    {
        self.pending.len()
    }
}

/// A d2r message waiting to be forwarded; a later one for the same key replaces it.
#[derive(Debug)]
pub struct CoalescedEntry {
    pub source_island: String,
    pub target_entity: EntitySlot,
    pub payload: Vec<u8>,
    pub received_at_ms: u64,
}

/// An entry as plain values: `(source island, target entity, payload, received at)`.
pub type CoalescedView = (Seq<char>, EntitySlot, Seq<u8>, u64);

pub open spec fn coalesced_view(e: CoalescedEntry) -> CoalescedView {
    (e.source_island@, e.target_entity, e.payload@, e.received_at_ms)
}

pub open spec fn has_key(s: Seq<CoalescedView>, island: Seq<char>, entity: EntitySlot) -> bool {
    exists|i: int| 0 <= i < s.len() && s[i].0 == island && s[i].1 == entity
}

pub open spec fn distinct_keys(s: Seq<CoalescedView>) -> bool {
    forall|i: int, j: int| 0 <= i < j < s.len() ==> !(s[i].0 == s[j].0 && s[i].1 == s[j].1)
}

pub open spec fn index_of_key(s: Seq<CoalescedView>, island: Seq<char>, entity: EntitySlot) -> int {
    choose|i: int| 0 <= i < s.len() && s[i].0 == island && s[i].1 == entity
}

/// The pending entries after submitting `e`: latest wins for its key, in place;
/// a new key is appended.
pub open spec fn with_submitted(s: Seq<CoalescedView>, e: CoalescedView) -> Seq<CoalescedView> {
    if has_key(s, e.0, e.1) {
        s.update(index_of_key(s, e.0, e.1), e)
    } else {
        s.push(e)
    }
}

/// Whether an entry received at `received` has waited out `window` at `now`.
pub open spec fn is_ready(received: u64, window: u64, now: u64) -> bool {
    (if now >= received { now - received } else { 0 }) >= window
}

/// The entries still waiting at `now`, order kept.
pub open spec fn waiting_entries(s: Seq<CoalescedView>, window: u64, now: u64) -> Seq<CoalescedView>
    decreases s.len(),
{
    if s.len() == 0 {
        s
    } else if is_ready(s.last().3, window, now) {
        waiting_entries(s.drop_last(), window, now)
    } else {
        waiting_entries(s.drop_last(), window, now).push(s.last())
    }
}

/// `(island, entity, payload)` of each entry ready at `now`, in order.
pub open spec fn ready_entries(s: Seq<CoalescedView>, window: u64, now: u64) -> Seq<
    (Seq<char>, EntitySlot, Seq<u8>),
>
    decreases s.len(),
{
    if s.len() == 0 {
        Seq::empty()
    } else if is_ready(s.last().3, window, now) {
        ready_entries(s.drop_last(), window, now).push((s.last().0, s.last().1, s.last().2))
    } else {
        ready_entries(s.drop_last(), window, now)
    }
}

proof fn lemma_waiting_is_subsequence(s: Seq<CoalescedView>, window: u64, now: u64)
    ensures
        distinct_keys(s) ==> distinct_keys(waiting_entries(s, window, now)),
        forall|k: int| 0 <= k < waiting_entries(s, window, now).len() ==> exists|j: int| 0 <= j
            < s.len() && #[trigger] waiting_entries(s, window, now)[k] == s[j],
    decreases s.len(),
{
    if s.len() > 0 {
        let t = s.drop_last();
        lemma_waiting_is_subsequence(t, window, now);
        let l = waiting_entries(s, window, now);
        let lt = waiting_entries(t, window, now);
        assert forall|k: int| 0 <= k < l.len() implies exists|j: int| 0 <= j < s.len() && #[trigger] l[k]
            == s[j] by {
            if k < lt.len() {
                let j = choose|j: int| 0 <= j < t.len() && lt[k] == t[j];
                assert(l[k] == lt[k] && t[j] == s[j]);
            } else {
                assert(l[k] == s[s.len() - 1]);
            }
        }
        if distinct_keys(s) {
            assert forall|a: int, b: int| 0 <= a < b < l.len() implies !(l[a].0 == l[b].0 && l[a].1
                == l[b].1) by {
                if b >= lt.len() {
                    assert(l[a] == lt[a]);
                    let j = choose|j: int| 0 <= j < t.len() && lt[a] == t[j];
                    assert(t[j] == s[j]);
                    assert(l[b] == s[s.len() - 1]);
                } else {
                    assert(l[a] == lt[a] && l[b] == lt[b]);
                }
            }
        }
    }
}

/// A reply finds its request: after recording `p`, resolving its id yields `p`'s
/// entity and leaves no request with that id pending.
pub proof fn law_resolve_after_insert(s: Seq<PendingRequest>, p: PendingRequest)
    requires
        distinct_cids(s),
    ensures
        ({
            let s2 = with_request(s, p);
            &&& distinct_cids(s2)
            &&& has_cid(s2, p.correlation_id@)
            &&& s2[index_of_cid(s2, p.correlation_id@)].source_entity == p.source_entity
            &&& !has_cid(without_cid(s2, p.correlation_id@), p.correlation_id@)
        }),
{
    let c = p.correlation_id@;
    let s2 = with_request(s, p);
    let i = if has_cid(s, c) { index_of_cid(s, c) } else { s.len() as int };
    assert(s2[i] == p);
    assert forall|a: int, b: int| 0 <= a < b < s2.len() implies s2[a].correlation_id@
        != s2[b].correlation_id@ by {
        if b == s.len() {
            assert(s2[a] == s[a]);
            if s[a].correlation_id@ == c {
                assert(has_cid(s, c));
            }
        } else if a != i && b != i {
            assert(s[a].correlation_id@ != s[b].correlation_id@);
        } else {
            assert(s[a].correlation_id@ != s[b].correlation_id@);
        }
    }
    lemma_index_of_cid(s2, i);
    let r = s2.remove(i);
    if has_cid(r, c) {
        let k = choose|k: int| 0 <= k < r.len() && r[k].correlation_id@ == c;
        let k0 = if k < i { k } else { k + 1 };
        assert(r[k] == s2[k0]);
        if k0 < i {
            assert(s2[k0].correlation_id@ != s2[i].correlation_id@);
        } else {
            assert(s2[i].correlation_id@ != s2[k0].correlation_id@);
        }
    }
}

/// Latest wins: two messages for the same key leave what the second alone would,
/// one entry for the key, holding the second payload.
pub proof fn law_coalesce_latest_wins(s: Seq<CoalescedView>, e1: CoalescedView, e2: CoalescedView)
    requires
        distinct_keys(s),
        e1.0 == e2.0,
        e1.1 == e2.1,
    ensures
        with_submitted(with_submitted(s, e1), e2) == with_submitted(s, e2),
{
    let s1 = with_submitted(s, e1);
    let i = if has_key(s, e1.0, e1.1) { index_of_key(s, e1.0, e1.1) } else { s.len() as int };
    assert(s1[i] == e1);
    assert(has_key(s1, e2.0, e2.1));
    let j = index_of_key(s1, e2.0, e2.1);
    if j != i {
        assert(s1[j].0 == e1.0 && s1[j].1 == e1.1);
        if j < s.len() {
            assert(s1[j] == s[j]);
            if has_key(s, e1.0, e1.1) {
                if j < i {
                    assert(!(s[j].0 == s[i].0 && s[j].1 == s[i].1));
                } else {
                    assert(!(s[i].0 == s[j].0 && s[i].1 == s[j].1));
                }
            } else {
                assert(has_key(s, e1.0, e1.1));
            }
        }
    }
    assert(with_submitted(s1, e2) =~= with_submitted(s, e2));
}

/// Coalesces d2r state-sync messages within a time window (latest wins per key).
pub struct D2rCoalescer {
    window_ms: u64,
    pending: Vec<CoalescedEntry>,
}

impl D2rCoalescer {
    pub closed spec fn pending_spec(&self) -> Seq<CoalescedView> {
        self.pending@.map_values(|e: CoalescedEntry| coalesced_view(e))
    }

    pub closed spec fn window_spec(&self) -> u64 {
        self.window_ms
    }

    /// No `(island, entity)` key is pending twice.
    pub closed spec fn wf(&self) -> bool {
        distinct_keys(self.pending_spec())
    }

    /// An empty coalescer with the given window.
    pub fn new(window_ms: u64) -> (c: D2rCoalescer)
        ensures
            c.wf(),
            c.pending_spec().len() == 0,
            c.window_spec() == window_ms,
    {
        let c = D2rCoalescer { window_ms, pending: Vec::new() };
        assert(c.pending_spec() =~= Seq::<CoalescedView>::empty());
        c
    }

    /// Queue `payload` for `(source_island, target_entity)` received now on the wall
    /// clock (milliseconds), as `submit_at` does at that time. Whether the key was new.
    pub fn submit(&mut self, source_island: String, target_entity: EntitySlot, payload: Vec<u8>) -> (is_new: bool)
        requires
            old(self).wf(),
        ensures
            final(self).wf(),
            final(self).window_spec() == old(self).window_spec(),
            is_new == !has_key(old(self).pending_spec(), source_island@, target_entity),
            exists|t: u64|
                final(self).pending_spec() == with_submitted(
                    old(self).pending_spec(),
                    (source_island@, target_entity, payload@, t),
                ),
    {
        let t = now_ms();
        self.submit_at(source_island, target_entity, payload, t)
    }

    /// Queue `payload` for `(source_island, target_entity)` received at `now_ms`,
    /// replacing a pending one for the same key. Whether the key was new.
    pub fn submit_at(
        &mut self,
        source_island: String,
        target_entity: EntitySlot,
        payload: Vec<u8>,
        now_ms: u64,
    ) -> (is_new: bool)
        requires
            old(self).wf(),
        ensures
            final(self).wf(),
            final(self).window_spec() == old(self).window_spec(),
            is_new == !has_key(old(self).pending_spec(), source_island@, target_entity),
            final(self).pending_spec() == with_submitted(
                old(self).pending_spec(),
                (source_island@, target_entity, payload@, now_ms),
            ),
    {
        let ghost s = self.pending_spec();
        let ghost v: CoalescedView = (source_island@, target_entity, payload@, now_ms);
        let mut i: usize = 0;
        while i < self.pending.len()
            invariant
                self.window_ms == old(self).window_ms,
                v == (source_island@, target_entity, payload@, now_ms),
                s == old(self).pending_spec(),
                i <= self.pending@.len(),
                s == self.pending@.map_values(|e: CoalescedEntry| coalesced_view(e)),
                distinct_keys(s),
                forall|k: int| 0 <= k < i ==> !(s[k].0 == source_island@ && s[k].1 == target_entity),
            decreases self.pending@.len() - i,
        {
            if self.pending[i].target_entity == target_entity && self.pending[i].source_island
                == source_island {
                assert(s[i as int].0 == source_island@ && s[i as int].1 == target_entity);
                assert(has_key(s, source_island@, target_entity));
                let ghost j = index_of_key(s, source_island@, target_entity);
                assert(j == i) by {
                    if j < i {
                        assert(!(s[j].0 == s[i as int].0 && s[j].1 == s[i as int].1));
                    } else if j > i {
                        assert(!(s[i as int].0 == s[j].0 && s[i as int].1 == s[j].1));
                    }
                }
                let ghost pv = self.pending@;
                let ent = CoalescedEntry { source_island, target_entity, payload, received_at_ms: now_ms };
                assert(coalesced_view(ent) == v);
                self.pending.set(i, ent);
                assert forall|k: int| 0 <= k < s.len() implies #[trigger] self.pending_spec()[k] == s.update(
                    i as int,
                    v,
                )[k] by {
                    if k != i {
                        assert(self.pending@[k] == pv[k]);
                    }
                }
                assert(self.pending_spec() =~= s.update(i as int, v));
                assert forall|a: int, b: int| 0 <= a < b < s.len() implies !(s.update(i as int, v)[a].0
                    == s.update(i as int, v)[b].0 && s.update(i as int, v)[a].1 == s.update(
                    i as int,
                    v,
                )[b].1) by {
                    assert(!(s[a].0 == s[b].0 && s[a].1 == s[b].1));
                }
                return false;
            }
            i = i + 1;
        }
        assert(!has_key(s, source_island@, target_entity));
        self.pending.push(
            CoalescedEntry { source_island, target_entity, payload, received_at_ms: now_ms },
        );
        assert(self.pending_spec() =~= s.push(v));
        assert forall|a: int, b: int| 0 <= a < b < s.push(v).len() implies !(s.push(v)[a].0 == s.push(
            v,
        )[b].0 && s.push(v)[a].1 == s.push(v)[b].1) by {
            if b == s.len() {
                assert(s.push(v)[a] == s[a]);
            }
        }
        true
    }

    /// Take out every entry that has waited at least the window now on the wall clock
    /// (milliseconds), as `drain_ready_at` does at that time.
    pub fn drain_ready(&mut self) -> (ready: Vec<(String, EntitySlot, Vec<u8>)>)
        requires
            old(self).wf(),
        ensures
            final(self).wf(),
            final(self).window_spec() == old(self).window_spec(),
            exists|t: u64|
                final(self).pending_spec() == waiting_entries(
                    old(self).pending_spec(),
                    old(self).window_spec(),
                    t,
                ) && ready@.map_values(|r: (String, EntitySlot, Vec<u8>)| (r.0@, r.1, r.2@))
                    == ready_entries(old(self).pending_spec(), old(self).window_spec(), t),
    {
        let t = now_ms();
        self.drain_ready_at(t)
    }

    /// Take out every entry that has waited at least the window at `now_ms`, in order,
    /// as `(island, entity, payload)`.
    pub fn drain_ready_at(&mut self, now_ms: u64) -> (ready: Vec<(String, EntitySlot, Vec<u8>)>)
        requires
            old(self).wf(),
        ensures
            final(self).wf(),
            final(self).window_spec() == old(self).window_spec(),
            final(self).pending_spec() == waiting_entries(
                old(self).pending_spec(),
                old(self).window_spec(),
                now_ms,
            ),
            ready@.map_values(|r: (String, EntitySlot, Vec<u8>)| (r.0@, r.1, r.2@)) == ready_entries(
                old(self).pending_spec(),
                old(self).window_spec(),
                now_ms,
            ),
    {
        let ghost all = self.pending_spec();
        let n = self.pending.len();
        let mut rest: Vec<CoalescedEntry> = Vec::new();
        std::mem::swap(&mut rest, &mut self.pending);
        let mut kept: Vec<CoalescedEntry> = Vec::new();
        let mut ready: Vec<(String, EntitySlot, Vec<u8>)> = Vec::new();
        let mut i: usize = 0;
        while rest.len() > 0
            invariant
                all.len() == n,
                i + rest@.len() == n,
                rest@.map_values(|e: CoalescedEntry| coalesced_view(e)) == all.skip(i as int),
                kept@.map_values(|e: CoalescedEntry| coalesced_view(e)) == waiting_entries(
                    all.take(i as int),
                    self.window_ms,
                    now_ms,
                ),
                ready@.map_values(|r: (String, EntitySlot, Vec<u8>)| (r.0@, r.1, r.2@)) == ready_entries(
                    all.take(i as int),
                    self.window_ms,
                    now_ms,
                ),
            decreases rest@.len(),
        {
            let ghost rv = rest@.map_values(|e: CoalescedEntry| coalesced_view(e));
            let ghost kv = kept@.map_values(|e: CoalescedEntry| coalesced_view(e));
            let ghost dv = ready@.map_values(|r: (String, EntitySlot, Vec<u8>)| (r.0@, r.1, r.2@));
            let ghost rest_before = rest@;
            let e = rest.remove(0);
            assert(coalesced_view(e) == rv[0]);
            assert(rv[0] == all[i as int]);
            assert(all.take(i as int + 1).drop_last() =~= all.take(i as int));
            assert forall|k: int| #![trigger rest@[k]] 0 <= k < rest@.len() implies rest@.map_values(
                |e: CoalescedEntry| coalesced_view(e),
            )[k] == all.skip(i as int + 1)[k] by {
                assert(rest@[k] == rest_before[k + 1]);
                assert(rv[k + 1] == all.skip(i as int)[k + 1]);
            }
            assert(rest@.map_values(|e: CoalescedEntry| coalesced_view(e)) =~= all.skip(i as int + 1));
            let elapsed = now_ms.saturating_sub(e.received_at_ms);
            if elapsed >= self.window_ms {
                ready.push((e.source_island, e.target_entity, e.payload));
                assert(ready@.map_values(|r: (String, EntitySlot, Vec<u8>)| (r.0@, r.1, r.2@)) =~= dv.push(
                    (all[i as int].0, all[i as int].1, all[i as int].2),
                ));
            } else {
                kept.push(e);
                assert(kept@.map_values(|e: CoalescedEntry| coalesced_view(e)) =~= kv.push(all[i as int]));
            }
            i = i + 1;
        }
        assert(all.take(i as int) =~= all);
        proof { lemma_waiting_is_subsequence(all, self.window_ms, now_ms); }
        self.pending = kept;
        ready
    }

    /// How many keys have a message waiting.
    pub fn pending_count(&self) -> (n: usize)
        ensures
            n == self.pending_spec().len(),
    {
        self.pending.len()
    }
}

/// One r2d message waiting in a batch: the fields of its frame header and its payload.
#[derive(Debug)]
pub struct BatchedMessage<M> {
    pub msg_type: M,
    pub sequence: u64,
    pub timestamp_ms: u64,
    pub correlation_id: Option<CorrelationId>,
    pub payload: Vec<u8>,
}

/// A batched message as plain values: `(type, sequence, timestamp, correlation id, payload)`.
pub type BatchedView<M> = (M, u64, u64, Option<CorrelationId>, Seq<u8>);

pub open spec fn batched_view<M>(m: BatchedMessage<M>) -> BatchedView<M> {
    (m.msg_type, m.sequence, m.timestamp_ms, m.correlation_id, m.payload@)
}

/// A target's batch as plain values: the target, then its messages in the order pushed.
pub open spec fn batch_view<M>(g: (String, Vec<BatchedMessage<M>>)) -> (Seq<char>, Seq<BatchedView<M>>) {
    (g.0@, g.1@.map_values(|m: BatchedMessage<M>| batched_view(m)))
}

pub open spec fn has_target<M>(s: Seq<(Seq<char>, Seq<BatchedView<M>>)>, t: Seq<char>) -> bool {
    exists|i: int| 0 <= i < s.len() && s[i].0 == t
}

pub open spec fn distinct_targets<M>(s: Seq<(Seq<char>, Seq<BatchedView<M>>)>) -> bool {
    forall|i: int, j: int| 0 <= i < j < s.len() ==> s[i].0 != s[j].0
}

pub open spec fn index_of_target<M>(s: Seq<(Seq<char>, Seq<BatchedView<M>>)>, t: Seq<char>) -> int {
    choose|i: int| 0 <= i < s.len() && s[i].0 == t
}

/// The batches after pushing `m` for target `t`: appended to `t`'s batch, or a new
/// batch for `t` after the others.
pub open spec fn with_batched<M>(
    s: Seq<(Seq<char>, Seq<BatchedView<M>>)>,
    t: Seq<char>,
    m: BatchedView<M>,
) -> Seq<(Seq<char>, Seq<BatchedView<M>>)> {
    if has_target(s, t) {
        let i = index_of_target(s, t);
        s.update(i, (t, s[i].1.push(m)))
    } else {
        s.push((t, seq![m]))
    }
}

/// How many messages the batches hold in all.
pub open spec fn total_messages<M>(s: Seq<(Seq<char>, Seq<BatchedView<M>>)>) -> nat
    decreases s.len(),
{
    if s.len() == 0 {
        0
    } else {
        total_messages(s.drop_last()) + s.last().1.len()
    }
}

proof fn lemma_total_prefix<M>(s: Seq<(Seq<char>, Seq<BatchedView<M>>)>, i: int)
    requires
        0 <= i <= s.len(),
    ensures
        total_messages(s.take(i)) <= total_messages(s),
    decreases s.len() - i,
{
    if i < s.len() {
        lemma_total_prefix(s, i + 1);
        assert(s.take(i + 1).drop_last() =~= s.take(i));
    } else {
        assert(s.take(i) =~= s);
    }
}

proof fn lemma_total_update<M>(
    s: Seq<(Seq<char>, Seq<BatchedView<M>>)>,
    i: int,
    g: (Seq<char>, Seq<BatchedView<M>>),
)
    requires
        0 <= i < s.len(),
    ensures
        total_messages(s.update(i, g)) == total_messages(s) - s[i].1.len() + g.1.len(),
    decreases s.len(),
{
    let u = s.update(i, g);
    if i == s.len() - 1 {
        assert(u.drop_last() =~= s.drop_last());
    } else {
        lemma_total_update(s.drop_last(), i, g);
        assert(u.drop_last() =~= s.drop_last().update(i, g));
    }
}

/// Pushing a message adds one to the count of batched messages, and the pushed
/// message is the last of its target's batch.
pub proof fn law_push_counts_one<M>(
    s: Seq<(Seq<char>, Seq<BatchedView<M>>)>,
    t: Seq<char>,
    m: BatchedView<M>,
)
    requires
        distinct_targets(s),
    ensures
        ({
            let s2 = with_batched(s, t, m);
            &&& distinct_targets(s2)
            &&& total_messages(s2) == total_messages(s) + 1
            &&& has_target(s2, t)
            &&& s2[index_of_target(s2, t)].1.last() == m
        }),
{
    let s2 = with_batched(s, t, m);
    if has_target(s, t) {
        let i = index_of_target(s, t);
        lemma_total_update(s, i, (t, s[i].1.push(m)));
        assert forall|a: int, b: int| 0 <= a < b < s2.len() implies s2[a].0 != s2[b].0 by {
            assert(s[a].0 != s[b].0);
        }
        assert(s2[i].0 == t);
        let j = index_of_target(s2, t);
        if j != i {
            if j < i {
                assert(s2[j].0 != s2[i].0);
            } else {
                assert(s2[i].0 != s2[j].0);
            }
        }
    } else {
        assert(s2.drop_last() =~= s);
        assert forall|a: int, b: int| 0 <= a < b < s2.len() implies s2[a].0 != s2[b].0 by {
            if b == s.len() {
                assert(s2[a] == s[a]);
            } else {
                assert(s[a].0 != s[b].0);
            }
        }
        let k = s.len() as int;
        assert(s2[k].0 == t);
        let j = index_of_target(s2, t);
        if j != k {
            assert(s2[j].0 != s2[k].0);
        }
    }
}

/// Collects r2d messages during a tick, one batch per target, each message numbered
/// by a sequence that wraps around. `flush` hands the batches out for framing.
pub struct R2dBatcher<M> {
    batches: Vec<(String, Vec<BatchedMessage<M>>)>,
    sequence: u64,
}

impl<M> R2dBatcher<M> {
    pub closed spec fn batches_spec(&self) -> Seq<(Seq<char>, Seq<BatchedView<M>>)> {
        self.batches@.map_values(|g: (String, Vec<BatchedMessage<M>>)| batch_view(g))
    }

    pub closed spec fn sequence_spec(&self) -> u64 {
        self.sequence
    }

    /// No target has two batches, and the count of messages fits a `usize`.
    pub closed spec fn wf(&self) -> bool {
        &&& distinct_targets(self.batches_spec())
        &&& total_messages(self.batches_spec()) <= usize::MAX
    }

    /// An empty batcher whose sequence starts at 0.
    pub fn new() -> (b: R2dBatcher<M>)
        ensures
            b.wf(),
            b.batches_spec().len() == 0,
            b.sequence_spec() == 0,
    {
        let b = R2dBatcher { batches: Vec::new(), sequence: 0 };
        assert(b.batches_spec() =~= Seq::<(Seq<char>, Seq<BatchedView<M>>)>::empty());
        b
    }

    /// Push a message for `target`, stamped with the next sequence number (wrapping)
    /// and with `timestamp_ms`.
    pub fn push_at(
        &mut self,
        target: String,
        msg_type: M,
        payload: &[u8],
        correlation_id: Option<CorrelationId>,
        timestamp_ms: u64,
    )
        requires
            old(self).wf(),
            total_messages(old(self).batches_spec()) < usize::MAX,
        ensures
            final(self).wf(),
            final(self).sequence_spec() == old(self).sequence_spec().wrapping_add(1),
            final(self).batches_spec() == with_batched(
                old(self).batches_spec(),
                target@,
                (msg_type, final(self).sequence_spec(), timestamp_ms, correlation_id, payload@),
            ),
    {
        let ghost s = self.batches_spec();
        self.sequence = self.sequence.wrapping_add(1);
        let msg = BatchedMessage {
            msg_type,
            sequence: self.sequence,
            timestamp_ms,
            correlation_id,
            payload: copy_bytes(payload),
        };
        let ghost mv = batched_view(msg);
        assert(mv == (msg_type, self.sequence, timestamp_ms, correlation_id, payload@));
        proof { law_push_counts_one(s, target@, mv); }
        let mut i: usize = 0;
        while i < self.batches.len()
            invariant
                s == self.batches@.map_values(|g: (String, Vec<BatchedMessage<M>>)| batch_view(g)),
                distinct_targets(s),
                i <= self.batches@.len(),
                mv == batched_view(msg),
                mv == (msg_type, self.sequence, timestamp_ms, correlation_id, payload@),
                self.sequence == old(self).sequence.wrapping_add(1),
                s == old(self).batches_spec(),
                total_messages(s) < usize::MAX,
                ({
                    let s2 = with_batched(s, target@, mv);
                    &&& distinct_targets(s2)
                    &&& total_messages(s2) == total_messages(s) + 1
                }),
                forall|k: int| 0 <= k < i ==> s[k].0 != target@,
            decreases self.batches@.len() - i,
        {
            if self.batches[i].0 == target {
                assert(s[i as int].0 == target@);
                assert(has_target(s, target@));
                let ghost j = index_of_target(s, target@);
                assert(j == i) by {
                    if j < i {
                        assert(s[j].0 != s[i as int].0);
                    } else if j > i {
                        assert(s[i as int].0 != s[j].0);
                    }
                }
                let ghost before = self.batches@;
                let mut g = self.batches.remove(i);
                assert(batch_view(g) == s[i as int]);
                let ghost gv = g.1@;
                g.1.push(msg);
                assert(g.1@.map_values(|m: BatchedMessage<M>| batched_view(m)) =~= gv.map_values(
                    |m: BatchedMessage<M>| batched_view(m),
                ).push(mv));
                self.batches.insert(i, g);
                assert forall|k: int| 0 <= k < s.len() implies #[trigger] self.batches_spec()[k]
                    == s.update(i as int, (target@, s[i as int].1.push(mv)))[k] by {
                    if k != i {
                        assert(self.batches@[k] == before[k]);
                    }
                }
                assert(self.batches_spec() =~= s.update(i as int, (target@, s[i as int].1.push(mv))));
                return;
            }
            i = i + 1;
        }
        assert(!has_target(s, target@));
        let mut v: Vec<BatchedMessage<M>> = Vec::new();
        v.push(msg);
        assert(v@.map_values(|m: BatchedMessage<M>| batched_view(m)) =~= seq![mv]);
        self.batches.push((target, v));
        assert(self.batches_spec() =~= s.push((target@, seq![mv])));
    }

    /// Push a message for `target` stamped with the wall clock in milliseconds. The
    /// batches change as `push_at` with that timestamp would change them.
    pub fn push(
        &mut self,
        target: String,
        msg_type: M,
        payload: &[u8],
        correlation_id: Option<CorrelationId>,
    )
        requires
            old(self).wf(),
            total_messages(old(self).batches_spec()) < usize::MAX,
        ensures
            final(self).wf(),
            final(self).sequence_spec() == old(self).sequence_spec().wrapping_add(1),
            exists|ts: u64|
                final(self).batches_spec() == with_batched(
                    old(self).batches_spec(),
                    target@,
                    (msg_type, final(self).sequence_spec(), ts, correlation_id, payload@),
                ),
    {
        let ts = now_ms();
        self.push_at(target, msg_type, payload, correlation_id, ts);
    }

    /// Hand out every batch, in the order their targets first appeared, and start
    /// over empty; the sequence goes on.
    pub fn flush(&mut self) -> (out: Vec<(String, Vec<BatchedMessage<M>>)>)
        requires
            old(self).wf(),
        ensures
            final(self).wf(),
            final(self).batches_spec().len() == 0,
            final(self).sequence_spec() == old(self).sequence_spec(),
            out@.map_values(|g: (String, Vec<BatchedMessage<M>>)| batch_view(g)) == old(
                self,
            ).batches_spec(),
    {
        let mut out: Vec<(String, Vec<BatchedMessage<M>>)> = Vec::new();
        std::mem::swap(&mut out, &mut self.batches);
        assert(self.batches_spec() =~= Seq::<(Seq<char>, Seq<BatchedView<M>>)>::empty());
        out
    }

    /// How many targets have a batch.
    pub fn target_count(&self) -> (n: usize)
        ensures
            n == self.batches_spec().len(),
    {
        self.batches.len()
    }

    /// How many messages are batched, over all targets.
    pub fn message_count(&self) -> (n: usize)
        requires
            self.wf(),
        ensures
            n == total_messages(self.batches_spec()),
    {
        let ghost s = self.batches_spec();
        let mut n: usize = 0;
        let mut i: usize = 0;
        while i < self.batches.len()
            invariant
                s == self.batches@.map_values(|g: (String, Vec<BatchedMessage<M>>)| batch_view(g)),
                total_messages(s) <= usize::MAX,
                i <= self.batches@.len(),
                n == total_messages(s.take(i as int)),
            decreases self.batches@.len() - i,
        {
            proof {
                lemma_total_prefix(s, i as int + 1);
                assert(s.take(i as int + 1).drop_last() =~= s.take(i as int));
                assert(s[i as int].1.len() == self.batches@[i as int].1@.len());
            }
            n = n + self.batches[i].1.len();
            i = i + 1;
        }
        assert(s.take(i as int) =~= s);
        n
    }
}

} // verus!
