//! Retained sessions for fast reconnect: a bounded store with a per-session
//! time-to-live and eviction of the oldest entry when full.
//!
//! Times are milliseconds on one monotonic clock, passed in by the caller.
use vstd::prelude::*;
use crate::types::EntitySlot;

verus! {

/// Retained state for a disconnected client, enabling fast reconnect.
#[derive(Debug)]
pub struct RetainedSession {
    /// The tick at which this client last received a full/delta state update.
    pub baseline_tick: u64,
    /// Snapshot of entity slots visible to the client at disconnect.
    pub visible_entities: Vec<EntitySlot>,
    /// Last acknowledged input sequence number.
    pub input_seq: u32,
    /// The session_id from auth, used as reconnect token.
    pub session_token: u64,
    /// Client capabilities retained for fast reconnect, as key/value pairs.
    pub client_capabilities: Vec<(String, String)>,
    /// When this retention entry was created (milliseconds).
    pub created_at_ms: u64,
}

/// Bounded session store with per-session TTL expiry and eviction of the oldest entry.
///
/// The caller is responsible for periodically calling [`SessionStore::purge_expired_at`].
pub struct SessionStore {
    /// Entries keyed by session id, oldest first; no id occurs twice.
    entries: Vec<(u64, RetainedSession)>,
    expiry_ms: u64,
    max_sessions: usize,
}

pub type SessionEntries = Seq<(u64, RetainedSession)>;

/// Whether `id` is the key of some entry.
pub open spec fn has_id(s: SessionEntries, id: u64) -> bool {
    exists|i: int| 0 <= i < s.len() && s[i].0 == id
}

/// No id occurs twice.
pub open spec fn distinct_ids(s: SessionEntries) -> bool {
    forall|i: int, j: int| 0 <= i < j < s.len() ==> s[i].0 != s[j].0
}

/// The position of the entry with key `id` (meaningful when `has_id(s, id)`).
pub open spec fn index_of_id(s: SessionEntries, id: u64) -> int {
    choose|i: int| 0 <= i < s.len() && s[i].0 == id
}

/// What `take_at` returns: the session under `id` if there is one and it has not
/// expired at `now`.
pub open spec fn take_result(
    s: Seq<(u64, RetainedSession)>,
    id: u64,
    expiry: u64,
    now: u64,
) -> Option<RetainedSession> {
    if has_id(s, id) && !is_expired(s[index_of_id(s, id)].1.created_at_ms, expiry, now) {
        Some(s[index_of_id(s, id)].1)
    } else {
        None
    }
}

/// The entries without the one keyed `id`, order kept.
pub open spec fn without_id(s: SessionEntries, id: u64) -> SessionEntries {
    if has_id(s, id) {
        s.remove(index_of_id(s, id))
    } else {
        s
    }
}

/// Milliseconds elapsed from `from` to `now`, zero if `now` is earlier.
pub open spec fn elapsed_ms(from: u64, now: u64) -> int {
    if now >= from {
        now - from
    } else {
        0
    }
}

/// Whether a session created at `created` has outlived `expiry` at `now`.
pub open spec fn is_expired(created: u64, expiry: u64, now: u64) -> bool {
    elapsed_ms(created, now) > expiry
}

/// The entries and the evicted id after inserting `(id, sess)` into `s` with room
/// for `max` sessions: an older entry with the same id is dropped first, then the
/// oldest entry is evicted if the store is full.
pub open spec fn insert_result(s: SessionEntries, max: usize, id: u64, sess: RetainedSession) -> (
    SessionEntries,
    Option<u64>,
) {
    let s1 = without_id(s, id);
    if s1.len() >= max && s1.len() > 0 {
        (s1.drop_first().push((id, sess)), Some(s1[0].0))
    } else {
        (s1.push((id, sess)), None)
    }
}

/// The entries that are not expired at `now`, order kept.
pub open spec fn fresh_entries(s: SessionEntries, expiry: u64, now: u64) -> SessionEntries
    decreases s.len(),
{
    if s.len() == 0 {
        s
    } else {
        let rest = fresh_entries(s.drop_last(), expiry, now);
        if is_expired(s.last().1.created_at_ms, expiry, now) {
            rest
        } else {
            rest.push(s.last())
        }
    }
}

proof fn lemma_remove_keeps_distinct(s: SessionEntries, i: int)
    requires
        distinct_ids(s),
        0 <= i < s.len(),
    ensures
        distinct_ids(s.remove(i)),
        !has_id(s.remove(i), s[i].0),
        forall|id: u64| has_id(s.remove(i), id) ==> has_id(s, id),
{
    let r = s.remove(i);
    assert forall|a: int, b: int| 0 <= a < b < r.len() implies r[a].0 != r[b].0 by {
        let a0 = if a < i { a } else { a + 1 };
        let b0 = if b < i { b } else { b + 1 };
        assert(r[a] == s[a0] && r[b] == s[b0]);
    }
    if has_id(r, s[i].0) {
        let k = choose|k: int| 0 <= k < r.len() && r[k].0 == s[i].0;
        let k0 = if k < i { k } else { k + 1 };
        assert(r[k] == s[k0]);
    }
    assert forall|id: u64| has_id(r, id) implies has_id(s, id) by {
        let k = choose|k: int| 0 <= k < r.len() && r[k].0 == id;
        let k0 = if k < i { k } else { k + 1 };
        assert(r[k] == s[k0]);
    }
}

proof fn lemma_index_of_id(s: SessionEntries, i: int)
    requires
        distinct_ids(s),
        0 <= i < s.len(),
    ensures
        has_id(s, s[i].0),
        index_of_id(s, s[i].0) == i,
{
    let id = s[i].0;
    assert(has_id(s, id));
    let j = index_of_id(s, id);
    if j != i {
        if j < i {
            assert(s[j].0 != s[i].0);
        } else {
            assert(s[i].0 != s[j].0);
        }
    }
}

proof fn lemma_push_keeps_distinct(s: SessionEntries, e: (u64, RetainedSession))
    requires
        distinct_ids(s),
        !has_id(s, e.0),
    ensures
        distinct_ids(s.push(e)),
{
    let t = s.push(e);
    assert forall|a: int, b: int| 0 <= a < b < t.len() implies t[a].0 != t[b].0 by {
        if b == s.len() {
            assert(t[a] == s[a]);
            if s[a].0 == e.0 {
                assert(has_id(s, e.0));
            }
        }
    }
}

impl SessionStore {
    /// The entries, oldest first.
    pub closed spec fn entries_spec(&self) -> SessionEntries {
        self.entries@
    }

    /// How long a retained session stays usable, in milliseconds.
    pub closed spec fn expiry_spec(&self) -> u64 {
        self.expiry_ms
    }

    /// The capacity the store was made with.
    pub closed spec fn max_spec(&self) -> usize {
        self.max_sessions
    }

    /// The store's invariant: no session id occurs twice.
    pub closed spec fn wf(&self) -> bool {
        distinct_ids(self.entries@)
    }

    /// An empty store.
    pub fn new(expiry_ms: u64, max_sessions: usize) -> (s: SessionStore)
        ensures
            s.wf(),
            s.entries_spec().len() == 0,
            s.expiry_spec() == expiry_ms,
            s.max_spec() == max_sessions,
    {
        SessionStore { entries: Vec::new(), expiry_ms, max_sessions }
    }

    fn find(&self, id: u64) -> (r: Option<usize>)
        requires
            self.wf(),
        ensures
            r is None <==> !has_id(self.entries@, id),
            r matches Some(i) ==> i < self.entries@.len() && self.entries@[i as int].0 == id
                && index_of_id(self.entries@, id) == i,
    {
        let mut i: usize = 0;
        while i < self.entries.len()
            invariant
                i <= self.entries@.len(),
                distinct_ids(self.entries@),
                forall|k: int| 0 <= k < i ==> self.entries@[k].0 != id,
            decreases self.entries@.len() - i,
        {
            if self.entries[i].0 == id {
                proof { lemma_index_of_id(self.entries@, i as int); }
                return Some(i);
            }
            i = i + 1;
        }
        None
    }

    /// Insert a retained session. An older entry with the same id is replaced;
    /// when the store is full the oldest entry is evicted and its id returned.
    pub fn insert(&mut self, session_id: u64, session: RetainedSession) -> (evicted: Option<u64>)
        requires
            old(self).wf(),
        ensures
            final(self).wf(),
            (final(self).entries_spec(), evicted) == insert_result(
                old(self).entries_spec(),
                old(self).max_spec(),
                session_id,
                session,
            ),
            final(self).expiry_spec() == old(self).expiry_spec(),
            final(self).max_spec() == old(self).max_spec(),
    {
        let ghost s0 = self.entries@;
        if let Some(i) = self.find(session_id) {
            proof { lemma_remove_keeps_distinct(self.entries@, i as int); }
            let _old = self.entries.remove(i);
        }
        let ghost s1 = self.entries@;
        assert(s1 == without_id(s0, session_id));
        assert(!has_id(s1, session_id)) by {
            if has_id(s0, session_id) {
                let i = index_of_id(s0, session_id);
                lemma_remove_keeps_distinct(s0, i);
            }
        }
        let mut evicted: Option<u64> = None;
        if self.entries.len() >= self.max_sessions && self.entries.len() > 0 {
            proof { lemma_remove_keeps_distinct(s1, 0); }
            let (oldest, _dropped) = self.entries.remove(0);
            evicted = Some(oldest);
            assert(self.entries@ =~= s1.drop_first());
        }
        let ghost s2 = self.entries@;
        assert(!has_id(s2, session_id)) by {
            if s2 != s1 {
                assert forall|k: int| 0 <= k < s2.len() implies s2[k].0 != session_id by {
                    assert(s2[k] == s1[k + 1]);
                    if s1[k + 1].0 == session_id {
                        assert(has_id(s1, session_id));
                    }
                }
            }
        }
        proof { lemma_push_keeps_distinct(s2, (session_id, session)); }
        self.entries.push((session_id, session));
        evicted
    }

    /// Look up and remove a retained session for fast reconnect, now on the wall clock
    /// (milliseconds), as `take_at` does at that time.
    pub fn take(&mut self, session_id: u64) -> (r: Option<RetainedSession>)
        requires
            old(self).wf(),
        ensures
            final(self).wf(),
            final(self).entries_spec() == without_id(old(self).entries_spec(), session_id),
            final(self).expiry_spec() == old(self).expiry_spec(),
            final(self).max_spec() == old(self).max_spec(),
            ({
                let s = old(self).entries_spec();
                let e = s[index_of_id(s, session_id)].1;
                match r {
                    Some(x) => has_id(s, session_id) && x == e,
                    None => true,
                }
            }),
            !has_id(old(self).entries_spec(), session_id) ==> r is None,
            exists|t: u64|
                r == #[trigger] take_result(old(self).entries_spec(), session_id, old(self).expiry_spec(), t),
    {
        let t = crate::clock::now_ms();
        let ghost s0 = self.entries_spec();
        let ghost e0 = self.expiry_spec();
        let r = self.take_at(session_id, t);
        assert(r == take_result(s0, session_id, e0, t));
        r
    }

    /// Look up and remove a retained session for fast reconnect at time `now_ms`.
    /// Returns `None` if `session_id` is not found or the session has expired; an
    /// expired entry is removed all the same.
    pub fn take_at(&mut self, session_id: u64, now_ms: u64) -> (r: Option<RetainedSession>)
        requires
            old(self).wf(),
        ensures
            final(self).wf(),
            final(self).entries_spec() == without_id(old(self).entries_spec(), session_id),
            final(self).expiry_spec() == old(self).expiry_spec(),
            final(self).max_spec() == old(self).max_spec(),
            ({
                let s = old(self).entries_spec();
                let e = s[index_of_id(s, session_id)].1;
                match r {
                    Some(x) => has_id(s, session_id) && x == e && !is_expired(
                        e.created_at_ms,
                        old(self).expiry_spec(),
                        now_ms,
                    ),
                    None => !has_id(s, session_id) || is_expired(
                        e.created_at_ms,
                        old(self).expiry_spec(),
                        now_ms,
                    ),
                }
            }),
    {
        match self.find(session_id) {
            None => None,
            Some(i) => {
                proof { lemma_remove_keeps_distinct(self.entries@, i as int); }
                let (_id, session) = self.entries.remove(i);
                let elapsed = now_ms.saturating_sub(session.created_at_ms);
                if elapsed > self.expiry_ms {
                    None
                } else {
                    Some(session)
                }
            },
        }
    }

    /// Remove all sessions expired now on the wall clock (milliseconds), as
    /// `purge_expired_at` does at that time. Returns the number of sessions purged.
    pub fn purge_expired(&mut self) -> (removed: usize)
        requires
            old(self).wf(),
        ensures
            final(self).wf(),
            exists|t: u64|
                final(self).entries_spec() == fresh_entries(
                    old(self).entries_spec(),
                    old(self).expiry_spec(),
                    t,
                ),
            removed == old(self).entries_spec().len() - final(self).entries_spec().len(),
            final(self).expiry_spec() == old(self).expiry_spec(),
            final(self).max_spec() == old(self).max_spec(),
    {
        let t = crate::clock::now_ms();
        self.purge_expired_at(t)
    }

    /// Remove all sessions expired at `now_ms`. Returns the number of sessions purged.
    pub fn purge_expired_at(&mut self, now_ms: u64) -> (removed: usize)
        requires
            old(self).wf(),
        ensures
            final(self).wf(),
            final(self).entries_spec() == fresh_entries(
                old(self).entries_spec(),
                old(self).expiry_spec(),
                now_ms,
            ),
            removed == old(self).entries_spec().len() - final(self).entries_spec().len(),
            final(self).expiry_spec() == old(self).expiry_spec(),
            final(self).max_spec() == old(self).max_spec(),
    {
        let ghost all = self.entries@;
        let before = self.entries.len();
        let mut rest: Vec<(u64, RetainedSession)> = Vec::new();
        std::mem::swap(&mut rest, &mut self.entries);
        let mut kept: Vec<(u64, RetainedSession)> = Vec::new();
        let mut i: usize = 0;
        while rest.len() > 0
            invariant
                distinct_ids(all),
                all.len() == before,
                i + rest@.len() == all.len(),
                rest@ == all.skip(i as int),
                kept@ == fresh_entries(all.take(i as int), self.expiry_ms, now_ms),
                kept@.len() <= i,
                distinct_ids(kept@),
                forall|k: int| 0 <= k < kept@.len() ==> exists|j: int| 0 <= j < i && #[trigger] kept@[k] == all[j],
            decreases rest@.len(),
        {
            let ghost ks = kept@;
            let e = rest.remove(0);
            assert(e == all[i as int]);
            assert(all.take(i as int + 1).drop_last() =~= all.take(i as int));
            let elapsed = now_ms.saturating_sub(e.1.created_at_ms);
            if elapsed <= self.expiry_ms {
                assert(!has_id(ks, e.0)) by {
                    if has_id(ks, e.0) {
                        let k = choose|k: int| 0 <= k < ks.len() && ks[k].0 == e.0;
                        let j = choose|j: int| 0 <= j < i && ks[k] == all[j];
                        assert(all[j].0 != all[i as int].0);
                    }
                }
                proof { lemma_push_keeps_distinct(ks, e); }
                kept.push(e);
                assert forall|k: int| 0 <= k < kept@.len() implies exists|j: int| 0 <= j < i + 1 && #[trigger] kept@[k] == all[j] by {
                    if k == ks.len() {
                        assert(kept@[k] == all[i as int]);
                    } else {
                        assert(kept@[k] == ks[k]);
                        let j = choose|j: int| 0 <= j < i && ks[k] == all[j];
                    }
                }
            } else {
                assert forall|k: int| 0 <= k < kept@.len() implies exists|j: int| 0 <= j < i + 1 && #[trigger] kept@[k] == all[j] by {
                    let j = choose|j: int| 0 <= j < i && ks[k] == all[j];
                }
            }
            assert(rest@ =~= all.skip(i as int + 1));
            i = i + 1;
        }
        assert(all.take(i as int) =~= all);
        self.entries = kept;
        before - self.entries.len()
    }

    /// Current number of retained sessions.
    pub fn len(&self) -> (n: usize)
        ensures
            n == self.entries_spec().len(),
    {
        self.entries.len()
    }

    /// Whether no session is retained.
    pub fn is_empty(&self) -> (b: bool)
        ensures
            b == (self.entries_spec().len() == 0),
    {
        self.entries.len() == 0
    }
}

/// What one inserts, one takes back: right after inserting `(id, sess)` the store
/// holds exactly one entry for `id`, the new session (an older one is replaced), and
/// taking it leaves no entry for `id`, so a second take finds nothing.
pub proof fn law_take_after_insert(s: SessionEntries, max: usize, id: u64, sess: RetainedSession)
    requires
        distinct_ids(s),
    ensures
        ({
            let s2 = insert_result(s, max, id, sess).0;
            &&& distinct_ids(s2)
            &&& has_id(s2, id)
            &&& s2[index_of_id(s2, id)].1 == sess
            &&& !has_id(without_id(s2, id), id)
        }),
{
    let s1 = without_id(s, id);
    if has_id(s, id) {
        lemma_remove_keeps_distinct(s, index_of_id(s, id));
    }
    assert(distinct_ids(s1) && !has_id(s1, id));
    let base = if s1.len() >= max && s1.len() > 0 { s1.drop_first() } else { s1 };
    if s1.len() >= max && s1.len() > 0 {
        lemma_remove_keeps_distinct(s1, 0);
        assert(s1.remove(0) =~= s1.drop_first());
    }
    assert(distinct_ids(base) && !has_id(base, id));
    let s2 = base.push((id, sess));
    lemma_push_keeps_distinct(base, (id, sess));
    lemma_index_of_id(s2, base.len() as int);
    lemma_remove_keeps_distinct(s2, base.len() as int);
}

/// The store never grows past its capacity: with room for `max > 0` sessions and
/// at most `max` held, an insert leaves at most `max`.
pub proof fn law_insert_respects_capacity(s: SessionEntries, max: usize, id: u64, sess: RetainedSession)
    requires
        distinct_ids(s),
        max > 0,
        s.len() <= max,
    ensures
        insert_result(s, max, id, sess).0.len() <= max,
        insert_result(s, max, id, sess).1 is Some ==> insert_result(s, max, id, sess).0.len() == max,
{
    if has_id(s, id) {
        lemma_remove_keeps_distinct(s, index_of_id(s, id));
    }
}

/// Purging keeps exactly the sessions that have not expired: every kept session is
/// unexpired, and every unexpired session is kept.
pub proof fn law_purge_keeps_unexpired(s: SessionEntries, expiry: u64, now: u64)
    ensures
        forall|k: int| 0 <= k < fresh_entries(s, expiry, now).len() ==> !is_expired(
            #[trigger] fresh_entries(s, expiry, now)[k].1.created_at_ms,
            expiry,
            now,
        ),
        forall|i: int| 0 <= i < s.len() && !is_expired(s[i].1.created_at_ms, expiry, now) ==> fresh_entries(
            s,
            expiry,
            now,
        ).contains(#[trigger] s[i]),
    decreases s.len(),
{
    if s.len() > 0 {
        let t = s.drop_last();
        law_purge_keeps_unexpired(t, expiry, now);
        let f = fresh_entries(s, expiry, now);
        let ft = fresh_entries(t, expiry, now);
        assert forall|k: int| 0 <= k < f.len() implies !is_expired(#[trigger] f[k].1.created_at_ms, expiry, now) by {
            if k < ft.len() {
                assert(f[k] == ft[k]);
            }
        }
        assert forall|i: int| 0 <= i < s.len() && !is_expired(s[i].1.created_at_ms, expiry, now) implies f.contains(
            #[trigger] s[i],
        ) by {
            if i < t.len() {
                assert(t[i] == s[i]);
                assert(ft.contains(t[i]));
                let k = choose|k: int| 0 <= k < ft.len() && ft[k] == t[i];
                assert(f[k] == ft[k]);
            } else {
                assert(f[f.len() - 1] == s[i]);
            }
        }
    }
}

/// Classification of how a client connected.
#[derive(Debug)]
pub enum ReconnectTier {
    /// The client reconnected within the retention window with the matching token;
    /// the retained session provides `baseline_tick` and `visible_entities`.
    Fast { retained: RetainedSession },
    /// Cold connect (first time, session expired, or token mismatch).
    Cold,
}

/// Classify the reconnection tier by taking the retained session for `session_id`
/// (if any) out of the store and checking the client's token against it.
pub fn classify_reconnect(
    store: &mut SessionStore,
    session_id: u64,
    client_token: Option<u64>,
    now_ms: u64,
) -> (tier: ReconnectTier)
    requires
        old(store).wf(),
    ensures
        final(store).wf(),
        final(store).entries_spec() == without_id(old(store).entries_spec(), session_id),
        final(store).expiry_spec() == old(store).expiry_spec(),
        final(store).max_spec() == old(store).max_spec(),
        ({
            let s = old(store).entries_spec();
            let e = s[index_of_id(s, session_id)].1;
            let fast = has_id(s, session_id) && !is_expired(
                e.created_at_ms,
                old(store).expiry_spec(),
                now_ms,
            ) && client_token == Some(e.session_token);
            &&& (tier is Fast <==> fast)
            &&& tier matches ReconnectTier::Fast { retained } ==> retained == e
        }),
{
    match store.take_at(session_id, now_ms) {
        Some(retained) => {
            let matches_token = match client_token {
                Some(t) => t == retained.session_token,
                None => false,
            };
            if matches_token {
                ReconnectTier::Fast { retained }
            } else {
                ReconnectTier::Cold
            }
        },
        None => ReconnectTier::Cold,
    }
}

} // verus!
