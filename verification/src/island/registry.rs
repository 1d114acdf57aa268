//! The live islands, by id.
use vstd::prelude::*;
use crate::island::handle::IslandHandle;
use crate::island::state_machine::IslandState;
use crate::types::IslandId;

verus! {

pub open spec fn hid(h: IslandHandle) -> Seq<char> {
    h.island_id@
}

/// No two handles share an island id.
pub open spec fn distinct_ids(s: Seq<IslandHandle>) -> bool {
    forall|i: int, j: int| 0 <= i < s.len() && 0 <= j < s.len() && i != j ==> hid(#[trigger] s[i]) != hid(#[trigger] s[j])
}

pub open spec fn has_id(s: Seq<IslandHandle>, id: Seq<char>) -> bool {
    exists|i: int| 0 <= i < s.len() && hid(#[trigger] s[i]) == id
}

/// The handle of each island, by id.
pub open spec fn handle_map(s: Seq<IslandHandle>) -> Map<Seq<char>, IslandHandle> {
    Map::new(|id: Seq<char>| has_id(s, id), |id: Seq<char>| s[choose|i: int| 0 <= i < s.len() && hid(#[trigger] s[i]) == id])
}

/// Islands counted as active: running or still initializing.
pub open spec fn is_active(h: IslandHandle) -> bool {
    h.state == IslandState::Running || h.state == IslandState::Initializing
}

pub open spec fn count_active(s: Seq<IslandHandle>) -> nat
    decreases s.len(),
{
    if s.len() == 0 {
        0
    } else {
        count_active(s.drop_last()) + if is_active(s.last()) { 1nat } else { 0nat }
    }
}

pub open spec fn sum_entities(s: Seq<IslandHandle>) -> nat
    decreases s.len(),
{
    if s.len() == 0 {
        0
    } else {
        sum_entities(s.drop_last()) + s.last().entity_count as nat
    }
}

pub open spec fn cap_u32(n: nat) -> u32 {
    if n > u32::MAX { u32::MAX } else { n as u32 }
}

pub open spec fn cap_u64(n: nat) -> u64 {
    if n > u64::MAX { u64::MAX } else { n as u64 }
}

proof fn lemma_handle_map_at(s: Seq<IslandHandle>, i: int)
    requires
        distinct_ids(s),
        0 <= i < s.len(),
    ensures
        handle_map(s).contains_key(hid(s[i])),
        handle_map(s)[hid(s[i])] == s[i],
{
    assert(has_id(s, hid(s[i])));
    let j = choose|j: int| 0 <= j < s.len() && hid(#[trigger] s[j]) == hid(s[i]);
    if j != i {
        assert(hid(s[j]) != hid(s[i]));
    }
}

/// The islands a manager runs.
pub struct IslandRegistry {
    islands: Vec<IslandHandle>,
}

impl IslandRegistry {
    /// The handles, in insertion order.
    pub closed spec fn handles(&self) -> Seq<IslandHandle> {
        self.islands@
    }

    /// The handle of each island, by id.
    pub closed spec fn view_map(&self) -> Map<Seq<char>, IslandHandle> {
        handle_map(self.islands@)
    }

    pub closed spec fn wf(&self) -> bool {
        distinct_ids(self.islands@)
    }

    /// Each island is filed under its own id.
    pub proof fn lemma_filed_by_id(&self)
        ensures
            forall|k: Seq<char>| #[trigger] self.view_map().contains_key(k) ==> self.view_map()[k].island_id@ == k,
    {
        assert forall|k: Seq<char>| #[trigger] self.view_map().contains_key(k) implies self.view_map()[k].island_id@ == k by {
            let s = self.islands@;
            let i = choose|i: int| 0 <= i < s.len() && hid(#[trigger] s[i]) == k;
            assert(hid(s[i]) == k);
        }
    }

    pub fn new() -> (r: IslandRegistry)
        ensures
            r.wf(),
            r.view_map() == Map::<Seq<char>, IslandHandle>::empty(),
            r.handles() == Seq::<IslandHandle>::empty(),
    {
        let r = IslandRegistry { islands: Vec::new() };
        assert(r.view_map() =~= Map::<Seq<char>, IslandHandle>::empty());
        r
    }

    fn find(&self, id: &IslandId) -> (r: Option<usize>)
        requires
            self.wf(),
        ensures
            r matches Some(i) ==> i < self.islands@.len() && hid(self.islands@[i as int]) == id@
                && self.view_map().contains_key(id@) && self.view_map()[id@] == self.islands@[i as int],
            r is None <==> !self.view_map().contains_key(id@),
    {
        let mut i: usize = 0;
        while i < self.islands.len()
            invariant
                i <= self.islands@.len(),
                distinct_ids(self.islands@),
                forall|j: int| 0 <= j < i ==> hid(#[trigger] self.islands@[j]) != id@,
            decreases self.islands.len() - i,
        {
            if self.islands[i].island_id.same(id) {
                proof {
                    lemma_handle_map_at(self.islands@, i as int);
                }
                return Some(i);
            }
            i = i + 1;
        }
        None
    }

    /// Adds a handle, replacing the handle of the same island.
    pub fn insert(&mut self, handle: IslandHandle)
        requires
            old(self).wf(),
        ensures
            final(self).wf(),
            final(self).view_map() == old(self).view_map().insert(handle.island_id@, handle),
    {
        let ghost s = self.islands@;
        let ghost h = handle;
        match self.find(&handle.island_id) {
            Some(i) => {
                self.islands.set(i, handle);
                proof {
                    let t = self.islands@;
                    assert(t == s.update(i as int, h));
                    assert forall|a: int, b: int| 0 <= a < t.len() && 0 <= b < t.len() && a != b implies hid(#[trigger] t[a])
                        != hid(#[trigger] t[b]) by {
                        assert(hid(t[a]) == hid(s[a]) && hid(t[b]) == hid(s[b]));
                    }
                    assert forall|id: Seq<char>| #[trigger] handle_map(t).contains_key(id) == handle_map(s).insert(hid(h), h).contains_key(id) by {
                        if has_id(t, id) {
                            let a = choose|a: int| 0 <= a < t.len() && hid(#[trigger] t[a]) == id;
                            assert(hid(s[a]) == id);
                        }
                        if has_id(s, id) {
                            let a = choose|a: int| 0 <= a < s.len() && hid(#[trigger] s[a]) == id;
                            assert(hid(t[a]) == id);
                        }
                        if id == hid(h) {
                            assert(hid(t[i as int]) == id);
                        }
                    }
                    assert forall|id: Seq<char>| #[trigger] handle_map(t).contains_key(id) implies handle_map(t)[id] == handle_map(s).insert(hid(h), h)[id] by {
                        let a = choose|a: int| 0 <= a < t.len() && hid(#[trigger] t[a]) == id;
                        lemma_handle_map_at(t, a);
                        if a != i {
                            assert(t[a] == s[a]);
                            lemma_handle_map_at(s, a);
                        }
                    }
                    assert(handle_map(t) =~= handle_map(s).insert(hid(h), h));
                }
            },
            None => {
                self.islands.push(handle);
                proof {
                    let t = self.islands@;
                    assert(t == s.push(h));
                    assert forall|a: int, b: int| 0 <= a < t.len() && 0 <= b < t.len() && a != b implies hid(#[trigger] t[a])
                        != hid(#[trigger] t[b]) by {
                        if a < s.len() && b < s.len() {
                            assert(t[a] == s[a] && t[b] == s[b]);
                        } else if a < s.len() {
                            assert(t[a] == s[a]);
                            assert(has_id(s, hid(t[a])));
                        } else {
                            assert(t[b] == s[b]);
                            assert(has_id(s, hid(t[b])));
                        }
                    }
                    assert forall|id: Seq<char>| #[trigger] handle_map(t).contains_key(id) == handle_map(s).insert(hid(h), h).contains_key(id) by {
                        if has_id(t, id) {
                            let a = choose|a: int| 0 <= a < t.len() && hid(#[trigger] t[a]) == id;
                            if a < s.len() {
                                assert(hid(s[a]) == id);
                            }
                        }
                        if has_id(s, id) {
                            let a = choose|a: int| 0 <= a < s.len() && hid(#[trigger] s[a]) == id;
                            assert(hid(t[a]) == id);
                        }
                        if id == hid(h) {
                            assert(hid(t[s.len() as int]) == id);
                        }
                    }
                    assert forall|id: Seq<char>| #[trigger] handle_map(t).contains_key(id) implies handle_map(t)[id] == handle_map(s).insert(hid(h), h)[id] by {
                        let a = choose|a: int| 0 <= a < t.len() && hid(#[trigger] t[a]) == id;
                        lemma_handle_map_at(t, a);
                        if a < s.len() {
                            assert(t[a] == s[a]);
                            lemma_handle_map_at(s, a);
                        }
                    }
                    assert(handle_map(t) =~= handle_map(s).insert(hid(h), h));
                }
            },
        }
    }

    /// Removes and returns the island's handle.
    pub fn remove(&mut self, id: &IslandId) -> (r: Option<IslandHandle>)
        requires
            old(self).wf(),
        ensures
            final(self).wf(),
            final(self).view_map() == old(self).view_map().remove(id@),
            old(self).view_map().contains_key(id@) ==> r == Some(old(self).view_map()[id@]),
            !old(self).view_map().contains_key(id@) ==> r is None,
    {
        let ghost s = self.islands@;
        match self.find(id) {
            Some(i) => {
                let h = self.islands.remove(i);
                proof {
                    let t = self.islands@;
                    assert(t == s.remove(i as int));
                    assert forall|a: int, b: int| 0 <= a < t.len() && 0 <= b < t.len() && a != b implies hid(#[trigger] t[a])
                        != hid(#[trigger] t[b]) by {
                        let a2 = if a < i { a } else { a + 1 };
                        let b2 = if b < i { b } else { b + 1 };
                        assert(t[a] == s[a2] && t[b] == s[b2]);
                    }
                    assert forall|k: Seq<char>| #[trigger] handle_map(t).contains_key(k) == handle_map(s).remove(id@).contains_key(k) by {
                        if has_id(t, k) {
                            let a = choose|a: int| 0 <= a < t.len() && hid(#[trigger] t[a]) == k;
                            let a2 = if a < i { a } else { a + 1 };
                            assert(t[a] == s[a2]);
                            assert(hid(s[a2]) == k);
                            assert(a2 != i);
                            assert(hid(s[a2]) != hid(s[i as int]));
                        }
                        if has_id(s, k) && k != id@ {
                            let a = choose|a: int| 0 <= a < s.len() && hid(#[trigger] s[a]) == k;
                            assert(a != i);
                            if a < i {
                                assert(t[a] == s[a]);
                            } else {
                                assert(t[a - 1] == s[a]);
                            }
                        }
                    }
                    assert forall|k: Seq<char>| #[trigger] handle_map(t).contains_key(k) implies handle_map(t)[k] == handle_map(s).remove(id@)[k] by {
                        let a = choose|a: int| 0 <= a < t.len() && hid(#[trigger] t[a]) == k;
                        lemma_handle_map_at(t, a);
                        let a2 = if a < i { a } else { a + 1 };
                        assert(t[a] == s[a2]);
                        lemma_handle_map_at(s, a2);
                    }
                    assert(handle_map(t) =~= handle_map(s).remove(id@));
                }
                Some(h)
            },
            None => {
                assert(handle_map(s).remove(id@) =~= handle_map(s));
                None
            },
        }
    }

    pub fn get(&self, id: &IslandId) -> (r: Option<&IslandHandle>)
        requires
            self.wf(),
        ensures
            self.view_map().contains_key(id@) ==> r == Some(&self.view_map()[id@]),
            !self.view_map().contains_key(id@) ==> r is None,
    {
        match self.find(id) {
            Some(i) => Some(&self.islands[i]),
            None => None,
        }
    }

    pub fn contains(&self, id: &IslandId) -> (b: bool)
        requires
            self.wf(),
        ensures
            b == self.view_map().contains_key(id@),
    {
        self.find(id).is_some()
    }

    /// The entities of all islands (capped at `u64::MAX`).
    pub fn total_entities(&self) -> (n: u64)
        ensures
            n == cap_u64(sum_entities(self.handles())),
    {
        let mut total: u64 = 0;
        let mut i: usize = 0;
        while i < self.islands.len()
            invariant
                i <= self.islands@.len(),
                total == cap_u64(sum_entities(self.islands@.take(i as int))),
            decreases self.islands.len() - i,
        {
            proof {
                assert(self.islands@.take(i + 1).drop_last() =~= self.islands@.take(i as int));
            }
            total = total.saturating_add(self.islands[i].entity_count as u64);
            i = i + 1;
        }
        assert(self.islands@.take(i as int) =~= self.islands@);
        total
    }

    /// Islands running or initializing (capped at `u32::MAX`).
    pub fn active_count(&self) -> (n: u32)
        ensures
            n == cap_u32(count_active(self.handles())),
    {
        let mut count: u32 = 0;
        let mut i: usize = 0;
        while i < self.islands.len()
            invariant
                i <= self.islands@.len(),
                count == cap_u32(count_active(self.islands@.take(i as int))),
            decreases self.islands.len() - i,
        {
            proof {
                assert(self.islands@.take(i + 1).drop_last() =~= self.islands@.take(i as int));
            }
            let active = match self.islands[i].state {
                IslandState::Running => true,
                IslandState::Initializing => true,
                _ => false,
            };
            if active {
                count = count.saturating_add(1);
            }
            i = i + 1;
        }
        assert(self.islands@.take(i as int) =~= self.islands@);
        count
    }

    /// The number of islands (capped at `u32::MAX`).
    pub fn len(&self) -> (n: u32)
        requires
            self.wf(),
        ensures
            n == cap_u32(self.view_map().len()),
    {
        proof {
            self.lemma_len();
        }
        if self.islands.len() > u32::MAX as usize {
            u32::MAX
        } else {
            self.islands.len() as u32
        }
    }

    pub fn is_empty(&self) -> (b: bool)
        requires
            self.wf(),
        ensures
            b == (self.view_map().len() == 0),
    {
        proof {
            self.lemma_len();
        }
        self.islands.len() == 0
    }

    proof fn lemma_len(&self)
        requires
            self.wf(),
        ensures
            self.view_map().dom().finite(),
            self.view_map().len() == self.islands@.len(),
    {
        let s = self.islands@;
        let ids = s.map_values(|h: IslandHandle| hid(h));
        assert forall|i: int, j: int| 0 <= i < ids.len() && 0 <= j < ids.len() && i != j implies ids[i] != ids[j] by {
            assert(hid(s[i]) != hid(s[j]));
        }
        assert(ids.no_duplicates());
        ids.unique_seq_to_set();
        assert forall|k: Seq<char>| #[trigger] ids.to_set().contains(k) == has_id(s, k) by {
            if ids.to_set().contains(k) {
                assert(ids.contains(k));
                let i = choose|i: int| 0 <= i < ids.len() && ids[i] == k;
                assert(hid(s[i]) == k);
            }
            if has_id(s, k) {
                let i = choose|i: int| 0 <= i < s.len() && hid(#[trigger] s[i]) == k;
                assert(ids[i] == k);
            }
        }
        assert(handle_map(s).dom() =~= ids.to_set());
    }
}


/// A running island whose passivation deadline has passed at `now_ms`.
pub open spec fn due_at(now_ms: u64) -> spec_fn(IslandHandle) -> bool {
    |h: IslandHandle| h.state == IslandState::Running && (h.passivation_deadline_ms matches Some(d) && now_ms >= d)
}

pub open spec fn ids_of(s: Seq<IslandHandle>) -> Seq<Seq<char>> {
    s.map_values(|h: IslandHandle| h.island_id@)
}

impl IslandRegistry {
    /// The running islands whose passivation deadline has passed, in registry order.
    pub fn due_for_passivation(&self, now_ms: u64) -> (ids: Vec<IslandId>)
        ensures
            ids@.map_values(|i: IslandId| i@) == ids_of(self.handles().filter(due_at(now_ms))),
    {
        let mut ids: Vec<IslandId> = Vec::new();
        let mut i: usize = 0;
        let ghost s = self.islands@;
        proof {
            assert(s.take(0).filter(due_at(now_ms)) =~= Seq::<IslandHandle>::empty()) by {
                reveal(Seq::filter);
            }
            assert(ids@.map_values(|i: IslandId| i@) =~= Seq::<Seq<char>>::empty());
        }
        while i < self.islands.len()
            invariant
                i <= s.len(),
                s == self.islands@,
                ids@.map_values(|i: IslandId| i@) == ids_of(s.take(i as int).filter(due_at(now_ms))),
            decreases self.islands.len() - i,
        {
            let h = &self.islands[i];
            proof {
                reveal(Seq::filter);
                assert(s.take(i + 1).drop_last() =~= s.take(i as int));
                assert(s.take(i + 1).last() == s[i as int]);
            }
            let due = match h.passivation_deadline_ms {
                Some(d) => h.state == IslandState::Running && now_ms >= d,
                None => false,
            };
            if due {
                let id = IslandId::new(h.island_id.as_str());
                proof {
                    let f = s.take(i as int).filter(due_at(now_ms));
                    assert(ids_of(f.push(s[i as int])) =~= ids_of(f).push(id@));
                    assert(ids@.push(id).map_values(|i: IslandId| i@) =~= ids@.map_values(|i: IslandId| i@).push(id@));
                }
                ids.push(id);
            }
            i = i + 1;
        }
        proof {
            assert(s.take(i as int) =~= s);
        }
        ids
    }
}

} // verus!
