//! The set of entities a client sees, with hysteresis between a subscribe and a
//! wider unsubscribe radius, and leave notices repeated for a few updates.
//!
//! Which radius an entity falls within is measured by the caller; an update takes,
//! for each candidate entity, whether it lies within the subscribe radius and
//! whether it lies within the unsubscribe radius.
use vstd::prelude::*;
use crate::types::EntitySlot;

verus! {

/// What changed in one update.
pub struct VisibleSetDiff {
    pub entered: Vec<EntitySlot>,
    pub left: Vec<EntitySlot>,
}

/// A candidate entity: `(slot, within subscribe radius, within unsubscribe radius)`.
pub type Candidate = (EntitySlot, bool, bool);

/// Whether `e` is visible after an update over `cands` from the visible set `cur`:
/// an entity already visible stays while within the unsubscribe radius, a new one
/// enters within the subscribe radius.
pub open spec fn chosen(cur: Seq<EntitySlot>, cands: Seq<Candidate>, e: EntitySlot) -> bool {
    exists|k: int|
        0 <= k < cands.len() && #[trigger] cands[k].0 == e && (if cur.contains(e) {
            cands[k].2
        } else {
            cands[k].1
        })
}

/// Whether `e` owes a leave notice in this update: it already did, or it was
/// visible and is not chosen any more.
pub open spec fn leaving(
    cur: Seq<EntitySlot>,
    pending: Seq<(EntitySlot, u8)>,
    cands: Seq<Candidate>,
    e: EntitySlot,
) -> bool {
    pending_has(pending, e) || (cur.contains(e) && !chosen(cur, cands, e))
}

pub open spec fn pending_has(pending: Seq<(EntitySlot, u8)>, e: EntitySlot) -> bool {
    exists|k: int| 0 <= k < pending.len() && #[trigger] pending[k].0 == e
}

/// Notices left for `e` before this update: its pending count, or the full count for
/// one that just started leaving.
pub open spec fn notices_before(pending: Seq<(EntitySlot, u8)>, e: EntitySlot, repeat: u8) -> u8 {
    if pending_has(pending, e) {
        pending[choose|k: int| 0 <= k < pending.len() && pending[k].0 == e].1
    } else {
        repeat
    }
}

pub open spec fn pending_distinct(pending: Seq<(EntitySlot, u8)>) -> bool {
    &&& forall|i: int, j: int| 0 <= i < j < pending.len() ==> pending[i].0 != pending[j].0
    &&& forall|i: int| 0 <= i < pending.len() ==> pending[i].1 > 0
}

/// Hysteresis: an entity already visible stays visible while some candidate places it
/// within the unsubscribe radius, and one not visible enters only within the subscribe
/// radius.
pub proof fn law_hysteresis(cur: Seq<EntitySlot>, cands: Seq<Candidate>, e: EntitySlot)
    ensures
        cur.contains(e) ==> (chosen(cur, cands, e) <==> exists|k: int| 0 <= k < cands.len() && #[trigger] cands[k]
            == (e, cands[k].1, true)),
        !cur.contains(e) ==> (chosen(cur, cands, e) <==> exists|k: int| 0 <= k < cands.len() && #[trigger] cands[k]
            == (e, true, cands[k].2)),
{
    if chosen(cur, cands, e) {
        let k = choose|k: int| 0 <= k < cands.len() && #[trigger] cands[k].0 == e && (if cur.contains(e) {
            cands[k].2
        } else {
            cands[k].1
        });
        assert(cands[k] == (e, cands[k].1, cands[k].2));
    }
    if cur.contains(e) && exists|k: int| 0 <= k < cands.len() && #[trigger] cands[k] == (e, cands[k].1, true) {
        let k = choose|k: int| 0 <= k < cands.len() && #[trigger] cands[k] == (e, cands[k].1, true);
        assert(cands[k].0 == e);
    }
    if !cur.contains(e) && exists|k: int| 0 <= k < cands.len() && #[trigger] cands[k] == (e, true, cands[k].2) {
        let k = choose|k: int| 0 <= k < cands.len() && #[trigger] cands[k] == (e, true, cands[k].2);
        assert(cands[k].0 == e);
    }
}

/// Tracks which entities a client sees.
pub struct VisibleSet {
    current: Vec<EntitySlot>,
    pending_leaves: Vec<(EntitySlot, u8)>,
    leave_repeat_count: u8,
}

fn slot_in(v: &Vec<EntitySlot>, e: EntitySlot) -> (b: bool)
    ensures
        b == v@.contains(e),
{
    let mut i: usize = 0;
    while i < v.len()
        invariant
            i <= v@.len(),
            forall|k: int| 0 <= k < i ==> v@[k] != e,
        decreases v@.len() - i,
    {
        if v[i] == e {
            assert(v@[i as int] == e);
            return true;
        }
        i = i + 1;
    }
    false
}

impl VisibleSet {
    pub closed spec fn current_spec(&self) -> Seq<EntitySlot> {
        self.current@
    }

    pub closed spec fn pending_spec(&self) -> Seq<(EntitySlot, u8)> {
        self.pending_leaves@
    }

    pub closed spec fn repeat_spec(&self) -> u8 {
        self.leave_repeat_count
    }

    /// No entity is visible or pending twice, every pending count is positive, and
    /// the repeat count is at least 1.
    pub closed spec fn wf(&self) -> bool {
        &&& self.current@.no_duplicates()
        &&& pending_distinct(self.pending_leaves@)
        &&& self.leave_repeat_count > 0
    }

    /// An empty set whose leave notices repeat `leave_repeat_count` times.
    pub fn new(leave_repeat_count: u8) -> (s: VisibleSet)
        requires
            leave_repeat_count > 0,
        ensures
            s.wf(),
            s.current_spec().len() == 0,
            s.pending_spec().len() == 0,
            s.repeat_spec() == leave_repeat_count,
    {
        VisibleSet { current: Vec::new(), pending_leaves: Vec::new(), leave_repeat_count }
    }

    /// The entities visible now.
    pub fn visible(&self) -> (v: &Vec<EntitySlot>)
        ensures
            v@ == self.current_spec(),
    {
        &self.current
    }

    /// Recompute the visible set from `candidates`; the entities that entered, and the
    /// entities owed a leave notice this update (each pending notice counts down once).
    pub fn update(&mut self, candidates: &[Candidate]) -> (diff: VisibleSetDiff)
        requires
            old(self).wf(),
        ensures
            final(self).wf(),
            final(self).repeat_spec() == old(self).repeat_spec(),
            forall|e: EntitySlot| #[trigger] final(self).current_spec().contains(e) <==> chosen(
                old(self).current_spec(),
                candidates@,
                e,
            ),
            diff.entered@.no_duplicates(),
            forall|e: EntitySlot| #[trigger] diff.entered@.contains(e) <==> (chosen(
                old(self).current_spec(),
                candidates@,
                e,
            ) && !old(self).current_spec().contains(e)),
            diff.left@.no_duplicates(),
            forall|e: EntitySlot| #[trigger] diff.left@.contains(e) <==> leaving(
                old(self).current_spec(),
                old(self).pending_spec(),
                candidates@,
                e,
            ),
            forall|e: EntitySlot| #[trigger] pending_has(final(self).pending_spec(), e) <==> (leaving(
                old(self).current_spec(),
                old(self).pending_spec(),
                candidates@,
                e,
            ) && notices_before(old(self).pending_spec(), e, old(self).repeat_spec()) > 1),
            forall|k: int| 0 <= k < final(self).pending_spec().len() ==> #[trigger] final(self).pending_spec()[k].1
                == notices_before(
                old(self).pending_spec(),
                final(self).pending_spec()[k].0,
                old(self).repeat_spec(),
            ) - 1,
    {
        let ghost cur = self.current@;
        let ghost cands = candidates@;
        let ghost pend0 = self.pending_leaves@;
        // New visible set.
        let mut new_visible: Vec<EntitySlot> = Vec::new();
        let mut i: usize = 0;
        while i < candidates.len()
            invariant
                i <= cands.len(),
                cands == candidates@,
                cur == self.current@,
                new_visible@.no_duplicates(),
                forall|e: EntitySlot| #[trigger] new_visible@.contains(e) <==> exists|k: int|
                    0 <= k < i && #[trigger] cands[k].0 == e && (if cur.contains(e) {
                        cands[k].2
                    } else {
                        cands[k].1
                    }),
            decreases cands.len() - i,
        {
            let (e, within_sub, within_unsub) = candidates[i];
            let was = slot_in(&self.current, e);
            let vis = if was { within_unsub } else { within_sub };
            let ghost nv = new_visible@;
            if vis && !slot_in(&new_visible, e) {
                new_visible.push(e);
            }
            assert forall|x: EntitySlot| #[trigger] new_visible@.contains(x) <==> exists|k: int|
                0 <= k < i + 1 && #[trigger] cands[k].0 == x && (if cur.contains(x) {
                    cands[k].2
                } else {
                    cands[k].1
                }) by {
                if new_visible@.contains(x) && !nv.contains(x) {
                    assert(cands[i as int].0 == x);
                }
                if nv.contains(x) {
                    let k = choose|k: int| 0 <= k < i && #[trigger] cands[k].0 == x && (if cur.contains(x) {
                        cands[k].2
                    } else {
                        cands[k].1
                    });
                    assert(0 <= k < i + 1);
                    assert(new_visible@.contains(x)) by {
                        if new_visible@ != nv {
                            let p = choose|p: int| 0 <= p < nv.len() && nv[p] == x;
                            assert(new_visible@[p] == nv[p]);
                        }
                    }
                }
                if exists|k: int| 0 <= k < i + 1 && #[trigger] cands[k].0 == x && (if cur.contains(x) {
                    cands[k].2
                } else {
                    cands[k].1
                }) {
                    let k = choose|k: int| 0 <= k < i + 1 && #[trigger] cands[k].0 == x && (if cur.contains(x) {
                        cands[k].2
                    } else {
                        cands[k].1
                    });
                    if k < i {
                        assert(nv.contains(x));
                        assert(new_visible@.contains(x)) by {
                            if new_visible@ != nv {
                                let p = choose|p: int| 0 <= p < nv.len() && nv[p] == x;
                                assert(new_visible@[p] == nv[p]);
                            }
                        }
                    } else {
                        assert(x == e);
                        if !nv.contains(e) {
                            assert(new_visible@[nv.len() as int] == e);
                        } else {
                            let p = choose|p: int| 0 <= p < nv.len() && nv[p] == x;
                            assert(new_visible@[p] == nv[p]);
                        }
                    }
                }
            }
            i = i + 1;
        }
        assert forall|e: EntitySlot| #[trigger] new_visible@.contains(e) <==> chosen(cur, cands, e) by {}
        // Entered: newly visible, not visible before.
        let mut entered: Vec<EntitySlot> = Vec::new();
        let mut j: usize = 0;
        while j < new_visible.len()
            invariant
                j <= new_visible@.len(),
                cur == self.current@,
                new_visible@.no_duplicates(),
                entered@.no_duplicates(),
                forall|e: EntitySlot| #[trigger] entered@.contains(e) <==> (exists|k: int|
                    0 <= k < j && #[trigger] new_visible@[k] == e) && !cur.contains(e),
            decreases new_visible@.len() - j,
        {
            let e = new_visible[j];
            let ghost en = entered@;
            if !slot_in(&self.current, e) {
                assert(!en.contains(e)) by {
                    if en.contains(e) {
                        let k = choose|k: int| 0 <= k < j && #[trigger] new_visible@[k] == e;
                        assert(new_visible@[k] == new_visible@[j as int]);
                    }
                }
                entered.push(e);
            }
            assert forall|x: EntitySlot| #[trigger] entered@.contains(x) <==> (exists|k: int|
                0 <= k < j + 1 && #[trigger] new_visible@[k] == x) && !cur.contains(x) by {
                if entered@.contains(x) && !en.contains(x) {
                    assert(new_visible@[j as int] == x);
                }
                if (exists|k: int| 0 <= k < j + 1 && #[trigger] new_visible@[k] == x) && !cur.contains(x) {
                    let k = choose|k: int| 0 <= k < j + 1 && #[trigger] new_visible@[k] == x;
                    if k < j {
                        assert(en.contains(x));
                        let p = choose|p: int| 0 <= p < en.len() && en[p] == x;
                        assert(entered@[p] == en[p]);
                    } else {
                        assert(x == e);
                        assert(entered@[en.len() as int] == e);
                    }
                }
                if entered@.contains(x) && en.contains(x) {
                    let k = choose|k: int| 0 <= k < j && #[trigger] new_visible@[k] == x;
                    assert(0 <= k < j + 1);
                }
            }
            j = j + 1;
        }
        assert forall|e: EntitySlot| #[trigger] entered@.contains(e) <==> (new_visible@.contains(e)
            && !cur.contains(e)) by {
            if new_visible@.contains(e) {
                let k = choose|k: int| 0 <= k < new_visible@.len() && new_visible@[k] == e;
                assert(new_visible@[k] == e);
            }
        }
        // Visible before, not any more: start leave notices.
        let mut m: usize = 0;
        while m < self.current.len()
            invariant
                m <= cur.len(),
                cur == self.current@,
                self.leave_repeat_count == old(self).leave_repeat_count,
                pend0.len() <= self.pending_leaves@.len(),
                self.pending_leaves@.subrange(0, pend0.len() as int) == pend0,
                pending_distinct(self.pending_leaves@),
                self.leave_repeat_count > 0,
                forall|k: int| pend0.len() <= k < self.pending_leaves@.len() ==> #[trigger] self.pending_leaves@[k].1
                    == self.leave_repeat_count,
                forall|e: EntitySlot| #[trigger] pending_has(self.pending_leaves@, e) <==> (pending_has(
                    pend0,
                    e,
                ) || (exists|k: int| 0 <= k < m && #[trigger] cur[k] == e) && !new_visible@.contains(e)),
            decreases cur.len() - m,
        {
            let e = self.current[m];
            let ghost pl = self.pending_leaves@;
            if !slot_in(&new_visible, e) {
                let mut found = false;
                let mut q: usize = 0;
                while q < self.pending_leaves.len()
                    invariant
                        q <= self.pending_leaves@.len(),
                        self.pending_leaves@ == pl,
                        found ==> pending_has(pl, e),
                        !found ==> forall|k: int| 0 <= k < q ==> pl[k].0 != e,
                    decreases self.pending_leaves@.len() - q,
                {
                    if self.pending_leaves[q].0 == e {
                        found = true;
                        assert(pl[q as int].0 == e);
                    }
                    q = q + 1;
                }
                if !found {
                    self.pending_leaves.push((e, self.leave_repeat_count));
                    assert(self.pending_leaves@.subrange(0, pend0.len() as int) =~= pl.subrange(
                        0,
                        pend0.len() as int,
                    ));
                    assert forall|a: int, b: int| 0 <= a < b < self.pending_leaves@.len() implies
                        self.pending_leaves@[a].0 != self.pending_leaves@[b].0 by {
                        if b == pl.len() {
                            assert(self.pending_leaves@[a] == pl[a]);
                        } else {
                            assert(self.pending_leaves@[a] == pl[a] && self.pending_leaves@[b] == pl[b]);
                        }
                    }
                }
                assert(pending_has(self.pending_leaves@, e)) by {
                    if found {
                        let k = choose|k: int| 0 <= k < pl.len() && #[trigger] pl[k].0 == e;
                        assert(self.pending_leaves@[k] == pl[k]);
                    } else {
                        assert(self.pending_leaves@[pl.len() as int].0 == e);
                    }
                }
            }
            assert forall|x: EntitySlot| #[trigger] pending_has(self.pending_leaves@, x) <==> (pending_has(
                pend0,
                x,
            ) || (exists|k: int| 0 <= k < m + 1 && #[trigger] cur[k] == x) && !new_visible@.contains(x)) by {
                if pending_has(self.pending_leaves@, x) && x != e {
                    let k = choose|k: int| 0 <= k < self.pending_leaves@.len() && #[trigger] self.pending_leaves@[k].0 == x;
                    if k < pl.len() {
                        assert(self.pending_leaves@[k] == pl[k]);
                        assert(pending_has(pl, x));
                    }
                }
                if pending_has(pl, x) {
                    let k = choose|k: int| 0 <= k < pl.len() && #[trigger] pl[k].0 == x;
                    assert(self.pending_leaves@[k] == pl[k]);
                }
                if (exists|k: int| 0 <= k < m + 1 && #[trigger] cur[k] == x) && !new_visible@.contains(x) {
                    let k = choose|k: int| 0 <= k < m + 1 && #[trigger] cur[k] == x;
                    if k < m {
                        assert(pending_has(pl, x));
                    }
                }
            }
            m = m + 1;
        }
        let ghost pend1 = self.pending_leaves@;
        assert forall|e: EntitySlot| #[trigger] pending_has(pend1, e) <==> leaving(cur, pend0, cands, e) by {
            if cur.contains(e) {
                let k = choose|k: int| 0 <= k < cur.len() && cur[k] == e;
                assert(cur[k] == e);
            }
        }
        // Each pending notice is sent and counts down.
        let mut left: Vec<EntitySlot> = Vec::new();
        let mut kept: Vec<(EntitySlot, u8)> = Vec::new();
        let mut r: usize = 0;
        while r < self.pending_leaves.len()
            invariant
                r <= pend1.len(),
                self.pending_leaves@ == pend1,
                self.leave_repeat_count == old(self).leave_repeat_count,
                pending_distinct(pend1),
                left@ == pend1.take(r as int).map_values(|p: (EntitySlot, u8)| p.0),
                pending_distinct(kept@),
                forall|k: int| #![trigger kept@[k]] 0 <= k < kept@.len() ==> exists|a: int| 0 <= a < r && #[trigger] pend1[a].0
                    == kept@[k].0 && kept@[k].1 == pend1[a].1 - 1,
                forall|a: int| 0 <= a < r && pend1[a].1 > 1 ==> #[trigger] pending_has(kept@, pend1[a].0),
            decreases pend1.len() - r,
        {
            let (e, remaining) = self.pending_leaves[r];
            let ghost kp = kept@;
            left.push(e);
            assert(left@ =~= pend1.take(r as int + 1).map_values(|p: (EntitySlot, u8)| p.0));
            if remaining > 1 {
                assert(!pending_has(kp, e)) by {
                    if pending_has(kp, e) {
                        let k = choose|k: int| 0 <= k < kp.len() && #[trigger] kp[k].0 == e;
                        let a = choose|a: int| 0 <= a < r && #[trigger] pend1[a].0 == kp[k].0 && kp[k].1
                            == pend1[a].1 - 1;
                        assert(pend1[a].0 != pend1[r as int].0);
                    }
                }
                kept.push((e, remaining - 1));
                assert forall|a: int, b: int| 0 <= a < b < kept@.len() implies kept@[a].0 != kept@[b].0 by {
                    if b == kp.len() {
                        assert(kept@[a] == kp[a]);
                        if kp[a].0 == e {
                            assert(pending_has(kp, e));
                        }
                    } else {
                        assert(kept@[a] == kp[a] && kept@[b] == kp[b]);
                    }
                }
                assert forall|k: int| #![trigger kept@[k]] 0 <= k < kept@.len() implies exists|a: int| 0 <= a < r + 1
                    && #[trigger] pend1[a].0 == kept@[k].0 && kept@[k].1 == pend1[a].1 - 1 by {
                    if k == kp.len() {
                        assert(pend1[r as int].0 == kept@[k].0);
                    } else {
                        assert(kept@[k] == kp[k]);
                        let a = choose|a: int| 0 <= a < r && #[trigger] pend1[a].0 == kp[k].0 && kp[k].1
                            == pend1[a].1 - 1;
                    }
                }
                assert forall|a: int| 0 <= a < r + 1 && pend1[a].1 > 1 implies #[trigger] pending_has(
                    kept@,
                    pend1[a].0,
                ) by {
                    if a == r {
                        assert(kept@[kp.len() as int].0 == e);
                    } else {
                        assert(pending_has(kp, pend1[a].0));
                        let k = choose|k: int| 0 <= k < kp.len() && #[trigger] kp[k].0 == pend1[a].0;
                        assert(kept@[k] == kp[k]);
                    }
                }
            } else {
                assert forall|k: int| #![trigger kept@[k]] 0 <= k < kept@.len() implies exists|a: int| 0 <= a < r + 1
                    && #[trigger] pend1[a].0 == kept@[k].0 && kept@[k].1 == pend1[a].1 - 1 by {
                    let a = choose|a: int| 0 <= a < r && #[trigger] pend1[a].0 == kp[k].0 && kp[k].1
                        == pend1[a].1 - 1;
                }
            }
            r = r + 1;
        }
        assert(pend1.take(r as int) =~= pend1);
        // Facts about left and the new pending list.
        assert(left@.no_duplicates()) by {
            assert forall|a: int, b: int| 0 <= a < left@.len() && 0 <= b < left@.len() && a != b implies
                left@[a] != left@[b] by {
                if a < b {
                    assert(pend1[a].0 != pend1[b].0);
                } else {
                    assert(pend1[b].0 != pend1[a].0);
                }
            }
        }
        assert forall|e: EntitySlot| #[trigger] left@.contains(e) <==> pending_has(pend1, e) by {
            if left@.contains(e) {
                let k = choose|k: int| 0 <= k < left@.len() && left@[k] == e;
                assert(pend1[k].0 == e);
            }
            if pending_has(pend1, e) {
                let k = choose|k: int| 0 <= k < pend1.len() && #[trigger] pend1[k].0 == e;
                assert(left@[k] == e);
            }
        }
        assert forall|e: EntitySlot| pending_has(pend1, e) implies notices_before(pend0, e, self.leave_repeat_count)
            == pend1[choose|k: int| 0 <= k < pend1.len() && pend1[k].0 == e].1 by {
            let k = choose|k: int| 0 <= k < pend1.len() && pend1[k].0 == e;
            if pending_has(pend0, e) {
                let k0 = choose|k: int| 0 <= k < pend0.len() && pend0[k].0 == e;
                assert(pend1[k0] == pend0[k0]);
                if k0 != k {
                    if k0 < k {
                        assert(pend1[k0].0 != pend1[k].0);
                    } else {
                        assert(pend1[k].0 != pend1[k0].0);
                    }
                }
            } else {
                if k < pend0.len() {
                    assert(pend1[k] == pend0[k]);
                    assert(pending_has(pend0, e));
                }
            }
        }
        assert forall|e: EntitySlot| #[trigger] pending_has(kept@, e) <==> (pending_has(pend1, e)
            && pend1[choose|k: int| 0 <= k < pend1.len() && pend1[k].0 == e].1 > 1) by {
            if pending_has(kept@, e) {
                let k = choose|k: int| 0 <= k < kept@.len() && #[trigger] kept@[k].0 == e;
                let a = choose|a: int| 0 <= a < pend1.len() && #[trigger] pend1[a].0 == kept@[k].0
                    && kept@[k].1 == pend1[a].1 - 1;
                assert(pending_has(pend1, e));
                let c = choose|c: int| 0 <= c < pend1.len() && pend1[c].0 == e;
                if c != a {
                    if c < a {
                        assert(pend1[c].0 != pend1[a].0);
                    } else {
                        assert(pend1[a].0 != pend1[c].0);
                    }
                }
            }
            if pending_has(pend1, e) {
                let c = choose|c: int| 0 <= c < pend1.len() && pend1[c].0 == e;
                if pend1[c].1 > 1 {
                    assert(pending_has(kept@, pend1[c].0));
                }
            }
        }
        assert forall|k: int| 0 <= k < kept@.len() implies #[trigger] kept@[k].1 == notices_before(
            pend0,
            kept@[k].0,
            self.leave_repeat_count,
        ) - 1 by {
            let a = choose|a: int| 0 <= a < pend1.len() && #[trigger] pend1[a].0 == kept@[k].0
                && kept@[k].1 == pend1[a].1 - 1;
            let e = kept@[k].0;
            assert(pending_has(pend1, e));
            let c = choose|c: int| 0 <= c < pend1.len() && pend1[c].0 == e;
            if c != a {
                if c < a {
                    assert(pend1[c].0 != pend1[a].0);
                } else {
                    assert(pend1[a].0 != pend1[c].0);
                }
            }
        }
        assert forall|e: EntitySlot| #[trigger] pending_has(kept@, e) <==> (leaving(cur, pend0, cands, e)
            && notices_before(pend0, e, self.leave_repeat_count) > 1) by {
            assert(pending_has(pend1, e) <==> leaving(cur, pend0, cands, e));
            assert(pending_has(kept@, e) <==> (pending_has(pend1, e) && pend1[choose|k: int| 0 <= k
                < pend1.len() && pend1[k].0 == e].1 > 1));
            if pending_has(pend1, e) {
                assert(notices_before(pend0, e, self.leave_repeat_count) == pend1[choose|k: int| 0 <= k
                    < pend1.len() && pend1[k].0 == e].1);
            }
        }
        self.current = new_visible;
        self.pending_leaves = kept;
        VisibleSetDiff { entered, left }
    }
}

} // verus!
