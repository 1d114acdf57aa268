//! Named per-entity timers that fire at tick boundaries.
use vstd::prelude::*;
use crate::types::EntitySlot;

verus! {

pub struct Timer {
    pub slot: EntitySlot,
    pub name: String,
    pub fire_tick: u64,
}

pub struct TimerView {
    pub slot: u32,
    pub name: Seq<char>,
    pub fire_tick: u64,
}

impl View for Timer {
    type V = TimerView;

    open spec fn view(&self) -> TimerView {
        TimerView { slot: self.slot.0, name: self.name@, fire_tick: self.fire_tick }
    }
}

pub open spec fn tkey(t: TimerView) -> (u32, Seq<char>) {
    (t.slot, t.name)
}

/// The (entity, name) keys of fired timers.
pub open spec fn fired_keys(f: Seq<(EntitySlot, String)>) -> Seq<(u32, Seq<char>)> {
    f.map_values(|p: (EntitySlot, String)| (p.0.0, p.1@))
}

pub open spec fn timer_views(s: Seq<Timer>) -> Seq<TimerView> {
    s.map_values(|t: Timer| t@)
}

/// No two timers share an (entity, name) key.
pub open spec fn unique_keys(s: Seq<TimerView>) -> bool {
    forall|i: int, j: int|
        0 <= i < s.len() && 0 <= j < s.len() && i != j ==> #[trigger] tkey(s[i]) != #[trigger] tkey(
            s[j],
        )
}

pub open spec fn has_key(s: Seq<TimerView>, k: (u32, Seq<char>)) -> bool {
    exists|i: int| 0 <= i < s.len() && #[trigger] tkey(s[i]) == k
}

/// The fire tick of every scheduled (entity, name).
pub open spec fn timer_map(s: Seq<TimerView>) -> Map<(u32, Seq<char>), u64> {
    Map::new(
        |k: (u32, Seq<char>)| has_key(s, k),
        |k: (u32, Seq<char>)| s[choose|i: int| 0 <= i < s.len() && #[trigger] tkey(s[i]) == k].fire_tick,
    )
}

proof fn lemma_timer_map_at(s: Seq<TimerView>, i: int)
    requires
        unique_keys(s),
        0 <= i < s.len(),
    ensures
        timer_map(s).contains_key(tkey(s[i])),
        timer_map(s)[tkey(s[i])] == s[i].fire_tick,
{
    let k = tkey(s[i]);
    assert(has_key(s, k));
    let j = choose|j: int| 0 <= j < s.len() && #[trigger] tkey(s[j]) == k;
    assert(tkey(s[j]) == k);
    if j != i {
        assert(tkey(s[i]) != tkey(s[j]));
    }
}

proof fn lemma_timer_map_len(s: Seq<TimerView>)
    requires
        unique_keys(s),
    ensures
        timer_map(s).dom().finite(),
        timer_map(s).len() == s.len(),
{
    let keys = s.map_values(|t: TimerView| tkey(t));
    assert forall|i: int, j: int| 0 <= i < keys.len() && 0 <= j < keys.len() && i != j implies keys[i]
        != keys[j] by {
        assert(tkey(s[i]) != tkey(s[j]));
    }
    assert(keys.no_duplicates());
    keys.unique_seq_to_set();
    assert forall|k: (u32, Seq<char>)| #[trigger] keys.to_set().contains(k) == has_key(s, k) by {
        if keys.to_set().contains(k) {
            assert(keys.contains(k));
            let i = choose|i: int| 0 <= i < keys.len() && keys[i] == k;
            assert(tkey(s[i]) == k);
        }
        if has_key(s, k) {
            let i = choose|i: int| 0 <= i < s.len() && #[trigger] tkey(s[i]) == k;
            assert(keys[i] == k);
        }
    }
    assert(timer_map(s).dom() =~= keys.to_set());
}


/// `v` lists, in order, exactly the timers of `s` that satisfy `p`; `idx[j]` is where `v[j]` sits in `s`.
pub open spec fn selected(s: Seq<TimerView>, v: Seq<TimerView>, idx: Seq<int>, p: spec_fn(TimerView) -> bool) -> bool {
    &&& idx.len() == v.len()
    &&& forall|j: int| 0 <= j < v.len() ==> 0 <= #[trigger] idx[j] < s.len() && v[j] == s[idx[j]] && p(s[idx[j]])
    &&& forall|j1: int, j2: int| 0 <= j1 < j2 < v.len() ==> #[trigger] idx[j1] < #[trigger] idx[j2]
}

/// Every timer of `s` before position `n` that satisfies `p` is listed.
pub open spec fn covers(s: Seq<TimerView>, idx: Seq<int>, p: spec_fn(TimerView) -> bool, n: int) -> bool {
    forall|a: int| 0 <= a < n && #[trigger] p(s[a]) ==> exists|j: int| 0 <= j < idx.len() && idx[j] == a
}

proof fn lemma_selected_push(s: Seq<TimerView>, v: Seq<TimerView>, idx: Seq<int>, p: spec_fn(TimerView) -> bool, a: int)
    requires
        selected(s, v, idx, p),
        covers(s, idx, p, a),
        0 <= a < s.len(),
        forall|j: int| 0 <= j < idx.len() ==> idx[j] < a,
        p(s[a]),
    ensures
        selected(s, v.push(s[a]), idx.push(a), p),
        covers(s, idx.push(a), p, a + 1),
        forall|j: int| 0 <= j < idx.push(a).len() ==> idx.push(a)[j] < a + 1,
{
    let idx2 = idx.push(a);
    assert forall|b: int| 0 <= b < a + 1 && #[trigger] p(s[b]) implies exists|j: int|
        0 <= j < idx2.len() && idx2[j] == b by {
        if b == a {
            assert(idx2[idx.len() as int] == a);
        } else {
            let j = choose|j: int| 0 <= j < idx.len() && idx[j] == b;
            assert(idx2[j] == b);
        }
    }
}

proof fn lemma_selected_skip(s: Seq<TimerView>, v: Seq<TimerView>, idx: Seq<int>, p: spec_fn(TimerView) -> bool, a: int)
    requires
        covers(s, idx, p, a),
        !p(s[a]),
    ensures
        covers(s, idx, p, a + 1),
{
}

/// The timers selected from `s` keep their keys unique and their fire ticks.
proof fn lemma_selected_map(s: Seq<TimerView>, v: Seq<TimerView>, idx: Seq<int>, p: spec_fn(TimerView) -> bool)
    requires
        unique_keys(s),
        selected(s, v, idx, p),
        covers(s, idx, p, s.len() as int),
    ensures
        unique_keys(v),
        forall|k: (u32, Seq<char>)| #[trigger] timer_map(v).contains_key(k) <==> (exists|a: int|
            0 <= a < s.len() && #[trigger] tkey(s[a]) == k && p(s[a])),
        forall|a: int| 0 <= a < s.len() && p(s[a]) ==> #[trigger] timer_map(v)[tkey(s[a])] == s[a].fire_tick,
{
    assert forall|j1: int, j2: int| 0 <= j1 < v.len() && 0 <= j2 < v.len() && j1 != j2 implies #[trigger] tkey(v[j1])
        != #[trigger] tkey(v[j2]) by {
        if j1 < j2 {
            assert(idx[j1] < idx[j2]);
        } else {
            assert(idx[j2] < idx[j1]);
        }
        assert(tkey(s[idx[j1]]) != tkey(s[idx[j2]]));
    }
    assert forall|k: (u32, Seq<char>)| #[trigger] timer_map(v).contains_key(k) <==> (exists|a: int|
        0 <= a < s.len() && #[trigger] tkey(s[a]) == k && p(s[a])) by {
        if timer_map(v).contains_key(k) {
            let j = choose|j: int| 0 <= j < v.len() && #[trigger] tkey(v[j]) == k;
            assert(tkey(s[idx[j]]) == k && p(s[idx[j]]));
        }
        if exists|a: int| 0 <= a < s.len() && #[trigger] tkey(s[a]) == k && p(s[a]) {
            let a = choose|a: int| 0 <= a < s.len() && #[trigger] tkey(s[a]) == k && p(s[a]);
            let j = choose|j: int| 0 <= j < idx.len() && idx[j] == a;
            assert(tkey(v[j]) == k);
        }
    }
    assert forall|a: int| 0 <= a < s.len() && p(s[a]) implies #[trigger] timer_map(v)[tkey(s[a])] == s[a].fire_tick by {
        let j = choose|j: int| 0 <= j < idx.len() && idx[j] == a;
        assert(v[j] == s[a]);
        lemma_timer_map_at(v, j);
    }
}

/// Ticks until a timer of `delay_ms` fires at `tick_rate_hz`: the delay rounded up to
/// whole tick periods, at least one tick.
pub open spec fn delay_ticks(delay_ms: u32, tick_rate_hz: u8) -> u64 {
    let t = (delay_ms as int * tick_rate_hz as int + 999) / 1000;
    if t < 1 {
        1
    } else {
        t as u64
    }
}

/// A timer never fires early and never later than it must: its delay in ticks is at least
/// one, covers the requested delay (`ticks` periods of `1000 / hz` ms last at least
/// `delay_ms`), and one tick fewer would not (unless one tick is the minimum).
pub proof fn law_delay_ticks_round_up(delay_ms: u32, hz: u8)
    ensures
        delay_ticks(delay_ms, hz) >= 1,
        delay_ticks(delay_ms, hz) * 1000 >= delay_ms * hz,
        delay_ticks(delay_ms, hz) == 1 || (delay_ticks(delay_ms, hz) - 1) * 1000 < delay_ms * hz,
{
    let x = delay_ms as int * hz as int;
    assert(0 <= x <= 0xffff_ffff * 255) by (nonlinear_arith)
        requires
            x == delay_ms as int * hz as int,
            delay_ms <= 0xffff_ffffu32,
            hz <= 255u8,
    ;
    let t = (x + 999) / 1000;
    assert(t * 1000 >= x && (t - 1) * 1000 < x || x == 0) by (nonlinear_arith)
        requires
            t == (x + 999) / 1000,
            x >= 0,
    ;
}

/// Manages named timers per entity. Timers fire at tick boundaries.
///
/// Timers are keyed by `(EntitySlot, name)` — setting a timer with the same
/// name overwrites the previous one (no duplicates).
pub struct TimerManager {
    timers: Vec<Timer>,
    current_tick: u64,
    tick_rate_hz: u8,
}

impl View for TimerManager {
    type V = Map<(u32, Seq<char>), u64>;

    closed spec fn view(&self) -> Map<(u32, Seq<char>), u64> {
        timer_map(timer_views(self.timers@))
    }
}

impl TimerManager {
    pub closed spec fn wf(&self) -> bool {
        unique_keys(timer_views(self.timers@))
    }

    pub closed spec fn current_tick(&self) -> u64 {
        self.current_tick
    }

    pub closed spec fn tick_rate_hz(&self) -> u8 {
        self.tick_rate_hz
    }

    pub fn new(tick_rate_hz: u8) -> (m: TimerManager)
        ensures
            m.wf(),
            m@ == Map::<(u32, Seq<char>), u64>::empty(),
            m@.dom().finite(),
            m.current_tick() == 0,
            m.tick_rate_hz() == tick_rate_hz,
    {
        let m = TimerManager { timers: Vec::new(), current_tick: 0, tick_rate_hz };
        assert(m@ =~= Map::<(u32, Seq<char>), u64>::empty());
        m
    }

    pub fn set_current_tick(&mut self, tick: u64)
        requires
            old(self).wf(),
        ensures
            final(self)@.dom().finite(),
            final(self).wf(),
            final(self)@ == old(self)@,
            final(self).current_tick() == tick,
            final(self).tick_rate_hz() == old(self).tick_rate_hz(),
    {
        self.current_tick = tick;
        proof {
            self.lemma_len();
        }
    }

    /// Position of the timer with key (entity, name), if any.
    fn find(&self, entity: EntitySlot, name: &String) -> (r: Option<usize>)
        requires
            self.wf(),
        ensures
            match r {
                Some(i) => i < self.timers@.len() && tkey(timer_views(self.timers@)[i as int]) == (
                    entity.0,
                    name@,
                ),
                None => !has_key(timer_views(self.timers@), (entity.0, name@)),
            },
    {
        let ghost s = timer_views(self.timers@);
        let mut i: usize = 0;
        while i < self.timers.len()
            invariant
                i <= self.timers@.len(),
                s == timer_views(self.timers@),
                forall|j: int| 0 <= j < i ==> #[trigger] tkey(s[j]) != (entity.0, name@),
            decreases self.timers.len() - i,
        {
            let t = &self.timers[i];
            assert(s[i as int] == self.timers@[i as int]@);
            if t.slot.0 == entity.0 && t.name == *name {
                return Some(i);
            }
            i = i + 1;
        }
        None
    }

    /// Schedule a timer. Overwrites any existing timer with the same (entity, name).
    /// Minimum delay is 1 tick.
    pub fn set_timer(&mut self, entity: EntitySlot, name: String, delay_ms: u32)
        requires
            old(self).wf(),
            old(self).current_tick() + delay_ticks(delay_ms, old(self).tick_rate_hz()) <= u64::MAX,
        ensures
            final(self)@.dom().finite(),
            final(self).wf(),
            final(self)@ == old(self)@.insert(
                (entity.0, name@),
                (old(self).current_tick() + delay_ticks(delay_ms, old(self).tick_rate_hz())) as u64,
            ),
            final(self).current_tick() == old(self).current_tick(),
            final(self).tick_rate_hz() == old(self).tick_rate_hz(),
    {
        let d = delay_ms as u64;
        let h = self.tick_rate_hz as u64;
        assert(d * h <= 0xffff_ffffu64 * 255) by (nonlinear_arith)
            requires
                d <= 0xffff_ffffu64,
                h <= 255,
        ;
        let raw: u64 = (d * h + 999) / 1000;
        let ticks: u64 = if raw < 1 {
            1
        } else {
            raw
        };
        let fire_tick = self.current_tick + ticks;
        let ghost old_s = timer_views(self.timers@);
        let ghost k = (entity.0, name@);
        let found = self.find(entity, &name);
        let t = Timer { slot: entity, name, fire_tick };
        match found {
            Some(i) => {
                self.timers.set(i, t);
                proof {
                    let s = timer_views(self.timers@);
                    assert(s =~= old_s.update(i as int, t@));
                    assert forall|a: int, b: int|
                        0 <= a < s.len() && 0 <= b < s.len() && a != b implies #[trigger] tkey(s[a])
                        != #[trigger] tkey(s[b]) by {
                        if a != i && b != i {
                            assert(tkey(old_s[a]) != tkey(old_s[b]));
                        } else if a == i {
                            assert(tkey(old_s[i as int]) != tkey(old_s[b]));
                        } else {
                            assert(tkey(old_s[a]) != tkey(old_s[i as int]));
                        }
                    }
                    assert forall|kk: (u32, Seq<char>)|
                        #![trigger timer_map(s).contains_key(kk)]
                        timer_map(s).contains_key(kk) == timer_map(old_s).insert(
                            k,
                            fire_tick,
                        ).contains_key(kk) by {
                        if has_key(s, kk) {
                            let j = choose|j: int| 0 <= j < s.len() && #[trigger] tkey(s[j]) == kk;
                            if j != i {
                                assert(tkey(old_s[j]) == kk);
                            }
                        }
                        if has_key(old_s, kk) {
                            let j = choose|j: int| 0 <= j < old_s.len() && #[trigger] tkey(old_s[j]) == kk;
                            if j != i {
                                assert(tkey(s[j]) == kk);
                            } else {
                                assert(tkey(s[i as int]) == kk);
                            }
                        }
                        if kk == k {
                            assert(tkey(s[i as int]) == kk);
                        }
                    }
                    assert forall|kk: (u32, Seq<char>)| timer_map(s).contains_key(kk) implies timer_map(s)[kk]
                        == timer_map(old_s).insert(k, fire_tick)[kk] by {
                        let j = choose|j: int| 0 <= j < s.len() && #[trigger] tkey(s[j]) == kk;
                        lemma_timer_map_at(s, j);
                        if j != i {
                            lemma_timer_map_at(old_s, j);
                        }
                    }
                    assert(timer_map(s) =~= timer_map(old_s).insert(k, fire_tick));
                }
            },
            None => {
                self.timers.push(t);
                proof {
                    let s = timer_views(self.timers@);
                    assert(s =~= old_s.push(t@));
                    let n = old_s.len() as int;
                    assert forall|a: int, b: int|
                        0 <= a < s.len() && 0 <= b < s.len() && a != b implies #[trigger] tkey(s[a])
                        != #[trigger] tkey(s[b]) by {
                        if a != n && b != n {
                            assert(tkey(old_s[a]) != tkey(old_s[b]));
                        } else if a == n {
                            if tkey(s[a]) == tkey(s[b]) {
                                assert(tkey(old_s[b]) == k);
                            }
                        } else {
                            if tkey(s[a]) == tkey(s[b]) {
                                assert(tkey(old_s[a]) == k);
                            }
                        }
                    }
                    assert forall|kk: (u32, Seq<char>)|
                        #![trigger timer_map(s).contains_key(kk)]
                        timer_map(s).contains_key(kk) == timer_map(old_s).insert(
                            k,
                            fire_tick,
                        ).contains_key(kk) by {
                        if has_key(s, kk) {
                            let j = choose|j: int| 0 <= j < s.len() && #[trigger] tkey(s[j]) == kk;
                            if j != n {
                                assert(tkey(old_s[j]) == kk);
                            }
                        }
                        if has_key(old_s, kk) {
                            let j = choose|j: int| 0 <= j < old_s.len() && #[trigger] tkey(old_s[j]) == kk;
                            assert(tkey(s[j]) == kk);
                        }
                        if kk == k {
                            assert(tkey(s[n]) == kk);
                        }
                    }
                    assert forall|kk: (u32, Seq<char>)| timer_map(s).contains_key(kk) implies timer_map(s)[kk]
                        == timer_map(old_s).insert(k, fire_tick)[kk] by {
                        let j = choose|j: int| 0 <= j < s.len() && #[trigger] tkey(s[j]) == kk;
                        lemma_timer_map_at(s, j);
                        if j != n {
                            lemma_timer_map_at(old_s, j);
                        }
                    }
                    assert(timer_map(s) =~= timer_map(old_s).insert(k, fire_tick));
                }
            },
        }
        proof {
            self.lemma_len();
        }
    }

    /// Cancel a timer. Returns true if the timer existed.
    pub fn cancel_timer(&mut self, entity: &EntitySlot, name: &str) -> (existed: bool)
        requires
            old(self).wf(),
        ensures
            final(self)@.dom().finite(),
            final(self).wf(),
            existed == old(self)@.contains_key((entity.0, name@)),
            final(self)@ == old(self)@.remove((entity.0, name@)),
            final(self).current_tick() == old(self).current_tick(),
            final(self).tick_rate_hz() == old(self).tick_rate_hz(),
    {
        let key = String::from_str(name);
        let ghost k = (entity.0, name@);
        let ghost old_s = timer_views(self.timers@);
        match self.find(*entity, &key) {
            Some(i) => {
                self.timers.remove(i);
                proof {
                    let s = timer_views(self.timers@);
                    assert(s =~= old_s.remove(i as int));
                    let p = |t: TimerView| tkey(t) != k;
                    let idx = Seq::new(s.len(), |j: int| if j < i { j } else { j + 1 });
                    assert(selected(old_s, s, idx, p)) by {
                        assert forall|j: int| 0 <= j < s.len() implies p(old_s[#[trigger] idx[j]]) by {
                            if idx[j] != i {
                                assert(tkey(old_s[idx[j]]) != tkey(old_s[i as int]));
                            }
                        }
                    }
                    assert(covers(old_s, idx, p, old_s.len() as int)) by {
                        assert forall|a: int| 0 <= a < old_s.len() && #[trigger] p(old_s[a]) implies exists|j: int|
                            0 <= j < idx.len() && idx[j] == a by {
                            if a < i {
                                assert(idx[a] == a);
                            } else {
                                assert(a != i);
                                assert(idx[a - 1] == a);
                            }
                        }
                    }
                    lemma_selected_map(old_s, s, idx, p);
                    lemma_timer_map_at(old_s, i as int);
                    assert forall|kk: (u32, Seq<char>)| #[trigger] timer_map(old_s).remove(k).contains_key(kk) implies timer_map(s)[kk]
                        == timer_map(old_s).remove(k)[kk] by {
                        let a = choose|a: int| 0 <= a < old_s.len() && #[trigger] tkey(old_s[a]) == kk;
                        lemma_timer_map_at(old_s, a);
                    }
                    assert(timer_map(s) =~= timer_map(old_s).remove(k));
                    self.lemma_len();
                }
                true
            },
            None => {
                proof {
                    assert(timer_map(old_s).remove(k) =~= timer_map(old_s));
                    self.lemma_len();
                }
                false
            },
        }
    }

    /// Fire all timers with `fire_tick <= current_tick`. Returns fired (entity, name) pairs.
    pub fn fire_elapsed(&mut self, current_tick: u64) -> (fired: Vec<(EntitySlot, String)>)
        requires
            old(self).wf(),
        ensures
            final(self)@.dom().finite(),
            final(self).wf(),
            final(self)@ == old(self)@.restrict(
                old(self)@.dom().filter(|k: (u32, Seq<char>)| old(self)@[k] > current_tick),
            ),
            fired_keys(fired@).no_duplicates(),
            forall|k: (u32, Seq<char>)| #[trigger] fired_keys(fired@).contains(k) <==> (old(self)@.contains_key(k)
                && old(self)@[k] <= current_tick),
            final(self).current_tick() == old(self).current_tick(),
            final(self).tick_rate_hz() == old(self).tick_rate_hz(),
    {
        let ghost s = timer_views(self.timers@);
        let ghost pk = |t: TimerView| t.fire_tick > current_tick;
        let ghost pf = |t: TimerView| t.fire_tick <= current_tick;
        let mut kept: Vec<Timer> = Vec::new();
        let mut fired: Vec<(EntitySlot, String)> = Vec::new();
        let ghost mut kidx: Seq<int> = Seq::empty();
        let ghost mut fv: Seq<TimerView> = Seq::empty();
        let ghost mut fidx: Seq<int> = Seq::empty();
        let mut i: usize = 0;
        while i < self.timers.len()
            invariant
                i <= self.timers@.len(),
                s == timer_views(self.timers@),
                unique_keys(s),
                forall|t: TimerView| #[trigger] pk(t) == (t.fire_tick > current_tick),
                forall|t: TimerView| #[trigger] pf(t) == (t.fire_tick <= current_tick),
                selected(s, timer_views(kept@), kidx, pk),
                covers(s, kidx, pk, i as int),
                forall|j: int| 0 <= j < kidx.len() ==> kidx[j] < i,
                selected(s, fv, fidx, pf),
                covers(s, fidx, pf, i as int),
                forall|j: int| 0 <= j < fidx.len() ==> fidx[j] < i,
                fired_keys(fired@) == fv.map_values(|t: TimerView| tkey(t)),
            decreases self.timers.len() - i,
        {
            let t = &self.timers[i];
            assert(s[i as int] == self.timers@[i as int]@);
            if t.fire_tick <= current_tick {
                let name = t.name.clone();
                proof {
                    lemma_selected_skip(s, timer_views(kept@), kidx, pk, i as int);
                    lemma_selected_push(s, fv, fidx, pf, i as int);
                }
                let ghost old_fired = fired@;
                fired.push((t.slot, name));
                proof {
                    assert(fired@ == old_fired.push((t.slot, name)));
                    assert(fired_keys(fired@) =~= fired_keys(old_fired).push((t.slot.0, t.name@)));
                    assert(fired_keys(fired@) =~= fv.push(s[i as int]).map_values(|t: TimerView| tkey(t)));
                    fv = fv.push(s[i as int]);
                    fidx = fidx.push(i as int);
                }
            } else {
                let copy = Timer { slot: t.slot, name: t.name.clone(), fire_tick: t.fire_tick };
                proof {
                    lemma_selected_push(s, timer_views(kept@), kidx, pk, i as int);
                    lemma_selected_skip(s, fv, fidx, pf, i as int);
                }
                let ghost kv = timer_views(kept@);
                kept.push(copy);
                proof {
                    assert(timer_views(kept@) =~= kv.push(s[i as int]));
                    kidx = kidx.push(i as int);
                }
            }
            i = i + 1;
        }
        proof {
            lemma_selected_map(s, timer_views(kept@), kidx, pk);
            lemma_selected_map(s, fv, fidx, pf);
            let m = timer_map(s);
            let target = m.restrict(m.dom().filter(|k: (u32, Seq<char>)| m[k] > current_tick));
            assert forall|k: (u32, Seq<char>)| #[trigger] timer_map(timer_views(kept@)).contains_key(k) == target.contains_key(k) by {
                if target.contains_key(k) {
                    let a = choose|a: int| 0 <= a < s.len() && #[trigger] tkey(s[a]) == k;
                    lemma_timer_map_at(s, a);
                    assert(pk(s[a]));
                }
                if timer_map(timer_views(kept@)).contains_key(k) {
                    let a = choose|a: int| 0 <= a < s.len() && #[trigger] tkey(s[a]) == k && pk(s[a]);
                    lemma_timer_map_at(s, a);
                }
            }
            assert forall|k: (u32, Seq<char>)| #[trigger] target.contains_key(k) implies timer_map(timer_views(kept@))[k] == target[k] by {
                let a = choose|a: int| 0 <= a < s.len() && #[trigger] tkey(s[a]) == k;
                lemma_timer_map_at(s, a);
            }
            assert(timer_map(timer_views(kept@)) =~= target);
            let fk = fv.map_values(|t: TimerView| tkey(t));
            assert forall|j1: int, j2: int| 0 <= j1 < fk.len() && 0 <= j2 < fk.len() && j1 != j2 implies fk[j1] != fk[j2] by {
                assert(tkey(fv[j1]) != tkey(fv[j2]));
            }
            assert forall|k: (u32, Seq<char>)| #[trigger] fk.contains(k) <==> (m.contains_key(k) && m[k] <= current_tick) by {
                if fk.contains(k) {
                    let j = choose|j: int| 0 <= j < fk.len() && fk[j] == k;
                    assert(tkey(fv[j]) == k);
                    assert(timer_map(fv).contains_key(k));
                    let a = choose|a: int| 0 <= a < s.len() && #[trigger] tkey(s[a]) == k && pf(s[a]);
                    lemma_timer_map_at(s, a);
                }
                if m.contains_key(k) && m[k] <= current_tick {
                    let a = choose|a: int| 0 <= a < s.len() && #[trigger] tkey(s[a]) == k;
                    lemma_timer_map_at(s, a);
                    assert(pf(s[a]));
                    assert(timer_map(fv).contains_key(k));
                    let j = choose|j: int| 0 <= j < fv.len() && #[trigger] tkey(fv[j]) == k;
                    assert(fk[j] == k);
                }
            }
        }
        self.timers = kept;
        proof {
            self.lemma_len();
        }
        fired
    }

    /// Remove all timers for a given entity.
    pub fn clear_entity(&mut self, entity: &EntitySlot)
        requires
            old(self).wf(),
        ensures
            final(self)@.dom().finite(),
            final(self).wf(),
            final(self)@ == old(self)@.restrict(
                old(self)@.dom().filter(|k: (u32, Seq<char>)| k.0 != entity.0),
            ),
            final(self).current_tick() == old(self).current_tick(),
            final(self).tick_rate_hz() == old(self).tick_rate_hz(),
    {
        let ghost s = timer_views(self.timers@);
        let ghost pk = |t: TimerView| t.slot != entity.0;
        let mut kept: Vec<Timer> = Vec::new();
        let ghost mut kidx: Seq<int> = Seq::empty();
        let mut i: usize = 0;
        while i < self.timers.len()
            invariant
                i <= self.timers@.len(),
                s == timer_views(self.timers@),
                unique_keys(s),
                forall|t: TimerView| #[trigger] pk(t) == (t.slot != entity.0),
                selected(s, timer_views(kept@), kidx, pk),
                covers(s, kidx, pk, i as int),
                forall|j: int| 0 <= j < kidx.len() ==> kidx[j] < i,
            decreases self.timers.len() - i,
        {
            let t = &self.timers[i];
            assert(s[i as int] == self.timers@[i as int]@);
            if t.slot.0 != entity.0 {
                let copy = Timer { slot: t.slot, name: t.name.clone(), fire_tick: t.fire_tick };
                proof {
                    lemma_selected_push(s, timer_views(kept@), kidx, pk, i as int);
                }
                let ghost kv = timer_views(kept@);
                kept.push(copy);
                proof {
                    assert(timer_views(kept@) =~= kv.push(s[i as int]));
                    kidx = kidx.push(i as int);
                }
            } else {
                proof {
                    lemma_selected_skip(s, timer_views(kept@), kidx, pk, i as int);
                }
            }
            i = i + 1;
        }
        proof {
            lemma_selected_map(s, timer_views(kept@), kidx, pk);
            let m = timer_map(s);
            let target = m.restrict(m.dom().filter(|k: (u32, Seq<char>)| k.0 != entity.0));
            assert forall|k: (u32, Seq<char>)| #[trigger] timer_map(timer_views(kept@)).contains_key(k) == target.contains_key(k) by {
                if target.contains_key(k) {
                    let a = choose|a: int| 0 <= a < s.len() && #[trigger] tkey(s[a]) == k;
                    assert(pk(s[a]));
                }
            }
            assert forall|k: (u32, Seq<char>)| #[trigger] target.contains_key(k) implies timer_map(timer_views(kept@))[k] == target[k] by {
                let a = choose|a: int| 0 <= a < s.len() && #[trigger] tkey(s[a]) == k;
                lemma_timer_map_at(s, a);
            }
            assert(timer_map(timer_views(kept@)) =~= target);
        }
        self.timers = kept;
        proof {
            self.lemma_len();
        }
    }

    pub fn timer_count(&self) -> (n: usize)
        requires
            self.wf(),
        ensures
            n == self@.len(),
            self@.dom().finite(),
    {
        proof {
            self.lemma_len();
        }
        self.timers.len()
    }

    proof fn lemma_len(&self)
        requires
            self.wf(),
        ensures
            self@.len() == self.timers@.len(),
            self@.dom().finite(),
    {
        lemma_timer_map_len(timer_views(self.timers@));
    }
}

/// A timer fires at the first tick at or after its due tick, never on the tick it was set
/// (minimum delay one tick); setting the same (entity, name) again replaces the first timer.
pub proof fn law_timer_schedule(
    m: Map<(u32, Seq<char>), u64>,
    k: (u32, Seq<char>),
    now: u64,
    delay_ms: u32,
    second_delay_ms: u32,
    hz: u8,
    t: u64,
)
    requires
        now + delay_ticks(delay_ms, hz) <= u64::MAX,
        now + delay_ticks(second_delay_ms, hz) <= u64::MAX,
    ensures
        delay_ticks(delay_ms, hz) >= 1,
        ({
            let m2 = m.insert(k, (now + delay_ticks(delay_ms, hz)) as u64);
            (m2.contains_key(k) && m2[k] <= t) <==> t >= now + delay_ticks(delay_ms, hz)
        }),
        m.insert(k, (now + delay_ticks(delay_ms, hz)) as u64).insert(
            k,
            (now + delay_ticks(second_delay_ms, hz)) as u64,
        ) == m.insert(k, (now + delay_ticks(second_delay_ms, hz)) as u64),
{
    assert(delay_ms as int * hz as int <= 0xffff_ffff * 255) by (nonlinear_arith)
        requires
            delay_ms <= 0xffff_ffffu32,
            hz <= 255u8,
    ;
    assert(m.insert(k, (now + delay_ticks(delay_ms, hz)) as u64).insert(
        k,
        (now + delay_ticks(second_delay_ms, hz)) as u64,
    ) =~= m.insert(k, (now + delay_ticks(second_delay_ms, hz)) as u64));
}

} // verus!
