//! Progressive quarantine of entities whose WASM handler traps.
use vstd::prelude::*;
use std::collections::HashMap;
use crate::types::EntitySlot;

verus! {

/// What action the tick engine should take when a WASM trap occurs.
///
/// Escalation ladder by consecutive fault count:
/// - Fault 1, 2, 4: Skip (entity skipped this tick, retried after quarantine)
/// - Fault 3: Reset (entity state restored to last checkpoint)
/// - Fault 5: Recreate (entity destroyed and recreated with init state)
/// - Fault 6+: Evict (entity permanently removed from island, bridge notified)
#[derive(Debug, Clone, Copy, PartialEq, Eq, Structural)]
pub enum TrapResponse {
    Skip,
    Reset,
    Recreate,
    Evict,
}

/// Health state of an actor entity for progressive fault quarantine.
///
/// Quarantine schedule (exponential backoff by consecutive faults):
/// 1 tick, 2 ticks, 4 ticks (+ reset), 8 ticks, 16 ticks (+ recreate), then eviction.
/// The fault counter resets after 100 consecutive clean ticks.
#[derive(Debug, Clone, PartialEq, Eq, Structural)]
pub enum ActorHealthState {
    Healthy,
    Quarantined { consecutive_faults: u32, resume_at_tick: u64 },
    Evicted,
}

#[derive(Debug, Clone, Copy, PartialEq, Eq, Structural)]
pub struct FaultEntry {
    pub consecutive_faults: u32,
    pub resume_at_tick: u64,
    pub clean_ticks: u32,
}

pub const RECREATE_THRESHOLD: u32 = 5;

pub const EVICTION_THRESHOLD: u32 = 6;

pub const CLEAN_TICK_RESET: u32 = 100;

/// Ticks an entity sits out after its `n`-th consecutive fault.
pub open spec fn quarantine_ticks(n: u32) -> u64 {
    if n <= 1 {
        1
    } else if n == 2 {
        2
    } else if n == 3 {
        4
    } else if n == 4 {
        8
    } else {
        16
    }
}

/// The engine's response to the `n`-th consecutive fault.
pub open spec fn trap_response(n: u32) -> TrapResponse {
    if n >= EVICTION_THRESHOLD {
        TrapResponse::Evict
    } else if n == 3 {
        TrapResponse::Reset
    } else if n >= RECREATE_THRESHOLD {
        TrapResponse::Recreate
    } else {
        TrapResponse::Skip
    }
}

/// Consecutive faults recorded for `e` (0 when it is not tracked).
pub open spec fn fault_count(m: Map<u32, FaultEntry>, e: u32) -> u32 {
    if m.contains_key(e) {
        m[e].consecutive_faults
    } else {
        0
    }
}

/// The tracker after a fault of `e` at `tick`.
pub open spec fn after_fault(m: Map<u32, FaultEntry>, e: u32, tick: u64) -> Map<u32, FaultEntry> {
    let n = (fault_count(m, e) + 1) as u32;
    m.insert(
        e,
        FaultEntry {
            consecutive_faults: n,
            resume_at_tick: if n >= EVICTION_THRESHOLD {
                u64::MAX
            } else {
                (tick + quarantine_ticks(n)) as u64
            },
            clean_ticks: 0,
        },
    )
}

/// The tracker after a clean tick of `e`.
pub open spec fn after_success(m: Map<u32, FaultEntry>, e: u32) -> Map<u32, FaultEntry> {
    if !m.contains_key(e) || m[e].consecutive_faults >= EVICTION_THRESHOLD {
        m
    } else if m[e].clean_ticks + 1 >= CLEAN_TICK_RESET {
        m.remove(e)
    } else {
        m.insert(e, FaultEntry { clean_ticks: (m[e].clean_ticks + 1) as u32, ..m[e] })
    }
}

/// The health of `e` as the tracker reports it.
pub open spec fn health(m: Map<u32, FaultEntry>, e: u32) -> ActorHealthState {
    if !m.contains_key(e) {
        ActorHealthState::Healthy
    } else if m[e].consecutive_faults >= EVICTION_THRESHOLD {
        ActorHealthState::Evicted
    } else {
        ActorHealthState::Quarantined {
            consecutive_faults: m[e].consecutive_faults,
            resume_at_tick: m[e].resume_at_tick,
        }
    }
}

/// Whether `e` runs at `tick`.
pub open spec fn may_tick(m: Map<u32, FaultEntry>, e: u32, tick: u64) -> bool {
    if !m.contains_key(e) {
        true
    } else if m[e].consecutive_faults >= EVICTION_THRESHOLD {
        false
    } else {
        tick >= m[e].resume_at_tick
    }
}

pub struct FaultTracker {
    entries: HashMap<u32, FaultEntry>,
}

impl View for FaultTracker {
    type V = Map<u32, FaultEntry>;

    closed spec fn view(&self) -> Map<u32, FaultEntry> {
        self.entries@
    }
}

/// Every tracked entity has faulted at least once and has fewer than 100 clean ticks.
pub open spec fn tracker_wf(m: Map<u32, FaultEntry>) -> bool {
    forall|e: u32|
        m.contains_key(e) ==> #[trigger] m[e].consecutive_faults >= 1 && m[e].clean_ticks
            < CLEAN_TICK_RESET
}

impl FaultTracker {
    pub open spec fn wf(&self) -> bool {
        tracker_wf(self@)
    }

    pub fn new() -> (t: FaultTracker)
        ensures
            t@ == Map::<u32, FaultEntry>::empty(),
            t.wf(),
    {
        FaultTracker { entries: HashMap::new() }
    }

    pub fn record_fault(&mut self, entity: &EntitySlot, current_tick: u64) -> (r: TrapResponse)
        requires
            fault_count(old(self)@, entity.0) < u32::MAX,
            fault_count(old(self)@, entity.0) + 1 < EVICTION_THRESHOLD ==> current_tick <= u64::MAX - 16,
            old(self).wf(),
        ensures
            final(self).wf(),
            final(self)@ == after_fault(old(self)@, entity.0, current_tick),
            r == trap_response((fault_count(old(self)@, entity.0) + 1) as u32),
    {
        broadcast use vstd::std_specs::hash::group_hash_axioms;
        let prev = match self.entries.get(&entity.0) {
            Some(e) => *e,
            None => FaultEntry { consecutive_faults: 0, resume_at_tick: 0, clean_ticks: 0 },
        };
        let n = prev.consecutive_faults + 1;
        if n >= EVICTION_THRESHOLD {
            self.entries.insert(
                entity.0,
                FaultEntry { consecutive_faults: n, resume_at_tick: u64::MAX, clean_ticks: 0 },
            );
            return TrapResponse::Evict;
        }
        let skip: u64 = if n == 1 {
            1
        } else if n == 2 {
            2
        } else if n == 3 {
            4
        } else if n == 4 {
            8
        } else {
            16
        };
        self.entries.insert(
            entity.0,
            FaultEntry { consecutive_faults: n, resume_at_tick: current_tick + skip, clean_ticks: 0 },
        );
        if n == 3 {
            TrapResponse::Reset
        } else if n >= RECREATE_THRESHOLD {
            TrapResponse::Recreate
        } else {
            TrapResponse::Skip
        }
    }

    /// Resets fault state after 100 consecutive clean ticks.
    pub fn record_success(&mut self, entity: &EntitySlot)
        requires
            old(self).wf(),
        ensures
            final(self).wf(),
            final(self)@ == after_success(old(self)@, entity.0),
    {
        broadcast use vstd::std_specs::hash::group_hash_axioms;
        let cur = match self.entries.get(&entity.0) {
            Some(e) => *e,
            None => return ,
        };
        if cur.consecutive_faults >= EVICTION_THRESHOLD {
            return ;
        }
        let clean = cur.clean_ticks + 1;
        if clean >= CLEAN_TICK_RESET {
            self.entries.remove(&entity.0);
        } else {
            self.entries.insert(entity.0, FaultEntry { clean_ticks: clean, ..cur });
        }
    }

    pub fn should_tick(&self, entity: &EntitySlot, current_tick: u64) -> (b: bool)
        ensures
            b == may_tick(self@, entity.0, current_tick),
    {
        broadcast use vstd::std_specs::hash::group_hash_axioms;
        match self.entries.get(&entity.0) {
            None => true,
            Some(entry) => {
                if entry.consecutive_faults >= EVICTION_THRESHOLD {
                    false
                } else {
                    current_tick >= entry.resume_at_tick
                }
            },
        }
    }

    pub fn get_state(&self, entity: &EntitySlot) -> (s: ActorHealthState)
        ensures
            s == health(self@, entity.0),
    {
        broadcast use vstd::std_specs::hash::group_hash_axioms;
        match self.entries.get(&entity.0) {
            None => ActorHealthState::Healthy,
            Some(entry) => {
                if entry.consecutive_faults >= EVICTION_THRESHOLD {
                    ActorHealthState::Evicted
                } else {
                    ActorHealthState::Quarantined {
                        consecutive_faults: entry.consecutive_faults,
                        resume_at_tick: entry.resume_at_tick,
                    }
                }
            },
        }
    }

    pub fn remove_entity(&mut self, entity: &EntitySlot)
        requires
            old(self).wf(),
        ensures
            final(self).wf(),
            final(self)@ == old(self)@.remove(entity.0),
    {
        broadcast use vstd::std_specs::hash::group_hash_axioms;
        self.entries.remove(&entity.0);
    }
}

/// `n` consecutive clean ticks of `e`.
pub open spec fn after_successes(m: Map<u32, FaultEntry>, e: u32, n: nat) -> Map<u32, FaultEntry>
    decreases n,
{
    if n == 0 {
        m
    } else {
        after_success(after_successes(m, e, (n - 1) as nat), e)
    }
}

/// An entity runs exactly when it is healthy, or quarantined and its resume tick has come.
pub proof fn law_should_tick_agrees_with_state(m: Map<u32, FaultEntry>, e: u32, tick: u64)
    ensures
        may_tick(m, e, tick) == match health(m, e) {
            ActorHealthState::Healthy => true,
            ActorHealthState::Quarantined { resume_at_tick, .. } => tick >= resume_at_tick,
            ActorHealthState::Evicted => false,
        },
{
}

/// Eviction is permanent: further faults and clean ticks leave an evicted entity evicted,
/// and it never runs again.
pub proof fn law_evicted_stays_evicted(m: Map<u32, FaultEntry>, e: u32, tick: u64, t: u64)
    requires
        health(m, e) == ActorHealthState::Evicted,
        fault_count(m, e) < u32::MAX,
    ensures
        health(after_success(m, e), e) == ActorHealthState::Evicted,
        health(after_fault(m, e, tick), e) == ActorHealthState::Evicted,
        !may_tick(m, e, t),
{
}

/// Faults and clean ticks of one entity leave every other entity's record unchanged.
pub proof fn law_entities_independent(m: Map<u32, FaultEntry>, e: u32, other: u32, tick: u64)
    requires
        e != other,
    ensures
        health(after_fault(m, e, tick), other) == health(m, other),
        health(after_success(m, e), other) == health(m, other),
        health(m.remove(e), other) == health(m, other),
{
}

/// The escalation ladder: the `n`-th consecutive fault answers Skip, Skip, Reset, Skip,
/// Recreate, then Evict from the sixth on, and quarantines for 1, 2, 4, 8, 16 ticks.
pub proof fn law_escalation_ladder(m: Map<u32, FaultEntry>, e: u32, tick: u64)
    requires
        fault_count(m, e) < u32::MAX,
        tick <= u64::MAX - 16,
    ensures
        fault_count(after_fault(m, e, tick), e) == fault_count(m, e) + 1,
        fault_count(m, e) == 0 ==> trap_response(1) == TrapResponse::Skip && health(
            after_fault(m, e, tick),
            e,
        ) == (ActorHealthState::Quarantined { consecutive_faults: 1, resume_at_tick: (tick + 1) as u64 }),
        fault_count(m, e) == 1 ==> trap_response(2) == TrapResponse::Skip && health(
            after_fault(m, e, tick),
            e,
        ) == (ActorHealthState::Quarantined { consecutive_faults: 2, resume_at_tick: (tick + 2) as u64 }),
        fault_count(m, e) == 2 ==> trap_response(3) == TrapResponse::Reset && health(
            after_fault(m, e, tick),
            e,
        ) == (ActorHealthState::Quarantined { consecutive_faults: 3, resume_at_tick: (tick + 4) as u64 }),
        fault_count(m, e) == 3 ==> trap_response(4) == TrapResponse::Skip && health(
            after_fault(m, e, tick),
            e,
        ) == (ActorHealthState::Quarantined { consecutive_faults: 4, resume_at_tick: (tick + 8) as u64 }),
        fault_count(m, e) == 4 ==> trap_response(5) == TrapResponse::Recreate && health(
            after_fault(m, e, tick),
            e,
        ) == (ActorHealthState::Quarantined { consecutive_faults: 5, resume_at_tick: (tick + 16) as u64 }),
        fault_count(m, e) >= 5 ==> trap_response((fault_count(m, e) + 1) as u32) == TrapResponse::Evict
            && health(after_fault(m, e, tick), e) == ActorHealthState::Evicted,
{
}

proof fn lemma_successes_count_clean_ticks(m: Map<u32, FaultEntry>, e: u32, k: nat)
    requires
        tracker_wf(m),
        m.contains_key(e),
        m[e].consecutive_faults < EVICTION_THRESHOLD,
        m[e].clean_ticks + k < CLEAN_TICK_RESET,
    ensures
        after_successes(m, e, k).contains_key(e),
        after_successes(m, e, k)[e] == (FaultEntry { clean_ticks: (m[e].clean_ticks + k) as u32, ..m[e] }),
    decreases k,
{
    if k > 0 {
        lemma_successes_count_clean_ticks(m, e, (k - 1) as nat);
    }
}

/// A quarantined entity is forgiven after exactly 100 consecutive clean ticks: it stays
/// quarantined before then and is healthy from the hundredth on.
pub proof fn law_clean_ticks_restore_health(m: Map<u32, FaultEntry>, e: u32, k: nat)
    requires
        tracker_wf(m),
        m.contains_key(e),
        m[e].consecutive_faults < EVICTION_THRESHOLD,
    ensures
        m[e].clean_ticks + k < CLEAN_TICK_RESET ==> health(after_successes(m, e, k), e) == (
        ActorHealthState::Quarantined {
            consecutive_faults: m[e].consecutive_faults,
            resume_at_tick: m[e].resume_at_tick,
        }),
        m[e].clean_ticks + k == CLEAN_TICK_RESET ==> health(after_successes(m, e, k), e)
            == ActorHealthState::Healthy,
{
    if m[e].clean_ticks + k < CLEAN_TICK_RESET {
        lemma_successes_count_clean_ticks(m, e, k);
    } else if m[e].clean_ticks + k == CLEAN_TICK_RESET {
        let km = (k - 1) as nat;
        lemma_successes_count_clean_ticks(m, e, km);
    }
}

} // verus!
