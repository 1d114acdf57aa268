//! The island manager's decisions: which islands run, their lifecycle and player counts,
//! passivation, zone transfers and client registration.
//!
//! The manager owns no thread or channel. Each command answers with its result and, where
//! the caller has work to do (start an island thread, send an entity command), with a plain
//! value that says what.
use vstd::prelude::*;
use crate::command::{
    ActivationError, ClientConnectedError, LifecycleError, ManagerMetrics, RegisterClientError,
    ZoneTransferError,
};
use crate::config::ServerConfig;
use crate::distinct::{
    distinct, has_key, key_map, lemma_key_map_at, lemma_key_map_len, lemma_push, lemma_remove, lemma_update,
};
use crate::island::handle::{IslandHandle, ThreadModel};
use crate::island::registry::{IslandRegistry, cap_u32, cap_u64, count_active, due_at, ids_of, sum_entities};
use crate::island::state_machine::{IslandState, TransitionError, state_name, valid_transition};
use crate::text::{decimal, decimal_chars};
use crate::tick::engine::EngineCommand;
use crate::tick::types::SessionId;
use crate::types::{ClientIndex, EntitySlot, IslandId, IslandManifest, IslandSnapshot};
use crate::zone_transfer::{
    AcceptVerdict, BuffState, MAX_PLAYER_ID_LEN, MAX_TOKEN_BYTES, TransferError, TransferredPlayer,
    ZoneTransferManager, ZoneTransferToken, accept_model, buff_views, first_keys, hmac_sha256,
    is_overdue, is_pending, without_key, TokenView,
};

verus! {

/// Highest entity slot handed out: a slot doubles as the client's `u16` fanout index.
pub const MAX_SLOT: u32 = 65535;

/// Per-island entity-slot allocator: slots released by departed clients are reused first,
/// most recent first; then slots come from a counter.
#[derive(Debug, Clone)]
pub struct SlotAllocator {
    next: u32,
    free: Vec<u32>,
}

impl SlotAllocator {
    pub closed spec fn next_spec(&self) -> u32 {
        self.next
    }

    pub closed spec fn free_spec(&self) -> Seq<u32> {
        self.free@
    }

    pub fn new() -> (a: SlotAllocator)
        ensures
            a.next_spec() == 0,
            a.free_spec() == Seq::<u32>::empty(),
    {
        SlotAllocator { next: 0, free: Vec::new() }
    }

    /// The next slot: the last released one, else the counter's, else `None` past
    /// `MAX_SLOT`.
    pub fn allocate(&mut self) -> (r: Option<u32>)
        ensures
            old(self).free_spec().len() > 0 ==> r == Some(old(self).free_spec().last()) && final(self).free_spec()
                == old(self).free_spec().drop_last() && final(self).next_spec() == old(self).next_spec(),
            old(self).free_spec().len() == 0 && old(self).next_spec() > MAX_SLOT ==> r is None && final(self).free_spec() == old(self).free_spec() && final(self).next_spec() == old(self).next_spec(),
            old(self).free_spec().len() == 0 && old(self).next_spec() <= MAX_SLOT ==> r == Some(old(self).next_spec())
                && final(self).next_spec() == old(self).next_spec() + 1 && final(self).free_spec() == old(self).free_spec(),
    {
        match self.free.pop() {
            Some(s) => Some(s),
            None => {
                if self.next > MAX_SLOT {
                    return None;
                }
                let slot = self.next;
                self.next = self.next + 1;
                Some(slot)
            },
        }
    }

    /// Returns a slot for reuse.
    pub fn release(&mut self, slot: u32)
        ensures
            final(self).free_spec() == old(self).free_spec().push(slot),
            final(self).next_spec() == old(self).next_spec(),
    {
        self.free.push(slot);
    }
}

/// Slots an allocator hands out fit a client index: when every released slot did, so does
/// every allocated one.
pub proof fn law_slots_fit_client_index(a: SlotAllocator)
    requires
        forall|i: int| 0 <= i < a.free_spec().len() ==> #[trigger] a.free_spec()[i] <= MAX_SLOT,
    ensures
        a.free_spec().len() > 0 ==> a.free_spec().last() <= MAX_SLOT,
        a.free_spec().len() == 0 && a.next_spec() <= MAX_SLOT ==> a.next_spec() <= u16::MAX,
{
    if a.free_spec().len() > 0 {
        assert(a.free_spec()[a.free_spec().len() - 1] <= MAX_SLOT);
    }
}

/// A passivated island: its snapshot and the manifest it was activated with.
#[derive(Debug)]
pub struct PassivatedIsland {
    pub snapshot: IslandSnapshot,
    pub manifest: IslandManifest,
    pub passivate_when_empty: bool,
}

/// What the caller starts: an island thread for `manifest`, restored from `snapshot` when
/// there is one.
#[derive(Debug)]
pub struct SpawnIsland {
    pub manifest: IslandManifest,
    pub snapshot: Option<IslandSnapshot>,
    pub thread_model: ThreadModel,
    pub tick_rate_hz: u8,
}

/// Where a bridge message goes.
#[derive(Debug)]
pub enum BridgeRoute {
    /// To the running island's bridge channel.
    Deliver,
    /// The island was passivated: it is reactivated, and the message is dropped.
    Reactivate(SpawnIsland),
}

/// How a passivating island's thread ended.
#[derive(Debug)]
pub enum PassivationOutcome {
    Panicked,
    Snapshot(IslandSnapshot),
    NoSnapshot,
}

pub open spec fn pkey() -> spec_fn((String, PassivatedIsland)) -> Seq<char> {
    |p: (String, PassivatedIsland)| p.0@
}

pub open spec fn akey() -> spec_fn((String, SlotAllocator)) -> Seq<char> {
    |p: (String, SlotAllocator)| p.0@
}

pub open spec fn ckey() -> spec_fn((u64, IslandId, EntitySlot, ClientIndex)) -> u64 {
    |p: (u64, IslandId, EntitySlot, ClientIndex)| p.0
}

/// `secs` seconds after `now_ms`, saturating.
pub open spec fn deadline_after(now_ms: u64, secs: u64) -> u64 {
    let d = now_ms + secs * 1000;
    if d > u64::MAX { u64::MAX } else { d as u64 }
}

fn after_secs(now_ms: u64, secs: u64) -> (d: u64)
    ensures
        d == deadline_after(now_ms, secs),
{
    let ms: u128 = secs as u128 * 1000;
    let d: u128 = now_ms as u128 + ms;
    if d > u64::MAX as u128 {
        u64::MAX
    } else {
        d as u64
    }
}

/// The thread model of an island with this many entities.
pub open spec fn thread_model_for(entity_count: u32, threshold: u32) -> ThreadModel {
    if entity_count >= threshold { ThreadModel::Dedicated } else { ThreadModel::Pooled }
}

/// The record a newly spawned island starts with: running, no players, and when it
/// passivates when empty, an idle deadline.
pub open spec fn spawned_handle_ok(h: IslandHandle, m: IslandManifest, pwe: bool, cfg: ServerConfig, now_ms: u64) -> bool {
    &&& h.island_id@ == m.island_id@
    &&& h.state == IslandState::Running
    &&& h.thread_model == thread_model_for(m.entity_count, cfg.entity_threshold)
    &&& h.entity_count == m.entity_count
    &&& h.manifest.island_id@ == m.island_id@
    &&& h.manifest.entity_count == m.entity_count
    &&& h.player_count == 0
    &&& h.passivation_deadline_ms == (if pwe {
        Some(deadline_after(now_ms, cfg.idle_timeout_secs))
    } else {
        None
    })
    &&& h.passivate_when_empty == pwe
}

/// The island manager.
pub struct IslandManager {
    config: ServerConfig,
    registry: IslandRegistry,
    passivated: Vec<(String, PassivatedIsland)>,
    zone_transfer: Option<ZoneTransferManager>,
    connected_clients: Vec<u64>,
    max_clients: usize,
    slot_allocators: Vec<(String, SlotAllocator)>,
    client_registry: Vec<(u64, IslandId, EntitySlot, ClientIndex)>,
}

impl IslandManager {
    pub closed spec fn config_spec(&self) -> ServerConfig {
        self.config
    }

    /// The live islands, by id.
    pub closed spec fn islands(&self) -> Map<Seq<char>, IslandHandle> {
        self.registry.view_map()
    }

    /// The passivated islands, by id.
    pub closed spec fn passivated_spec(&self) -> Map<Seq<char>, (String, PassivatedIsland)> {
        key_map(self.passivated@, pkey())
    }

    pub closed spec fn zone_spec(&self) -> Option<ZoneTransferManager> {
        self.zone_transfer
    }

    /// The session ids of connected clients, in connection order.
    pub closed spec fn clients(&self) -> Seq<u64> {
        self.connected_clients@
    }

    pub closed spec fn max_clients_spec(&self) -> usize {
        self.max_clients
    }

    /// Each island's slot allocator, by island id.
    pub closed spec fn allocators(&self) -> Map<Seq<char>, (String, SlotAllocator)> {
        key_map(self.slot_allocators@, akey())
    }

    /// Each registered client's island, slot and fanout index, by session id.
    pub closed spec fn registered(&self) -> Map<u64, (u64, IslandId, EntitySlot, ClientIndex)> {
        key_map(self.client_registry@, ckey())
    }

    pub closed spec fn wf(&self) -> bool {
        &&& self.registry.wf()
        &&& distinct(self.passivated@, pkey())
        &&& distinct(self.slot_allocators@, akey())
        &&& distinct(self.client_registry@, ckey())
        &&& forall|j: int, i: int| 0 <= j < self.slot_allocators@.len() && 0 <= i < self.slot_allocators@[j].1.free_spec().len()
            ==> #[trigger] self.slot_allocators@[j].1.free_spec()[i] <= MAX_SLOT
        &&& forall|j: int| 0 <= j < self.client_registry@.len() ==> (#[trigger] self.client_registry@[j]).2.0 <= MAX_SLOT
    }

    /// How many sessions are registered with an island's fanout.
    pub fn client_registry_len(&self) -> (n: usize)
        requires
            self.wf(),
        ensures
            n == self.registered().dom().len(),
    {
        proof { lemma_key_map_len(self.client_registry@, ckey()); }
        self.client_registry.len()
    }

    /// A manager with no island, room for 4096 clients, and a zone-transfer manager when
    /// the settings configure one.
    pub fn new(config: ServerConfig) -> (m: IslandManager)
        ensures
            m.wf(),
            m.config_spec() == config,
            m.islands() == Map::<Seq<char>, IslandHandle>::empty(),
            m.passivated_spec() == Map::<Seq<char>, (String, PassivatedIsland)>::empty(),
            m.clients() == Seq::<u64>::empty(),
            m.max_clients_spec() == 4096,
            m.allocators() == Map::<Seq<char>, (String, SlotAllocator)>::empty(),
            m.registered() == Map::<u64, (u64, IslandId, EntitySlot, ClientIndex)>::empty(),
            config.zone_transfer is None ==> m.zone_spec() is None,
            config.zone_transfer matches Some(c) ==> (m.zone_spec() matches Some(z) && z.in_flight_view().len() == 0
                && z.dedup_view().len() == 0 && z.key() == c.hmac_secret@),
    {
        let zone_transfer = match &config.zone_transfer {
            Some(c) => Some(ZoneTransferManager::new(c.clone_config())),
            None => None,
        };
        let m = IslandManager {
            config,
            registry: IslandRegistry::new(),
            passivated: Vec::new(),
            zone_transfer,
            connected_clients: Vec::new(),
            max_clients: 4096,
            slot_allocators: Vec::new(),
            client_registry: Vec::new(),
        };
        assert(m.passivated_spec() =~= Map::<Seq<char>, (String, PassivatedIsland)>::empty());
        assert(m.allocators() =~= Map::<Seq<char>, (String, SlotAllocator)>::empty());
        assert(m.registered() =~= Map::<u64, (u64, IslandId, EntitySlot, ClientIndex)>::empty());
        m
    }
}


/// The manager's other parts are as they were.
pub open spec fn keeps_all_but_islands(a: IslandManager, b: IslandManager) -> bool {
    &&& b.config_spec() == a.config_spec()
    &&& b.passivated_spec() == a.passivated_spec()
    &&& b.zone_spec() == a.zone_spec()
    &&& b.clients() == a.clients()
    &&& b.max_clients_spec() == a.max_clients_spec()
    &&& b.allocators() == a.allocators()
    &&& b.registered() == a.registered()
}

/// The island's record with its player count and passivation deadline changed.
pub open spec fn with_players(h: IslandHandle, players: u32, deadline: Option<u64>) -> IslandHandle {
    IslandHandle { player_count: players, passivation_deadline_ms: deadline, ..h }
}

/// The zone-transfer managers hold the same transfers, dedup entries and settings.
pub open spec fn same_zone(a: Option<ZoneTransferManager>, b: Option<ZoneTransferManager>) -> bool {
    match (a, b) {
        (None, None) => true,
        (Some(x), Some(y)) => x.in_flight_view() == y.in_flight_view() && x.dedup_view() == y.dedup_view()
            && x.config_spec() == y.config_spec() && x.key() == y.key() && x.ttl() == y.ttl(),
        _ => false,
    }
}

/// The island's record after a player leaves at `now_ms`.
pub open spec fn after_player_left(h: IslandHandle, now_ms: u64, cfg: ServerConfig) -> IslandHandle {
    let n: u32 = if h.player_count == 0 { 0 } else { (h.player_count - 1) as u32 };
    with_players(
        h,
        n,
        if n == 0 && h.passivate_when_empty {
            Some(deadline_after(now_ms, cfg.grace_period_secs))
        } else {
            h.passivation_deadline_ms
        },
    )
}

/// Player activity on an island without players that passivates when empty pushes its
/// passivation back to a full idle timeout.
pub open spec fn activity_deadline(h: IslandHandle, now_ms: u64, cfg: ServerConfig) -> Option<u64> {
    if h.player_count == 0 && h.passivate_when_empty {
        Some(deadline_after(now_ms, cfg.idle_timeout_secs))
    } else {
        h.passivation_deadline_ms
    }
}

impl IslandManager {
    pub closed spec fn handles(&self) -> Seq<IslandHandle> {
        self.registry.handles()
    }

    fn find_passivated(&self, id: &IslandId) -> (r: Option<usize>)
        requires
            self.wf(),
        ensures
            r matches Some(i) ==> i < self.passivated@.len() && self.passivated@[i as int].0@ == id@
                && self.passivated_spec().contains_key(id@) && self.passivated_spec()[id@] == self.passivated@[i as int],
            r is None <==> !self.passivated_spec().contains_key(id@),
    {
        let mut i: usize = 0;
        while i < self.passivated.len()
            invariant
                i <= self.passivated@.len(),
                distinct(self.passivated@, pkey()),
                forall|j: int| 0 <= j < i ==> pkey()(#[trigger] self.passivated@[j]) != id@,
            decreases self.passivated.len() - i,
        {
            if self.passivated[i].0 == id.0 {
                proof {
                    lemma_key_map_at(self.passivated@, pkey(), i as int);
                }
                return Some(i);
            }
            i = i + 1;
        }
        None
    }

    fn find_allocator(&self, id: &IslandId) -> (r: Option<usize>)
        requires
            self.wf(),
        ensures
            r matches Some(i) ==> i < self.slot_allocators@.len() && self.slot_allocators@[i as int].0@ == id@
                && self.allocators().contains_key(id@) && self.allocators()[id@] == self.slot_allocators@[i as int],
            r is None <==> !self.allocators().contains_key(id@),
    {
        let mut i: usize = 0;
        while i < self.slot_allocators.len()
            invariant
                i <= self.slot_allocators@.len(),
                distinct(self.slot_allocators@, akey()),
                forall|j: int| 0 <= j < i ==> akey()(#[trigger] self.slot_allocators@[j]) != id@,
            decreases self.slot_allocators.len() - i,
        {
            if self.slot_allocators[i].0 == id.0 {
                proof {
                    lemma_key_map_at(self.slot_allocators@, akey(), i as int);
                }
                return Some(i);
            }
            i = i + 1;
        }
        None
    }

    fn find_client(&self, session_id: u64) -> (r: Option<usize>)
        requires
            self.wf(),
        ensures
            r matches Some(i) ==> i < self.client_registry@.len() && self.client_registry@[i as int].0 == session_id
                && self.registered().contains_key(session_id) && self.registered()[session_id] == self.client_registry@[i as int],
            r is None <==> !self.registered().contains_key(session_id),
    {
        let mut i: usize = 0;
        while i < self.client_registry.len()
            invariant
                i <= self.client_registry@.len(),
                distinct(self.client_registry@, ckey()),
                forall|j: int| 0 <= j < i ==> ckey()(#[trigger] self.client_registry@[j]) != session_id,
            decreases self.client_registry.len() - i,
        {
            if self.client_registry[i].0 == session_id {
                proof {
                    lemma_key_map_at(self.client_registry@, ckey(), i as int);
                }
                return Some(i);
            }
            i = i + 1;
        }
        None
    }

    /// Records a newly spawned island, running, and says what to start.
    fn spawn_island(
        &mut self,
        manifest: IslandManifest,
        passivate_when_empty: bool,
        snapshot: Option<IslandSnapshot>,
        now_ms: u64,
    ) -> (s: SpawnIsland)
        requires
            old(self).wf(),
        ensures
            final(self).wf(),
            final(self).islands().contains_key(manifest.island_id@),
            spawned_handle_ok(final(self).islands()[manifest.island_id@], manifest, passivate_when_empty, old(self).config_spec(), now_ms),
            final(self).islands().remove(manifest.island_id@) == old(self).islands().remove(manifest.island_id@),
            keeps_all_but_islands(*old(self), *final(self)),
            s.manifest.island_id@ == manifest.island_id@,
            s.manifest.entity_count == manifest.entity_count,
            s.snapshot == snapshot,
            s.thread_model == thread_model_for(manifest.entity_count, old(self).config_spec().entity_threshold),
            s.tick_rate_hz == old(self).config_spec().tick_rate_hz,
    {
        let thread_model = if manifest.entity_count >= self.config.entity_threshold {
            ThreadModel::Dedicated
        } else {
            ThreadModel::Pooled
        };
        let deadline = if passivate_when_empty {
            Some(after_secs(now_ms, self.config.idle_timeout_secs))
        } else {
            None
        };
        let state = match IslandState::Initializing.transition(IslandState::Running) {
            Ok(st) => st,
            Err(_) => IslandState::Running,
        };
        let handle = IslandHandle {
            island_id: IslandId::new(manifest.island_id.as_str()),
            state,
            thread_model,
            entity_count: manifest.entity_count,
            manifest: manifest.duplicate(),
            player_count: 0,
            passivation_deadline_ms: deadline,
            passivate_when_empty,
        };
        let ghost h = handle;
        self.registry.insert(handle);
        proof {
            assert(self.islands().remove(manifest.island_id@) =~= old(self).islands().remove(manifest.island_id@));
        }
        SpawnIsland { manifest, snapshot, thread_model, tick_rate_hz: self.config.tick_rate_hz }
    }

    /// Activates an island from its manifest: refused when it already runs or the server
    /// runs its maximum of active islands.
    pub fn handle_activate(&mut self, manifest: IslandManifest, passivate_when_empty: bool, now_ms: u64) -> (r: Result<
        SpawnIsland,
        ActivationError,
    >)
        requires
            old(self).wf(),
        ensures
            final(self).wf(),
            old(self).islands().contains_key(manifest.island_id@) ==> (r matches Err(ActivationError::DuplicateIsland(id))
                && id@ == manifest.island_id@) && *final(self) == *old(self),
            !old(self).islands().contains_key(manifest.island_id@) && cap_u32(count_active(old(self).handles()))
                >= old(self).config_spec().max_islands ==> r == Err::<SpawnIsland, ActivationError>(
                ActivationError::AtCapacity { max: old(self).config_spec().max_islands },
            ) && *final(self) == *old(self),
            !old(self).islands().contains_key(manifest.island_id@) && cap_u32(count_active(old(self).handles()))
                < old(self).config_spec().max_islands ==> r is Ok && final(self).islands().contains_key(manifest.island_id@)
                && spawned_handle_ok(final(self).islands()[manifest.island_id@], manifest, passivate_when_empty, old(self).config_spec(), now_ms)
                && final(self).islands().remove(manifest.island_id@) == old(self).islands(),
            keeps_all_but_islands(*old(self), *final(self)),
    {
        if self.registry.contains(&manifest.island_id) {
            return Err(ActivationError::DuplicateIsland(IslandId::new(manifest.island_id.as_str())));
        }
        if self.registry.active_count() >= self.config.max_islands {
            return Err(ActivationError::AtCapacity { max: self.config.max_islands });
        }
        let ghost old_map = self.islands();
        let ghost id = manifest.island_id@;
        let s = self.spawn_island(manifest, passivate_when_empty, None, now_ms);
        proof {
            assert(old_map.remove(id) =~= old_map);
        }
        Ok(s)
    }

    /// Drains an island: it must be running; it moves to draining and is stopped and
    /// forgotten (the caller tells its thread and waits for it).
    pub fn handle_drain(&mut self, island_id: &IslandId) -> (r: Result<(), LifecycleError>)
        requires
            old(self).wf(),
        ensures
            final(self).wf(),
            !old(self).islands().contains_key(island_id@) ==> (r matches Err(LifecycleError::NotFound(id)) && id@
                == island_id@) && *final(self) == *old(self),
            old(self).islands().contains_key(island_id@) && valid_transition(
                old(self).islands()[island_id@].state,
                IslandState::Draining,
            ) ==> r is Ok && final(self).islands() == old(self).islands().remove(island_id@),
            old(self).islands().contains_key(island_id@) && !valid_transition(
                old(self).islands()[island_id@].state,
                IslandState::Draining,
            ) ==> (r matches Err(LifecycleError::InvalidTransition(msg)) && msg@ == "invalid transition: "@ + state_name(
                old(self).islands()[island_id@].state,
            ) + " -> "@ + state_name(IslandState::Draining)) && *final(self) == *old(self),
            keeps_all_but_islands(*old(self), *final(self)),
    {
        let state = match self.registry.get(island_id) {
            None => {
                return Err(LifecycleError::NotFound(IslandId::new(island_id.as_str())));
            },
            Some(h) => h.state,
        };
        match state.transition(IslandState::Draining) {
            Err(e) => Err(LifecycleError::InvalidTransition(e.to_string())),
            Ok(_) => {
                self.registry.remove(island_id);
                Ok(())
            },
        }
    }

    /// Stops an island whatever its state (the caller tells its thread and waits for it).
    pub fn handle_stop(&mut self, island_id: &IslandId) -> (r: Result<(), LifecycleError>)
        requires
            old(self).wf(),
        ensures
            final(self).wf(),
            !old(self).islands().contains_key(island_id@) ==> (r matches Err(LifecycleError::NotFound(id)) && id@
                == island_id@) && *final(self) == *old(self),
            old(self).islands().contains_key(island_id@) ==> r is Ok && final(self).islands() == old(self).islands().remove(
                island_id@,
            ),
            keeps_all_but_islands(*old(self), *final(self)),
    {
        if !self.registry.contains(island_id) {
            return Err(LifecycleError::NotFound(IslandId::new(island_id.as_str())));
        }
        self.registry.remove(island_id);
        Ok(())
    }

    /// Replaces the island's record with one of different player count and deadline.
    fn set_players(&mut self, island_id: &IslandId, players: u32, deadline: Option<u64>)
        requires
            old(self).wf(),
            old(self).islands().contains_key(island_id@),
        ensures
            final(self).wf(),
            final(self).islands() == old(self).islands().insert(
                island_id@,
                with_players(old(self).islands()[island_id@], players, deadline),
            ),
            keeps_all_but_islands(*old(self), *final(self)),
    {
        let h = match self.registry.remove(island_id) {
            Some(h) => h,
            None => {
                return ;
            },
        };
        proof {
            old(self).registry.lemma_filed_by_id();
        }
        let h2 = IslandHandle { player_count: players, passivation_deadline_ms: deadline, ..h };
        self.registry.insert(h2);
        proof {
            assert(self.islands() =~= old(self).islands().insert(
                island_id@,
                with_players(old(self).islands()[island_id@], players, deadline),
            ));
        }
    }

    /// A player joined the island: one more player, and no passivation scheduled.
    pub fn handle_player_joined(&mut self, island_id: &IslandId) -> (r: Result<(), LifecycleError>)
        requires
            old(self).wf(),
        ensures
            final(self).wf(),
            !old(self).islands().contains_key(island_id@) ==> (r matches Err(LifecycleError::NotFound(id)) && id@
                == island_id@) && *final(self) == *old(self),
            old(self).islands().contains_key(island_id@) ==> r is Ok && final(self).islands() == old(self).islands().insert(
                island_id@,
                with_players(
                    old(self).islands()[island_id@],
                    if old(self).islands()[island_id@].player_count == u32::MAX {
                        u32::MAX
                    } else {
                        (old(self).islands()[island_id@].player_count + 1) as u32
                    },
                    None,
                ),
            ),
            keeps_all_but_islands(*old(self), *final(self)),
    {
        let count = match self.registry.get(island_id) {
            None => {
                return Err(LifecycleError::NotFound(IslandId::new(island_id.as_str())));
            },
            Some(h) => h.player_count,
        };
        self.set_players(island_id, count.saturating_add(1), None);
        Ok(())
    }

    /// A player left the island: one player fewer; when none is left on an island that
    /// passivates when empty, passivation is scheduled after the grace period.
    pub fn handle_player_left(&mut self, island_id: &IslandId, now_ms: u64) -> (r: Result<(), LifecycleError>)
        requires
            old(self).wf(),
        ensures
            final(self).wf(),
            !old(self).islands().contains_key(island_id@) ==> (r matches Err(LifecycleError::NotFound(id)) && id@
                == island_id@) && *final(self) == *old(self),
            old(self).islands().contains_key(island_id@) ==> ({
                let h = old(self).islands()[island_id@];
                let n: u32 = if h.player_count == 0 { 0 } else { (h.player_count - 1) as u32 };
                &&& r is Ok
                &&& final(self).islands() == old(self).islands().insert(
                    island_id@,
                    with_players(
                        h,
                        n,
                        if n == 0 && h.passivate_when_empty {
                            Some(deadline_after(now_ms, old(self).config_spec().grace_period_secs))
                        } else {
                            h.passivation_deadline_ms
                        },
                    ),
                )
            }),
            keeps_all_but_islands(*old(self), *final(self)),
    {
        let (count, pwe, deadline) = match self.registry.get(island_id) {
            None => {
                return Err(LifecycleError::NotFound(IslandId::new(island_id.as_str())));
            },
            Some(h) => (h.player_count, h.passivate_when_empty, h.passivation_deadline_ms),
        };
        let n = count.saturating_sub(1);
        let d = if n == 0 && pwe {
            Some(after_secs(now_ms, self.config.grace_period_secs))
        } else {
            deadline
        };
        self.set_players(island_id, n, d);
        Ok(())
    }

    /// Player input on the island: on an empty island that passivates when empty, the
    /// idle deadline starts over.
    pub fn handle_player_input(&mut self, island_id: &IslandId, now_ms: u64) -> (r: Result<(), LifecycleError>)
        requires
            old(self).wf(),
        ensures
            final(self).wf(),
            !old(self).islands().contains_key(island_id@) ==> (r matches Err(LifecycleError::NotFound(id)) && id@
                == island_id@) && *final(self) == *old(self),
            old(self).islands().contains_key(island_id@) ==> r is Ok && final(self).islands() == old(self).islands().insert(
                island_id@,
                with_players(
                    old(self).islands()[island_id@],
                    old(self).islands()[island_id@].player_count,
                    activity_deadline(old(self).islands()[island_id@], now_ms, old(self).config_spec()),
                ),
            ),
            keeps_all_but_islands(*old(self), *final(self)),
    {
        let (count, pwe, deadline) = match self.registry.get(island_id) {
            None => {
                return Err(LifecycleError::NotFound(IslandId::new(island_id.as_str())));
            },
            Some(h) => (h.player_count, h.passivate_when_empty, h.passivation_deadline_ms),
        };
        let d = if count == 0 && pwe {
            Some(after_secs(now_ms, self.config.idle_timeout_secs))
        } else {
            deadline
        };
        self.set_players(island_id, count, d);
        Ok(())
    }

    /// Routes a bridge message: to the island when it runs (restarting its idle deadline
    /// as input does), else reactivating it from its passivation snapshot.
    pub fn handle_bridge_message(&mut self, island_id: &IslandId, now_ms: u64) -> (r: Result<BridgeRoute, LifecycleError>)
        requires
            old(self).wf(),
        ensures
            final(self).wf(),
            old(self).islands().contains_key(island_id@) ==> r is Ok && (r matches Ok(BridgeRoute::Deliver))
                && final(self).islands() == old(self).islands().insert(
                island_id@,
                with_players(
                    old(self).islands()[island_id@],
                    old(self).islands()[island_id@].player_count,
                    activity_deadline(old(self).islands()[island_id@], now_ms, old(self).config_spec()),
                ),
            ) && final(self).passivated_spec() == old(self).passivated_spec(),
            !old(self).islands().contains_key(island_id@) && old(self).passivated_spec().contains_key(island_id@)
                ==> (r matches Ok(BridgeRoute::Reactivate(s)) && s.snapshot == Some(
                old(self).passivated_spec()[island_id@].1.snapshot,
            ) && s.manifest.island_id@ == old(self).passivated_spec()[island_id@].1.manifest.island_id@)
                && final(self).passivated_spec() == old(self).passivated_spec().remove(island_id@),
            !old(self).islands().contains_key(island_id@) && !old(self).passivated_spec().contains_key(island_id@)
                ==> (r matches Err(LifecycleError::NotFound(id)) && id@ == island_id@) && *final(self) == *old(self),
            final(self).config_spec() == old(self).config_spec(),
            final(self).zone_spec() == old(self).zone_spec(),
            final(self).clients() == old(self).clients(),
            final(self).registered() == old(self).registered(),
            final(self).allocators() == old(self).allocators(),
    {
        if self.registry.contains(island_id) {
            let r = self.handle_player_input(island_id, now_ms);
            return Ok(BridgeRoute::Deliver);
        }
        match self.find_passivated(island_id) {
            Some(i) => {
                let ghost ps = self.passivated@;
                let (_, p) = self.passivated.remove(i);
                proof {
                    lemma_remove(ps, pkey(), i as int);
                }
                let s = self.spawn_island(p.manifest, p.passivate_when_empty, Some(p.snapshot), now_ms);
                Ok(BridgeRoute::Reactivate(s))
            },
            None => Err(LifecycleError::NotFound(IslandId::new(island_id.as_str()))),
        }
    }

    /// A snapshot subscription needs a running island.
    pub fn handle_subscribe_snapshots(&self, island_id: &IslandId) -> (r: Result<(), LifecycleError>)
        requires
            self.wf(),
        ensures
            !self.islands().contains_key(island_id@) ==> (r matches Err(LifecycleError::NotFound(id)) && id@ == island_id@),
            self.islands().contains_key(island_id@) && self.islands()[island_id@].state != IslandState::Running ==> (r matches Err(
                LifecycleError::InvalidTransition(msg),
            ) && msg@ == "island "@ + island_id@ + " not running"@),
            self.islands().contains_key(island_id@) && self.islands()[island_id@].state == IslandState::Running ==> r is Ok,
    {
        match self.registry.get(island_id) {
            None => Err(LifecycleError::NotFound(IslandId::new(island_id.as_str()))),
            Some(h) => {
                if h.state != IslandState::Running {
                    let mut msg = String::from_str("island ");
                    msg.append(island_id.as_str());
                    msg.append(" not running");
                    Err(LifecycleError::InvalidTransition(msg))
                } else {
                    Ok(())
                }
            },
        }
    }

    /// The TTL of the zone-transfer tokens this manager signs, if zone transfer is set up.
    pub fn zone_token_ttl_ms(&self) -> (r: Option<u32>)
        ensures
            match self.zone_spec() {
                Some(z) => r == Some(z.ttl()),
                None => r is None,
            },
    {
        match &self.zone_transfer {
            Some(z) => Some(z.token_ttl_ms()),
            None => None,
        }
    }

    /// The manager's counts.
    pub fn collect_metrics(&self) -> (m: ManagerMetrics)
        requires
            self.wf(),
        ensures
            m.active_islands == cap_u32(count_active(self.handles())),
            m.total_islands == cap_u32(self.islands().len()),
            m.total_entities == cap_u64(sum_entities(self.handles())),
            m.connected_clients == self.clients().len(),
    {
        ManagerMetrics {
            active_islands: self.registry.active_count(),
            total_islands: self.registry.len(),
            total_entities: self.registry.total_entities(),
            connected_clients: self.connected_clients.len(),
        }
    }
}


/// An allocator's counter and free list.
pub open spec fn alloc_view(a: SlotAllocator) -> (u32, Seq<u32>) {
    (a.next_spec(), a.free_spec())
}

/// The slot an allocator in state `a` hands out next, if any.
pub open spec fn allocated(a: (u32, Seq<u32>)) -> Option<u32> {
    if a.1.len() > 0 {
        Some(a.1.last())
    } else if a.0 > MAX_SLOT {
        None
    } else {
        Some(a.0)
    }
}

/// `b` is allocator state `a` after `allocate`.
pub open spec fn after_allocate(a: (u32, Seq<u32>), b: (u32, Seq<u32>)) -> bool {
    if a.1.len() > 0 {
        b.1 == a.1.drop_last() && b.0 == a.0
    } else if a.0 > MAX_SLOT {
        b == a
    } else {
        b.1 == a.1 && b.0 == a.0 + 1
    }
}

/// Whether allocator state `a` is consistent with the slots `held` by clients: the free
/// list holds each slot once, every free or held slot is below the counter, and no free
/// slot is held.
pub open spec fn alloc_consistent(a: (u32, Seq<u32>), held: Set<u32>) -> bool {
    &&& forall|i: int, j: int| 0 <= i < j < a.1.len() ==> a.1[i] != a.1[j]
    &&& forall|i: int| 0 <= i < a.1.len() ==> a.1[i] < a.0 && !held.contains(#[trigger] a.1[i])
    &&& forall|s: u32| #[trigger] held.contains(s) ==> s < a.0
}

/// No slot is handed out twice while allocated: from a consistent state, `allocate` gives
/// a slot nobody holds and leaves a consistent state with it held; releasing a held slot
/// leaves a consistent state without it. A fresh allocator is consistent with nothing held.
pub proof fn law_slot_never_held_twice(a: (u32, Seq<u32>), held: Set<u32>, b: (u32, Seq<u32>), r: u32)
    requires
        alloc_consistent(a, held),
    ensures
        alloc_consistent((0, Seq::<u32>::empty()), Set::<u32>::empty()),
        allocated(a) == Some(r) && after_allocate(a, b) ==> !held.contains(r) && alloc_consistent(b, held.insert(r)),
        held.contains(r) ==> alloc_consistent((a.0, a.1.push(r)), held.remove(r)),
{
    if allocated(a) == Some(r) && after_allocate(a, b) {
        if a.1.len() > 0 {
            let n = a.1.len() - 1;
            assert(a.1[n] == r);
            assert forall|i: int| 0 <= i < b.1.len() implies b.1[i] < b.0 && !held.insert(r).contains(#[trigger] b.1[i]) by {
                assert(b.1[i] == a.1[i]);
                assert(a.1[i] != a.1[n]);
            }
            assert forall|i: int, j: int| 0 <= i < j < b.1.len() implies b.1[i] != b.1[j] by {
                assert(b.1[i] == a.1[i] && b.1[j] == a.1[j]);
            }
        } else {
            assert forall|s: u32| #[trigger] held.insert(r).contains(s) implies s < b.0 by {
                if s != r {
                    assert(held.contains(s));
                }
            }
        }
    }
    if held.contains(r) {
        let c = (a.0, a.1.push(r));
        assert forall|i: int| 0 <= i < c.1.len() implies c.1[i] < c.0 && !held.remove(r).contains(#[trigger] c.1[i]) by {
            if i < a.1.len() {
                assert(c.1[i] == a.1[i]);
            }
        }
        assert forall|i: int, j: int| 0 <= i < j < c.1.len() implies c.1[i] != c.1[j] by {
            if j == a.1.len() {
                assert(c.1[i] == a.1[i]);
                assert(!held.contains(a.1[i]));
            } else {
                assert(c.1[i] == a.1[i] && c.1[j] == a.1[j]);
            }
        }
    }
}

/// Allocator state `a` after `allocate` (see `after_allocate`).
pub open spec fn allocate_step(a: (u32, Seq<u32>)) -> (u32, Seq<u32>) {
    if a.1.len() > 0 {
        (a.0, a.1.drop_last())
    } else if a.0 > MAX_SLOT {
        a
    } else {
        ((a.0 + 1) as u32, a.1)
    }
}

/// A fresh allocator's state, and the slots held, after the operations of `ops` in order:
/// `None` allocates (the slot handed out becomes held), `Some(s)` releases `s`.
pub open spec fn run_slots(ops: Seq<Option<u32>>) -> ((u32, Seq<u32>), Set<u32>)
    decreases ops.len(),
{
    if ops.len() == 0 {
        ((0, Seq::empty()), Set::empty())
    } else {
        let (a, held) = run_slots(ops.drop_last());
        match ops.last() {
            None => match allocated(a) {
                Some(r) => (allocate_step(a), held.insert(r)),
                None => (a, held),
            },
            Some(s) => ((a.0, a.1.push(s)), held.remove(s)),
        }
    }
}

/// Every release in `ops` gives back a slot that is held at that point.
pub open spec fn releases_held(ops: Seq<Option<u32>>) -> bool {
    forall|i: int| #![trigger ops[i]] 0 <= i < ops.len() && ops[i] is Some ==> run_slots(ops.take(i)).1.contains(
        ops[i]->Some_0,
    )
}

/// In any run of a fresh allocator whose releases give back held slots, no allocation
/// hands out a slot that is held at that point, and the allocator stays consistent with
/// the slots held.
pub proof fn law_no_slot_twice_in_any_run(ops: Seq<Option<u32>>)
    requires
        releases_held(ops),
    ensures
        alloc_consistent(run_slots(ops).0, run_slots(ops).1),
        forall|i: int| #![trigger ops[i]] 0 <= i < ops.len() && ops[i] is None ==> (allocated(
            run_slots(ops.take(i)).0,
        ) matches Some(r) && !run_slots(ops.take(i)).1.contains(r)) || allocated(run_slots(ops.take(i)).0) is None,
    decreases ops.len(),
{
    if ops.len() == 0 {
        law_slot_never_held_twice((0, Seq::empty()), Set::empty(), (0, Seq::empty()), 0);
    } else {
        let d = ops.drop_last();
        assert forall|i: int| #![trigger d[i]] 0 <= i < d.len() && d[i] is Some implies run_slots(d.take(i)).1.contains(
            d[i]->Some_0,
        ) by {
            assert(d.take(i) =~= ops.take(i));
            assert(d[i] == ops[i]);
        }
        law_no_slot_twice_in_any_run(d);
        let (a, held) = run_slots(d);
        let n = ops.len() - 1;
        assert(ops.take(n) =~= d);
        match ops.last() {
            None => match allocated(a) {
                Some(r) => {
                    law_slot_never_held_twice(a, held, allocate_step(a), r);
                },
                None => {},
            },
            Some(s) => {
                assert(ops[n] == ops.last());
                law_slot_never_held_twice(a, held, a, s);
            },
        }
        assert forall|i: int| #![trigger ops[i]] 0 <= i < ops.len() && ops[i] is None implies (allocated(
            run_slots(ops.take(i)).0,
        ) matches Some(r) && !run_slots(ops.take(i)).1.contains(r)) || allocated(run_slots(ops.take(i)).0) is None by {
            if i < n {
                assert(d.take(i) =~= ops.take(i));
                assert(d[i] == ops[i]);
            }
        }
    }
}

/// The island's allocator state, a fresh one's when it has none yet.
pub open spec fn allocator_of(m: Map<Seq<char>, (String, SlotAllocator)>, id: Seq<char>) -> (u32, Seq<u32>) {
    if m.contains_key(id) {
        alloc_view(m[id].1)
    } else {
        (0, Seq::empty())
    }
}

/// The engine command adding a player's entity: empty state, owned by the session.
pub fn player_entity_command(slot: EntitySlot, session_id: u64) -> (c: EngineCommand)
    ensures
        c matches EngineCommand::AddEntity { slot: s, initial_state, owner: Some(o) } && s == slot
            && initial_state@.len() == 0 && o@ == decimal_chars(session_id as nat),
{
    let owner = SessionId::from_string(decimal(session_id));
    EngineCommand::AddEntity { slot, initial_state: Vec::new(), owner: Some(owner) }
}

/// The engine command adding a non-player entity: empty state, owned by `npc-<slot>`.
pub fn npc_entity_command(slot: EntitySlot) -> (c: EngineCommand)
    ensures
        c matches EngineCommand::AddEntity { slot: s, initial_state, owner: Some(o) } && s == slot
            && initial_state@.len() == 0 && o@ == "npc-"@ + decimal_chars(slot.0 as nat),
{
    let mut name = String::from_str("npc-");
    name.append(decimal(slot.0 as u64).as_str());
    EngineCommand::AddEntity { slot, initial_state: Vec::new(), owner: Some(SessionId::from_string(name)) }
}

impl IslandManager {
    /// Allocates a slot from the island's allocator, creating the allocator if needed.
    fn allocate_slot(&mut self, island_id: &IslandId) -> (r: Option<u32>)
        requires
            old(self).wf(),
        ensures
            final(self).wf(),
            r == allocated(allocator_of(old(self).allocators(), island_id@)),
            final(self).allocators().contains_key(island_id@),
            after_allocate(allocator_of(old(self).allocators(), island_id@), alloc_view(final(self).allocators()[island_id@].1)),
            final(self).allocators().remove(island_id@) == old(self).allocators().remove(island_id@),
            r matches Some(x) ==> x <= MAX_SLOT,
            final(self).islands() == old(self).islands(),
            final(self).config_spec() == old(self).config_spec(),
            final(self).passivated_spec() == old(self).passivated_spec(),
            final(self).zone_spec() == old(self).zone_spec(),
            final(self).clients() == old(self).clients(),
            final(self).max_clients_spec() == old(self).max_clients_spec(),
            final(self).registered() == old(self).registered(),
    {
        let i = match self.find_allocator(island_id) {
            Some(i) => i,
            None => {
                let ghost s = self.slot_allocators@;
                let entry = (island_id.0.clone(), SlotAllocator::new());
                proof {
                    lemma_push(s, akey(), entry);
                    assert(alloc_view(entry.1) =~= (0u32, Seq::<u32>::empty()));
                }
                self.slot_allocators.push(entry);
                self.slot_allocators.len() - 1
            },
        };
        proof {
            lemma_key_map_at(self.slot_allocators@, akey(), i as int);
        }
        let ghost s = self.slot_allocators@;
        let (k, mut a) = self.slot_allocators.remove(i);
        let r = a.allocate();
        self.slot_allocators.insert(i, (k, a));
        proof {
            assert(self.slot_allocators@ =~= s.update(i as int, (k, a)));
            lemma_update(s, akey(), i as int, (k, a));
        }
        r
    }
}


impl IslandManager {
    /// Registers a session with a running island: allocates it an entity slot, which is
    /// also its fanout index. The caller adds the entity (`player_entity_command`) and
    /// tells the fanout.
    pub fn handle_register_client(&mut self, island_id: &IslandId, session_id: u64) -> (r: Result<
        (EntitySlot, ClientIndex),
        RegisterClientError,
    >)
        requires
            old(self).wf(),
        ensures
            final(self).wf(),
            !old(self).islands().contains_key(island_id@) ==> (r matches Err(RegisterClientError::IslandNotFound(id))
                && id@ == island_id@) && *final(self) == *old(self),
            old(self).islands().contains_key(island_id@) && old(self).islands()[island_id@].state != IslandState::Running
                ==> (r matches Err(RegisterClientError::IslandNotRunning(id)) && id@ == island_id@) && *final(self)
                == *old(self),
            old(self).islands().contains_key(island_id@) && old(self).islands()[island_id@].state == IslandState::Running
                ==> ({
                let a = allocator_of(old(self).allocators(), island_id@);
                &&& final(self).allocators().contains_key(island_id@)
                &&& after_allocate(a, alloc_view(final(self).allocators()[island_id@].1))
                &&& final(self).allocators().remove(island_id@) == old(self).allocators().remove(island_id@)
                &&& allocated(a) is None ==> r == Err::<(EntitySlot, ClientIndex), RegisterClientError>(
                    RegisterClientError::AtSlotCapacity,
                ) && final(self).registered() == old(self).registered()
                &&& allocated(a) matches Some(x) ==> r == Ok::<(EntitySlot, ClientIndex), RegisterClientError>(
                    (EntitySlot(x), ClientIndex(x as u16)),
                ) && x <= MAX_SLOT && final(self).registered().contains_key(session_id)
                    && final(self).registered()[session_id].1@ == island_id@ && final(self).registered()[session_id].2
                    == EntitySlot(x) && final(self).registered()[session_id].3 == ClientIndex(x as u16)
                    && final(self).registered().remove(session_id) == old(self).registered().remove(session_id)
            }),
            final(self).islands() == old(self).islands(),
            final(self).config_spec() == old(self).config_spec(),
            final(self).passivated_spec() == old(self).passivated_spec(),
            final(self).zone_spec() == old(self).zone_spec(),
            final(self).clients() == old(self).clients(),
    {
        match self.registry.get(island_id) {
            None => {
                return Err(RegisterClientError::IslandNotFound(IslandId::new(island_id.as_str())));
            },
            Some(h) => {
                if h.state != IslandState::Running {
                    return Err(RegisterClientError::IslandNotRunning(IslandId::new(island_id.as_str())));
                }
            },
        }
        let slot_id = match self.allocate_slot(island_id) {
            None => {
                return Err(RegisterClientError::AtSlotCapacity);
            },
            Some(x) => x,
        };
        let slot = EntitySlot(slot_id);
        let client_index = ClientIndex(slot_id as u16);
        let entry = (session_id, IslandId::new(island_id.as_str()), slot, client_index);
        let ghost s = self.client_registry@;
        match self.find_client(session_id) {
            Some(i) => {
                self.client_registry.set(i, entry);
                proof {
                    lemma_update(s, ckey(), i as int, entry);
                    assert(self.client_registry@ == s.update(i as int, entry));
                }
            },
            None => {
                self.client_registry.push(entry);
                proof {
                    lemma_push(s, ckey(), entry);
                }
            },
        }
        proof {
            assert(self.registered().remove(session_id) =~= old(self).registered().remove(session_id));
            assert forall|j: int| 0 <= j < self.client_registry@.len() implies (#[trigger] self.client_registry@[j]).2.0
                <= MAX_SLOT by {
                if self.client_registry@[j] != entry {
                    assert(s.contains(self.client_registry@[j])) by {
                        if j < s.len() {
                            assert(s[j] == self.client_registry@[j]);
                        }
                    }
                }
            }
        }
        Ok((slot, client_index))
    }

    /// Deregisters a session: its slot goes back to the island's allocator. Returns the
    /// slot and fanout index, for the caller to remove the entity and tell the fanout.
    pub fn handle_deregister_client(&mut self, island_id: &IslandId, session_id: u64) -> (r: Option<
        (EntitySlot, ClientIndex),
    >)
        requires
            old(self).wf(),
        ensures
            final(self).wf(),
            !old(self).registered().contains_key(session_id) ==> r is None && *final(self) == *old(self),
            old(self).registered().contains_key(session_id) ==> ({
                let e = old(self).registered()[session_id];
                &&& r == Some((e.2, e.3))
                &&& final(self).registered() == old(self).registered().remove(session_id)
                &&& old(self).allocators().contains_key(island_id@) ==> final(self).allocators().contains_key(island_id@)
                    && alloc_view(final(self).allocators()[island_id@].1) == (
                    alloc_view(old(self).allocators()[island_id@].1).0,
                    alloc_view(old(self).allocators()[island_id@].1).1.push(e.2.0),
                ) && final(self).allocators().remove(island_id@) == old(self).allocators().remove(island_id@)
                &&& !old(self).allocators().contains_key(island_id@) ==> final(self).allocators() == old(self).allocators()
            }),
            final(self).islands() == old(self).islands(),
            final(self).config_spec() == old(self).config_spec(),
            final(self).passivated_spec() == old(self).passivated_spec(),
            final(self).zone_spec() == old(self).zone_spec(),
            final(self).clients() == old(self).clients(),
    {
        let i = match self.find_client(session_id) {
            None => {
                return None;
            },
            Some(i) => i,
        };
        let ghost s = self.client_registry@;
        let (_, _, slot, client_index) = self.client_registry.remove(i);
        proof {
            lemma_remove(s, ckey(), i as int);
            assert forall|j: int| 0 <= j < self.client_registry@.len() implies (#[trigger] self.client_registry@[j]).2.0
                <= MAX_SLOT by {
                if j < i {
                    assert(self.client_registry@[j] == s[j]);
                } else {
                    assert(self.client_registry@[j] == s[j + 1]);
                }
            }
        }
        match self.find_allocator(island_id) {
            Some(k) => {
                proof {
                    lemma_key_map_at(self.slot_allocators@, akey(), k as int);
                }
                let ghost sa = self.slot_allocators@;
                let (key, mut a) = self.slot_allocators.remove(k);
                a.release(slot.0);
                self.slot_allocators.insert(k, (key, a));
                proof {
                    assert(self.slot_allocators@ =~= sa.update(k as int, (key, a)));
                    lemma_update(sa, akey(), k as int, (key, a));
                    assert(alloc_view(a) =~= (alloc_view(sa[k as int].1).0, alloc_view(sa[k as int].1).1.push(slot.0)));
                    assert forall|j: int, x: int| 0 <= j < self.slot_allocators@.len() && 0 <= x < self.slot_allocators@[j].1.free_spec().len()
                        implies #[trigger] self.slot_allocators@[j].1.free_spec()[x] <= MAX_SLOT by {
                        if j != k {
                            assert(self.slot_allocators@[j] == sa[j]);
                        } else if x < sa[k as int].1.free_spec().len() {
                            assert(self.slot_allocators@[j].1.free_spec()[x] == sa[k as int].1.free_spec()[x]);
                        }
                    }
                }
            },
            None => {},
        }
        Some((slot, client_index))
    }

    /// Allocates an entity slot on a running island for a non-player entity; the caller
    /// adds it (`npc_entity_command`).
    pub fn handle_allocate_entity_slot(&mut self, island_id: &IslandId) -> (r: Result<EntitySlot, RegisterClientError>)
        requires
            old(self).wf(),
        ensures
            final(self).wf(),
            !old(self).islands().contains_key(island_id@) ==> (r matches Err(RegisterClientError::IslandNotFound(id))
                && id@ == island_id@) && *final(self) == *old(self),
            old(self).islands().contains_key(island_id@) && old(self).islands()[island_id@].state != IslandState::Running
                ==> (r matches Err(RegisterClientError::IslandNotRunning(id)) && id@ == island_id@) && *final(self)
                == *old(self),
            old(self).islands().contains_key(island_id@) && old(self).islands()[island_id@].state == IslandState::Running
                ==> ({
                let a = allocator_of(old(self).allocators(), island_id@);
                &&& final(self).allocators().contains_key(island_id@)
                &&& after_allocate(a, alloc_view(final(self).allocators()[island_id@].1))
                &&& final(self).allocators().remove(island_id@) == old(self).allocators().remove(island_id@)
                &&& allocated(a) is None ==> r == Err::<EntitySlot, RegisterClientError>(RegisterClientError::AtSlotCapacity)
                &&& allocated(a) matches Some(x) ==> r == Ok::<EntitySlot, RegisterClientError>(EntitySlot(x))
            }),
            final(self).islands() == old(self).islands(),
            final(self).registered() == old(self).registered(),
            final(self).config_spec() == old(self).config_spec(),
            final(self).passivated_spec() == old(self).passivated_spec(),
            final(self).zone_spec() == old(self).zone_spec(),
            final(self).clients() == old(self).clients(),
    {
        match self.registry.get(island_id) {
            None => {
                return Err(RegisterClientError::IslandNotFound(IslandId::new(island_id.as_str())));
            },
            Some(h) => {
                if h.state != IslandState::Running {
                    return Err(RegisterClientError::IslandNotRunning(IslandId::new(island_id.as_str())));
                }
            },
        }
        match self.allocate_slot(island_id) {
            None => Err(RegisterClientError::AtSlotCapacity),
            Some(x) => Ok(EntitySlot(x)),
        }
    }

    /// An authenticated client connected; refused past `max_clients`.
    pub fn handle_client_connected(&mut self, session_id: u64) -> (r: Result<u64, ClientConnectedError>)
        requires
            old(self).wf(),
        ensures
            final(self).wf(),
            old(self).clients().len() >= old(self).max_clients_spec() ==> r == Err::<u64, ClientConnectedError>(
                ClientConnectedError::AtCapacity { max: old(self).max_clients_spec() },
            ) && final(self).clients() == old(self).clients(),
            old(self).clients().len() < old(self).max_clients_spec() ==> r == Ok::<u64, ClientConnectedError>(session_id)
                && final(self).clients() == old(self).clients().push(session_id),
            final(self).islands() == old(self).islands(),
            final(self).registered() == old(self).registered(),
            final(self).allocators() == old(self).allocators(),
            final(self).passivated_spec() == old(self).passivated_spec(),
    {
        if self.connected_clients.len() >= self.max_clients {
            return Err(ClientConnectedError::AtCapacity { max: self.max_clients });
        }
        self.connected_clients.push(session_id);
        Ok(session_id)
    }

    /// A client's transport closed: it is no longer connected.
    pub fn handle_client_disconnected(&mut self, session_id: u64)
        requires
            old(self).wf(),
        ensures
            final(self).wf(),
            final(self).clients() == old(self).clients().filter(|c: u64| c != session_id),
            final(self).islands() == old(self).islands(),
            final(self).registered() == old(self).registered(),
            final(self).allocators() == old(self).allocators(),
            final(self).passivated_spec() == old(self).passivated_spec(),
    {
        let ghost o = self.connected_clients@;
        let mut kept: Vec<u64> = Vec::new();
        let mut i: usize = 0;
        proof {
            assert(o.take(0).filter(|c: u64| c != session_id) =~= Seq::<u64>::empty()) by {
                reveal(Seq::filter);
            }
        }
        while i < self.connected_clients.len()
            invariant
                i <= o.len(),
                o == self.connected_clients@,
                kept@ == o.take(i as int).filter(|c: u64| c != session_id),
            decreases self.connected_clients.len() - i,
        {
            proof {
                reveal(Seq::filter);
                assert(o.take(i + 1).drop_last() =~= o.take(i as int));
                assert(o.take(i + 1).last() == o[i as int]);
            }
            let c = self.connected_clients[i];
            if c != session_id {
                kept.push(c);
            }
            i = i + 1;
        }
        proof {
            assert(o.take(i as int) =~= o);
        }
        self.connected_clients = kept;
    }
}


impl IslandManager {
    /// Phase 1 of a zone transfer: the source island must run; a token for the player,
    /// stamped `now_ms` and signed over `payload` (the bitcode encoding of its signed
    /// fields), is returned, the player is marked as
    /// transferring, and the source island counts one player fewer (scheduling
    /// passivation after the grace period when it empties).
    pub fn handle_prepare_zone_transfer(
        &mut self,
        player_id: String,
        source_island: &IslandId,
        target_island: &IslandId,
        position_bits: [u32; 3],
        velocity_bits: [u32; 3],
        buffs: Vec<BuffState>,
        now_ms: u64,
        payload: &[u8],
    ) -> (r: Result<ZoneTransferToken, ZoneTransferError>)
        requires
            old(self).wf(),
        ensures
            final(self).wf(),
            old(self).zone_spec() is None ==> r == Err::<ZoneTransferToken, ZoneTransferError>(ZoneTransferError::NotConfigured)
                && *final(self) == *old(self),
            old(self).zone_spec() is Some && !old(self).islands().contains_key(source_island@) ==> (r matches Err(
                ZoneTransferError::SourceNotFound(id),
            ) && id@ == source_island@) && *final(self) == *old(self),
            old(self).zone_spec() is Some && old(self).islands().contains_key(source_island@) && old(self).islands()[source_island@].state
                != IslandState::Running ==> (r matches Err(ZoneTransferError::SourceNotRunning(id)) && id@ == source_island@)
                && *final(self) == *old(self),
            old(self).zone_spec() matches Some(z) ==> (old(self).islands().contains_key(source_island@) && old(self).islands()[source_island@].state
                == IslandState::Running ==> ({
                let too_long = vstd::utf8::encode_utf8(player_id@).len() > MAX_PLAYER_ID_LEN;
                let full = z.in_flight_view().len() >= z.config_spec().max_in_flight;
                &&& too_long ==> r == Err::<ZoneTransferToken, ZoneTransferError>(ZoneTransferError::Transfer(TransferError::InvalidPlayerId))
                    && final(self).islands() == old(self).islands() && same_zone(final(self).zone_spec(), old(self).zone_spec())
                &&& !too_long && full ==> r == Err::<ZoneTransferToken, ZoneTransferError>(ZoneTransferError::Transfer(TransferError::AtCapacity))
                    && final(self).islands() == old(self).islands() && same_zone(final(self).zone_spec(), old(self).zone_spec())
                &&& !too_long && !full ==> (r matches Ok(tok) && tok@.player_id == player_id@ && tok@.source_zone == source_island@
                    && tok@.target_zone == target_island@ && tok@.position_bits == position_bits@
                    && tok@.velocity_bits == velocity_bits@ && tok@.buffs == buff_views(buffs@) && tok.timestamp == now_ms
                    && tok.ttl_ms == z.ttl() && tok@.hmac == hmac_sha256(z.key(), payload@))
                    && (final(self).zone_spec() matches Some(z2) && z2.in_flight_view() == without_key(z.in_flight_view(), player_id@).push(
                    (player_id@, now_ms),
                ) && z2.dedup_view() == z.dedup_view() && z2.key() == z.key() && z2.config_spec() == z.config_spec())
                    && final(self).islands() == old(self).islands().insert(
                    source_island@,
                    after_player_left(old(self).islands()[source_island@], now_ms, old(self).config_spec()),
                )
            })),
            final(self).config_spec() == old(self).config_spec(),
            final(self).registered() == old(self).registered(),
            final(self).allocators() == old(self).allocators(),
            final(self).clients() == old(self).clients(),
            final(self).passivated_spec() == old(self).passivated_spec(),
    {
        if self.zone_transfer.is_none() {
            return Err(ZoneTransferError::NotConfigured);
        }
        match self.registry.get(source_island) {
            None => {
                return Err(ZoneTransferError::SourceNotFound(IslandId::new(source_island.as_str())));
            },
            Some(h) => {
                if h.state != IslandState::Running {
                    return Err(ZoneTransferError::SourceNotRunning(IslandId::new(source_island.as_str())));
                }
            },
        }
        let mut zt = match self.zone_transfer.take() {
            Some(z) => z,
            None => {
                return Err(ZoneTransferError::NotConfigured);
            },
        };
        let result = zt.prepare_transfer_at(
            player_id,
            IslandId::new(source_island.as_str()),
            IslandId::new(target_island.as_str()),
            position_bits,
            velocity_bits,
            buffs,
            now_ms,
            payload,
        );
        self.zone_transfer = Some(zt);
        let token = match result {
            Err(e) => {
                return Err(ZoneTransferError::Transfer(e));
            },
            Ok(t) => t,
        };
        let r = self.handle_player_left(source_island, now_ms);
        Ok(token)
    }

    /// Phase 2 of a zone transfer: the target island must run; the token, its signed
    /// fields encoded as `payload`, is accepted (see `accept_model`, with `store` the bytes of the shared dedup store),
    /// and the target island counts one more player.
    pub fn handle_accept_zone_transfer(
        &mut self,
        token: &ZoneTransferToken,
        payload: &[u8],
        target_island: &IslandId,
        now_ms: u64,
        store: &[u8],
    ) -> (r: Result<TransferredPlayer, ZoneTransferError>)
        requires
            old(self).wf(),
        ensures
            final(self).wf(),
            old(self).zone_spec() is None ==> r == Err::<TransferredPlayer, ZoneTransferError>(ZoneTransferError::NotConfigured)
                && *final(self) == *old(self),
            old(self).zone_spec() is Some && !old(self).islands().contains_key(target_island@) ==> (r matches Err(
                ZoneTransferError::TargetNotFound(id),
            ) && id@ == target_island@) && *final(self) == *old(self),
            old(self).zone_spec() is Some && old(self).islands().contains_key(target_island@) && old(self).islands()[target_island@].state
                != IslandState::Running ==> (r matches Err(ZoneTransferError::TargetNotRunning(id)) && id@ == target_island@)
                && *final(self) == *old(self),
            old(self).zone_spec() matches Some(z) ==> (old(self).islands().contains_key(target_island@) && old(self).islands()[target_island@].state
                == IslandState::Running ==> ({
                &&& ({
                    let t = token@;
                    let (verdict, d) = accept_model(
                        z.key(),
                        z.config_spec().max_dedup_entries,
                        z.config_spec().dedup_retention_ms,
                        z.dedup_view(),
                        t,
                        payload@,
                        target_island@,
                        now_ms,
                        store@,
                    );
                    &&& final(self).zone_spec() matches Some(z2) && z2.dedup_view() == d && z2.in_flight_view()
                        == z.in_flight_view()
                    &&& verdict matches AcceptVerdict::Refused(e) ==> r == Err::<TransferredPlayer, ZoneTransferError>(
                        ZoneTransferError::Transfer(e),
                    ) && final(self).islands() == old(self).islands()
                    &&& verdict is Duplicate ==> (r matches Err(ZoneTransferError::Transfer(TransferError::DuplicateToken { player_id }))
                        && player_id@ == t.player_id) && final(self).islands() == old(self).islands()
                    &&& verdict is Accepted ==> (r matches Ok(p) && p.player_id@ == t.player_id && p.source_zone@ == t.source_zone
                        && p.position_bits@ == t.position_bits && p.velocity_bits@ == t.velocity_bits && buff_views(p.buffs@)
                        == t.buffs) && final(self).islands() == old(self).islands().insert(
                        target_island@,
                        with_players(
                            old(self).islands()[target_island@],
                            if old(self).islands()[target_island@].player_count == u32::MAX {
                                u32::MAX
                            } else {
                                (old(self).islands()[target_island@].player_count + 1) as u32
                            },
                            None,
                        ),
                    )
                })
            })),
            final(self).config_spec() == old(self).config_spec(),
            final(self).registered() == old(self).registered(),
            final(self).allocators() == old(self).allocators(),
            final(self).clients() == old(self).clients(),
            final(self).passivated_spec() == old(self).passivated_spec(),
    {
        if self.zone_transfer.is_none() {
            return Err(ZoneTransferError::NotConfigured);
        }
        match self.registry.get(target_island) {
            None => {
                return Err(ZoneTransferError::TargetNotFound(IslandId::new(target_island.as_str())));
            },
            Some(h) => {
                if h.state != IslandState::Running {
                    return Err(ZoneTransferError::TargetNotRunning(IslandId::new(target_island.as_str())));
                }
            },
        }
        let mut zt = match self.zone_transfer.take() {
            Some(z) => z,
            None => {
                return Err(ZoneTransferError::NotConfigured);
            },
        };
        let result = zt.accept_transfer_at(token, payload, target_island, now_ms, store);
        self.zone_transfer = Some(zt);
        let transferred = match result {
            Err(e) => {
                return Err(ZoneTransferError::Transfer(e));
            },
            Ok(p) => p,
        };
        let r = self.handle_player_joined(target_island);
        Ok(transferred)
    }

    /// Rolls back the zone transfers whose acknowledgement is overdue at `now_ms`.
    pub fn check_zone_transfer_timeouts(&mut self, now_ms: u64) -> (rolled_back: Vec<String>)
        requires
            old(self).wf(),
        ensures
            final(self).wf(),
            old(self).zone_spec() is None ==> rolled_back@.len() == 0 && *final(self) == *old(self),
            old(self).zone_spec() matches Some(z) ==> rolled_back@.map_values(|p: String| p@) == first_keys(
                z.in_flight_view().filter(is_overdue(now_ms, z.config_spec().ack_timeout_ms)),
            ) && (final(self).zone_spec() matches Some(z2) && z2.in_flight_view() == z.in_flight_view().filter(
                is_pending(now_ms, z.config_spec().ack_timeout_ms),
            ) && z2.dedup_view() == z.dedup_view()),
            final(self).islands() == old(self).islands(),
            final(self).registered() == old(self).registered(),
            final(self).allocators() == old(self).allocators(),
            final(self).clients() == old(self).clients(),
            final(self).passivated_spec() == old(self).passivated_spec(),
    {
        match self.zone_transfer.take() {
            None => Vec::new(),
            Some(mut zt) => {
                let rolled = zt.check_timeouts_at(now_ms);
                self.zone_transfer = Some(zt);
                rolled
            },
        }
    }

    /// The running islands whose passivation deadline has passed at `now_ms`.
    pub fn due_for_passivation(&self, now_ms: u64) -> (ids: Vec<IslandId>)
        ensures
            ids@.map_values(|i: IslandId| i@) == ids_of(self.handles().filter(due_at(now_ms))),
    {
        self.registry.due_for_passivation(now_ms)
    }

    /// Starts passivating an island: it must be running, and moves to draining. The
    /// caller then asks its thread for a snapshot and waits for it.
    pub fn begin_passivation(&mut self, island_id: &IslandId) -> (started: bool)
        requires
            old(self).wf(),
        ensures
            final(self).wf(),
            started == (old(self).islands().contains_key(island_id@) && old(self).islands()[island_id@].state
                == IslandState::Running),
            started ==> final(self).islands() == old(self).islands().insert(
                island_id@,
                IslandHandle { state: IslandState::Draining, ..old(self).islands()[island_id@] },
            ),
            !started ==> final(self).islands() == old(self).islands(),
            keeps_all_but_islands(*old(self), *final(self)),
    {
        let state = match self.registry.get(island_id) {
            None => {
                return false;
            },
            Some(h) => h.state,
        };
        match state.transition(IslandState::Draining) {
            Err(_) => false,
            Ok(next) => {
                let h = match self.registry.remove(island_id) {
                    Some(h) => h,
                    None => {
                        return false;
                    },
                };
                proof {
                    old(self).registry.lemma_filed_by_id();
                }
                self.registry.insert(IslandHandle { state: next, ..h });
                proof {
                    assert(self.islands() =~= old(self).islands().insert(
                        island_id@,
                        IslandHandle { state: IslandState::Draining, ..old(self).islands()[island_id@] },
                    ));
                }
                true
            },
        }
    }

    /// Ends a passivation: the island is forgotten; when its thread handed back a snapshot,
    /// the island is kept as passivated with the manifest it ran from, to be reactivated
    /// by the next bridge message for it.
    pub fn finish_passivation(&mut self, island_id: &IslandId, outcome: PassivationOutcome)
        requires
            old(self).wf(),
        ensures
            final(self).wf(),
            final(self).islands() == old(self).islands().remove(island_id@),
            outcome matches PassivationOutcome::Snapshot(snap) ==> (old(self).islands().contains_key(island_id@) ==> final(self).passivated_spec().contains_key(
                island_id@,
            ) && final(self).passivated_spec()[island_id@].1.snapshot == snap
                && final(self).passivated_spec()[island_id@].1.manifest.island_id@ == old(self).islands()[island_id@].manifest.island_id@
                && final(self).passivated_spec().remove(island_id@) == old(self).passivated_spec().remove(island_id@)),
            !(outcome matches PassivationOutcome::Snapshot(_) && old(self).islands().contains_key(island_id@)) ==> final(self).passivated_spec()
                == old(self).passivated_spec(),
            final(self).config_spec() == old(self).config_spec(),
            final(self).zone_spec() == old(self).zone_spec(),
            final(self).clients() == old(self).clients(),
            final(self).registered() == old(self).registered(),
            final(self).allocators() == old(self).allocators(),
    {
        let handle = self.registry.remove(island_id);
        match (outcome, handle) {
            (PassivationOutcome::Snapshot(snapshot), Some(h)) => {
                let entry = (
                    island_id.0.clone(),
                    PassivatedIsland { snapshot, manifest: h.manifest, passivate_when_empty: h.passivate_when_empty },
                );
                let ghost s = self.passivated@;
                match self.find_passivated(island_id) {
                    Some(i) => {
                        self.passivated.set(i, entry);
                        proof {
                            lemma_update(s, pkey(), i as int, entry);
                            assert(self.passivated@ == s.update(i as int, entry));
                        }
                    },
                    None => {
                        self.passivated.push(entry);
                        proof {
                            lemma_push(s, pkey(), entry);
                        }
                    },
                }
                proof {
                    assert(self.passivated_spec().remove(island_id@) =~= old(self).passivated_spec().remove(island_id@));
                }
            },
            _ => {},
        }
    }
}

/// A released slot is the next one allocated.
pub proof fn law_released_slot_reused(next: u32, free: Seq<u32>, slot: u32)
    ensures
        allocated((next, free.push(slot))) == Some(slot),
        after_allocate((next, free.push(slot)), (next, free)),
{
    assert(free.push(slot).drop_last() =~= free);
}

} // verus!
