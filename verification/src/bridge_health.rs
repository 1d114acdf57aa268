//! Health of the bridge connection, driven by heartbeats and buffer fill.
//!
//! State machine:
//! ```text
//! Healthy -> Degraded  (1 missed heartbeat or buffer >= 50%)
//! Degraded -> Disconnected  (3 missed heartbeats or buffer >= 100%)
//! Disconnected -> Degraded  (heartbeat received)
//! Degraded -> Healthy  (3 consecutive heartbeats and buffer < 25%)
//! ```
//! The buffer fill is held in basis points (0..=10000 for 0%..=100%).
use vstd::prelude::*;

verus! {

#[derive(Debug, Clone, Copy, PartialEq, Eq, Structural)]
pub enum BridgeHealthState {
    Healthy,
    Degraded,
    Disconnected,
}

impl BridgeHealthState {
    /// The state's name.
    pub fn to_string(self) -> (s: String)
        ensures
            s@ == (match self {
                BridgeHealthState::Healthy => "Healthy"@,
                BridgeHealthState::Degraded => "Degraded"@,
                BridgeHealthState::Disconnected => "Disconnected"@,
            }),
    {
        match self {
            BridgeHealthState::Healthy => String::from_str("Healthy"),
            BridgeHealthState::Degraded => String::from_str("Degraded"),
            BridgeHealthState::Disconnected => String::from_str("Disconnected"),
        }
    }
}

/// A full buffer, in basis points.
pub const FULL_BUFFER_BP: u32 = 10_000;

#[derive(Clone, Copy, PartialEq, Eq, Structural)]
pub struct HealthView {
    pub state: BridgeHealthState,
    pub missed_heartbeats: u32,
    pub consecutive_heartbeats: u32,
    pub buffer_bp: u32,
}

pub open spec fn sat_inc(x: u32) -> u32 {
    if x == u32::MAX {
        u32::MAX
    } else {
        (x + 1) as u32
    }
}

pub open spec fn after_heartbeat(h: HealthView) -> HealthView {
    let c = sat_inc(h.consecutive_heartbeats);
    match h.state {
        BridgeHealthState::Disconnected => HealthView {
            state: BridgeHealthState::Degraded,
            missed_heartbeats: 0,
            consecutive_heartbeats: 1,
            ..h
        },
        BridgeHealthState::Degraded => HealthView {
            state: if c >= 3 && h.buffer_bp < 2_500 {
                BridgeHealthState::Healthy
            } else {
                BridgeHealthState::Degraded
            },
            missed_heartbeats: 0,
            consecutive_heartbeats: c,
            ..h
        },
        BridgeHealthState::Healthy => HealthView { missed_heartbeats: 0, consecutive_heartbeats: c, ..h },
    }
}

pub open spec fn after_missed(h: HealthView) -> HealthView {
    let m = sat_inc(h.missed_heartbeats);
    HealthView {
        state: match h.state {
            BridgeHealthState::Healthy => BridgeHealthState::Degraded,
            BridgeHealthState::Degraded => if m >= 3 {
                BridgeHealthState::Disconnected
            } else {
                BridgeHealthState::Degraded
            },
            BridgeHealthState::Disconnected => BridgeHealthState::Disconnected,
        },
        missed_heartbeats: m,
        consecutive_heartbeats: 0,
        ..h
    }
}

pub open spec fn after_buffer(h: HealthView, bp: u32) -> HealthView {
    let b = if bp > FULL_BUFFER_BP {
        FULL_BUFFER_BP
    } else {
        bp
    };
    match h.state {
        BridgeHealthState::Healthy => if b >= 5_000 {
            HealthView { state: BridgeHealthState::Degraded, consecutive_heartbeats: 0, buffer_bp: b, ..h }
        } else {
            HealthView { buffer_bp: b, ..h }
        },
        BridgeHealthState::Degraded => if b >= FULL_BUFFER_BP {
            HealthView { state: BridgeHealthState::Disconnected, consecutive_heartbeats: 0, buffer_bp: b, ..h }
        } else {
            HealthView { buffer_bp: b, ..h }
        },
        BridgeHealthState::Disconnected => HealthView { buffer_bp: b, ..h },
    }
}

pub struct BridgeHealthTracker {
    state: BridgeHealthState,
    missed_heartbeats: u32,
    consecutive_heartbeats: u32,
    buffer_bp: u32,
}

impl View for BridgeHealthTracker {
    type V = HealthView;

    closed spec fn view(&self) -> HealthView {
        HealthView {
            state: self.state,
            missed_heartbeats: self.missed_heartbeats,
            consecutive_heartbeats: self.consecutive_heartbeats,
            buffer_bp: self.buffer_bp,
        }
    }
}

impl BridgeHealthTracker {
    pub fn new() -> (t: BridgeHealthTracker)
        ensures
            t@ == (HealthView {
                state: BridgeHealthState::Healthy,
                missed_heartbeats: 0,
                consecutive_heartbeats: 0,
                buffer_bp: 0,
            }),
    {
        BridgeHealthTracker {
            state: BridgeHealthState::Healthy,
            missed_heartbeats: 0,
            consecutive_heartbeats: 0,
            buffer_bp: 0,
        }
    }

    pub fn state(&self) -> (s: BridgeHealthState)
        ensures
            s == self@.state,
    {
        self.state
    }

    pub fn missed_heartbeats(&self) -> (n: u32)
        ensures
            n == self@.missed_heartbeats,
    {
        self.missed_heartbeats
    }

    pub fn consecutive_heartbeats(&self) -> (n: u32)
        ensures
            n == self@.consecutive_heartbeats,
    {
        self.consecutive_heartbeats
    }

    pub fn record_heartbeat(&mut self)
        ensures
            final(self)@ == after_heartbeat(old(self)@),
    {
        self.missed_heartbeats = 0;
        self.consecutive_heartbeats = self.consecutive_heartbeats.saturating_add(1);
        match self.state {
            BridgeHealthState::Disconnected => {
                self.state = BridgeHealthState::Degraded;
                self.consecutive_heartbeats = 1;
            },
            BridgeHealthState::Degraded => {
                if self.consecutive_heartbeats >= 3 && self.buffer_bp < 2_500 {
                    self.state = BridgeHealthState::Healthy;
                }
            },
            BridgeHealthState::Healthy => {},
        }
    }

    pub fn record_missed_heartbeat(&mut self)
        ensures
            final(self)@ == after_missed(old(self)@),
    {
        self.missed_heartbeats = self.missed_heartbeats.saturating_add(1);
        self.consecutive_heartbeats = 0;
        match self.state {
            BridgeHealthState::Healthy => {
                self.state = BridgeHealthState::Degraded;
            },
            BridgeHealthState::Degraded => {
                if self.missed_heartbeats >= 3 {
                    self.state = BridgeHealthState::Disconnected;
                }
            },
            BridgeHealthState::Disconnected => {},
        }
    }

    /// Record the bridge's buffer fill in basis points; values above 10000 count as full.
    pub fn update_buffer_ratio_bp(&mut self, bp: u32)
        ensures
            final(self)@ == after_buffer(old(self)@, bp),
    {
        self.buffer_bp = if bp > FULL_BUFFER_BP {
            FULL_BUFFER_BP
        } else {
            bp
        };
        match self.state {
            BridgeHealthState::Healthy => {
                if self.buffer_bp >= 5_000 {
                    self.state = BridgeHealthState::Degraded;
                    self.consecutive_heartbeats = 0;
                }
            },
            BridgeHealthState::Degraded => {
                if self.buffer_bp >= FULL_BUFFER_BP {
                    self.state = BridgeHealthState::Disconnected;
                    self.consecutive_heartbeats = 0;
                }
            },
            BridgeHealthState::Disconnected => {},
        }
    }
}

/// Any heartbeat leaves Disconnected, any miss leaves Healthy, and three misses in a row
/// from any state end in Disconnected.
pub proof fn law_bridge_health_transitions(h: HealthView)
    ensures
        after_heartbeat(h).state != BridgeHealthState::Disconnected,
        after_missed(h).state != BridgeHealthState::Healthy,
        after_missed(after_missed(after_missed(h))).state == BridgeHealthState::Disconnected,
        after_heartbeat(h).missed_heartbeats == 0,
        after_missed(h).consecutive_heartbeats == 0,
{
}

} // verus!
