//! Graceful degradation under CPU load, with debounced level changes.
use vstd::prelude::*;

verus! {

/// Maximum tick rate for WebSocket clients (Hz).
pub const WS_TICK_RATE: u32 = 10;

/// Maximum number of entities replicated to a WebSocket client.
pub const WS_MAX_ENTITIES: u32 = 100;

/// Maximum outbound bytes per second to a WebSocket client.
pub const WS_MAX_BYTES_PER_SEC: u32 = 10_240;

/// 4-level graceful degradation based on CPU load.
///
/// | Level | Trigger | Action |
/// |-------|---------|--------|
/// | Normal | CPU < 70% | Full processing |
/// | Elevated | CPU 70-85% | Reduce LOD tier 3 divisor, skip cosmetic effects |
/// | Stressed | CPU 85-95% | Reduce max visible entities by 25%, skip tier 3 |
/// | Critical | CPU > 95% | Emergency passivate idle islands, reject new activations |
///
/// Tick rate is never reduced. Level transitions require 3 consecutive measurements.
#[derive(Debug, Clone, Copy, PartialEq, Eq, PartialOrd, Ord, Hash, Structural)]
pub enum DegradationLevel {
    Normal,
    Elevated,
    Stressed,
    Critical,
}

impl DegradationLevel {
    /// Position of the level in the order Normal < Elevated < Stressed < Critical.
    pub open spec fn rank(self) -> int {
        match self {
            DegradationLevel::Normal => 0,
            DegradationLevel::Elevated => 1,
            DegradationLevel::Stressed => 2,
            DegradationLevel::Critical => 3,
        }
    }

    pub fn severity(self) -> (r: u8)
        ensures
            r == self.rank(),
    {
        match self {
            DegradationLevel::Normal => 0,
            DegradationLevel::Elevated => 1,
            DegradationLevel::Stressed => 2,
            DegradationLevel::Critical => 3,
        }
    }

    /// The level's name.
    pub fn to_string(self) -> (s: String)
        ensures
            s@ == level_name(self),
    {
        match self {
            DegradationLevel::Normal => String::from_str("Normal"),
            DegradationLevel::Elevated => String::from_str("Elevated"),
            DegradationLevel::Stressed => String::from_str("Stressed"),
            DegradationLevel::Critical => String::from_str("Critical"),
        }
    }
}

pub open spec fn level_name(l: DegradationLevel) -> Seq<char> {
    match l {
        DegradationLevel::Normal => "Normal"@,
        DegradationLevel::Elevated => "Elevated"@,
        DegradationLevel::Stressed => "Stressed"@,
        DegradationLevel::Critical => "Critical"@,
    }
}

pub const DEBOUNCE_THRESHOLD: u32 = 3;

pub struct DegradationController {
    level: DegradationLevel,
    pending_level: DegradationLevel,
    consecutive_count: u32,
}

pub struct ControllerView {
    pub level: DegradationLevel,
    pub pending_level: DegradationLevel,
    pub consecutive_count: u32,
}

impl View for DegradationController {
    type V = ControllerView;

    closed spec fn view(&self) -> ControllerView {
        ControllerView {
            level: self.level,
            pending_level: self.pending_level,
            consecutive_count: self.consecutive_count,
        }
    }
}

/// The controller after one sample whose load maps to `target`, and what it reports.
pub open spec fn after_sample(c: ControllerView, target: DegradationLevel) -> (ControllerView, Option<DegradationLevel>) {
    let count: u32 = if target == c.pending_level {
        if c.consecutive_count == u32::MAX {
            u32::MAX
        } else {
            (c.consecutive_count + 1) as u32
        }
    } else {
        1
    };
    if count >= DEBOUNCE_THRESHOLD && target != c.level {
        (ControllerView { level: target, pending_level: target, consecutive_count: count }, Some(target))
    } else {
        (ControllerView { level: c.level, pending_level: target, consecutive_count: count }, None)
    }
}

/// The controller after `n` samples that all map to `target`.
pub open spec fn after_samples(c: ControllerView, target: DegradationLevel, n: nat) -> ControllerView
    decreases n,
{
    if n == 0 {
        c
    } else {
        after_sample(after_samples(c, target, (n - 1) as nat), target).0
    }
}

impl DegradationController {
    pub fn new() -> (c: DegradationController)
        ensures
            c@ == (ControllerView {
                level: DegradationLevel::Normal,
                pending_level: DegradationLevel::Normal,
                consecutive_count: 0,
            }),
    {
        DegradationController {
            level: DegradationLevel::Normal,
            pending_level: DegradationLevel::Normal,
            consecutive_count: 0,
        }
    }

    pub fn current_level(&self) -> (l: DegradationLevel)
        ensures
            l == self@.level,
    {
        self.level
    }

    /// Record one load sample, already classified into the level it calls for.
    /// Returns the new level when the sample completes a debounced transition.
    pub fn record_level_sample(&mut self, target: DegradationLevel) -> (r: Option<DegradationLevel>)
        ensures
            (final(self)@, r) == after_sample(old(self)@, target),
    {
        if target == self.pending_level {
            self.consecutive_count = self.consecutive_count.saturating_add(1);
        } else {
            self.pending_level = target;
            self.consecutive_count = 1;
        }
        if self.consecutive_count >= DEBOUNCE_THRESHOLD && self.pending_level != self.level {
            self.level = self.pending_level;
            Some(self.level)
        } else {
            None
        }
    }

    pub fn should_reject_activations(&self) -> (b: bool)
        ensures
            b == (self@.level == DegradationLevel::Critical),
    {
        self.level == DegradationLevel::Critical
    }

    pub fn should_skip_cosmetics(&self) -> (b: bool)
        ensures
            b == (self@.level.rank() >= DegradationLevel::Elevated.rank()),
    {
        self.level.severity() >= 1
    }

    pub fn should_skip_tier3(&self) -> (b: bool)
        ensures
            b == (self@.level.rank() >= DegradationLevel::Stressed.rank()),
    {
        self.level.severity() >= 2
    }
}

/// Debounce: a new level takes effect only on the third consecutive sample calling for
/// it; one or two samples change nothing, and further samples at the settled level report
/// no new transition.
pub proof fn law_debounce(c: ControllerView, target: DegradationLevel, n: nat)
    requires
        target != c.pending_level,
        target != c.level,
    ensures
        n < 3 ==> after_samples(c, target, n).level == c.level,
        n >= 3 ==> after_samples(c, target, n).level == target,
        n >= 3 ==> after_sample(after_samples(c, target, n), target).1 is None,
        n == 2 ==> after_sample(after_samples(c, target, n), target).1 == Some(target),
    decreases n,
{
    if n > 0 {
        law_debounce(c, target, (n - 1) as nat);
        if n >= 2 {
            law_debounce(c, target, (n - 2) as nat);
        }
    }
    reveal_with_fuel(after_samples, 4);
}

/// The controller `new` gives.
pub open spec fn initial_controller() -> ControllerView {
    ControllerView {
        level: DegradationLevel::Normal,
        pending_level: DegradationLevel::Normal,
        consecutive_count: 0,
    }
}

/// The controller after the samples of `h`, in order, starting from a new one.
pub open spec fn after_history(h: Seq<DegradationLevel>) -> ControllerView
    decreases h.len(),
{
    if h.len() == 0 {
        initial_controller()
    } else {
        after_sample(after_history(h.drop_last()), h.last()).0
    }
}

/// How many samples at the end of `h` call for the same level as the last one.
pub open spec fn trailing_run(h: Seq<DegradationLevel>) -> nat
    decreases h.len(),
{
    if h.len() == 0 {
        0
    } else if h.len() >= 2 && h[h.len() - 2] == h.last() {
        trailing_run(h.drop_last()) + 1
    } else {
        1
    }
}

proof fn lemma_history_counts(h: Seq<DegradationLevel>)
    ensures
        h.len() == 0 ==> after_history(h) == initial_controller(),
        h.len() > 0 ==> after_history(h).pending_level == h.last(),
        h.len() > 0 ==> after_history(h).consecutive_count == if trailing_run(h) >= u32::MAX {
            u32::MAX as int
        } else {
            trailing_run(h) as int
        },
    decreases h.len(),
{
    if h.len() > 0 {
        lemma_history_counts(h.drop_last());
        let d = h.drop_last();
        if d.len() > 0 {
            assert(d.last() == h[h.len() - 2]);
        }
    }
}

proof fn lemma_run_of_three(h: Seq<DegradationLevel>)
    requires
        h.len() > 0,
    ensures
        trailing_run(h) >= 3 <==> (h.len() >= 3 && h[h.len() - 1] == h[h.len() - 2] && h[h.len() - 2]
            == h[h.len() - 3]),
{
    let d = h.drop_last();
    if h.len() >= 2 {
        assert(d[d.len() - 1] == h[h.len() - 2]);
        if d.len() >= 2 {
            assert(d[d.len() - 2] == h[h.len() - 3]);
            let e = d.drop_last();
            if e.len() >= 1 {
                assert(e.last() == h[h.len() - 3]);
            }
        }
    }
    reveal_with_fuel(trailing_run, 3);
}

/// Debounce over a history of samples: the last sample of `h` changes the level exactly
/// when it and the two samples before it all call for the same level, different from the
/// level in effect before it; it then reports that level, and otherwise reports nothing
/// and leaves the level as it was. One or two samples, or a run that is interrupted,
/// never change the level.
pub proof fn law_debounce_history(h: Seq<DegradationLevel>)
    requires
        h.len() > 0,
    ensures
        ({
            let before = after_history(h.drop_last());
            let (after, r) = after_sample(before, h.last());
            let l = h.last();
            let settles = h.len() >= 3 && h[h.len() - 1] == h[h.len() - 2] && h[h.len() - 2] == h[h.len()
                - 3] && l != before.level;
            &&& after == after_history(h)
            &&& (r == Some(l) <==> settles)
            &&& (r is Some ==> r == Some(l))
            &&& after.level == (if settles { l } else { before.level })
        }),
{
    lemma_history_counts(h);
    lemma_run_of_three(h);
}

} // verus!
