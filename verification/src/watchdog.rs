//! Detects island threads that stop advancing their heartbeat counter.
use vstd::prelude::*;
use std::sync::atomic::AtomicU64;
use std::sync::Arc;
use std::time::{Duration, Instant};

verus! {

#[verifier::external_type_specification]
#[verifier::external_body]
pub struct ExInstant(Instant);

/// Reads the heartbeat counter (`AtomicU64::load`, relaxed). The value is whatever the
/// island thread last stored; nothing is promised of it.
#[verifier::external_body]
fn load_heartbeat(heartbeat: &Arc<AtomicU64>) -> u64 {
    heartbeat.load(std::sync::atomic::Ordering::Relaxed)
}

/// The current monotonic time (`Instant::now`); nothing is promised of it.
#[verifier::external_body]
fn instant_now() -> Instant {
    Instant::now()
}

/// The time from `earlier` to `later`, as `Instant - Instant` gives it.
pub uninterp spec fn instant_elapsed(later: Instant, earlier: Instant) -> Duration;

/// The time elapsed from `earlier` to `later` (`Instant - Instant`, which saturates at
/// zero): `instant_elapsed(later, earlier)`.
#[verifier::external_body]
fn elapsed_between(later: Instant, earlier: Instant) -> (d: Duration)
    ensures
        d == instant_elapsed(later, earlier),
{
    later - earlier
}

/// The length of a duration in nanoseconds, as `Duration::as_nanos` gives it.
pub uninterp spec fn duration_nanos(d: Duration) -> u128;

/// `Duration::as_nanos`: the whole length of `d` in nanoseconds (`duration_nanos`).
#[verifier::external_body]
fn nanos_of(d: Duration) -> (n: u128)
    ensures
        n == duration_nanos(d),
{
    d.as_nanos()
}

/// `Duration::from_nanos`: a duration of exactly `n` nanoseconds.
#[verifier::external_body]
fn duration_from_nanos(n: u64) -> (d: Duration)
    ensures
        duration_nanos(d) == n,
{
    Duration::from_nanos(n)
}

/// Watches an island thread's heartbeat counter. Times are kept as nanoseconds on the
/// monotonic clock, counted from the instant the watchdog was made.
pub struct HeartbeatWatchdog {
    heartbeat: Arc<AtomicU64>,
    last_seen: u64,
    origin: Instant,
    last_check_ns: u64,
    stale_threshold: Duration,
}

#[derive(Debug, Clone, Copy, PartialEq, Eq)]
pub enum WatchdogStatus {
    Alive,
    Stale { since: Duration },
    Hung { since: Duration },
}

/// A duration's nanoseconds as a `u64`, saturating.
pub open spec fn sat_nanos(n: u128) -> u64 {
    if n > u64::MAX as u128 {
        u64::MAX
    } else {
        n as u64
    }
}

/// The time from the last check to a clock reading of `now_ns` (zero if the reading is
/// earlier, as `Instant` subtraction saturates).
pub open spec fn elapsed_ns(w: HeartbeatWatchdog, now_ns: u64) -> int {
    if now_ns >= w.last_check_ns() {
        now_ns - w.last_check_ns()
    } else {
        0
    }
}

/// The `since` of a Stale or Hung answer, in nanoseconds (0 for Alive).
pub open spec fn since_ns(s: WatchdogStatus) -> int {
    match s {
        WatchdogStatus::Alive => 0,
        WatchdogStatus::Stale { since } => duration_nanos(since) as int,
        WatchdogStatus::Hung { since } => duration_nanos(since) as int,
    }
}

/// Whether `post` and `s` are what a check leaves and answers when the counter reads
/// `current` and the clock reads `now_ns`: a moved counter is recorded with the time and
/// answers Alive; otherwise nothing changes, and the answer is Hung once the time elapsed
/// since the last check reaches the threshold, else Stale, either since that time.
pub open spec fn observed(
    pre: HeartbeatWatchdog,
    post: HeartbeatWatchdog,
    current: u64,
    now_ns: u64,
    s: WatchdogStatus,
) -> bool {
    &&& post.heartbeat_spec() == pre.heartbeat_spec()
    &&& post.stale_threshold() == pre.stale_threshold()
    &&& post.origin() == pre.origin()
    &&& if current != pre.last_seen() {
        &&& s == WatchdogStatus::Alive
        &&& post.last_seen() == current
        &&& post.last_check_ns() == now_ns
    } else {
        &&& post == pre
        &&& s !is Alive
        &&& since_ns(s) == elapsed_ns(pre, now_ns)
        &&& (s is Hung <==> elapsed_ns(pre, now_ns) >= duration_nanos(pre.stale_threshold()))
    }
}

impl HeartbeatWatchdog {
    pub closed spec fn last_seen(&self) -> u64 {
        self.last_seen
    }

    /// When the counter was last seen to move (or the watchdog was made), in nanoseconds
    /// since the watchdog was made.
    pub closed spec fn last_check_ns(&self) -> u64 {
        self.last_check_ns
    }

    /// The instant the watchdog was made.
    pub closed spec fn origin(&self) -> Instant {
        self.origin
    }

    pub closed spec fn heartbeat_spec(&self) -> Arc<AtomicU64> {
        self.heartbeat
    }

    pub closed spec fn stale_threshold(&self) -> Duration {
        self.stale_threshold
    }

    /// A watchdog of `heartbeat`, recording the counter's value now and the time (0 ns).
    pub fn new(heartbeat: Arc<AtomicU64>, stale_threshold: Duration) -> (w: HeartbeatWatchdog)
        ensures
            w.stale_threshold() == stale_threshold,
            w.heartbeat_spec() == heartbeat,
            w.last_check_ns() == 0,
    {
        let current = load_heartbeat(&heartbeat);
        HeartbeatWatchdog { heartbeat, last_seen: current, origin: instant_now(), last_check_ns: 0, stale_threshold }
    }

    /// One check on a counter value `current` read when the clock read `now_ns`: Alive
    /// (recording `current` and `now_ns`) when the counter moved; otherwise Hung once the
    /// time elapsed since the last check reaches the threshold, else Stale, and the
    /// watchdog is unchanged.
    pub fn observe(&mut self, current: u64, now_ns: u64) -> (s: WatchdogStatus)
        ensures
            observed(*old(self), *final(self), current, now_ns, s),
    {
        if current != self.last_seen {
            self.last_seen = current;
            self.last_check_ns = now_ns;
            return WatchdogStatus::Alive;
        }
        let elapsed: u64 = if now_ns >= self.last_check_ns {
            now_ns - self.last_check_ns
        } else {
            0
        };
        let since = duration_from_nanos(elapsed);
        if (elapsed as u128) >= nanos_of(self.stale_threshold) {
            WatchdogStatus::Hung { since }
        } else {
            WatchdogStatus::Stale { since }
        }
    }

    /// Reads the counter and the clock and observes them: the result and the new state
    /// are those of `observe` on the value read and the clock reading, in nanoseconds
    /// since the watchdog was made (saturating at `u64::MAX`).
    pub fn check(&mut self) -> (s: WatchdogStatus)
        ensures
            exists|current: u64, now: Instant|
                #[trigger] observed(
                    *old(self),
                    *final(self),
                    current,
                    sat_nanos(duration_nanos(instant_elapsed(now, old(self).origin()))),
                    s,
                ),
    {
        let current = load_heartbeat(&self.heartbeat);
        let now = instant_now();
        let n = nanos_of(elapsed_between(now, self.origin));
        let now_ns: u64 = if n > u64::MAX as u128 {
            u64::MAX
        } else {
            n as u64
        };
        let ghost pre = *self;
        let s = self.observe(current, now_ns);
        assert(observed(pre, *self, current, sat_nanos(duration_nanos(instant_elapsed(now, pre.origin()))), s));
        s
    }

    pub fn last_heartbeat(&self) -> (h: u64)
        ensures
            h == self.last_seen(),
    {
        self.last_seen
    }
}

/// Successive checks while the counter stands still, at clock readings `n1 <= n2` taken
/// after it last moved: neither changes the watchdog, neither answers Alive, and the
/// second `since` exceeds the first by exactly `n2 - n1`; once a check answers Hung, the
/// later one answers Hung too. A counter that moved answers Alive whatever came before.
pub proof fn law_successive_checks(
    pre: HeartbeatWatchdog,
    mid: HeartbeatWatchdog,
    post: HeartbeatWatchdog,
    c1: u64,
    n1: u64,
    s1: WatchdogStatus,
    c2: u64,
    n2: u64,
    s2: WatchdogStatus,
)
    requires
        observed(pre, mid, c1, n1, s1),
        observed(mid, post, c2, n2, s2),
    ensures
        (c1 == pre.last_seen() && c2 == pre.last_seen()) ==> (mid == pre && post == pre && (s1 !is Alive) && (
        s2 !is Alive)),
        (c1 == pre.last_seen() && c2 == pre.last_seen() && pre.last_check_ns() <= n1 <= n2) ==> since_ns(s2)
            - since_ns(s1) == n2 - n1,
        (c1 == pre.last_seen() && c2 == pre.last_seen() && pre.last_check_ns() <= n1 <= n2 && (s1 is Hung))
            ==> (s2 is Hung),
        c2 != mid.last_seen() ==> (s2 == WatchdogStatus::Alive && post.last_seen() == c2 && post.last_check_ns()
            == n2),
{
}

} // verus!
