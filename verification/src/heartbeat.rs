//! The heartbeat monitor: per-connection liveness, independent of data
//! traffic.
//!
//! A fixed-interval timer probes the peer with a ping and tracks the time
//! of the most recent sign of life.  Once the silence outlasts the
//! timeout window, the next tick decides to force the session closed; the
//! owning task then closes the socket and hands the session control block
//! its close trigger.  Time is a plain number of units supplied by the
//! caller from a monotonic clock.

use vstd::prelude::*;
use vstd::arithmetic::div_mod::lemma_fundamental_div_mod;
use vstd::arithmetic::div_mod::lemma_mod_division_less_than_divisor;

verus! {

/// The per-connection liveness tracker.
#[derive(Clone, Copy, Debug, PartialEq, Eq, Structural)]
pub struct Heartbeat {
    /// Time units between probe ticks.
    pub interval: u64,
    /// Silence longer than this forces the session closed.
    pub timeout: u64,
    /// When the peer last showed life.
    pub last_seen: u64,
}

/// What a probe tick decides.
#[derive(Clone, Copy, Debug, PartialEq, Eq, Structural)]
pub enum TickAction {
    SendPing,
    CloseExpired,
}

/// The instant after which silence counts as expiry.
pub open spec fn deadline(hb: Heartbeat) -> int {
    hb.last_seen + hb.timeout
}

/// Whether the peer's silence has outlasted the timeout at time `t`.
pub open spec fn expired(hb: Heartbeat, t: int) -> bool {
    t > deadline(hb)
}

impl Heartbeat {
    /// A monitor that saw life at `now`.
    pub fn new(interval: u64, timeout: u64, now: u64) -> (r: Heartbeat)
        requires
            interval >= 1,
        ensures
            r.interval == interval,
            r.timeout == timeout,
            r.last_seen == now,
    {
        Heartbeat { interval: interval, timeout: timeout, last_seen: now }
    }

    /// Records a sign of life (a pong, or any received frame) at `now`.
    pub fn record_alive(&mut self, now: u64)
        ensures
            final(self).last_seen == now,
            final(self).interval == old(self).interval,
            final(self).timeout == old(self).timeout,
    {
        self.last_seen = now;
    }

    /// One probe tick at time `now`: ping the peer while the silence is
    /// within the window, force the session closed once it is not.
    pub fn on_tick(&self, now: u64) -> (a: TickAction)
        ensures
            (a == TickAction::CloseExpired) == expired(*self, now as int),
    {
        if now > self.last_seen && now - self.last_seen > self.timeout {
            TickAction::CloseExpired
        } else {
            TickAction::SendPing
        }
    }
}

/// A silent peer is caught within one heartbeat cycle: among the tick
/// instants `start`, `start + interval`, `start + 2*interval`, ... of a
/// monitor whose ticking began no later than the instant the window
/// expired, some tick falls inside the first interval past the deadline,
/// and that tick decides to close the session.
pub proof fn lemma_timeout_detected_within_one_cycle(hb: Heartbeat, start: int)
    requires
        hb.interval >= 1,
        start <= deadline(hb) + 1,
    ensures
        exists|k: int|
            0 <= k && #[trigger] tick_at(hb, start, k) > deadline(hb) && tick_at(hb, start, k)
                <= deadline(hb) + hb.interval && expired(hb, tick_at(hb, start, k)),
{
    let ivl = hb.interval as int;
    let a = deadline(hb) + 1 - start;
    let q = (a + ivl - 1) / ivl;
    let r = (a + ivl - 1) % ivl;
    lemma_fundamental_div_mod(a + ivl - 1, ivl);
    lemma_mod_division_less_than_divisor(a + ivl - 1, ivl);
    assert(a + ivl - 1 == ivl * q + r);
    assert(0 <= r < ivl);
    assert(q * ivl == a + ivl - 1 - r);
    assert(q * ivl >= a);
    assert(q * ivl <= a + ivl - 1);
    assert(q >= 0) by {
        if q < 0 {
            assert(q * ivl <= (-1) * ivl) by (nonlinear_arith)
                requires
                    q <= -1,
                    ivl >= 1,
            ;
        }
    }
    assert(tick_at(hb, start, q) == start + q * ivl);
    assert(tick_at(hb, start, q) > deadline(hb));
    assert(tick_at(hb, start, q) <= deadline(hb) + ivl);
}

/// The instant of the `k`-th tick of a monitor that started ticking at
/// `start`.
pub open spec fn tick_at(hb: Heartbeat, start: int, k: int) -> int {
    start + k * hb.interval
}

} // verus!
