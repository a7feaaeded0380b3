//! The shared throughput throttle: a rolling one-second window of
//! consumed bytes.
//!
//! The limiter is pure state; the surrounding process supplies the clock
//! (milliseconds) and performs the sleep the limiter asks for.  Every
//! call first books its bytes; a call whose booking reaches the budget
//! is told until when to suspend; the window then restarts and the
//! budget is subtracted — not zeroed — so that overshoot carries into
//! the next window as debt.

use vstd::prelude::*;

verus! {

/// The accounting window: one second.
pub const LIMIT_INTERVAL_MS: u64 = 1000;

/// Rolling-window throttle state.  A `limit` of zero means unlimited.
#[derive(Debug, Copy, Clone, PartialEq, Eq, Structural)]
pub struct SpeedLimiter {
    /// Allowed bytes per window; zero disables throttling.
    pub limit: u64,
    /// Bytes counted against the current window.
    pub consumed: u64,
    /// When the current window began, in milliseconds.
    pub window_start_ms: u64,
}

/// One call into the limiter: `len` bytes arriving at `now_ms`.
#[derive(Debug, Copy, Clone, PartialEq, Eq, Structural)]
pub struct ReceiveEvent {
    pub len: u64,
    pub now_ms: u64,
}

/// What one `receive_len` call does: the state afterwards, and the time
/// at which the call returns (equal to `now_ms` when it does not
/// suspend).  The bytes are booked first; the call returns at once when
/// throttling is off or the booked amount stays under the budget, and
/// otherwise waits the window out, restarting it with the budget
/// subtracted.
pub open spec fn receive_model(s: SpeedLimiter, e: ReceiveEvent) -> (SpeedLimiter, int) {
    if s.limit == 0 {
        (SpeedLimiter { consumed: (s.consumed + e.len) as u64, ..s }, e.now_ms as int)
    } else if s.consumed + e.len < s.limit {
        (SpeedLimiter { consumed: (s.consumed + e.len) as u64, ..s }, e.now_ms as int)
    } else {
        let wake = vstd::math::max(e.now_ms as int, s.window_start_ms + LIMIT_INTERVAL_MS);
        (
            SpeedLimiter {
                consumed: (s.consumed + e.len - s.limit) as u64,
                window_start_ms: wake as u64,
                ..s
            },
            wake,
        )
    }
}

impl SpeedLimiter {
    /// A fresh limiter.  `None` (or zero) means unlimited.
    pub fn new(limit: Option<u64>, now_ms: u64) -> (s: Self)
        ensures
            s.limit == match limit {
                Some(l) => l,
                None => 0u64,
            },
            s.consumed == 0,
            s.window_start_ms == now_ms,
    {
        SpeedLimiter {
            limit: match limit {
                Some(l) => l,
                None => 0,
            },
            consumed: 0,
            window_start_ms: now_ms,
        }
    }

    /// Books `len` received bytes at time `now_ms`.  Returns `None`
    /// when the caller may proceed at once: always when unlimited, and
    /// whenever the booked amount stays under the budget.  Otherwise
    /// returns the time until which the caller must suspend; the window
    /// restarts there and the budget is subtracted from the
    /// consumption, carrying any overshoot into the new window.
    ///
    /// The caller passes a monotone clock: `now_ms` is at least the
    /// window start, which a suspended caller guarantees by waking at
    /// the returned time before calling again.
    pub fn receive_len(&mut self, len: u64, now_ms: u64) -> (wake: Option<u64>)
        requires
            old(self).window_start_ms <= now_ms,
            old(self).consumed + len <= u64::MAX,
            now_ms + LIMIT_INTERVAL_MS <= u64::MAX,
        ensures
            final(self).limit == old(self).limit,
            ({
                let (next, ret) = receive_model(*old(self), ReceiveEvent { len, now_ms });
                &&& *final(self) == next
                &&& ret == match wake {
                    Some(w) => w as int,
                    None => now_ms as int,
                }
            }),
            old(self).limit == 0 ==> wake is None,
            old(self).limit != 0 && old(self).consumed + len < old(self).limit ==> wake is None,
    {
        if self.limit == 0 {
            self.consumed = self.consumed + len;
            return None;
        }
        let after = self.consumed + len;
        if after < self.limit {
            self.consumed = after;
            return None;
        }
        let wake = if now_ms >= self.window_start_ms + LIMIT_INTERVAL_MS {
            now_ms
        } else {
            self.window_start_ms + LIMIT_INTERVAL_MS
        };
        self.consumed = after - self.limit;
        self.window_start_ms = wake;
        Some(wake)
    }

    /// Replaces the limit and restarts the window with nothing consumed.
    pub fn change(&mut self, limit: Option<u64>, now_ms: u64)
        ensures
            final(self).limit == match limit {
                Some(l) => l,
                None => 0u64,
            },
            final(self).consumed == 0,
            final(self).window_start_ms == now_ms,
    {
        self.limit = match limit {
            Some(l) => l,
            None => 0,
        };
        self.reset(now_ms);
    }

    /// Restarts the window with nothing consumed.
    pub fn reset(&mut self, now_ms: u64)
        ensures
            final(self).limit == old(self).limit,
            final(self).consumed == 0,
            final(self).window_start_ms == now_ms,
    {
        self.consumed = 0;
        self.window_start_ms = now_ms;
    }
}

/// A sequence of limiter calls is valid when each call sees a clock no
/// earlier than the window start it observes and no arithmetic
/// overflows; a caller told to suspend calls again no earlier than its
/// wake-up time, which the window start then equals.
pub open spec fn valid_trace(s: SpeedLimiter, events: Seq<ReceiveEvent>) -> bool
    decreases events.len(),
{
    events.len() == 0 || {
        &&& s.window_start_ms <= events[0].now_ms
        &&& s.consumed + events[0].len <= u64::MAX
        &&& events[0].now_ms + LIMIT_INTERVAL_MS <= u64::MAX
        &&& valid_trace(receive_model(s, events[0]).0, events.drop_first())
    }
}

/// The limiter state after a sequence of calls.
pub open spec fn run_state(s: SpeedLimiter, events: Seq<ReceiveEvent>) -> SpeedLimiter
    decreases events.len(),
{
    if events.len() == 0 {
        s
    } else {
        run_state(receive_model(s, events[0]).0, events.drop_first())
    }
}

/// When the last of a sequence of calls returns (the window start, for
/// an empty sequence).
pub open spec fn last_return(s: SpeedLimiter, events: Seq<ReceiveEvent>) -> int
    decreases events.len(),
{
    if events.len() == 0 {
        s.window_start_ms as int
    } else if events.len() == 1 {
        receive_model(s, events[0]).1
    } else {
        last_return(receive_model(s, events[0]).0, events.drop_first())
    }
}

/// How many of the calls suspended (each one restarts the window).
pub open spec fn wait_count(s: SpeedLimiter, events: Seq<ReceiveEvent>) -> int
    decreases events.len(),
{
    if events.len() == 0 {
        0
    } else {
        (if s.limit != 0 && s.consumed + events[0].len >= s.limit {
            1int
        } else {
            0int
        }) + wait_count(receive_model(s, events[0]).0, events.drop_first())
    }
}

/// The bytes submitted over a sequence of calls.
pub open spec fn total_len(events: Seq<ReceiveEvent>) -> int
    decreases events.len(),
{
    if events.len() == 0 {
        0
    } else {
        events[0].len + total_len(events.drop_first())
    }
}

/// Running facts: consumption books exactly the submitted bytes less
/// one budget per suspension, stays under the budget when no single
/// call exceeds it, each suspension moves the window a full interval
/// forward, and no call returns before the window it leaves behind
/// began.
proof fn lemma_run_facts(s: SpeedLimiter, events: Seq<ReceiveEvent>)
    requires
        valid_trace(s, events),
        s.limit >= 1,
        s.consumed < s.limit,
        forall|i: int| 0 <= i < events.len() ==> #[trigger] events[i].len <= s.limit,
    ensures
        run_state(s, events).limit == s.limit,
        run_state(s, events).consumed == s.consumed + total_len(events) - wait_count(s, events)
            * s.limit,
        run_state(s, events).consumed < s.limit,
        run_state(s, events).window_start_ms >= s.window_start_ms + wait_count(s, events)
            * LIMIT_INTERVAL_MS,
        last_return(s, events) >= run_state(s, events).window_start_ms,
        wait_count(s, events) >= 0,
    decreases events.len(),
{
    if events.len() == 0 {
    } else {
        let e = events[0];
        let (next, ret) = receive_model(s, e);
        if s.consumed + e.len < s.limit {
            assert(next.consumed == s.consumed + e.len);
        } else {
            assert(next.consumed == s.consumed + e.len - s.limit);
        }
        assert(next.consumed < s.limit);
        assert(total_len(events) == e.len + total_len(events.drop_first()));
        assert(forall|i: int|
            0 <= i < events.drop_first().len() ==> #[trigger] events.drop_first()[i].len
                <= next.limit);
        lemma_run_facts(next, events.drop_first());
        let w = wait_count(next, events.drop_first());
        assert(next.limit == s.limit);
        assert(run_state(s, events) == run_state(next, events.drop_first()));
        assert(run_state(s, events).consumed == next.consumed + total_len(events.drop_first()) - w
            * s.limit);
        if s.consumed + e.len >= s.limit {
            assert(wait_count(s, events) == 1 + w);
            assert(next.window_start_ms >= s.window_start_ms + LIMIT_INTERVAL_MS);
            assert(run_state(s, events).window_start_ms >= next.window_start_ms + w
                * LIMIT_INTERVAL_MS);
            assert((1 + w) * LIMIT_INTERVAL_MS == LIMIT_INTERVAL_MS + w * LIMIT_INTERVAL_MS)
                by (nonlinear_arith);
            assert((1 + w) * s.limit == s.limit + w * s.limit) by (nonlinear_arith);
        } else {
            assert(wait_count(s, events) == w);
        }
        if events.len() == 1 {
            assert(events.drop_first().len() == 0);
            assert(run_state(s, events) == next);
            assert(ret >= next.window_start_ms as int);
        }
    }
}

/// Bounded throttling.  With a limit of `lim` bytes per second, a burst
/// totalling `n * lim` bytes — submitted in buffers of at most `lim`
/// bytes each — cannot have every call returned before `n - 1` full
/// windows have elapsed since the window began.
///
/// The buffer bound matters: one call suspends at most one window
/// however many bytes it books, so a single call carrying the whole
/// burst pays for one window, not `n - 1`.
pub proof fn lemma_throttling_lower_bound(s: SpeedLimiter, events: Seq<ReceiveEvent>, n: int)
    requires
        valid_trace(s, events),
        s.limit >= 1,
        s.consumed == 0,
        n >= 1,
        total_len(events) == n * s.limit,
        forall|i: int| 0 <= i < events.len() ==> #[trigger] events[i].len <= s.limit,
    ensures
        last_return(s, events) >= s.window_start_ms + (n - 1) * LIMIT_INTERVAL_MS,
{
    lemma_run_facts(s, events);
    let k = wait_count(s, events);
    let fin = run_state(s, events);
    assert(fin.consumed == n * s.limit - k * s.limit);
    assert(fin.consumed < s.limit);
    assert(k >= n) by {
        if k < n {
            assert((n - k) * s.limit >= s.limit) by (nonlinear_arith)
                requires
                    n - k >= 1,
                    s.limit >= 1,
            ;
            assert(n * s.limit - k * s.limit == (n - k) * s.limit) by (nonlinear_arith);
        }
    }
    assert(k * LIMIT_INTERVAL_MS >= (n - 1) * LIMIT_INTERVAL_MS) by (nonlinear_arith)
        requires
            k >= n - 1,
    ;
}

} // verus!
