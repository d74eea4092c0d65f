//! Countdown timers: the bomb fuses, debounces and cooldowns of the game.
//!
//! A `GameTimer` holds as plain numbers what a `bevy_time::Timer` holds for
//! the game (its duration, elapsed time, finished flag and mode); ticking it
//! is done by `bevy_time` itself.
use vstd::prelude::*;

use bevy_time::{Timer, TimerMode};
use std::time::Duration;

verus! {

/// A countdown timer; times are in nanoseconds.
#[derive(Clone, Copy, Debug, PartialEq, Eq, Structural)]
pub struct GameTimer {
    /// Time after which the timer finishes.
    pub duration: u64,
    /// Time accumulated since the timer was started, reset or last wrapped.
    pub elapsed: u64,
    /// Whether the last tick made the timer finish (a one-shot timer stays finished).
    pub finished: bool,
    /// A repeating timer starts over when it finishes; a one-shot timer stops.
    pub repeating: bool,
}

/// Elapsed time after ticking a timer that has not stopped.
pub open spec fn ticked_elapsed(duration: u64, elapsed: u64, repeating: bool, delta: u64) -> int {
    let total: int = elapsed + delta;
    if total >= duration {
        if repeating {
            if duration == 0 {
                0
            } else {
                total % (duration as int)
            }
        } else {
            duration as int
        }
    } else {
        total
    }
}

/// `bevy_time::Timer::tick` on a fresh, running timer of the given duration and
/// mode whose elapsed time was set to `elapsed`.
///
/// The contract claims what the source of `Timer::tick` (with
/// `Stopwatch::tick`) shows for such a timer: the elapsed time grows by
/// `delta`; the timer finishes when it reaches the duration; a one-shot
/// timer then stops at its duration, a repeating one keeps the remainder
/// modulo the duration (zero when the duration is zero). The sum of two
/// `u64` nanosecond counts never reaches the point where `Duration` saturates,
/// and the elapsed time read back never exceeds `u64`.
#[verifier::external_body]
fn bevy_timer_tick(duration: u64, elapsed: u64, repeating: bool, delta: u64) -> (r: (u64, bool))
    ensures
        r.0 == ticked_elapsed(duration, elapsed, repeating, delta),
        r.1 == (elapsed + delta >= duration),
{
    let mode = if repeating { TimerMode::Repeating } else { TimerMode::Once };
    let mut timer = Timer::new(Duration::from_nanos(duration), mode);
    timer.set_elapsed(Duration::from_nanos(elapsed));
    timer.tick(Duration::from_nanos(delta));
    (timer.elapsed().as_nanos() as u64, timer.finished())
}

impl GameTimer {
    /// The timer after `tick(delta)`.
    pub open spec fn after_tick(self, delta: u64) -> GameTimer {
        if !self.repeating && self.finished {
            self
        } else {
            GameTimer {
                elapsed: ticked_elapsed(self.duration, self.elapsed, self.repeating, delta) as u64,
                finished: self.elapsed + delta >= self.duration,
                ..self
            }
        }
    }

    /// The timer after `reset()`.
    pub open spec fn after_reset(self) -> GameTimer {
        GameTimer { elapsed: 0, finished: false, ..self }
    }

    /// The states a timer can reach from a fresh start by ticks and resets.
    pub open spec fn wf(self) -> bool {
        &&& self.elapsed <= self.duration
        &&& (!self.repeating && self.finished) ==> self.elapsed == self.duration
        &&& self.repeating ==> (self.elapsed < self.duration || (self.duration == 0
            && self.elapsed == 0))
    }

    /// A fresh one-shot timer.
    pub fn once(duration: u64) -> (t: GameTimer)
        ensures
            t == (GameTimer { duration, elapsed: 0, finished: false, repeating: false }),
            t.wf(),
    {
        GameTimer { duration, elapsed: 0, finished: false, repeating: false }
    }

    /// A fresh repeating timer.
    pub fn repeating(duration: u64) -> (t: GameTimer)
        ensures
            t == (GameTimer { duration, elapsed: 0, finished: false, repeating: true }),
            t.wf(),
    {
        GameTimer { duration, elapsed: 0, finished: false, repeating: true }
    }

    /// Lets `delta` nanoseconds pass, as `bevy_time::Timer::tick` does: a
    /// finished one-shot timer stays as it is; otherwise `bevy_time` ticks it.
    pub fn tick(&mut self, delta: u64)
        ensures
            *final(self) == old(self).after_tick(delta),
    {
        if !self.repeating && self.finished {
            return;
        }
        let (elapsed, finished) = bevy_timer_tick(self.duration, self.elapsed, self.repeating, delta);
        self.elapsed = elapsed;
        self.finished = finished;
    }

    /// Starts the timer over.
    pub fn reset(&mut self)
        ensures
            *final(self) == old(self).after_reset(),
    {
        self.elapsed = 0;
        self.finished = false;
    }

    /// Whether the last tick made the timer finish.
    pub fn is_finished(&self) -> (r: bool)
        ensures
            r == self.finished,
    {
        self.finished
    }
}

/// Ticking or resetting a timer keeps it in a state reachable from a fresh start.
pub proof fn lemma_tick_and_reset_keep_wf(t: GameTimer, delta: u64)
    requires
        t.wf(),
    ensures
        t.after_tick(delta).wf(),
        t.after_reset().wf(),
{
    let total: int = t.elapsed + delta;
    if t.repeating && total >= t.duration && t.duration > 0 {
        assert(total % (t.duration as int) < t.duration) by (nonlinear_arith)
            requires
                t.duration > 0,
        ;
    }
}

/// A finished one-shot timer stays finished, with its elapsed time unchanged,
/// whatever time passes.
pub proof fn lemma_finished_once_stays(t: GameTimer, delta: u64)
    requires
        !t.repeating,
        t.finished,
    ensures
        t.after_tick(delta) == t,
{
}

/// Ticking a one-shot timer by `a` and then by `b` is ticking it once by `a + b`.
pub proof fn lemma_once_ticks_add(t: GameTimer, a: u64, b: u64)
    requires
        t.wf(),
        !t.repeating,
        a + b <= u64::MAX,
    ensures
        t.after_tick(a).after_tick(b) == t.after_tick((a + b) as u64),
{
}

/// Ticking a repeating timer by `a` and then by `b` leaves it with the elapsed
/// time of one tick by `a + b`.
pub proof fn lemma_repeating_ticks_add(t: GameTimer, a: u64, b: u64)
    requires
        t.wf(),
        t.repeating,
        a + b <= u64::MAX,
    ensures
        t.after_tick(a).after_tick(b).elapsed == t.after_tick((a + b) as u64).elapsed,
{
    let d: int = t.duration as int;
    let s: int = t.elapsed + a;
    if d > 0 && s >= d {
        let r: int = s % d;
        assert(0 <= r < d && s == d * (s / d) + r) by {
            vstd::arithmetic::div_mod::lemma_fundamental_div_mod(s, d);
            vstd::arithmetic::div_mod::lemma_mod_bound(s, d);
        }
        assert((r + b) % d == (s + b) % d) by {
            vstd::arithmetic::div_mod::lemma_add_mod_noop(s, b as int, d);
            vstd::arithmetic::div_mod::lemma_mod_twice(s, d);
            vstd::arithmetic::div_mod::lemma_add_mod_noop(r, b as int, d);
            vstd::arithmetic::div_mod::lemma_mod_bound(b as int, d);
        }
        if r + b < d {
            assert((r + b) % d == r + b) by {
                vstd::arithmetic::div_mod::lemma_small_mod((r + b) as nat, d as nat);
            }
        }
    }
}

/// The timer after ticking it by each of `deltas` in turn.
pub open spec fn ticked_by(t: GameTimer, deltas: Seq<u64>) -> GameTimer
    decreases deltas.len(),
{
    if deltas.len() == 0 {
        t
    } else {
        ticked_by(t, deltas.drop_last()).after_tick(deltas.last())
    }
}

/// The sum of `deltas`.
pub open spec fn total(deltas: Seq<u64>) -> int
    decreases deltas.len(),
{
    if deltas.len() == 0 {
        0
    } else {
        total(deltas.drop_last()) + deltas.last()
    }
}

/// A one-shot timer started afresh, then ticked at least once, has finished
/// exactly when the ticks add up to its duration; its elapsed time is the
/// total of the ticks, capped at the duration.
pub proof fn lemma_once_finishes_at_duration(t: GameTimer, deltas: Seq<u64>)
    requires
        !t.repeating,
        !t.finished,
        t.elapsed == 0,
        deltas.len() > 0,
    ensures
        ticked_by(t, deltas).finished == (total(deltas) >= t.duration),
        ticked_by(t, deltas).elapsed == if total(deltas) >= t.duration {
            t.duration as int
        } else {
            total(deltas)
        },
        ticked_by(t, deltas).duration == t.duration,
        !ticked_by(t, deltas).repeating,
    decreases deltas.len(),
{
    let prefix = deltas.drop_last();
    if prefix.len() > 0 {
        lemma_once_finishes_at_duration(t, prefix);
    } else {
        assert(ticked_by(t, prefix) == t);
        assert(total(prefix) == 0);
    }
    let before = ticked_by(t, prefix);
    assert(ticked_by(t, deltas) == before.after_tick(deltas.last()));
    assert(total(deltas) == total(prefix) + deltas.last());
}

} // verus!
