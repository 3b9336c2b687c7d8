//! Countdown timers, advanced by the time that has passed since the last
//! tick and counted in nanoseconds.

use vstd::prelude::*;

verus! {

/// What a timer does when it completes.
#[derive(Copy, Clone, Debug, PartialEq, Eq, Hash, Structural)]
pub enum TimerMode {
    /// Runs once: completes, and stays finished.
    Once,
    /// Starts over on completion, carrying the time beyond its duration
    /// into the next period.
    Repeating,
}

/// A countdown of a fixed duration.
#[derive(Copy, Clone, Debug, PartialEq, Eq, Hash, Structural)]
pub struct Timer {
    /// The length of one period.
    pub duration: u64,
    /// The time run in the current period.
    pub elapsed: u64,
    pub mode: TimerMode,
    /// Whether the last tick that advanced the timer completed it.
    pub finished: bool,
    /// How many periods the last tick completed.
    pub times_finished_this_tick: u32,
}

/// What the engine's timer holds after one tick: the time run in the
/// current period, whether it is finished, and how many periods the tick
/// completed. It is stated of a timer of the given duration and mode that
/// has not finished and has run `elapsed`, ticked by `delta`.
///
/// A repeating timer counts the whole periods in the time run and keeps the
/// remainder; the count is kept in 32 bits. One of duration zero reports the
/// largest count. A one-shot timer stops at its duration.
pub open spec fn engine_ticked(duration: u64, mode: TimerMode, elapsed: u64, delta: u64) -> (
    u64,
    bool,
    u32,
) {
    let total = elapsed + delta;
    if total < duration {
        (total as u64, false, 0u32)
    } else {
        match mode {
            TimerMode::Once => (duration, true, 1u32),
            TimerMode::Repeating => if duration == 0 {
                (0u64, true, u32::MAX)
            } else {
                ((total % (duration as int)) as u64, true, ((total / (duration as int))
                    % 0x1_0000_0000) as u32)
            },
        }
    }
}

/// Ticks a timer of the engine, built for the occasion, and reads it back.
///
/// Calls `bevy_time::Timer::new`, `set_elapsed`, `tick`, `elapsed`,
/// `finished` and `times_finished_this_tick`. The contract restates the body
/// of `tick` for a timer that is neither paused nor finished.
#[verifier::external_body]
fn engine_tick(duration: u64, mode: TimerMode, elapsed: u64, delta: u64) -> (r: (u64, bool, u32))
    ensures
        r == engine_ticked(duration, mode, elapsed, delta),
{
    let mode = match mode {
        TimerMode::Once => bevy_time::TimerMode::Once,
        TimerMode::Repeating => bevy_time::TimerMode::Repeating,
    };
    let mut timer = bevy_time::Timer::new(core::time::Duration::from_nanos(duration), mode);
    timer.set_elapsed(core::time::Duration::from_nanos(elapsed));
    timer.tick(core::time::Duration::from_nanos(delta));
    (timer.elapsed().as_nanos() as u64, timer.finished(), timer.times_finished_this_tick())
}

impl Timer {
    /// A timer of the given duration that has not run yet.
    pub fn new(duration: u64, mode: TimerMode) -> (t: Timer)
        ensures
            t == (Timer { duration, elapsed: 0, mode, finished: false, times_finished_this_tick: 0 }),
    {
        Timer { duration, elapsed: 0, mode, finished: false, times_finished_this_tick: 0 }
    }

    /// The timer after a tick of `delta` nanoseconds.
    ///
    /// A one-shot timer that has finished stays as it is, but for the count
    /// of completions, which goes back to zero.
    pub open spec fn ticked(self, delta: u64) -> Timer {
        if self.mode == TimerMode::Once && self.finished {
            Timer { times_finished_this_tick: 0, ..self }
        } else {
            let r = engine_ticked(self.duration, self.mode, self.elapsed, delta);
            Timer { elapsed: r.0, finished: r.1, times_finished_this_tick: r.2, ..self }
        }
    }

    /// Whether the last tick completed the timer.
    pub open spec fn spec_just_finished(&self) -> bool {
        self.times_finished_this_tick > 0
    }

    /// Advances the timer by `delta` nanoseconds.
    pub fn tick(&mut self, delta: u64)
        ensures
            *final(self) == old(self).ticked(delta),
    {
        if self.mode == TimerMode::Once && self.finished {
            self.times_finished_this_tick = 0;
        } else {
            let r = engine_tick(self.duration, self.mode, self.elapsed, delta);
            self.elapsed = r.0;
            self.finished = r.1;
            self.times_finished_this_tick = r.2;
        }
    }

    /// Whether the timer has completed. A one-shot timer stays finished; a
    /// repeating one is finished only after a tick that completed a period.
    pub fn finished(&self) -> (b: bool)
        ensures
            b == self.finished,
    {
        self.finished
    }

    /// Whether the last tick completed the timer.
    #[verifier::when_used_as_spec(spec_just_finished)]
    pub fn just_finished(&self) -> (b: bool)
        ensures
            b == self.spec_just_finished(),
    {
        self.times_finished_this_tick > 0
    }

    /// The time run in the current period, in nanoseconds.
    pub fn elapsed(&self) -> (e: u64)
        ensures
            e == self.elapsed,
    {
        self.elapsed
    }

    /// The length of one period, in nanoseconds.
    pub fn duration(&self) -> (d: u64)
        ensures
            d == self.duration,
    {
        self.duration
    }

    pub fn mode(&self) -> (m: TimerMode)
        ensures
            m == self.mode,
    {
        self.mode
    }

    /// How many periods the last tick completed.
    pub fn times_finished_this_tick(&self) -> (n: u32)
        ensures
            n == self.times_finished_this_tick,
    {
        self.times_finished_this_tick
    }

    /// Puts the timer back to its start.
    pub fn reset(&mut self)
        ensures
            *final(self) == (Timer {
                elapsed: 0,
                finished: false,
                times_finished_this_tick: 0,
                ..*old(self)
            }),
    {
        self.elapsed = 0;
        self.finished = false;
        self.times_finished_this_tick = 0;
    }
}

/// The sum of a list of time steps.
pub open spec fn total(deltas: Seq<u64>) -> int
    decreases deltas.len(),
{
    if deltas.len() == 0 {
        0
    } else {
        total(deltas.drop_last()) + deltas.last()
    }
}

impl Timer {
    /// The timer after one tick for each of `deltas`, in order.
    pub open spec fn run(self, deltas: Seq<u64>) -> Timer
        decreases deltas.len(),
    {
        if deltas.len() == 0 {
            self
        } else {
            self.run(deltas.drop_last()).ticked(deltas.last())
        }
    }

    /// How many of the ticks of `deltas` left the timer just finished.
    pub open spec fn fired(self, deltas: Seq<u64>) -> int
        decreases deltas.len(),
    {
        if deltas.len() == 0 {
            0
        } else {
            self.fired(deltas.drop_last()) + if self.run(deltas).spec_just_finished() {
                1int
            } else {
                0int
            }
        }
    }
}

/// A quotient and a remainder are the only numbers that fit their equation.
proof fn lemma_div_mod_unique(a: int, d: int, q: int, r: int)
    requires
        d > 0,
        0 <= r < d,
        a == q * d + r,
    ensures
        a / d == q,
        a % d == r,
{
    assert(a / d == q && a % d == r) by (nonlinear_arith)
        requires
            d > 0,
            0 <= r < d,
            a == q * d + r,
    ;
}

/// A tick never reports a completion that did not happen: a timer that has
/// just finished is finished.
pub proof fn lemma_just_finished_is_finished(t: Timer, delta: u64)
    ensures
        t.ticked(delta).spec_just_finished() ==> t.ticked(delta).finished,
{
}

/// A repeating timer fires once for each period that has passed.
///
/// Take a repeating timer of a duration above zero, part-way through a
/// period, and tick it by steps none of which is longer than the duration.
/// Then the number of ticks that leave it just finished is the number of
/// whole periods in the time run so far, and the timer holds the remainder.
pub proof fn lemma_repeating_fires_once_per_period(t: Timer, deltas: Seq<u64>)
    requires
        t.mode == TimerMode::Repeating,
        t.duration > 0,
        t.elapsed < t.duration,
        forall|i: int| 0 <= i < deltas.len() ==> deltas[i] <= t.duration,
    ensures
        t.fired(deltas) == (t.elapsed + total(deltas)) / (t.duration as int),
        t.run(deltas).elapsed == (t.elapsed + total(deltas)) % (t.duration as int),
        t.run(deltas).duration == t.duration,
        t.run(deltas).mode == t.mode,
    decreases deltas.len(),
{
    let d = t.duration as int;
    if deltas.len() == 0 {
        lemma_div_mod_unique(t.elapsed as int, d, 0, t.elapsed as int);
    } else {
        let before = deltas.drop_last();
        lemma_repeating_fires_once_per_period(t, before);
        let a = t.elapsed + total(before);
        let prev = t.run(before);
        let step = deltas.last();
        let q = a / d;
        let e = a % d;
        assert(a == q * d + e && 0 <= e < d) by (nonlinear_arith)
            requires
                d > 0,
                q == a / d,
                e == a % d,
        ;
        let sum = e + step;
        if sum < d {
            lemma_div_mod_unique(a + step, d, q, sum);
        } else {
            lemma_div_mod_unique(sum, d, 1, sum - d);
            assert((q + 1) * d == q * d + d) by (nonlinear_arith);
            lemma_div_mod_unique(a + step, d, q + 1, sum - d);
        }
    }
}

/// A repeating timer never fires more often than periods have passed.
///
/// Take a repeating timer of a duration above zero, part-way through a
/// period, and tick it by any steps, however long. The number of ticks that
/// leave it just finished is at most the number of whole periods in the
/// time run so far: a long tick that covers several periods fires once. The
/// timer holds the remainder.
pub proof fn lemma_repeating_fires_at_most_once_per_period(t: Timer, deltas: Seq<u64>)
    requires
        t.mode == TimerMode::Repeating,
        t.duration > 0,
        t.elapsed < t.duration,
    ensures
        0 <= t.fired(deltas) <= (t.elapsed + total(deltas)) / (t.duration as int),
        t.fired(deltas) <= deltas.len(),
        t.run(deltas).elapsed == (t.elapsed + total(deltas)) % (t.duration as int),
        t.run(deltas).duration == t.duration,
        t.run(deltas).mode == t.mode,
    decreases deltas.len(),
{
    let d = t.duration as int;
    if deltas.len() == 0 {
        lemma_div_mod_unique(t.elapsed as int, d, 0, t.elapsed as int);
    } else {
        let before = deltas.drop_last();
        lemma_repeating_fires_at_most_once_per_period(t, before);
        let a = t.elapsed + total(before);
        let step = deltas.last();
        let q = a / d;
        let e = a % d;
        assert(a == q * d + e && 0 <= e < d) by (nonlinear_arith)
            requires
                d > 0,
                q == a / d,
                e == a % d,
        ;
        let sum = e + step;
        let k = sum / d;
        let r = sum % d;
        assert(sum == k * d + r && 0 <= r < d && k >= 0) by (nonlinear_arith)
            requires
                d > 0,
                sum >= 0,
                k == sum / d,
                r == sum % d,
        ;
        assert((q + k) * d == q * d + k * d) by (nonlinear_arith);
        lemma_div_mod_unique(a + step, d, q + k, r);
        if sum >= d {
            assert(k >= 1) by (nonlinear_arith)
                requires
                    sum == k * d + r,
                    r < d,
                    sum >= d,
                    d > 0,
            ;
        } else {
            lemma_div_mod_unique(sum, d, 0, sum);
        }
    }
}

/// After `n` full periods a repeating timer has fired exactly `n` times.
///
/// Take a repeating timer of a duration above zero that has not run yet,
/// and tick it by steps none of which is longer than the duration and which
/// add up to `n` durations. Then exactly `n` of the ticks left it just
/// finished.
pub proof fn lemma_fires_n_times_in_n_periods(t: Timer, deltas: Seq<u64>, n: int)
    requires
        t.mode == TimerMode::Repeating,
        t.duration > 0,
        t.elapsed == 0,
        forall|i: int| 0 <= i < deltas.len() ==> deltas[i] <= t.duration,
        total(deltas) == n * t.duration,
    ensures
        t.fired(deltas) == n,
        t.run(deltas).elapsed == 0,
{
    lemma_repeating_fires_once_per_period(t, deltas);
    lemma_div_mod_unique(total(deltas), t.duration as int, n, 0);
}

/// A one-shot timer fires once, on the tick that completes it.
///
/// Take a one-shot timer that has not finished, and tick it by any steps.
/// It has fired once if the time run has reached its duration, and not at
/// all before that; from then on it stays finished.
pub proof fn lemma_once_fires_once(t: Timer, deltas: Seq<u64>)
    requires
        t.mode == TimerMode::Once,
        !t.finished,
        t.elapsed < t.duration,
    ensures
        t.fired(deltas) == if t.elapsed + total(deltas) >= t.duration {
            1int
        } else {
            0int
        },
        t.run(deltas).finished == (t.elapsed + total(deltas) >= t.duration),
        t.run(deltas).mode == t.mode,
        t.run(deltas).duration == t.duration,
        !t.run(deltas).finished ==> t.run(deltas).elapsed == t.elapsed + total(deltas),
    decreases deltas.len(),
{
    if deltas.len() > 0 {
        lemma_once_fires_once(t, deltas.drop_last());
        lemma_total_not_negative(deltas.drop_last());
    }
}

/// A sum of time steps is not negative.
pub proof fn lemma_total_not_negative(deltas: Seq<u64>)
    ensures
        total(deltas) >= 0,
    decreases deltas.len(),
{
    if deltas.len() > 0 {
        lemma_total_not_negative(deltas.drop_last());
    }
}

} // verus!
