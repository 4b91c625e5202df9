//! The decaying 8-bit countdown timers.
//!
//! A timer loses one unit of value per tick period of real elapsed time,
//! independent of how often it is polled. The wall-clock reads are the only
//! trusted part; the catch-up rule itself is verified against `drain`.

use vstd::prelude::*;

verus! {

/// Mathematical state of a timer: the countdown value, the tick period in
/// nanoseconds, and elapsed time accumulated but not yet consumed.
#[verifier::ext_equal]
pub ghost struct TimerView {
    pub val: u8,
    pub wait: u64,
    pub acc: u64,
}

/// A tick rate: `ticks` units of value loss per `nanos` nanoseconds.
pub struct Freq {
    ticks: u32,
    nanos: u64,
}

impl Freq {
    /// The number of ticks per duration.
    pub closed spec fn ticks_spec(&self) -> u32 {
        self.ticks
    }

    /// The duration, in nanoseconds.
    pub closed spec fn nanos_spec(&self) -> u64 {
        self.nanos
    }

    /// A usable rate has at least one tick per duration.
    pub open spec fn wf(&self) -> bool {
        self.ticks_spec() >= 1
    }
}

impl Default for Freq {
    /// The default decay rate: one tick of value loss per 1/60 second.
    fn default() -> (r: Freq)
        ensures
            r.ticks_spec() == 60,
            r.nanos_spec() == 1_000_000_000u64,
            r.wf(),
    {
        Freq { ticks: 60, nanos: 1_000_000_000 }
    }
}

#[verifier::external_type_specification]
#[verifier::external_body]
pub struct ExInstant(std::time::Instant);

/// Relies on std::time::Instant::now: an opaque reading of the monotonic
/// clock; nothing is assumed of its value.
#[verifier::external_body]
fn now_instant() -> std::time::Instant {
    std::time::Instant::now()
}

/// Relies on std::time::Instant::duration_since: the time from `earlier` to
/// `later`, or zero if `earlier` is in fact the later of the two; it does
/// not panic. Nothing is assumed of the returned amount.
#[verifier::external_body]
fn time_between(later: &std::time::Instant, earlier: &std::time::Instant) -> std::time::Duration {
    later.duration_since(*earlier)
}

/// Relies on std::time::Duration::as_nanos: the duration as a whole number
/// of nanoseconds. Nothing is assumed of the returned amount.
#[verifier::external_body]
fn duration_nanos(d: &std::time::Duration) -> u128 {
    d.as_nanos()
}

/// The catch-up rule: while the value is positive and at least one tick
/// period has accumulated, lose one unit of value and consume one period.
pub open spec fn drain(val: u8, acc: u64, wait: u64) -> (u8, u64)
    decreases val,
{
    if val == 0 || acc < wait {
        (val, acc)
    } else {
        drain((val - 1) as u8, (acc - wait) as u64, wait)
    }
}

/// The timer after `elapsed` further nanoseconds of real time: the elapsed
/// time joins the accumulator (saturating at the accumulator's capacity) and
/// the catch-up rule applies.
pub open spec fn advance_spec(t: TimerView, elapsed: u64) -> TimerView {
    let a0: u64 = if t.acc + elapsed > u64::MAX {
        u64::MAX
    } else {
        (t.acc + elapsed) as u64
    };
    let drained = drain(t.val, a0, t.wait);
    TimerView { val: drained.0, wait: t.wait, acc: drained.1 }
}

/// The catch-up rule never increases the value or the accumulator.
pub proof fn lemma_drain_le(val: u8, acc: u64, wait: u64)
    ensures
        drain(val, acc, wait).0 <= val,
        drain(val, acc, wait).1 <= acc,
    decreases val,
{
    if !(val == 0 || acc < wait) {
        lemma_drain_le((val - 1) as u8, (acc - wait) as u64, wait);
    }
}

/// A decaying 8-bit countdown driven by real elapsed time.
pub struct Timer {
    val: u8,
    wait: u64,
    acc: u64,
    last: std::time::Instant,
}

impl View for Timer {
    type V = TimerView;

    closed spec fn view(&self) -> TimerView {
        TimerView { val: self.val, wait: self.wait, acc: self.acc }
    }
}

impl Timer {
    /// An exhausted timer at the default rate.
    pub fn zero() -> (t: Timer)
        ensures
            t@ == (TimerView { val: 0, wait: 16_666_666u64, acc: 0 }),
    {
        Timer::new(0)
    }

    /// A timer holding `val` at the default rate of one tick per 1/60 second.
    pub fn new(val: u8) -> (t: Timer)
        ensures
            t@ == (TimerView { val, wait: 16_666_666u64, acc: 0 }),
    {
        Timer::with_freq(val, Freq::default())
    }

    /// A timer holding `val` that decays at the given rate.
    pub fn with_freq(val: u8, freq: Freq) -> (t: Timer)
        requires
            freq.wf(),
        ensures
            t@ == (TimerView {
                val,
                wait: (freq.nanos_spec() as int / freq.ticks_spec() as int) as u64,
                acc: 0,
            }),
    {
        Timer {
            val,
            wait: freq.nanos / (freq.ticks as u64),
            acc: 0,
            last: now_instant(),
        }
    }

    /// Apply `elapsed` nanoseconds of real time to the timer.
    pub fn advance(&mut self, elapsed: u64)
        ensures
            final(self)@ == advance_spec(old(self)@, elapsed),
    {
        let ghost pre = self@;
        self.acc = self.acc.saturating_add(elapsed);
        let ghost a0: u64 = self.acc;
        while self.val > 0 && self.acc >= self.wait
            invariant
                self.wait == pre.wait,
                drain(self.val, self.acc, self.wait) == drain(pre.val, a0, self.wait),
            decreases self.val,
        {
            self.val = self.val - 1;
            self.acc = self.acc - self.wait;
        }
        proof {
            assert(drain(self.val, self.acc, self.wait) == (self.val, self.acc));
            assert(self@ =~= advance_spec(pre, elapsed));
        }
    }

    /// Advance by the real time elapsed since the previous reading of the
    /// clock. The amount of elapsed time is the clock's to choose; whatever
    /// it is, the catch-up rule applies to it, so the value never increases.
    pub fn update(&mut self)
        ensures
            exists|e: u64| final(self)@ == advance_spec(old(self)@, e),
            final(self)@.val <= old(self)@.val,
            final(self)@.wait == old(self)@.wait,
    {
        let ghost pre = self@;
        let now = now_instant();
        let between = time_between(&now, &self.last);
        let n = duration_nanos(&between);
        let e: u64 = if n > u64::MAX as u128 {
            u64::MAX
        } else {
            n as u64
        };
        self.last = now;
        proof {
            assert(self@ =~= pre);
        }
        self.advance(e);
        proof {
            assert(advance_spec(old(self)@, e) == final(self)@) by {
                assert(pre =~= old(self)@);
            };
            lemma_drain_le(
                pre.val,
                if pre.acc + e > u64::MAX { u64::MAX } else { (pre.acc + e) as u64 },
                pre.wait,
            );
        }
    }

    /// The current countdown value, with no side effect.
    pub fn val(&self) -> (v: u8)
        ensures
            v == self@.val,
    {
        self.val
    }
}

/// A timer holding value 3 that receives exactly three tick periods of
/// elapsed time is exhausted: its value reaches 0.
pub proof fn lemma_timer_three_periods(wait: u64)
    requires
        3 * wait <= u64::MAX,
    ensures
        advance_spec(TimerView { val: 3, wait, acc: 0 }, (3 * wait) as u64).val == 0,
        advance_spec(TimerView { val: 3, wait, acc: 0 }, (3 * wait) as u64).acc == 0,
{
    let a0 = (3 * wait) as u64;
    assert(drain(3, a0, wait) == drain(2, (2 * wait) as u64, wait));
    assert(drain(2, (2 * wait) as u64, wait) == drain(1, wait, wait));
    assert(drain(1, wait, wait) == drain(0, 0, wait));
    assert(drain(0, 0, wait) == (0u8, 0u64));
}

/// An exhausted timer stays exhausted: no amount of further elapsed time
/// raises the value above 0.
pub proof fn lemma_timer_stays_zero(t: TimerView, elapsed: u64)
    requires
        t.val == 0,
    ensures
        advance_spec(t, elapsed).val == 0,
{
}

} // verus!
