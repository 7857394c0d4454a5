//! Cycle-time diagnostics: average, longest and shortest time of the cycles
//! of one window, kept in constant space and reset with each window.
//!
//! `TimingState` is the mathematical model; `TimingDiagnostics` is the
//! executable value that travels in events.

use vstd::prelude::*;
use std::time::Duration;
use std::time::Instant;

verus! {

/// The longest cycle time that can be recorded, in nanoseconds. It is the
/// baseline of the minimum.
pub const CYCLE_TIME_MAX: u128 = 0xffff_ffff_ffff_ffff_ffff_ffff_ffff_ffff;

/// The diagnostics of one window, as plain mathematics. Times are in
/// nanoseconds.
pub struct TimingState {
    /// Cycles per window.
    pub window: int,
    /// Cycles completed in the current window.
    pub cycle: int,
    /// Sum over the completed cycles of the cycle time divided by `window`.
    pub avg: int,
    /// Longest cycle time of the window.
    pub max: int,
    /// Shortest cycle time of the window.
    pub min: int,
}

impl TimingState {
    /// No more cycles are counted than a window spans.
    pub open spec fn wf(self) -> bool {
        0 <= self.cycle <= self.window
    }

    /// The start of a window: nothing counted, average and maximum at
    /// zero, minimum at the longest time there is.
    pub open spec fn fresh(window: int) -> TimingState {
        TimingState { window, cycle: 0, avg: 0, max: 0, min: CYCLE_TIME_MAX as int }
    }

    /// Whether the window has all its cycles.
    pub open spec fn complete(self) -> bool {
        self.cycle == self.window
    }

    /// The state at the start of a cycle: a complete window starts over.
    pub open spec fn begin(self) -> TimingState {
        if self.complete() {
            TimingState::fresh(self.window)
        } else {
            self
        }
    }

    /// The state after a cycle of `elapsed` nanoseconds was added to a
    /// window that is not complete. A window of no cycles has no average
    /// and counts nothing.
    pub open spec fn accumulate(self, elapsed: int) -> TimingState {
        TimingState {
            window: self.window,
            cycle: if self.cycle < self.window {
                self.cycle + 1
            } else {
                self.cycle
            },
            avg: if self.window > 0 {
                self.avg + elapsed / self.window
            } else {
                self.avg
            },
            max: if elapsed > self.max {
                elapsed
            } else {
                self.max
            },
            min: if elapsed < self.min {
                elapsed
            } else {
                self.min
            },
        }
    }

    /// The state at the end of a cycle that took `elapsed` nanoseconds.
    pub open spec fn end(self, elapsed: int) -> TimingState {
        self.begin().accumulate(elapsed)
    }

    /// The state after one cycle for each of `elapsed`, first to last.
    pub open spec fn run(self, elapsed: Seq<int>) -> TimingState
        decreases elapsed.len(),
    {
        if elapsed.len() == 0 {
            self
        } else {
            self.run(elapsed.drop_last()).end(elapsed.last())
        }
    }
}

/// The sum over `elapsed` of each time divided by `window`.
pub open spec fn sum_of_shares(elapsed: Seq<int>, window: int) -> int
    decreases elapsed.len(),
{
    if elapsed.len() == 0 {
        0
    } else {
        sum_of_shares(elapsed.drop_last(), window) + elapsed.last() / window
    }
}

/// The largest of `elapsed`, or zero for none.
pub open spec fn longest(elapsed: Seq<int>) -> int
    decreases elapsed.len(),
{
    if elapsed.len() == 0 {
        0
    } else if elapsed.last() > longest(elapsed.drop_last()) {
        elapsed.last()
    } else {
        longest(elapsed.drop_last())
    }
}

/// The smallest of `elapsed`, or the longest time there is for none.
pub open spec fn shortest(elapsed: Seq<int>) -> int
    decreases elapsed.len(),
{
    if elapsed.len() == 0 {
        CYCLE_TIME_MAX as int
    } else if elapsed.last() < shortest(elapsed.drop_last()) {
        elapsed.last()
    } else {
        shortest(elapsed.drop_last())
    }
}

/// `std::time::Instant`: a reading of the monotonic clock. Nothing is
/// known of a reading but that it can be kept and handed back to the clock.
#[verifier::external_type_specification]
#[verifier::external_body]
pub struct ExInstant(Instant);

/// `Instant::now`: reads the clock. The reading differs from call to call,
/// so nothing is claimed of it.
#[verifier::external_body]
fn clock_now() -> (now: Instant) {
    Instant::now()
}

/// `Instant::elapsed`: the time that has passed since the reading was
/// taken. It depends on the clock, so nothing is claimed of it.
#[verifier::external_body]
fn clock_elapsed(since: &Instant) -> (elapsed: Duration) {
    since.elapsed()
}

/// `Duration::as_nanos`: the whole duration in nanoseconds. A duration is
/// opaque here, so nothing is claimed of the number.
#[verifier::external_body]
fn duration_nanos(d: &Duration) -> (nanos: u128) {
    d.as_nanos()
}

/// Cycle-time diagnostics over windows of a fixed number of cycles. Call
/// `record` at the very start of each cycle and `done` at its very end.
/// Times are in nanoseconds.
#[derive(Clone, Copy, Debug)]
pub struct TimingDiagnostics {
    diagnostic_proc_cycles: u32,
    diagnostic_proc_cycle: u32,
    now: Instant,
    avg_diag_cycle_time: u128,
    max_diag_cycle_time: u128,
    min_diag_cycle_time: u128,
}

impl View for TimingDiagnostics {
    type V = TimingState;

    closed spec fn view(&self) -> TimingState {
        TimingState {
            window: self.diagnostic_proc_cycles as int,
            cycle: self.diagnostic_proc_cycle as int,
            avg: self.avg_diag_cycle_time as int,
            max: self.max_diag_cycle_time as int,
            min: self.min_diag_cycle_time as int,
        }
    }
}

/// The largest share that one cycle can add to the average.
spec fn largest_share(window: int) -> int {
    CYCLE_TIME_MAX as int / window
}

impl TimingDiagnostics {
    /// The counters are in range, and the average leaves room for the
    /// shares of the cycles that the window still lacks.
    #[verifier::type_invariant]
    spec fn inv(self) -> bool {
        &&& self@.wf()
        &&& self@.window > 0 ==> self@.avg + (self@.window - self@.cycle) * largest_share(
            self@.window,
        ) <= CYCLE_TIME_MAX
    }

    /// Diagnostics at the start of a window of `diagnostic_proc_cycles`
    /// cycles. A window of no cycles is permitted: every cycle then
    /// completes it, and no average is kept.
    pub fn new(diagnostic_proc_cycles: u32) -> (t: TimingDiagnostics)
        ensures
            t@ == TimingState::fresh(diagnostic_proc_cycles as int),
            t@.wf(),
    {
        proof {
            lemma_shares_fit(diagnostic_proc_cycles as int);
        }
        TimingDiagnostics {
            diagnostic_proc_cycles,
            diagnostic_proc_cycle: 0,
            now: clock_now(),
            avg_diag_cycle_time: 0,
            max_diag_cycle_time: 0,
            min_diag_cycle_time: CYCLE_TIME_MAX,
        }
    }

    /// The clock reading that the current cycle started with.
    pub closed spec fn started(self) -> Instant {
        self.now
    }

    /// The clock reading that the current cycle started with.
    pub fn started_at(&self) -> (now: Instant)
        ensures
            now == self.started(),
    {
        self.now
    }

    /// Marks the start of a cycle with the clock reading `now`. Where the
    /// window is complete, a new one starts: the count and the average
    /// return to zero, the maximum to zero, the minimum to the longest
    /// time there is.
    pub fn record_at(&mut self, now: Instant)
        ensures
            final(self)@ == old(self)@.begin(),
            final(self).started() == now,
            final(self)@.wf(),
    {
        proof {
            use_type_invariant(&*self);
            lemma_shares_fit(self.diagnostic_proc_cycles as int);
        }
        if self.diagnostic_proc_cycle == self.diagnostic_proc_cycles {
            *self = TimingDiagnostics {
                diagnostic_proc_cycles: self.diagnostic_proc_cycles,
                diagnostic_proc_cycle: 0,
                now,
                avg_diag_cycle_time: 0,
                max_diag_cycle_time: 0,
                min_diag_cycle_time: CYCLE_TIME_MAX,
            };
        } else {
            *self = TimingDiagnostics {
                diagnostic_proc_cycles: self.diagnostic_proc_cycles,
                diagnostic_proc_cycle: self.diagnostic_proc_cycle,
                now,
                avg_diag_cycle_time: self.avg_diag_cycle_time,
                max_diag_cycle_time: self.max_diag_cycle_time,
                min_diag_cycle_time: self.min_diag_cycle_time,
            };
        }
    }

    /// Marks the start of a cycle: the cycle starts with the reading that
    /// the clock gives at this call. Where the window is complete, a new
    /// one starts.
    pub fn record(&mut self)
        ensures
            final(self)@ == old(self)@.begin(),
            final(self)@.wf(),
    {
        let now = clock_now();
        self.record_at(now)
    }

    /// Marks the end of a cycle that took `elapsed` nanoseconds: adds
    /// `elapsed / window` to the average, widens maximum and minimum, and
    /// counts the cycle. Returns whether the window is now complete. A
    /// window that was already complete starts over first, as `record`
    /// would have made it.
    pub fn done_with(&mut self, elapsed: u128) -> (complete: bool)
        ensures
            final(self)@ == old(self)@.end(elapsed as int),
            final(self).started() == old(self).started(),
            complete == final(self)@.complete(),
            final(self)@.wf(),
    {
        proof {
            use_type_invariant(&*self);
            lemma_shares_fit(self.diagnostic_proc_cycles as int);
        }
        let window: u32 = self.diagnostic_proc_cycles;
        let mut cycle: u32 = self.diagnostic_proc_cycle;
        let mut avg: u128 = self.avg_diag_cycle_time;
        let mut max: u128 = self.max_diag_cycle_time;
        let mut min: u128 = self.min_diag_cycle_time;
        if cycle == window {
            cycle = 0;
            avg = 0;
            max = 0;
            min = CYCLE_TIME_MAX;
        }
        if window > 0 {
            proof {
                lemma_share_fits(window as int, cycle as int, avg as int, elapsed as int);
            }
            avg = avg + elapsed / (window as u128);
        }
        if elapsed > max {
            max = elapsed;
        }
        if elapsed < min {
            min = elapsed;
        }
        if cycle < window {
            cycle = cycle + 1;
        }
        *self = TimingDiagnostics {
            diagnostic_proc_cycles: window,
            diagnostic_proc_cycle: cycle,
            now: self.now,
            avg_diag_cycle_time: avg,
            max_diag_cycle_time: max,
            min_diag_cycle_time: min,
        };
        cycle == window
    }

    /// Marks the end of the cycle that the last `record` started, with the
    /// time that the clock says has passed since. Returns whether the
    /// window is now complete.
    pub fn done(&mut self) -> (complete: bool)
        ensures
            exists|elapsed: int|
                0 <= elapsed <= CYCLE_TIME_MAX && final(self)@ == (#[trigger] old(self)@.end(
                    elapsed,
                )),
            final(self).started() == old(self).started(),
            complete == final(self)@.complete(),
            final(self)@.wf(),
    {
        let passed = clock_elapsed(&self.now);
        let elapsed: u128 = duration_nanos(&passed);
        self.done_with(elapsed)
    }

    /// Cycles per window.
    pub fn diagnostic_proc_cycles(&self) -> (n: u32)
        ensures
            n == self@.window,
    {
        self.diagnostic_proc_cycles
    }

    /// Cycles completed in the current window.
    pub fn diagnostic_proc_cycle(&self) -> (n: u32)
        ensures
            n == self@.cycle,
    {
        self.diagnostic_proc_cycle
    }

    /// The average cycle time of the window so far, in nanoseconds.
    pub fn avg_diag_cycle_time(&self) -> (nanos: u128)
        ensures
            nanos == self@.avg,
    {
        self.avg_diag_cycle_time
    }

    /// The longest cycle time of the window so far, in nanoseconds.
    pub fn max_diag_cycle_time(&self) -> (nanos: u128)
        ensures
            nanos == self@.max,
    {
        self.max_diag_cycle_time
    }

    /// The shortest cycle time of the window so far, in nanoseconds.
    pub fn min_diag_cycle_time(&self) -> (nanos: u128)
        ensures
            nanos == self@.min,
    {
        self.min_diag_cycle_time
    }
}

/// From the start of a window, `k` cycles (at least one, at most a window)
/// leave the count at `k`, the average at the sum of the shares, and
/// maximum and minimum at the longest and shortest of the cycle times.
pub proof fn lemma_run_accumulates(s: TimingState, elapsed: Seq<int>)
    requires
        s.wf(),
        s.window > 0,
        s.begin() == TimingState::fresh(s.window),
        0 < elapsed.len() <= s.window,
    ensures
        s.run(elapsed).wf(),
        s.run(elapsed).window == s.window,
        s.run(elapsed).cycle == elapsed.len(),
        s.run(elapsed).avg == sum_of_shares(elapsed, s.window),
        s.run(elapsed).max == longest(elapsed),
        s.run(elapsed).min == shortest(elapsed),
    decreases elapsed.len(),
{
    let w = s.window;
    let head = elapsed.drop_last();
    if elapsed.len() == 1 {
        assert(s.run(head) == s);
        assert(sum_of_shares(head, w) == 0);
        assert(longest(head) == 0);
        assert(shortest(head) == CYCLE_TIME_MAX);
    } else {
        lemma_run_accumulates(s, head);
    }
}

/// Timing window reset. Start at the beginning of a window of `window`
/// cycles, at least one, and run `window` cycles: the `done` that ends the
/// last of them reports the window complete and none before it does; the
/// diagnostics then hold the sum of the shares, the longest and the
/// shortest cycle time; and the `record` that follows starts again from
/// the baselines: zero, zero, and the longest time there is.
pub proof fn lemma_window_completes_and_resets(s: TimingState, elapsed: Seq<int>)
    requires
        s.wf(),
        s.window > 0,
        s.begin() == TimingState::fresh(s.window),
        elapsed.len() == s.window,
    ensures
        s.run(elapsed).complete(),
        forall|k: int| 0 < k < s.window ==> !(#[trigger] s.run(elapsed.take(k))).complete(),
        s.run(elapsed).avg == sum_of_shares(elapsed, s.window),
        s.run(elapsed).max == longest(elapsed),
        s.run(elapsed).min == shortest(elapsed),
        s.run(elapsed).begin() == TimingState::fresh(s.window),
        forall|next: int| #[trigger]
            s.run(elapsed).end(next) == TimingState::fresh(s.window).accumulate(next),
{
    lemma_run_accumulates(s, elapsed);
    assert forall|k: int| 0 < k < s.window implies !(#[trigger] s.run(
        elapsed.take(k),
    )).complete() by {
        lemma_run_accumulates(s, elapsed.take(k));
    }
}

/// A window of no cycles: every `done` reports it complete, nothing is
/// counted and no average is kept, and maximum and minimum are those of
/// the one cycle that just ended.
pub proof fn lemma_empty_window_always_reports(s: TimingState, elapsed: int)
    requires
        s.wf(),
        s.window == 0,
        0 <= elapsed <= CYCLE_TIME_MAX,
    ensures
        s.end(elapsed).complete(),
        s.end(elapsed).cycle == 0,
        s.end(elapsed).avg == 0,
        s.end(elapsed).max == elapsed,
        s.end(elapsed).min == elapsed,
        s.begin() == TimingState::fresh(0),
{
}

/// Starting a cycle twice is starting it once.
pub proof fn lemma_begin_is_idempotent(s: TimingState)
    requires
        s.wf(),
    ensures
        s.begin().begin() == s.begin(),
        s.begin().wf(),
{
}

/// Ending a cycle that was started is ending it: `done` after `record`
/// leaves what `done` alone would have left.
pub proof fn lemma_end_after_begin(s: TimingState, elapsed: int)
    requires
        s.wf(),
    ensures
        s.begin().end(elapsed) == s.end(elapsed),
{
}

/// A whole window of largest shares fits into the range of the average.
proof fn lemma_shares_fit(window: int)
    requires
        window >= 0,
    ensures
        window > 0 ==> window * largest_share(window) <= CYCLE_TIME_MAX,
        window > 0 ==> 0 <= largest_share(window),
{
    if window > 0 {
        let m = CYCLE_TIME_MAX as int;
        assert(window * (m / window) <= m && 0 <= m / window) by (nonlinear_arith)
            requires
                window > 0,
                m >= 0,
        ;
    }
}

/// In a window that is not complete, the share of one more cycle fits.
proof fn lemma_share_fits(window: int, cycle: int, avg: int, elapsed: int)
    requires
        window > 0,
        0 <= cycle < window,
        0 <= avg,
        0 <= elapsed <= CYCLE_TIME_MAX,
        avg + (window - cycle) * largest_share(window) <= CYCLE_TIME_MAX,
    ensures
        0 <= elapsed / window <= largest_share(window),
        avg + elapsed / window <= CYCLE_TIME_MAX,
        avg + elapsed / window + (window - (cycle + 1)) * largest_share(window)
            <= CYCLE_TIME_MAX,
{
    let m = CYCLE_TIME_MAX as int;
    let q = m / window;
    assert(0 <= elapsed / window <= m / window) by (nonlinear_arith)
        requires
            window > 0,
            0 <= elapsed <= m,
    ;
    assert((window - cycle) * q == (window - (cycle + 1)) * q + q) by (nonlinear_arith);
    assert((window - (cycle + 1)) * q >= 0) by (nonlinear_arith)
        requires
            window - (cycle + 1) >= 0,
            q >= 0,
    ;
}

} // verus!
