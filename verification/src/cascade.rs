//! The kinetic proofreading cascade of one receptor.
//!
//! Each decision cycle the receptor's signal is compared with its effective
//! threshold; the cascade counts consecutive above-threshold cycles,
//! tolerates short gaps, raises its threshold once the feedback depth is
//! reached and fires once the cascade depth is reached.
use vstd::prelude::*;

verus! {

/// Number of below-threshold cycles after which the cascade starts over.
pub const GAP_LIMIT: u32 = 3;

/// What one cycle's signal looked like to the cascade.
#[derive(Clone, Copy)]
pub struct Signal {
    /// The signal exceeded the receptor's effective threshold.
    pub above: bool,
    /// The signal was at most the quiet level (0.01), the level at which a
    /// gap resets the cascade at once.
    pub quiet: bool,
}

/// How one cycle's signal compares with a receptor's two thresholds: the
/// base threshold, and the raised one (base plus feedback boost) that
/// applies while feedback is active.
#[derive(Clone, Copy)]
pub struct Reading {
    /// The signal exceeded the base threshold.
    pub above_base: bool,
    /// The signal exceeded the raised threshold.
    pub above_raised: bool,
    /// The signal was at most the quiet level (0.01).
    pub quiet: bool,
}

/// The integer state of a receptor's cascade and its two depths.
#[derive(Clone, Copy, PartialEq, Eq, Structural, Debug)]
pub struct Cascade {
    /// Number of above-threshold cycles at which the receptor fires.
    pub kpr_n: u32,
    /// Number of above-threshold cycles at which feedback raises the threshold.
    pub kpr_m: u32,
    /// Above-threshold cycles counted since the cascade last started over.
    pub consecutive: u32,
    /// Below-threshold cycles since the last above-threshold one.
    pub gap_count: u32,
    /// The threshold has been raised by feedback.
    pub feedback_active: bool,
}

impl Cascade {
    /// The depths are ordered (feedback before firing), the gap counter
    /// never holds the limit, and feedback is active exactly when the
    /// feedback depth has been reached.
    pub open spec fn wf(self) -> bool {
        &&& 2 <= self.kpr_n
        &&& 1 <= self.kpr_m < self.kpr_n
        &&& self.gap_count < GAP_LIMIT
        &&& self.feedback_active == (self.consecutive >= self.kpr_m)
    }

    /// The cascade has started over: nothing counted, no feedback.
    pub open spec fn at_rest(self) -> bool {
        &&& self.consecutive == 0
        &&& self.gap_count == 0
        &&& !self.feedback_active
    }

    /// The receptor fires in this state.
    pub open spec fn firing(self) -> bool {
        self.consecutive >= self.kpr_n
    }

    /// The same depths, started over.
    pub open spec fn rested(self) -> Cascade {
        Cascade { consecutive: 0, gap_count: 0, feedback_active: false, ..self }
    }

    /// The cascade after one cycle with signal `s`.
    pub open spec fn stepped(self, s: Signal) -> Cascade {
        if s.above {
            let c = (self.consecutive + 1) as u32;
            Cascade {
                consecutive: c,
                gap_count: 0,
                feedback_active: self.feedback_active || c >= self.kpr_m,
                ..self
            }
        } else if s.quiet || self.gap_count + 1 >= GAP_LIMIT {
            self.rested()
        } else {
            Cascade { gap_count: (self.gap_count + 1) as u32, ..self }
        }
    }

    /// The signal the cascade sees in a reading: compared with the raised
    /// threshold while feedback is active, with the base threshold otherwise.
    pub open spec fn seen(self, r: Reading) -> Signal {
        Signal {
            above: if self.feedback_active {
                r.above_raised
            } else {
                r.above_base
            },
            quiet: r.quiet,
        }
    }

    /// The cascade after one cycle with reading `r`.
    pub open spec fn responded(self, r: Reading) -> Cascade {
        self.stepped(self.seen(r))
    }

    /// The cascade after a run of readings.
    pub open spec fn run_readings(self, readings: Seq<Reading>) -> Cascade
        decreases readings.len(),
    {
        if readings.len() == 0 {
            self
        } else {
            self.run_readings(readings.drop_last()).responded(readings.last())
        }
    }

    /// The number of cycles of a run of readings on which the receptor fires.
    pub open spec fn fires_over(self, readings: Seq<Reading>) -> nat
        decreases readings.len(),
    {
        if readings.len() == 0 {
            0
        } else {
            self.fires_over(readings.drop_last()) + if self.run_readings(readings).firing() {
                1nat
            } else {
                0nat
            }
        }
    }

    /// The cascade after a run of cycles.
    pub open spec fn run(self, signals: Seq<Signal>) -> Cascade
        decreases signals.len(),
    {
        if signals.len() == 0 {
            self
        } else {
            self.run(signals.drop_last()).stepped(signals.last())
        }
    }

    /// A fresh cascade with the given depths.
    pub fn new(kpr_n: u32, kpr_m: u32) -> (c: Cascade)
        requires
            2 <= kpr_n,
            1 <= kpr_m < kpr_n,
        ensures
            c.wf(),
            c.at_rest(),
            c.kpr_n == kpr_n,
            c.kpr_m == kpr_m,
    {
        Cascade { kpr_n, kpr_m, consecutive: 0, gap_count: 0, feedback_active: false }
    }

    /// Whether the receptor fires in its current state.
    pub fn is_firing(&self) -> (f: bool)
        ensures
            f == self.firing(),
    {
        self.consecutive >= self.kpr_n
    }

    /// Starts the cascade over; the receptor puts its effective threshold
    /// back to the base threshold.
    pub fn reset(&mut self)
        requires
            old(self).wf(),
        ensures
            *final(self) == old(self).rested(),
            final(self).wf(),
            final(self).at_rest(),
    {
        self.consecutive = 0;
        self.gap_count = 0;
        self.feedback_active = false;
    }

    /// One cycle of the cascade. An above-threshold signal clears the gap
    /// counter and counts one more cycle, switching feedback (and with it the
    /// raised threshold) on when the feedback depth is reached; a
    /// below-threshold signal counts a gap, and a quiet signal or the third
    /// gap starts the cascade over. Returns whether the receptor fires: the
    /// count has reached the cascade depth.
    pub fn kpr_step(&mut self, signal: Signal) -> (fired: bool)
        requires
            old(self).wf(),
            old(self).consecutive < u32::MAX,
        ensures
            *final(self) == old(self).stepped(signal),
            final(self).wf(),
            fired == final(self).firing(),
            fired == (final(self).consecutive >= old(self).kpr_n),
            final(self).kpr_n == old(self).kpr_n,
            final(self).kpr_m == old(self).kpr_m,
            signal.above ==> final(self).consecutive == old(self).consecutive + 1
                && final(self).gap_count == 0,
            !signal.above && signal.quiet ==> final(self).at_rest(),
            !signal.above && !signal.quiet && old(self).gap_count + 1 < GAP_LIMIT ==> {
                &&& final(self).consecutive == old(self).consecutive
                &&& final(self).gap_count == old(self).gap_count + 1
                &&& final(self).feedback_active == old(self).feedback_active
            },
            !signal.above && !signal.quiet && old(self).gap_count + 1 >= GAP_LIMIT
                ==> final(self).at_rest(),
    {
        if signal.above {
            self.gap_count = 0;
            self.consecutive = self.consecutive + 1;
            if self.consecutive >= self.kpr_m && !self.feedback_active {
                self.feedback_active = true;
            }
        } else {
            self.gap_count = self.gap_count + 1;
            if signal.quiet || self.gap_count >= GAP_LIMIT {
                self.consecutive = 0;
                self.feedback_active = false;
                self.gap_count = 0;
            }
        }
        self.consecutive >= self.kpr_n
    }

    /// The signal the cascade sees in a reading.
    pub fn sees(&self, r: Reading) -> (s: Signal)
        ensures
            s == self.seen(r),
    {
        Signal {
            above: if self.feedback_active {
                r.above_raised
            } else {
                r.above_base
            },
            quiet: r.quiet,
        }
    }

    /// One cycle of the cascade on a reading, against the threshold that
    /// applies in its current state.
    pub fn respond(&mut self, r: Reading) -> (fired: bool)
        requires
            old(self).wf(),
            old(self).consecutive < u32::MAX,
        ensures
            *final(self) == old(self).responded(r),
            final(self).wf(),
            fired == final(self).firing(),
            fired == (final(self).consecutive >= old(self).kpr_n),
            r.quiet && !r.above_base && !r.above_raised ==> final(self).at_rest(),
            old(self).feedback_active && r.above_raised ==> final(self).consecutive == old(
                self,
            ).consecutive + 1,
            !old(self).feedback_active && r.above_base ==> final(self).consecutive == old(
                self,
            ).consecutive + 1,
            old(self).feedback_active && !r.above_raised && !r.quiet && old(self).gap_count + 1
                < GAP_LIMIT ==> final(self).consecutive == old(self).consecutive,
    {
        let s = self.sees(r);
        self.kpr_step(s)
    }

    /// Runs the cascade through the readings of the self windows in time
    /// order, without starting over between them, and counts the cycles on
    /// which the receptor fires: its reactivity to self.
    pub fn count_self_fires(&mut self, readings: &Vec<Reading>) -> (fires: usize)
        requires
            old(self).wf(),
            old(self).consecutive + readings@.len() <= u32::MAX,
        ensures
            fires == old(self).fires_over(readings@),
            fires <= readings@.len(),
            *final(self) == old(self).run_readings(readings@),
            final(self).wf(),
    {
        let ghost start = *self;
        let n = readings.len();
        let mut fires: usize = 0;
        let mut i: usize = 0;
        while i < n
            invariant
                n == readings@.len(),
                i <= n,
                start.wf(),
                start.consecutive + n <= u32::MAX,
                *self == start.run_readings(readings@.take(i as int)),
                self.wf(),
                self.consecutive <= start.consecutive + i,
                fires == start.fires_over(readings@.take(i as int)),
                fires <= i,
            decreases n - i,
        {
            let ghost prefix = readings@.take(i + 1);
            proof {
                assert(prefix.drop_last() =~= readings@.take(i as int));
                assert(prefix.last() == readings@[i as int]);
            }
            let fired = self.respond(readings[i]);
            if fired {
                fires = fires + 1;
            }
            i = i + 1;
        }
        proof {
            assert(readings@.take(n as int) =~= readings@);
        }
        fires
    }
}

/// A cascade at rest never fires on the next cycle, whatever the signal:
/// firing takes at least the cascade depth (two or more) of cycles, so the
/// first cycle of a threat is never detected by a resting receptor.
pub proof fn lemma_step_from_rest_never_fires(c: Cascade, s: Signal)
    requires
        c.wf(),
        c.at_rest(),
    ensures
        !c.stepped(s).firing(),
{
}

/// Every step keeps the cascade well formed and its depths unchanged.
pub proof fn lemma_step_keeps_wf(c: Cascade, s: Signal)
    requires
        c.wf(),
        c.consecutive < u32::MAX,
    ensures
        c.stepped(s).wf(),
        c.stepped(s).kpr_n == c.kpr_n,
        c.stepped(s).kpr_m == c.kpr_m,
{
}

/// A run keeps the cascade well formed and its depths, and counts no more
/// than one per cycle.
pub proof fn lemma_run_keeps_wf(c: Cascade, signals: Seq<Signal>)
    requires
        c.wf(),
        c.consecutive + signals.len() <= u32::MAX,
    ensures
        c.run(signals).wf(),
        c.run(signals).kpr_n == c.kpr_n,
        c.run(signals).kpr_m == c.kpr_m,
        c.run(signals).consecutive <= c.consecutive + signals.len(),
    decreases signals.len(),
{
    if signals.len() > 0 {
        lemma_run_keeps_wf(c, signals.drop_last());
    }
}

/// The number of above-threshold cycles in a run.
pub open spec fn count_above(signals: Seq<Signal>) -> nat
    decreases signals.len(),
{
    if signals.len() == 0 {
        0
    } else {
        count_above(signals.drop_last()) + if signals.last().above { 1nat } else { 0nat }
    }
}

/// Sustained signal fires: after `kpr_n` consecutive above-threshold cycles
/// the receptor fires, whatever state the cascade was in.
pub proof fn lemma_sustained_signal_fires(c: Cascade, signals: Seq<Signal>)
    requires
        c.wf(),
        c.consecutive + signals.len() <= u32::MAX,
        signals.len() >= c.kpr_n,
        forall|i: int| 0 <= i < signals.len() ==> (#[trigger] signals[i]).above,
    ensures
        c.run(signals).firing(),
{
    lemma_above_run_counts(c, signals);
}

/// A run of above-threshold cycles adds one to the count per cycle.
proof fn lemma_above_run_counts(c: Cascade, signals: Seq<Signal>)
    requires
        c.wf(),
        c.consecutive + signals.len() <= u32::MAX,
        forall|i: int| 0 <= i < signals.len() ==> (#[trigger] signals[i]).above,
    ensures
        c.run(signals).consecutive == c.consecutive + signals.len(),
        c.run(signals).kpr_n == c.kpr_n,
        c.run(signals).wf(),
    decreases signals.len(),
{
    if signals.len() > 0 {
        let prefix = signals.drop_last();
        assert forall|i: int| 0 <= i < prefix.len() implies (#[trigger] prefix[i]).above by {
            assert(prefix[i] == signals[i]);
        }
        lemma_above_run_counts(c, prefix);
        assert(signals.last() == signals[signals.len() - 1]);
    }
}

/// Firing takes sustained signal: from rest, the count never exceeds the
/// number of above-threshold cycles seen, so a receptor that fires has seen
/// at least `kpr_n` of them since it last started over.
pub proof fn lemma_firing_needs_sustained_signal(c: Cascade, signals: Seq<Signal>)
    requires
        c.wf(),
        c.at_rest(),
        signals.len() <= u32::MAX,
    ensures
        c.run(signals).consecutive <= count_above(signals),
        c.run(signals).firing() ==> count_above(signals) >= c.kpr_n,
        signals.len() < c.kpr_n ==> !c.run(signals).firing(),
{
    lemma_run_count_bound(c, signals);
}

proof fn lemma_run_count_bound(c: Cascade, signals: Seq<Signal>)
    requires
        c.wf(),
        c.at_rest(),
        signals.len() <= u32::MAX,
    ensures
        c.run(signals).consecutive <= count_above(signals),
        c.run(signals).kpr_n == c.kpr_n,
        count_above(signals) <= signals.len(),
    decreases signals.len(),
{
    if signals.len() > 0 {
        lemma_run_count_bound(c, signals.drop_last());
        lemma_run_keeps_wf(c, signals.drop_last());
    }
}

/// Three gaps start the cascade over: after three below-threshold cycles in
/// a row nothing is counted and feedback is off, whatever came before.
pub proof fn lemma_three_gaps_reset(c: Cascade, s1: Signal, s2: Signal, s3: Signal)
    requires
        c.wf(),
        !s1.above,
        !s2.above,
        !s3.above,
    ensures
        c.stepped(s1).stepped(s2).stepped(s3).consecutive == 0,
        !c.stepped(s1).stepped(s2).stepped(s3).feedback_active,
{
}

/// A quiet signal starts the cascade over at once, whatever it had counted
/// and whether or not feedback was active.
pub proof fn lemma_quiet_signal_resets(c: Cascade, s: Signal)
    requires
        c.wf(),
        !s.above,
        s.quiet,
    ensures
        c.stepped(s).consecutive == 0,
        c.stepped(s).gap_count == 0,
        !c.stepped(s).feedback_active,
        !c.stepped(s).firing(),
        c.stepped(s).kpr_n == c.kpr_n,
        c.stepped(s).kpr_m == c.kpr_m,
{
}

/// A below-threshold signal that is neither quiet nor the third gap leaves
/// the count and feedback as they were and counts one gap; so a receptor
/// that was firing keeps firing through one or two gaps.
pub proof fn lemma_gap_keeps_count(c: Cascade, s: Signal)
    requires
        c.wf(),
        !s.above,
        !s.quiet,
        c.gap_count + 1 < GAP_LIMIT,
    ensures
        c.stepped(s).consecutive == c.consecutive,
        c.stepped(s).feedback_active == c.feedback_active,
        c.stepped(s).gap_count == c.gap_count + 1,
        c.stepped(s).firing() == c.firing(),
{
}

/// An above-threshold signal counts exactly one more cycle and clears the
/// gaps; feedback is on afterwards exactly when the new count has reached
/// the feedback depth, and the receptor fires exactly when it has reached
/// the cascade depth.
pub proof fn lemma_above_counts_one(c: Cascade, s: Signal)
    requires
        c.wf(),
        c.consecutive < u32::MAX,
        s.above,
    ensures
        c.stepped(s).consecutive == c.consecutive + 1,
        c.stepped(s).gap_count == 0,
        c.stepped(s).feedback_active == (c.consecutive + 1 >= c.kpr_m),
        c.stepped(s).firing() == (c.consecutive + 1 >= c.kpr_n),
{
}

/// On a self history whose every signal exceeds both thresholds, a resting
/// receptor fires on every window from the `kpr_n`-th on: `t - kpr_n + 1`
/// fires over `t` windows.
pub proof fn lemma_sustained_self_signal_fires(c: Cascade, readings: Seq<Reading>)
    requires
        c.wf(),
        c.at_rest(),
        readings.len() <= u32::MAX,
        forall|i: int|
            0 <= i < readings.len() ==> (#[trigger] readings[i]).above_base
                && readings[i].above_raised,
    ensures
        c.run_readings(readings).consecutive == readings.len(),
        c.fires_over(readings) == (if readings.len() + 1 > c.kpr_n {
            (readings.len() + 1 - c.kpr_n) as nat
        } else {
            0nat
        }),
    decreases readings.len(),
{
    if readings.len() > 0 {
        let front = readings.drop_last();
        assert forall|i: int| 0 <= i < front.len() implies (#[trigger] front[i]).above_base
            && front[i].above_raised by {
            assert(front[i] == readings[i]);
        }
        lemma_sustained_self_signal_fires(c, front);
        assert(readings.last() == readings[readings.len() - 1]);
        let before = c.run_readings(front);
        lemma_run_readings_keeps_wf(c, front);
        assert(before.kpr_n == c.kpr_n);
    }
}

/// A run of readings keeps the cascade well formed and its depths, and
/// counts no more than one per reading.
pub proof fn lemma_run_readings_keeps_wf(c: Cascade, readings: Seq<Reading>)
    requires
        c.wf(),
        c.consecutive + readings.len() <= u32::MAX,
    ensures
        c.run_readings(readings).wf(),
        c.run_readings(readings).kpr_n == c.kpr_n,
        c.run_readings(readings).kpr_m == c.kpr_m,
        c.run_readings(readings).consecutive <= c.consecutive + readings.len(),
        c.fires_over(readings) <= readings.len(),
    decreases readings.len(),
{
    if readings.len() > 0 {
        lemma_run_readings_keeps_wf(c, readings.drop_last());
    }
}

} // verus!
