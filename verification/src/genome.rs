//! The discrete genome of a receptor: which two sensors it watches, its
//! two temporal windows and its two cascade depths, and how evolution
//! draws and mutates them.
use vstd::prelude::*;
use crate::rng::{choice, choice_of, lcg_iter, lcg_step, UNIT_INCREMENT};

verus! {

/// Number of sensors of the substrate (memory, clock, allocator).
pub const NUM_SENSORS: usize = 3;

/// Number of generator steps a mutation spends on the continuous
/// parameters (two sensor weights' split, three signal weights, threshold
/// and feedback boost) before it draws the discrete ones.
pub const PERTURB_STEPS: usize = 6;

/// A draw falls under `k` sixteenths: `draw >> 60 < k`.
pub open spec fn chance(draw: u64, k: u64) -> bool {
    draw / 0x1000_0000_0000_0000u64 < k
}

/// One step up when the draw's lowest bit is clear, one step down otherwise.
pub open spec fn nudge(v: int, draw: u64) -> int {
    if draw % 2 == 0 {
        v + 1
    } else {
        v - 1
    }
}

/// `v.max(lo).min(hi)`.
pub open spec fn clamp(v: int, lo: int, hi: int) -> int {
    let a = if v < lo {
        lo
    } else {
        v
    };
    if a > hi {
        hi
    } else {
        a
    }
}

/// The discrete parameters of one receptor.
#[derive(Clone, Copy, PartialEq, Eq, Structural, Debug)]
pub struct Genome {
    /// The sensor whose anomaly, transition and stability the receptor reads.
    pub sensor_a: usize,
    /// The second sensor, which must agree with the first.
    pub sensor_b: usize,
    /// Length of the short (recent) window, in cycles.
    pub short_window: usize,
    /// Length of the long (baseline) window, in cycles.
    pub long_window: usize,
    /// Cascade depth at which the receptor fires.
    pub kpr_n: u32,
    /// Cascade depth at which feedback raises the threshold.
    pub kpr_m: u32,
    /// Number of mutations between this receptor and a fresh one.
    pub generation: u32,
}

impl Genome {
    /// Two different sensors, windows and depths within their ranges, and
    /// feedback that comes before firing.
    pub open spec fn wf(self) -> bool {
        &&& self.sensor_a < NUM_SENSORS
        &&& self.sensor_b < NUM_SENSORS
        &&& self.sensor_a != self.sensor_b
        &&& 2 <= self.short_window <= 6
        &&& 5 <= self.long_window <= 15
        &&& 2 <= self.kpr_n <= 6
        &&& 1 <= self.kpr_m < self.kpr_n
    }

    /// The genome a fresh receptor gets from six draws of its stream: the
    /// first sensor among three; the second among the two others; the short
    /// window two plus a choice among four; the long window the short one
    /// plus three plus a choice among eight; the cascade depth two plus a
    /// choice among four; the feedback depth one plus a choice among the
    /// depths below the cascade depth.
    pub open spec fn drawn(
        sensor_a_draw: u64,
        sensor_b_draw: u64,
        short_draw: u64,
        long_draw: u64,
        depth_draw: u64,
        feedback_draw: u64,
    ) -> Genome {
        let a = choice_of(sensor_a_draw, NUM_SENSORS as nat) % (NUM_SENSORS as nat);
        let b0 = choice_of(sensor_b_draw, (NUM_SENSORS - 1) as nat) % (NUM_SENSORS as nat);
        let b = if b0 >= a {
            (b0 + 1) % (NUM_SENSORS as nat)
        } else {
            b0
        };
        let short = 2 + choice_of(short_draw, 4);
        let n = 2 + choice_of(depth_draw, 4);
        Genome {
            sensor_a: a as usize,
            sensor_b: b as usize,
            short_window: short as usize,
            long_window: (short + 3 + choice_of(long_draw, 8)) as usize,
            kpr_n: n as u32,
            kpr_m: clamp((1 + choice_of(feedback_draw, (n - 1) as nat)) as int, 1, n - 1) as u32,
            generation: 0,
        }
    }

    /// The child that a mutation with `seed` makes. The stream steps with
    /// increment one; its first six states go to the continuous parameters,
    /// the seventh may move the short window, the eighth the long window,
    /// the ninth the cascade depth, the tenth may swap a sensor.
    pub open spec fn mutated(self, seed: u64) -> Genome {
        let d_short = lcg_iter(seed, UNIT_INCREMENT, 7);
        let d_long = lcg_iter(seed, UNIT_INCREMENT, 8);
        let d_depth = lcg_iter(seed, UNIT_INCREMENT, 9);
        let d_swap = lcg_iter(seed, UNIT_INCREMENT, 10);
        let short = if chance(d_short, 4) {
            clamp(nudge(self.short_window as int, d_short), 2, 6)
        } else {
            self.short_window as int
        };
        let long = if chance(d_long, 4) {
            clamp(nudge(self.long_window as int, d_long), short + 3, 15)
        } else {
            self.long_window as int
        };
        let n = if chance(d_depth, 3) {
            clamp(nudge(self.kpr_n as int, d_depth), 2, 6)
        } else {
            self.kpr_n as int
        };
        let m = if chance(d_depth, 3) {
            clamp(self.kpr_m as int, 1, n - 1)
        } else {
            self.kpr_m as int
        };
        let s = ((d_swap / 0x4_0000_0000_0000u64) % 3) as usize;
        let swap = chance(d_swap, 2);
        let a = if swap && s != self.sensor_b {
            s
        } else {
            self.sensor_a
        };
        let b = if swap && s == self.sensor_b && s != self.sensor_a {
            s
        } else {
            self.sensor_b
        };
        Genome {
            sensor_a: a,
            sensor_b: b,
            short_window: short as usize,
            long_window: long as usize,
            kpr_n: n as u32,
            kpr_m: m as u32,
            generation: (self.generation + 1) as u32,
        }
    }

    /// The genome of a fresh receptor from its six draws (see `drawn`).
    pub fn from_draws(
        sensor_a_draw: u64,
        sensor_b_draw: u64,
        short_draw: u64,
        long_draw: u64,
        depth_draw: u64,
        feedback_draw: u64,
    ) -> (g: Genome)
        requires
            sensor_a_draw < 0x8000_0000u64,
            sensor_b_draw < 0x8000_0000u64,
            short_draw < 0x8000_0000u64,
            long_draw < 0x8000_0000u64,
            depth_draw < 0x8000_0000u64,
            feedback_draw < 0x8000_0000u64,
        ensures
            g == Genome::drawn(
                sensor_a_draw,
                sensor_b_draw,
                short_draw,
                long_draw,
                depth_draw,
                feedback_draw,
            ),
            g.wf(),
            g.long_window >= g.short_window + 3,
            g.sensor_a as nat == (sensor_a_draw as nat * 3) / 0x8000_0000nat,
            g.short_window as nat == 2 + (short_draw as nat * 4) / 0x8000_0000nat,
            g.long_window as nat == g.short_window + 3 + (long_draw as nat * 8) / 0x8000_0000nat,
            g.kpr_n as nat == 2 + (depth_draw as nat * 4) / 0x8000_0000nat,
            g.kpr_m as nat == 1 + (feedback_draw as nat * (g.kpr_n - 1) as nat) / 0x8000_0000nat,
            g.generation == 0,
    {
        proof {
            lemma_drawn_fields(
                sensor_a_draw,
                sensor_b_draw,
                short_draw,
                long_draw,
                depth_draw,
                feedback_draw,
            );
        }
        let a = (choice(sensor_a_draw, 3) as usize) % NUM_SENSORS;
        let mut b = (choice(sensor_b_draw, 2) as usize) % NUM_SENSORS;
        if b >= a {
            b = (b + 1) % NUM_SENSORS;
        }
        let short = 2 + choice(short_draw, 4) as usize;
        let long = short + 3 + choice(long_draw, 8) as usize;
        let n = 2 + choice(depth_draw, 4) as u32;
        let mut m = 1 + choice(feedback_draw, (n - 1) as u64) as u32;
        if m > n - 1 {
            m = n - 1;
        }
        if m < 1 {
            m = 1;
        }
        Genome {
            sensor_a: a,
            sensor_b: b,
            short_window: short,
            long_window: long,
            kpr_n: n,
            kpr_m: m,
            generation: 0,
        }
    }

    /// The six generator states, after the seed, that a mutation with `seed`
    /// spends on the continuous parameters, in order.
    pub fn perturb_states(seed: u64) -> (states: Vec<u64>)
        ensures
            states@.len() == PERTURB_STEPS,
            forall|i: int|
                0 <= i < PERTURB_STEPS ==> #[trigger] states@[i] == lcg_iter(
                    seed,
                    UNIT_INCREMENT,
                    (i + 1) as nat,
                ),
    {
        let mut states: Vec<u64> = Vec::new();
        let mut rng = seed;
        let mut k: usize = 0;
        while k < PERTURB_STEPS
            invariant
                k <= PERTURB_STEPS,
                rng == lcg_iter(seed, UNIT_INCREMENT, k as nat),
                states@.len() == k,
                forall|i: int|
                    0 <= i < k ==> #[trigger] states@[i] == lcg_iter(
                        seed,
                        UNIT_INCREMENT,
                        (i + 1) as nat,
                    ),
            decreases PERTURB_STEPS - k,
        {
            rng = lcg_step(rng, UNIT_INCREMENT);
            states.push(rng);
            k = k + 1;
        }
        states
    }

    /// The child of a mutation with `seed` (see `mutated`): each window and
    /// the cascade depth may move one step within its range, the feedback
    /// depth is kept below the cascade depth, one sensor may be swapped for
    /// another that keeps the two different, and the generation grows by one.
    pub fn mutate(&self, seed: u64) -> (child: Genome)
        requires
            self.wf(),
            self.generation < u32::MAX,
        ensures
            child == self.mutated(seed),
            child.wf(),
            child.generation == self.generation + 1,
            child.sensor_b == self.sensor_b,
            child.kpr_m == (if self.kpr_m < child.kpr_n - 1 {
                self.kpr_m
            } else {
                (child.kpr_n - 1) as u32
            }),
            child.kpr_m <= self.kpr_m,
    {
        let mut rng = seed;
        let mut k: usize = 0;
        while k < PERTURB_STEPS
            invariant
                k <= PERTURB_STEPS,
                rng == lcg_iter(seed, UNIT_INCREMENT, k as nat),
            decreases PERTURB_STEPS - k,
        {
            rng = lcg_step(rng, UNIT_INCREMENT);
            k = k + 1;
        }
        rng = lcg_step(rng, UNIT_INCREMENT);
        let mut short = self.short_window;
        if chance_of(rng, 4) {
            short = nudge_within(short, rng, 2, 6);
        }
        rng = lcg_step(rng, UNIT_INCREMENT);
        let mut long = self.long_window;
        if chance_of(rng, 4) {
            long = nudge_within(long, rng, short + 3, 15);
        }
        rng = lcg_step(rng, UNIT_INCREMENT);
        let mut n = self.kpr_n;
        let mut m = self.kpr_m;
        if chance_of(rng, 3) {
            n = nudge_within(n as usize, rng, 2, 6) as u32;
            if m > n - 1 {
                m = n - 1;
            }
            if m < 1 {
                m = 1;
            }
        }
        rng = lcg_step(rng, UNIT_INCREMENT);
        let mut a = self.sensor_a;
        let mut b = self.sensor_b;
        if chance_of(rng, 2) {
            let s = sensor_of(rng);
            if s != b {
                a = s;
            } else if s != a {
                b = s;
            }
        }
        Genome {
            sensor_a: a,
            sensor_b: b,
            short_window: short,
            long_window: long,
            kpr_n: n,
            kpr_m: m,
            generation: self.generation + 1,
        }
    }
}

/// `draw >> 60 < k`.
fn chance_of(draw: u64, k: u64) -> (b: bool)
    ensures
        b == chance(draw, k),
{
    let top = draw >> 60u64;
    assert(top == draw / 0x1000_0000_0000_0000u64) by (bit_vector)
        requires
            top == draw >> 60u64,
    ;
    top < k
}

/// The sensor a swap proposes: `(draw >> 50) % 3`.
fn sensor_of(draw: u64) -> (s: usize)
    ensures
        s == (draw / 0x4_0000_0000_0000u64) % 3,
        s < NUM_SENSORS,
{
    let top = draw >> 50u64;
    assert(top == draw / 0x4_0000_0000_0000u64 && top < 0x4000) by (bit_vector)
        requires
            top == draw >> 50u64,
    ;
    (top % 3) as usize
}

/// `(v ± 1).max(lo).min(hi)`, up when the draw's lowest bit is clear.
fn nudge_within(v: usize, draw: u64, lo: usize, hi: usize) -> (r: usize)
    requires
        1 <= v <= 100,
        lo <= hi <= 100,
    ensures
        r as int == clamp(nudge(v as int, draw), lo as int, hi as int),
{
    let low_bit = draw & 1u64;
    assert(low_bit == draw % 2) by (bit_vector)
        requires
            low_bit == draw & 1u64,
    ;
    let mut r = if low_bit == 0 {
        v + 1
    } else {
        v - 1
    };
    if r < lo {
        r = lo;
    }
    if r > hi {
        r = hi;
    }
    r
}

/// Mutation keeps a genome well formed; in particular the two sensors stay
/// different and the feedback depth stays below the cascade depth.
pub proof fn lemma_mutation_keeps_wf(g: Genome, seed: u64)
    requires
        g.wf(),
        g.generation < u32::MAX,
    ensures
        g.mutated(seed).wf(),
        g.mutated(seed).sensor_a != g.mutated(seed).sensor_b,
        g.mutated(seed).generation == g.generation + 1,
{
}

/// A fresh receptor's genome is well formed, its two sensors different and
/// its long window at least three longer than its short one, whatever its
/// draws.
pub proof fn lemma_drawn_is_wf(
    sensor_a_draw: u64,
    sensor_b_draw: u64,
    short_draw: u64,
    long_draw: u64,
    depth_draw: u64,
    feedback_draw: u64,
)
    requires
        sensor_a_draw < 0x8000_0000u64,
        sensor_b_draw < 0x8000_0000u64,
        short_draw < 0x8000_0000u64,
        long_draw < 0x8000_0000u64,
        depth_draw < 0x8000_0000u64,
        feedback_draw < 0x8000_0000u64,
    ensures
        ({
            let g = Genome::drawn(
                sensor_a_draw,
                sensor_b_draw,
                short_draw,
                long_draw,
                depth_draw,
                feedback_draw,
            );
            &&& g.wf()
            &&& g.sensor_a != g.sensor_b
            &&& g.long_window >= g.short_window + 3
        }),
{
    lemma_choice_below(sensor_a_draw, 3);
    lemma_choice_below(sensor_b_draw, 2);
    lemma_choice_below(short_draw, 4);
    lemma_choice_below(long_draw, 8);
    lemma_choice_below(depth_draw, 4);
    let n = 2 + choice_of(depth_draw, 4);
    lemma_choice_below(feedback_draw, (n - 1) as nat);
}

/// Each part of a fresh genome comes from its own draw: the first sensor
/// is the first sensor draw's choice among three; the second sensor is the
/// second draw's choice among the two others, in increasing order; each
/// window and depth is its own draw's choice plus its offset.
pub proof fn lemma_drawn_fields(
    sensor_a_draw: u64,
    sensor_b_draw: u64,
    short_draw: u64,
    long_draw: u64,
    depth_draw: u64,
    feedback_draw: u64,
)
    requires
        sensor_a_draw < 0x8000_0000u64,
        sensor_b_draw < 0x8000_0000u64,
        short_draw < 0x8000_0000u64,
        long_draw < 0x8000_0000u64,
        depth_draw < 0x8000_0000u64,
        feedback_draw < 0x8000_0000u64,
    ensures
        ({
            let g = Genome::drawn(
                sensor_a_draw,
                sensor_b_draw,
                short_draw,
                long_draw,
                depth_draw,
                feedback_draw,
            );
            let b = (sensor_b_draw as nat * 2) / 0x8000_0000nat;
            &&& g.sensor_a as nat == (sensor_a_draw as nat * 3) / 0x8000_0000nat
            &&& g.sensor_b as nat == (if b >= g.sensor_a {
                b + 1
            } else {
                b
            })
            &&& g.short_window as nat == 2 + (short_draw as nat * 4) / 0x8000_0000nat
            &&& g.long_window as nat == g.short_window + 3 + (long_draw as nat * 8) / 0x8000_0000nat
            &&& g.kpr_n as nat == 2 + (depth_draw as nat * 4) / 0x8000_0000nat
            &&& g.kpr_m as nat == 1 + (feedback_draw as nat * (g.kpr_n - 1) as nat)
                / 0x8000_0000nat
            &&& g.generation == 0
        }),
{
    lemma_drawn_is_wf(sensor_a_draw, sensor_b_draw, short_draw, long_draw, depth_draw, feedback_draw);
    lemma_choice_below(sensor_a_draw, 3);
    lemma_choice_below(sensor_b_draw, 2);
    lemma_choice_below(short_draw, 4);
    lemma_choice_below(long_draw, 8);
    lemma_choice_below(depth_draw, 4);
    let n = 2 + choice_of(depth_draw, 4);
    lemma_choice_below(feedback_draw, (n - 1) as nat);
}

/// A draw's choice lies below the number of choices.
pub proof fn lemma_choice_below(draw: u64, choices: nat)
    requires
        draw < 0x8000_0000u64,
        0 < choices,
    ensures
        choice_of(draw, choices) < choices,
{
    assert((draw as nat * choices) / 0x8000_0000nat < choices) by (nonlinear_arith)
        requires
            draw < 0x8000_0000u64,
            0 < choices,
    ;
}

/// Mutation changes little: at least one sensor is kept, the short window
/// and the cascade depth move at most one step, and all stay in range.
pub proof fn lemma_mutation_is_small(g: Genome, seed: u64)
    requires
        g.wf(),
        g.generation < u32::MAX,
    ensures
        ({
            let c = g.mutated(seed);
            &&& c.wf()
            &&& (c.sensor_a == g.sensor_a || c.sensor_b == g.sensor_b)
            &&& -1 <= c.short_window - g.short_window <= 1
            &&& -1 <= c.kpr_n - g.kpr_n <= 1
            &&& c.generation == g.generation + 1
            &&& c.sensor_b == g.sensor_b
            &&& (c.long_window == g.long_window || c.long_window == g.long_window + 1
                || c.long_window + 1 == g.long_window || c.long_window == c.short_window + 3)
        }),
{
}

/// Mutation keeps the feedback depth unless the new cascade depth forces it
/// down: the child's feedback depth is `max(1, min(kpr_m, new kpr_n - 1))`,
/// so it never rises.
pub proof fn lemma_mutation_keeps_feedback_depth(g: Genome, seed: u64)
    requires
        g.wf(),
        g.generation < u32::MAX,
    ensures
        ({
            let c = g.mutated(seed);
            let capped = if g.kpr_m < c.kpr_n - 1 {
                g.kpr_m as int
            } else {
                c.kpr_n - 1
            };
            &&& c.kpr_m == (if capped < 1 {
                1
            } else {
                capped
            })
            &&& c.kpr_m <= g.kpr_m
            &&& c.kpr_n == g.kpr_n ==> c.kpr_m == g.kpr_m
        }),
{
}

} // verus!
