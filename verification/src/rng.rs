//! Linear congruential streams over `u64` with wrapping arithmetic.
use vstd::prelude::*;
use vstd::arithmetic::div_mod::{lemma_add_mod_noop, lemma_small_mod};

verus! {

/// Multiplier shared by every stream of the organism.
pub const LCG_MULTIPLIER: u64 = 6364136223846793005;

/// Increment of the organism's seed stream and of fresh receptors' streams.
pub const SEED_INCREMENT: u64 = 1442695040888963407;

/// Increment of the mutation stream and of the CPU stress workload.
pub const UNIT_INCREMENT: u64 = 1;

/// Number of values a `u64` holds.
pub open spec fn u64_modulus() -> nat {
    0x1_0000_0000_0000_0000nat
}

/// One step of the generator: `state * multiplier + increment`, modulo 2^64.
pub open spec fn lcg(state: u64, increment: u64) -> u64 {
    ((state as nat * LCG_MULTIPLIER as nat + increment as nat) % u64_modulus()) as u64
}

/// The state after `n` steps from `state`.
pub open spec fn lcg_iter(state: u64, increment: u64, n: nat) -> u64
    decreases n,
{
    if n == 0 {
        state
    } else {
        lcg(lcg_iter(state, increment, (n - 1) as nat), increment)
    }
}

/// The 31 high bits of a state that a draw uses: `state >> 33`.
pub open spec fn draw_of(state: u64) -> u64 {
    state / 0x2_0000_0000u64
}

/// Number of values a draw takes: 2^31.
pub open spec fn draw_range() -> nat {
    0x8000_0000nat
}

/// The choice among `choices` that a draw makes: the draw, read as a
/// uniform fraction of [0, 1), times the number of choices, rounded down.
pub open spec fn choice_of(draw: u64, choices: nat) -> nat {
    (draw as nat * choices) / draw_range()
}

/// Computes one generator step with wrapping multiplication and addition.
pub fn lcg_step(state: u64, increment: u64) -> (next: u64)
    ensures
        next == lcg(state, increment),
{
    let product = state.wrapping_mul(LCG_MULTIPLIER);
    let next = product.wrapping_add(increment);
    proof {
        let m = u64_modulus() as int;
        let full = state as int * LCG_MULTIPLIER as int;
        assert(product as int == full % m);
        lemma_add_mod_noop(full, increment as int, m);
        lemma_small_mod(increment as nat, m as nat);
        assert((product as int + increment as int) < 2 * m);
        if product as int + increment as int > u64::MAX as int {
            assert(next as int == product as int + increment as int - m);
            assert((product as int + increment as int) % m == product as int + increment as int - m)
                by {
                vstd::arithmetic::div_mod::lemma_mod_sub_multiples_vanish(
                    product as int + increment as int,
                    m,
                );
                lemma_small_mod((product as int + increment as int - m) as nat, m as nat);
            }
        } else {
            lemma_small_mod((product as int + increment as int) as nat, m as nat);
        }
    }
    next
}

/// Stepping `a` times and then `b` times is stepping `a + b` times.
pub proof fn lemma_lcg_iter_add(state: u64, increment: u64, a: nat, b: nat)
    ensures
        lcg_iter(lcg_iter(state, increment, a), increment, b) == lcg_iter(state, increment, a + b),
    decreases b,
{
    if b > 0 {
        lemma_lcg_iter_add(state, increment, a, (b - 1) as nat);
        assert((a + b - 1) as nat == a + (b - 1) as nat);
    }
}

/// A stream of generator states.
pub struct Lcg {
    pub state: u64,
    pub increment: u64,
}

impl Lcg {
    /// A stream that starts from `seed` and steps with `increment`.
    pub fn new(seed: u64, increment: u64) -> (s: Lcg)
        ensures
            s.state == seed,
            s.increment == increment,
    {
        Lcg { state: seed, increment }
    }

    /// Advances the stream by one step and returns the new state.
    pub fn next_seed(&mut self) -> (seed: u64)
        ensures
            seed == lcg(old(self).state, old(self).increment),
            final(self).state == seed,
            final(self).increment == old(self).increment,
    {
        self.state = lcg_step(self.state, self.increment);
        self.state
    }

    /// Advances the stream and returns the new state's 31 high bits.
    pub fn next_draw(&mut self) -> (draw: u64)
        ensures
            final(self).state == lcg(old(self).state, old(self).increment),
            final(self).increment == old(self).increment,
            draw == draw_of(final(self).state),
            draw < 0x8000_0000u64,
    {
        let s = self.next_seed();
        draw_bits(s)
    }

    /// The seed of the `index`-th candidate of a batch: the next state of
    /// the stream plus `index`, modulo 2^64.
    pub fn candidate_seed(&mut self, index: usize) -> (seed: u64)
        ensures
            final(self).state == lcg(old(self).state, old(self).increment),
            final(self).increment == old(self).increment,
            seed == ((final(self).state as nat + index as nat) % u64_modulus()) as u64,
    {
        let s = self.next_seed();
        let seed = s.wrapping_add(index as u64);
        seed
    }
}

/// The 31 high bits of a state, `state >> 33`.
pub fn draw_bits(state: u64) -> (draw: u64)
    ensures
        draw == draw_of(state),
        draw < 0x8000_0000u64,
{
    let d = state >> 33u64;
    assert(d == state / 0x2_0000_0000u64 && d < 0x8000_0000u64) by (bit_vector)
        requires
            d == state >> 33u64,
    ;
    d
}

/// The choice among `choices` that a draw makes: `draw * choices / 2^31`.
/// Every choice lies below the number of choices.
pub fn choice(draw: u64, choices: u64) -> (c: u64)
    requires
        draw < 0x8000_0000u64,
        0 < choices <= 0x8000_0000u64,
    ensures
        c as nat == choice_of(draw, choices as nat),
        c < choices,
{
    proof {
        assert(draw * choices < 0x8000_0000u64 * choices) by (nonlinear_arith)
            requires
                draw < 0x8000_0000u64,
                0 < choices,
        ;
        assert(draw * choices <= 0x8000_0000u64 * 0x8000_0000u64) by (nonlinear_arith)
            requires
                draw < 0x8000_0000u64,
                choices <= 0x8000_0000u64,
        ;
        assert((draw as nat * choices as nat) / draw_range() < choices as nat) by (nonlinear_arith)
            requires
                (draw as nat * choices as nat) < draw_range() * (choices as nat),
                draw_range() == 0x8000_0000nat,
        ;
    }
    (draw * choices) / 0x8000_0000u64
}

/// Runs `rounds` steps of the unit-increment generator from `x`: the busy
/// work of one burst of CPU stress.
pub fn spin(x: u64, rounds: u32) -> (r: u64)
    ensures
        r == lcg_iter(x, UNIT_INCREMENT, rounds as nat),
{
    let mut acc = x;
    let mut i: u32 = 0;
    while i < rounds
        invariant
            i <= rounds,
            acc == lcg_iter(x, UNIT_INCREMENT, i as nat),
        decreases rounds - i,
    {
        acc = lcg_step(acc, UNIT_INCREMENT);
        i = i + 1;
    }
    acc
}

} // verus!
