use zot_cell::rng::{choice, draw_bits, lcg_step, spin, Lcg, LCG_MULTIPLIER, SEED_INCREMENT, UNIT_INCREMENT};

#[test]
fn lcg_step_from_zero_is_the_increment() {
    assert_eq!(lcg_step(0, SEED_INCREMENT), SEED_INCREMENT);
}

#[test]
fn lcg_step_multiplies_and_adds() {
    assert_eq!(lcg_step(1, SEED_INCREMENT), 7806831264735756412);
    assert_eq!(lcg_step(1, UNIT_INCREMENT), LCG_MULTIPLIER + 1);
}

#[test]
fn lcg_step_wraps() {
    assert_eq!(lcg_step(u64::MAX, SEED_INCREMENT), 13525302890751722018);
}

#[test]
fn draw_bits_keeps_the_high_31_bits() {
    assert_eq!(draw_bits(u64::MAX), (1u64 << 31) - 1);
    assert_eq!(draw_bits((1u64 << 33) - 1), 0);
    assert_eq!(draw_bits(1u64 << 33), 1);
}

#[test]
fn next_seed_advances_the_stream() {
    let mut s = Lcg::new(0, SEED_INCREMENT);
    assert_eq!(s.next_seed(), SEED_INCREMENT);
    assert_eq!(s.state, SEED_INCREMENT);
    let second = s.next_seed();
    assert_eq!(second, lcg_step(SEED_INCREMENT, SEED_INCREMENT));
}

#[test]
fn streams_with_the_same_seed_agree() {
    let mut a = Lcg::new(12345, SEED_INCREMENT);
    let mut b = Lcg::new(12345, SEED_INCREMENT);
    for _ in 0..100 {
        assert_eq!(a.next_seed(), b.next_seed());
    }
}

#[test]
fn next_draw_is_the_new_states_high_bits() {
    let mut s = Lcg::new(7, SEED_INCREMENT);
    let d = s.next_draw();
    assert_eq!(d, 1059165278);
    assert_eq!(d, s.state >> 33);
    assert!(d < 1u64 << 31);
}

#[test]
fn candidate_seed_adds_the_index() {
    let mut s = Lcg::new(7, SEED_INCREMENT);
    assert_eq!(s.candidate_seed(5), 9098160460397411215);
    assert_eq!(s.state, 9098160460397411210);
}

#[test]
fn spin_runs_the_unit_stream() {
    assert_eq!(spin(42, 0), 42);
    assert_eq!(spin(42, 3), 10334312345110439241);
    assert_eq!(spin(0, 10_000), 15443858792070154672);
}

#[test]
fn spin_composes() {
    assert_eq!(spin(spin(9, 40), 60), spin(9, 100));
}

#[test]
fn choice_scales_a_draw() {
    assert_eq!(choice(0, 3), 0);
    assert_eq!(choice((1u64 << 31) - 1, 3), 2);
    assert_eq!(choice(1u64 << 30, 8), 4);
    assert_eq!(choice(715827883, 3), 1);
    assert_eq!(choice(715827882, 3), 0);
}
