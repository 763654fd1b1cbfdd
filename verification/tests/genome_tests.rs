use zot_cell::genome::Genome;

fn genome(a: usize, b: usize, short: usize, long: usize, n: u32, m: u32) -> Genome {
    Genome { sensor_a: a, sensor_b: b, short_window: short, long_window: long, kpr_n: n, kpr_m: m, generation: 0 }
}

/// A draw whose choice among `k` is `c`.
fn draw_for(c: u64, k: u64) -> u64 {
    (c * (1u64 << 31) + k - 1) / k
}

const TOP: u64 = (1u64 << 31) - 1;
const HALF: u64 = 1u64 << 30;

#[test]
fn smallest_draws() {
    let g = Genome::from_draws(0, 0, 0, 0, 0, 0);
    assert_eq!(g, genome(0, 1, 2, 5, 2, 1));
}

#[test]
fn largest_draws() {
    let g = Genome::from_draws(TOP, TOP, TOP, TOP, TOP, TOP);
    assert_eq!(g, genome(2, 1, 5, 15, 5, 4));
}

#[test]
fn middle_draws() {
    let g = Genome::from_draws(HALF, HALF, HALF, HALF, HALF, HALF);
    assert_eq!(g, genome(1, 2, 4, 11, 4, 2));
}

#[test]
fn every_sensor_pair_can_be_drawn() {
    assert_eq!(Genome::from_draws(draw_for(1, 3), 0, 0, 0, 0, 0).sensor_b, 0);
    assert_eq!(Genome::from_draws(draw_for(1, 3), draw_for(1, 2), 0, 0, 0, 0).sensor_b, 2);
    assert_eq!(Genome::from_draws(0, draw_for(1, 2), 0, 0, 0, 0).sensor_b, 2);
    let mut pairs = Vec::new();
    for a in 0..3 {
        for b in 0..2 {
            let g = Genome::from_draws(draw_for(a, 3), draw_for(b, 2), 0, 0, 0, 0);
            assert_ne!(g.sensor_a, g.sensor_b);
            pairs.push((g.sensor_a, g.sensor_b));
        }
    }
    pairs.sort();
    assert_eq!(pairs, vec![(0, 1), (0, 2), (1, 0), (1, 2), (2, 0), (2, 1)]);
}

#[test]
fn perturb_states_are_the_first_six_unit_states() {
    let s = Genome::perturb_states(0);
    assert_eq!(s.len(), 6);
    assert_eq!(s[0], 1);
    assert_eq!(s[1], 6364136223846793006);
    let mut x = 0u64;
    for v in &s {
        x = zot_cell::rng::lcg_step(x, 1);
        assert_eq!(*v, x);
    }
}

#[test]
fn mutation_moves_the_short_window() {
    let g = genome(0, 1, 5, 8, 3, 2);
    let c = g.mutate(0);
    assert_eq!(c, Genome { generation: 1, ..genome(0, 1, 4, 8, 3, 2) });
}

#[test]
fn mutation_moves_windows_and_depth() {
    let g = genome(0, 1, 5, 8, 3, 2);
    let c = g.mutate(2);
    assert_eq!(c, Genome { generation: 1, ..genome(0, 1, 4, 9, 2, 1) });
}

#[test]
fn mutation_swaps_a_sensor() {
    let g = genome(0, 1, 5, 8, 3, 2);
    let c = g.mutate(43);
    assert_eq!(c, Genome { generation: 1, ..genome(2, 1, 5, 8, 3, 2) });
}

#[test]
fn mutation_can_leave_the_long_window_short() {
    let g = genome(0, 1, 5, 8, 3, 2);
    let c = g.mutate(17);
    assert_eq!(c.short_window, 6);
    assert_eq!(c.long_window, 8);
    assert!(c.long_window < c.short_window + 3);
}

#[test]
fn mutation_keeps_the_genome_in_range() {
    let mut g = Genome::from_draws(0, 0, 0, 0, 0, 0);
    for seed in 0..500u64 {
        g = g.mutate(seed.wrapping_mul(0x9E37_79B9_7F4A_7C15));
        assert!(g.sensor_a < 3 && g.sensor_b < 3 && g.sensor_a != g.sensor_b);
        assert!((2..=6).contains(&g.short_window));
        assert!((5..=15).contains(&g.long_window));
        assert!((2..=6).contains(&g.kpr_n));
        assert!(1 <= g.kpr_m && g.kpr_m < g.kpr_n);
    }
    assert_eq!(g.generation, 500);
}
