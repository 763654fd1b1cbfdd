use zot_cell::cascade::{Reading, Signal};
use zot_cell::genome::Genome;
use zot_cell::receptor::ReceptorCore;
use zot_cell::tally::Verdict;

const ABOVE: Signal = Signal { above: true, quiet: false };

#[test]
fn fresh_receptor_follows_its_genome() {
    let g = Genome::from_draws(0, 0, 0, 0, 1u64 << 29, 1u64 << 30);
    let r = ReceptorCore::fresh(g);
    assert_eq!(r.cascade.kpr_n, 3);
    assert_eq!(r.cascade.kpr_m, 2);
    assert_eq!(r.cascade.consecutive, 0);
    assert_eq!(r.tally.age, 0);
    assert!(!r.tally.is_memory);
}

#[test]
fn learning_judges_the_cascade_state() {
    let mut r = ReceptorCore::fresh(Genome::from_draws(0, 0, 0, 0, 0, 0));
    assert_eq!(r.learn(true), Verdict::Unchanged);
    r.cascade.kpr_step(ABOVE);
    r.cascade.kpr_step(ABOVE);
    assert_eq!(r.learn(true), Verdict::Reward);
    assert_eq!(r.learn(false), Verdict::Penalty);
    assert_eq!(r.tally.age, 3);
    assert_eq!(r.tally.fires, 2);
    assert_eq!(r.tally.correct, 1);
}

#[test]
fn child_starts_fresh() {
    let mut r = ReceptorCore::fresh(Genome::from_draws(0, 0, 1u64 << 30, 0, 0, 0));
    r.cascade.kpr_step(ABOVE);
    r.tally.mark_memory();
    r.learn(true);
    let c = r.spawn_child(2);
    assert_eq!(c.genome, r.genome.mutate(2));
    assert_eq!(c.genome.generation, 1);
    assert_eq!(c.cascade.consecutive, 0);
    assert_eq!(c.cascade.kpr_n, c.genome.kpr_n);
    assert_eq!(c.tally.age, 0);
    assert!(!c.tally.is_memory);
}

#[test]
fn learning_records_the_last_decision() {
    let mut r = ReceptorCore::fresh(Genome::from_draws(0, 0, 0, 0, 0, 0));
    let high = Reading { above_base: true, above_raised: true, quiet: false };
    let first = r.respond(high);
    assert!(!first);
    assert_eq!(r.learn(true), Verdict::Unchanged);
    let second = r.respond(high);
    assert!(second);
    assert_eq!(r.learn(true), Verdict::Reward);
    assert_eq!(r.tally.fires, 1);
}
