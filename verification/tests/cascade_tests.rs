use zot_cell::cascade::{Cascade, Reading, Signal};

const ABOVE: Signal = Signal { above: true, quiet: false };
const BELOW: Signal = Signal { above: false, quiet: false };
const QUIET: Signal = Signal { above: false, quiet: true };

#[test]
fn fresh_cascade_is_at_rest() {
    let c = Cascade::new(3, 2);
    assert_eq!(c.consecutive, 0);
    assert_eq!(c.gap_count, 0);
    assert!(!c.feedback_active);
    assert!(!c.is_firing());
}

#[test]
fn sustained_signal_fires_at_depth() {
    let mut c = Cascade::new(3, 2);
    assert!(!c.kpr_step(ABOVE));
    assert!(!c.feedback_active);
    assert!(!c.kpr_step(ABOVE));
    assert!(c.feedback_active);
    assert!(c.kpr_step(ABOVE));
    assert_eq!(c.consecutive, 3);
    assert!(c.is_firing());
}

#[test]
fn first_cycle_from_rest_never_fires() {
    let mut c = Cascade::new(2, 1);
    assert!(!c.kpr_step(ABOVE));
}

#[test]
fn single_gap_is_tolerated() {
    let mut c = Cascade::new(3, 2);
    c.kpr_step(ABOVE);
    c.kpr_step(ABOVE);
    assert!(!c.kpr_step(BELOW));
    assert_eq!(c.consecutive, 2);
    assert_eq!(c.gap_count, 1);
    assert!(c.feedback_active);
    assert!(c.kpr_step(ABOVE));
    assert_eq!(c.gap_count, 0);
}

#[test]
fn quiet_signal_resets_at_once() {
    let mut c = Cascade::new(3, 2);
    c.kpr_step(ABOVE);
    c.kpr_step(ABOVE);
    c.kpr_step(QUIET);
    assert_eq!(c.consecutive, 0);
    assert!(!c.feedback_active);
    assert_eq!(c.gap_count, 0);
}

#[test]
fn three_gaps_reset() {
    let mut c = Cascade::new(5, 2);
    for _ in 0..4 {
        c.kpr_step(ABOVE);
    }
    c.kpr_step(BELOW);
    c.kpr_step(BELOW);
    assert_eq!(c.consecutive, 4);
    assert!(c.feedback_active);
    c.kpr_step(BELOW);
    assert_eq!(c.consecutive, 0);
    assert!(!c.feedback_active);
}

#[test]
fn firing_continues_while_signal_stays() {
    let mut c = Cascade::new(2, 1);
    c.kpr_step(ABOVE);
    assert!(c.kpr_step(ABOVE));
    assert!(c.kpr_step(BELOW));
    assert!(c.kpr_step(ABOVE));
}

#[test]
fn reset_starts_over() {
    let mut c = Cascade::new(2, 1);
    c.kpr_step(ABOVE);
    c.kpr_step(ABOVE);
    c.reset();
    assert_eq!(c, Cascade::new(2, 1));
}

const BETWEEN: Reading = Reading { above_base: true, above_raised: false, quiet: false };
const HIGH: Reading = Reading { above_base: true, above_raised: true, quiet: false };
const LOW: Reading = Reading { above_base: false, above_raised: false, quiet: false };

#[test]
fn raised_threshold_applies_while_feedback_is_active() {
    let mut c = Cascade::new(4, 1);
    assert_eq!(c.sees(BETWEEN).above, true);
    assert!(!c.respond(BETWEEN));
    assert!(c.feedback_active);
    assert_eq!(c.sees(BETWEEN).above, false);
    assert!(!c.respond(BETWEEN));
    assert_eq!(c.gap_count, 1);
    assert!(!c.respond(HIGH));
    assert_eq!(c.consecutive, 2);
}

#[test]
fn self_reactivity_counts_fires_without_starting_over() {
    let mut c = Cascade::new(2, 1);
    let windows = vec![HIGH, HIGH, HIGH, LOW, HIGH, LOW, LOW, LOW, HIGH];
    assert_eq!(c.count_self_fires(&windows), 6);
    assert_eq!(c.consecutive, 1);
    assert!(c.feedback_active);
}

#[test]
fn self_reactivity_of_a_quiet_history_is_zero() {
    let mut c = Cascade::new(2, 1);
    let windows = vec![LOW, BETWEEN, LOW, BETWEEN, LOW];
    assert_eq!(c.count_self_fires(&windows), 0);
}

#[test]
fn self_reactivity_of_no_windows_leaves_the_cascade() {
    let mut c = Cascade::new(3, 2);
    c.kpr_step(ABOVE);
    let before = c;
    assert_eq!(c.count_self_fires(&Vec::new()), 0);
    assert_eq!(c, before);
}
