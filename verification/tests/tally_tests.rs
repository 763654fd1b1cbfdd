use zot_cell::tally::{Tally, Verdict};

#[test]
fn learning_counts_age_fires_and_right_fires() {
    let mut t = Tally::new();
    assert_eq!(t.learn(false, true), Verdict::Unchanged);
    assert_eq!(t.learn(true, true), Verdict::Reward);
    assert_eq!(t.learn(true, false), Verdict::Penalty);
    assert_eq!(t.learn(false, false), Verdict::Unchanged);
    assert_eq!(t.age, 4);
    assert_eq!(t.fires, 2);
    assert_eq!(t.correct, 1);
}

#[test]
fn memory_is_permanent() {
    let mut t = Tally::new();
    assert!(!t.is_memory);
    t.mark_memory();
    assert!(t.is_memory);
    for _ in 0..5 {
        t.learn(true, false);
    }
    assert!(t.is_memory);
}
