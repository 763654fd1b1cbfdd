use zot_cell::organism::{
    cap_population, count_flags, is_self_tolerant, keep_marked, select_survivors, survives_cull, evolution_plan, percentile_index, plan_cycle, test_window_starts, trim_history,
    EvolutionPlan, Outcome, ThreatKind, MAX_RECEPTORS,
};

#[test]
fn percentile_indices() {
    assert_eq!(percentile_index(100, 20), 20);
    assert_eq!(percentile_index(250, 10), 25);
    assert_eq!(percentile_index(7, 2), 0);
    assert_eq!(percentile_index(1, 20), 0);
}

#[test]
fn test_windows_step_by_three() {
    assert_eq!(test_window_starts(20), vec![0, 3]);
    assert_eq!(test_window_starts(16), vec![0]);
    assert_eq!(test_window_starts(15), Vec::<usize>::new());
    assert_eq!(test_window_starts(10), Vec::<usize>::new());
    assert_eq!(test_window_starts(0), Vec::<usize>::new());
    let starts = test_window_starts(1200);
    assert_eq!(starts.len(), 395);
    assert!(starts.iter().all(|s| s + 15 <= 1200));
}

#[test]
fn history_keeps_the_most_recent() {
    let mut h: Vec<u32> = (0..205).collect();
    trim_history(&mut h, 200);
    assert_eq!(h.len(), 200);
    assert_eq!(h[0], 5);
    assert_eq!(h[199], 204);
    let mut short: Vec<u32> = (0..10).collect();
    trim_history(&mut short, 200);
    assert_eq!(short, (0..10).collect::<Vec<u32>>());
}

#[test]
fn population_is_capped() {
    let mut p: Vec<usize> = (0..2000).collect();
    cap_population(&mut p);
    assert_eq!(p.len(), MAX_RECEPTORS);
    assert_eq!(p[499], 499);
    let mut q: Vec<usize> = (0..30).collect();
    cap_population(&mut q);
    assert_eq!(q.len(), 30);
}

#[test]
fn evolution_plans() {
    assert_eq!(evolution_plan(0), EvolutionPlan { clones: 0, fresh: 125 });
    assert_eq!(evolution_plan(3), EvolutionPlan { clones: 3, fresh: 119 });
    assert_eq!(evolution_plan(100), EvolutionPlan { clones: 5, fresh: 20 });
    assert_eq!(evolution_plan(119), EvolutionPlan { clones: 5, fresh: 1 });
    assert_eq!(evolution_plan(122), EvolutionPlan { clones: 5, fresh: 0 });
    assert_eq!(evolution_plan(498), EvolutionPlan { clones: 2, fresh: 0 });
    assert_eq!(evolution_plan(500), EvolutionPlan { clones: 0, fresh: 0 });
    assert_eq!(evolution_plan(600), EvolutionPlan { clones: 0, fresh: 0 });
}

#[test]
fn population_stays_within_bounds() {
    for p in 0..=MAX_RECEPTORS {
        let plan = evolution_plan(p);
        let total = p + plan.clones + plan.fresh;
        assert!((125..=500).contains(&total));
    }
}

#[test]
fn threat_kinds() {
    assert_eq!(ThreatKind::of(0), ThreatKind::Cpu);
    assert_eq!(ThreatKind::of(1), ThreatKind::Cache);
    assert_eq!(ThreatKind::of(2), ThreatKind::Mixed);
    assert_eq!(ThreatKind::of(4), ThreatKind::Cache);
    assert_eq!(ThreatKind::Cpu.workers(), (4, 0));
    assert_eq!(ThreatKind::Cache.workers(), (0, 4));
    assert_eq!(ThreatKind::Mixed.workers(), (2, 2));
}

#[test]
fn schedule_of_the_first_cycles() {
    let p0 = plan_cycle(0);
    assert!(!p0.threat_period && p0.phase_start && p0.start_threat.is_none() && !p0.evolve);
    let p4 = plan_cycle(4);
    assert!(p4.evolve && !p4.phase_start);
    let p10 = plan_cycle(10);
    assert!(p10.threat_period && p10.phase_start);
    assert_eq!(p10.start_threat, Some(0));
    let p15 = plan_cycle(15);
    assert!(p15.threat_period && !p15.phase_start && p15.start_threat.is_none());
    let p20 = plan_cycle(20);
    assert!(!p20.threat_period && p20.phase_start && p20.start_threat.is_none());
}

#[test]
fn threats_rotate() {
    let kinds: Vec<Option<u32>> = [10, 30, 50, 70, 90, 110].iter().map(|&c| plan_cycle(c).start_threat).collect();
    assert_eq!(kinds, vec![Some(0), Some(1), Some(2), Some(1), Some(0), Some(0)]);
}

#[test]
fn half_of_a_hundred_cycles_are_threats() {
    let threats = (0..100).filter(|&c| plan_cycle(c).threat_period).count();
    assert_eq!(threats, 50);
    let starts = (0..100).filter(|&c| plan_cycle(c).start_threat.is_some()).count();
    assert_eq!(starts, 5);
    let evolutions = (0..100).filter(|&c| plan_cycle(c).evolve).count();
    assert_eq!(evolutions, 20);
}

#[test]
fn outcomes() {
    assert_eq!(Outcome::judge(true, true), Outcome::Correct);
    assert_eq!(Outcome::judge(false, false), Outcome::Correct);
    assert_eq!(Outcome::judge(true, false), Outcome::FalsePositive);
    assert_eq!(Outcome::judge(false, true), Outcome::Miss);
}

#[test]
fn self_tolerance_is_at_most_a_tenth() {
    assert!(is_self_tolerant(0, 0));
    assert!(is_self_tolerant(0, 395));
    assert!(is_self_tolerant(39, 395));
    assert!(!is_self_tolerant(40, 395));
    assert!(is_self_tolerant(40, 400));
    assert!(!is_self_tolerant(1, 9));
}

#[test]
fn keep_marked_keeps_order() {
    let v = vec!["a", "b", "c", "d"];
    assert_eq!(keep_marked(v, &vec![true, false, false, true]), vec!["a", "d"]);
    let empty: Vec<u8> = Vec::new();
    assert!(keep_marked(empty, &Vec::new()).is_empty());
}

#[test]
fn negative_selection_kills_self_reactive_candidates() {
    let candidates: Vec<usize> = (0..6).collect();
    let fires = vec![0, 5, 1, 2, 0, 20];
    let survivors = select_survivors(candidates, &fires, 10);
    assert_eq!(survivors, vec![0, 2, 4]);
}

#[test]
fn negative_selection_caps_the_repertoire() {
    let candidates: Vec<usize> = (0..2000).collect();
    let fires: Vec<usize> = (0..2000).map(|i| if i % 2 == 0 { 0 } else { 100 }).collect();
    let survivors = select_survivors(candidates, &fires, 395);
    assert_eq!(survivors.len(), MAX_RECEPTORS);
    assert_eq!(survivors[0], 0);
    assert_eq!(survivors[499], 998);
    assert!(survivors.iter().all(|c| c % 2 == 0));
}

#[test]
fn memory_cells_survive_the_cull() {
    let mut memory = zot_cell::tally::Tally::new();
    memory.mark_memory();
    let plain = zot_cell::tally::Tally::new();
    assert!(survives_cull(false, &memory));
    assert!(survives_cull(true, &plain));
    assert!(!survives_cull(false, &plain));
}

#[test]
fn flags_are_counted() {
    assert_eq!(count_flags(&vec![true, false, true, true]), 3);
    assert_eq!(count_flags(&Vec::new()), 0);
}

#[test]
fn cull_keeps_every_memory_cell() {
    let mut memory = zot_cell::tally::Tally::new();
    memory.mark_memory();
    let plain = zot_cell::tally::Tally::new();
    let population = vec![memory, plain, memory, plain, plain];
    let confident = [false, true, false, false, true];
    let keep: Vec<bool> = population.iter().zip(confident.iter()).map(|(t, &c)| survives_cull(c, t)).collect();
    let before = count_flags(&population.iter().map(|t| t.is_memory).collect());
    let kept = keep_marked(population, &keep);
    assert_eq!(kept.len(), 4);
    let after = count_flags(&kept.iter().map(|t| t.is_memory).collect());
    assert_eq!(before, 2);
    assert_eq!(after, 2);
}
