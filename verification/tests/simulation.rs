use prisoners::permutation::make_boxes;
use prisoners::sim::count_successes;
use prisoners::sim::run_sim;
use prisoners::strategy::LoopStrategy;
use prisoners::strategy::RandomStrategy;
use prisoners::strategy::Searcher;
use prisoners::strategy::StrategyKind;
use prisoners::trial::run_all;
use prisoners::trial::run_single;
use prisoners::trial::run_trial;

fn loop_searchers(n: usize) -> Vec<Searcher> {
    let mut searchers = Vec::new();
    for i in 0..n {
        searchers.push(Searcher::new(StrategyKind::Loop, i, n));
    }
    searchers
}

#[test]
fn generator_returns_bijection() {
    let n: usize = 100;
    let boxes = make_boxes(n);
    assert_eq!(boxes.len(), n);
    let mut seen = vec![0usize; n];
    for &b in boxes.iter() {
        assert!(b < n);
        seen[b] += 1;
    }
    for v in 0..n {
        assert_eq!(seen[v], 1, "value {} must appear exactly once", v);
    }
}

#[test]
fn loop_identity_succeeds_with_one_pick() {
    let boxes: Vec<usize> = vec![0, 1];
    for i in 0..2 {
        assert!(run_single(StrategyKind::Loop, i, &boxes, 1));
    }
    assert!(run_trial(loop_searchers(2), &boxes, 1));
}

#[test]
fn loop_swap_fails_with_one_pick() {
    let boxes: Vec<usize> = vec![1, 0];
    for i in 0..2 {
        assert!(!run_single(StrategyKind::Loop, i, &boxes, 1));
    }
    assert!(!run_trial(loop_searchers(2), &boxes, 1));
}

#[test]
fn loop_four_cycle_succeeds_with_four_picks() {
    let boxes: Vec<usize> = vec![1, 2, 3, 0];
    for i in 0..4 {
        assert!(run_single(StrategyKind::Loop, i, &boxes, 4));
    }
    assert!(run_trial(loop_searchers(4), &boxes, 4));
}

#[test]
fn loop_four_cycle_fails_with_two_picks() {
    let boxes: Vec<usize> = vec![1, 2, 3, 0];
    for i in 0..4 {
        assert!(!run_single(StrategyKind::Loop, i, &boxes, 2));
    }
    assert!(!run_trial(loop_searchers(4), &boxes, 2));
}

#[test]
fn loop_variant_is_deterministic() {
    let boxes: Vec<usize> = vec![2, 0, 1, 3];
    for picks in 0..7 {
        for i in 0..4 {
            let first = run_single(StrategyKind::Loop, i, &boxes, picks);
            let second = run_single(StrategyKind::Loop, i, &boxes, picks);
            assert_eq!(first, second);
        }
    }
}

#[test]
fn loop_budget_is_monotonic() {
    let boxes: Vec<usize> = vec![1, 2, 3, 0];
    let mut previous = false;
    for picks in 0..7 {
        let now = run_single(StrategyKind::Loop, 0, &boxes, picks);
        assert!(!previous || now, "success must not turn into failure");
        previous = now;
    }
    assert!(run_single(StrategyKind::Loop, 0, &boxes, 4));
}

#[test]
fn trial_is_conjunction_of_searchers() {
    // Mixed cycle structure: one 3-cycle and one fixed point.
    let boxes: Vec<usize> = vec![2, 1, 3, 0];
    for picks in 0..7 {
        let mut every = true;
        for i in 0..4 {
            every = every && run_single(StrategyKind::Loop, i, &boxes, picks);
        }
        assert_eq!(run_trial(loop_searchers(4), &boxes, picks), every);
    }
}

#[test]
fn loop_next_index_follows_contents() {
    let mut s = LoopStrategy::new(3, 8);
    assert_eq!(s.next_index(None), 3);
    assert_eq!(s.next_index(Some(5)), 5);
    assert_eq!(s.next_index(Some(0)), 0);
}

#[test]
fn loop_budget_may_exceed_container_count() {
    // The loop variant never runs out of containers to name, so budgets
    // larger than the container count are fine and change nothing.
    let boxes: Vec<usize> = vec![1, 2, 3, 0];
    for i in 0..4 {
        assert!(run_single(StrategyKind::Loop, i, &boxes, 10));
    }
    assert!(run_trial(loop_searchers(4), &boxes, 10));
}

#[test]
fn random_picks_never_repeat() {
    let n: usize = 25;
    let mut s = RandomStrategy::new(0, n);
    let mut seen = vec![false; n];
    for _ in 0..n {
        let picked = s.next_index(None);
        assert!(picked < n);
        assert!(!seen[picked], "a container was picked twice");
        seen[picked] = true;
    }
    assert!(seen.iter().all(|&b| b));
}

#[test]
fn random_full_budget_always_finds() {
    let boxes = make_boxes(12);
    for i in 0..12 {
        assert!(run_single(StrategyKind::Random, i, &boxes, 12));
    }
}

#[test]
fn empty_trial_succeeds() {
    let boxes: Vec<usize> = Vec::new();
    assert!(run_trial(Vec::new(), &boxes, 0));
    assert!(run_all(StrategyKind::Loop, 0, 0));
    assert!(run_all(StrategyKind::Random, 0, 0));
}

#[test]
fn zero_picks_fail_when_searchers_exist() {
    let boxes: Vec<usize> = vec![0, 1];
    assert!(!run_single(StrategyKind::Loop, 0, &boxes, 0));
    assert!(!run_single(StrategyKind::Random, 0, &boxes, 0));
    assert!(!run_trial(loop_searchers(2), &boxes, 0));
}

#[test]
fn counter_counts_only_successes() {
    let outcomes = vec![true, false, true, true, false];
    assert_eq!(count_successes(&outcomes), 3);
    assert_eq!(count_successes(&Vec::new()), 0);
}

#[test]
fn all_successful_trials_are_counted() {
    let tries: usize = 9;
    let outcomes = vec![true; tries];
    assert_eq!(count_successes(&outcomes), tries);
    // With a single container the loop variant finds its number on the
    // first pick in every trial, so the driver must count all of them.
    assert_eq!(run_sim(StrategyKind::Loop, tries, 1, 1), tries);
}

#[test]
fn driver_count_never_exceeds_tries() {
    let successes = run_sim(StrategyKind::Random, 40, 6, 3);
    assert!(successes <= 40);
    let successes = run_sim(StrategyKind::Loop, 40, 6, 3);
    assert!(successes <= 40);
}
