//! The experiment driver: many independent trials, run in parallel.

use vstd::prelude::*;
use rayon::iter::IntoParallelIterator;
use rayon::iter::ParallelIterator;

verus! {

use crate::strategy::Searcher;
use crate::strategy::StrategyKind;
use crate::trial::run_all;
use crate::trial::trial_outcome;

/// How many of the recorded trial outcomes are successes.
pub open spec fn count_true(outcomes: Seq<bool>) -> int
    decreases outcomes.len(),
{
    if outcomes.len() == 0 {
        0
    } else {
        count_true(outcomes.drop_last()) + if outcomes.last() {
            1int
        } else {
            0int
        }
    }
}

/// The success count never exceeds the number of trials.
proof fn lemma_count_true_bounds(outcomes: Seq<bool>)
    ensures
        0 <= count_true(outcomes) <= outcomes.len(),
    decreases outcomes.len(),
{
    if outcomes.len() > 0 {
        lemma_count_true_bounds(outcomes.drop_last());
    }
}

/// Aggregate correctness: when every trial of a run succeeds, the success
/// count is the full number of trials.
pub proof fn lemma_all_successes_counted(outcomes: Seq<bool>)
    requires
        forall|i: int| 0 <= i < outcomes.len() ==> outcomes[i],
    ensures
        count_true(outcomes) == outcomes.len(),
    decreases outcomes.len(),
{
    if outcomes.len() > 0 {
        lemma_all_successes_counted(outcomes.drop_last());
    }
}

/// One possible accounting of a whole experiment: per-trial outcomes, one
/// per try, each of them a possible from-scratch trial outcome, whose
/// successes number exactly `successes`.
pub open spec fn experiment_outcome(
    kind: StrategyKind,
    n: nat,
    picks: nat,
    tries: nat,
    successes: int,
    outcomes: Seq<bool>,
) -> bool {
    &&& outcomes.len() == tries
    &&& successes == count_true(outcomes)
    &&& forall|i: int|
        0 <= i < outcomes.len() ==> (exists|boxes: Seq<usize>, searchers: Seq<Searcher>|
            trial_outcome(kind, n, picks, #[trigger] outcomes[i], boxes, searchers))
}

/// Relies on rayon's `into_par_iter`, `map` and `collect`: the parallel map
/// over `0..tries` runs one task per trial, joins every task before
/// returning, and collects exactly the results of the `tries` calls of
/// `run_all`, one per trial. Each collected boolean therefore satisfies
/// `run_all`'s verified postcondition; nothing is assumed about the random
/// outcomes themselves.
#[verifier::external_body]
fn run_trials_parallel(kind: StrategyKind, tries: usize, n: usize, picks: usize) -> (outcomes: Vec<
    bool,
>)
    requires
        (kind == StrategyKind::Random ==> picks <= n),
    ensures
        outcomes@.len() == tries,
        experiment_outcome(
            kind,
            n as nat,
            picks as nat,
            tries as nat,
            count_true(outcomes@),
            outcomes@,
        ),
{
    (0..tries).into_par_iter().map(|_| run_all(kind, n, picks)).collect()
}

/// Counts the successful trials among the recorded outcomes.
#[verifier::loop_isolation(false)]
pub fn count_successes(outcomes: &Vec<bool>) -> (successes: usize)
    ensures
        successes == count_true(outcomes@),
{
    let mut successes: usize = 0;
    let mut i: usize = 0;
    while i < outcomes.len()
        invariant
            i <= outcomes@.len(),
            successes <= i,
            successes == count_true(outcomes@.take(i as int)),
        decreases outcomes@.len() - i,
    {
        proof {
            assert(outcomes@.take(i + 1).drop_last() =~= outcomes@.take(i as int));
            assert(outcomes@.take(i + 1).last() == outcomes@[i as int]);
        }
        if outcomes[i] {
            successes = successes + 1;
        }
        i = i + 1;
    }
    proof {
        assert(outcomes@.take(outcomes@.len() as int) =~= outcomes@);
    }
    successes
}

/// Runs `tries` independent from-scratch trials of the chosen strategy in
/// parallel and returns how many succeeded: the number of `true`s among the
/// per-trial outcomes, never more than `tries`.
pub fn run_sim(kind: StrategyKind, tries: usize, n: usize, picks: usize) -> (successes: usize)
    requires
        (kind == StrategyKind::Random ==> picks <= n),
    ensures
        successes <= tries,
        exists|outcomes: Seq<bool>|
            experiment_outcome(kind, n as nat, picks as nat, tries as nat, successes as int, outcomes),
{
    let outcomes = run_trials_parallel(kind, tries, n, picks);
    let successes = count_successes(&outcomes);
    proof {
        lemma_count_true_bounds(outcomes@);
        assert(successes as int == count_true(outcomes@));
        assert(experiment_outcome(
            kind,
            n as nat,
            picks as nat,
            tries as nat,
            successes as int,
            outcomes@,
        ));
    }
    successes
}

} // verus!
