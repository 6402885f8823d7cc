//! Running searchers against one fixed permutation.

use vstd::prelude::*;

verus! {

use crate::permutation::is_permutation;
use crate::permutation::make_boxes;
use crate::strategy::Searcher;
use crate::strategy::SearcherModel;
use crate::strategy::StrategyKind;

/// Whether a searcher whose state is `m` finds `index` within `picks` picks
/// against container contents `boxes`, the previous pick having revealed
/// `last_inside` (`None` before the first pick).
pub open spec fn search_spec(
    m: SearcherModel,
    index: usize,
    boxes: Seq<usize>,
    picks: nat,
    last_inside: Option<usize>,
) -> bool
    decreases picks,
{
    if picks == 0 {
        false
    } else {
        let found = boxes[m.next_pick(last_inside) as int];
        if found == index {
            true
        } else {
            search_spec(m.step(last_inside), index, boxes, (picks - 1) as nat, Some(found))
        }
    }
}

/// One searcher's full search from the given state: up to `picks` picks,
/// stopping early on success. The result is a function of the starting
/// state, the permutation and the budget alone.
#[verifier::loop_isolation(false)]
pub fn search(searcher: Searcher, index: usize, boxes: &Vec<usize>, picks: usize) -> (found: bool)
    requires
        is_permutation(boxes@),
        searcher.model().wf(),
        searcher.model().n() == boxes@.len(),
        (searcher.model() is Random ==> searcher.model().budget() >= picks),
    ensures
        found == search_spec(searcher.model(), index, boxes@, picks as nat, None::<usize>),
{
    let ghost m0 = searcher.model();
    let mut searcher = searcher;
    let mut last_inside: Option<usize> = None;
    let mut k: usize = 0;
    while k < picks
        invariant
            is_permutation(boxes@),
            searcher.model().wf(),
            searcher.model().n() == boxes@.len(),
            (searcher.model() is Random ==> searcher.model().budget() >= picks - k),
            k <= picks,
            last_inside matches Some(v) ==> v < boxes@.len(),
            search_spec(m0, index, boxes@, picks as nat, None::<usize>) == search_spec(
                searcher.model(),
                index,
                boxes@,
                (picks - k) as nat,
                last_inside,
            ),
        decreases picks - k,
    {
        let ghost pre = searcher.model();
        let next_index = searcher.next_index(last_inside);
        let found = boxes[next_index];
        if found == index {
            proof {
                assert(search_spec(pre, index, boxes@, (picks - k) as nat, last_inside));
            }
            return true;
        }
        last_inside = Some(found);
        k = k + 1;
    }
    false
}

/// One searcher with a freshly initialized strategy state hunting for its
/// own number. Some fresh state of the chosen kind decided the result; for
/// the loop variant that state is unique, so the result is pinned.
pub fn run_single(kind: StrategyKind, index: usize, boxes: &Vec<usize>, picks: usize) -> (found:
    bool)
    requires
        is_permutation(boxes@),
        index < boxes@.len(),
        (kind == StrategyKind::Random ==> picks <= boxes@.len()),
    ensures
        exists|m: SearcherModel|
            {
                &&& m.wf()
                &&& #[trigger] m.fresh(kind, index as nat, boxes@.len())
                &&& found == search_spec(m, index, boxes@, picks as nat, None::<usize>)
            },
{
    let searcher = Searcher::new(kind, index, boxes.len());
    let ghost m = searcher.model();
    let found = search(searcher, index, boxes, picks);
    proof {
        assert(m.wf() && m.fresh(kind, index as nat, boxes@.len()) && found == search_spec(
            m,
            index,
            boxes@,
            picks as nat,
            None::<usize>,
        ));
    }
    found
}

/// Collective success: searcher `i` starts from state `searchers[i]` and
/// every searcher finds its own number within the budget.
pub open spec fn trial_spec(searchers: Seq<Searcher>, boxes: Seq<usize>, picks: nat) -> bool {
    forall|i: int|
        0 <= i < searchers.len() ==> search_spec(
            (#[trigger] searchers[i]).model(),
            i as usize,
            boxes,
            picks,
            None::<usize>,
        )
}

/// Runs one full trial: searcher `i` starts from `searchers[i]`. Evaluation
/// stops at the first failing searcher, yet the result equals the
/// conjunction of all searchers' individual outcomes.
#[verifier::loop_isolation(false)]
pub fn run_trial(searchers: Vec<Searcher>, boxes: &Vec<usize>, picks: usize) -> (success: bool)
    requires
        is_permutation(boxes@),
        searchers@.len() == boxes@.len(),
        forall|i: int|
            0 <= i < searchers@.len() ==> {
                &&& (#[trigger] searchers@[i]).model().wf()
                &&& searchers@[i].model().n() == boxes@.len()
                &&& (searchers@[i].model() is Random ==> searchers@[i].model().budget() >= picks)
            },
    ensures
        success == trial_spec(searchers@, boxes@, picks as nat),
{
    let ghost all = searchers@;
    let mut remaining = searchers;
    let n = boxes.len();
    let mut i: usize = 0;
    while i < n
        invariant
            is_permutation(boxes@),
            n == boxes@.len(),
            i <= n,
            all.len() == n,
            remaining@ == all.subrange(i as int, n as int),
            forall|j: int|
                0 <= j < n ==> {
                    &&& (#[trigger] all[j]).model().wf()
                    &&& all[j].model().n() == boxes@.len()
                    &&& (all[j].model() is Random ==> all[j].model().budget() >= picks)
                },
            forall|j: int|
                0 <= j < i ==> search_spec(
                    (#[trigger] all[j]).model(),
                    j as usize,
                    boxes@,
                    picks as nat,
                    None::<usize>,
                ),
        decreases n - i,
    {
        let searcher = remaining.remove(0);
        proof {
            assert(searcher == all[i as int]);
            assert(remaining@ =~= all.subrange(i + 1, n as int));
        }
        let found = search(searcher, i, boxes, picks);
        if !found {
            proof {
                assert(!search_spec(
                    all[i as int].model(),
                    i,
                    boxes@,
                    picks as nat,
                    None::<usize>,
                ));
                assert(!trial_spec(all, boxes@, picks as nat));
            }
            return false;
        }
        i = i + 1;
    }
    true
}

/// The container reached after `t` steps of "open the container the last
/// contents named", starting from container `start`.
pub open spec fn iterate(boxes: Seq<usize>, start: usize, t: nat) -> usize
    decreases t,
{
    if t == 0 {
        start
    } else {
        boxes[iterate(boxes, start, (t - 1) as nat) as int]
    }
}

/// Starting one step along the chain shifts every later stop by one.
proof fn lemma_iterate_shift(boxes: Seq<usize>, start: usize, t: nat)
    ensures
        iterate(boxes, boxes[start as int], t) == iterate(boxes, start, t + 1),
    decreases t,
{
    assert(iterate(boxes, start, 0) == start);
    if t == 0 {
        assert(iterate(boxes, start, 1) == boxes[iterate(boxes, start, 0) as int]);
    } else {
        lemma_iterate_shift(boxes, start, (t - 1) as nat);
        assert(iterate(boxes, boxes[start as int], t) == boxes[iterate(
            boxes,
            boxes[start as int],
            (t - 1) as nat,
        ) as int]);
        assert(iterate(boxes, start, t + 1) == boxes[iterate(boxes, start, t) as int]);
    }
}

/// `index` lies on a cycle of the permutation of length at most `picks`:
/// following the chain from `index` returns to `index` within `picks` steps.
pub open spec fn on_short_cycle(boxes: Seq<usize>, index: usize, picks: nat) -> bool {
    exists|t: nat| 1 <= t <= picks && iterate(boxes, index, t) == index
}

/// Resuming after a pick that revealed `v`: the remaining `k` picks of a
/// loop-variant searcher succeed exactly when the chain from `v` reaches a
/// container holding `index` within `k` steps.
proof fn lemma_loop_search_chain(boxes: Seq<usize>, index: usize, n: nat, v: usize, k: nat)
    ensures
        search_spec(SearcherModel::Loop { index: index as nat, n }, index, boxes, k, Some(v))
            <==> (exists|t: nat| 1 <= t <= k && iterate(boxes, v, t) == index),
    decreases k,
{
    let m = SearcherModel::Loop { index: index as nat, n };
    if k > 0 {
        let found = boxes[v as int];
        assert(iterate(boxes, v, 0) == v);
        assert(iterate(boxes, v, 1) == found);
        if found == index {
            assert(search_spec(m, index, boxes, k, Some(v)));
        } else {
            lemma_loop_search_chain(boxes, index, n, found, (k - 1) as nat);
            if search_spec(m, index, boxes, k, Some(v)) {
                let t = choose|t: nat|
                    1 <= t <= k - 1 && iterate(boxes, found, t) == index;
                lemma_iterate_shift(boxes, v, t);
                assert(1 <= t + 1 <= k && iterate(boxes, v, t + 1) == index);
            }
            if exists|t: nat| 1 <= t <= k && iterate(boxes, v, t) == index {
                let t = choose|t: nat| 1 <= t <= k && iterate(boxes, v, t) == index;
                assert(t != 1);
                lemma_iterate_shift(boxes, v, (t - 1) as nat);
                assert(1 <= t - 1 <= k - 1 && iterate(boxes, found, (t - 1) as nat) == index);
                assert(search_spec(m, index, boxes, (k - 1) as nat, Some(found)));
            }
        }
    }
}

/// The cycle law of the loop variant: a freshly initialized loop-variant
/// searcher at `index` succeeds within `picks` picks exactly when `index`
/// lies on a cycle of the permutation of length at most `picks`. Success is
/// a function of the permutation and the budget alone, so re-running on a
/// fixed permutation always gives the same outcome.
pub proof fn lemma_loop_cycle(boxes: Seq<usize>, index: usize, n: nat, picks: nat)
    requires
        is_permutation(boxes),
        index < boxes.len(),
    ensures
        search_spec(SearcherModel::Loop { index: index as nat, n }, index, boxes, picks, None::<
            usize,
        >) <==> on_short_cycle(boxes, index, picks),
{
    let m = SearcherModel::Loop { index: index as nat, n };
    if picks > 0 {
        let found = boxes[index as int];
        assert(m.next_pick(None::<usize>) == index);
        assert(iterate(boxes, index, 0) == index);
        assert(iterate(boxes, index, 1) == found);
        if found == index {
            assert(search_spec(m, index, boxes, picks, None::<usize>));
            assert(on_short_cycle(boxes, index, picks));
        } else {
            lemma_loop_search_chain(boxes, index, n, found, (picks - 1) as nat);
            if search_spec(m, index, boxes, picks, None::<usize>) {
                let t = choose|t: nat|
                    1 <= t <= picks - 1 && iterate(boxes, found, t) == index;
                lemma_iterate_shift(boxes, index, t);
                assert(1 <= t + 1 <= picks && iterate(boxes, index, t + 1) == index);
            }
            if on_short_cycle(boxes, index, picks) {
                let t = choose|t: nat| 1 <= t <= picks && iterate(boxes, index, t) == index;
                assert(t != 1);
                lemma_iterate_shift(boxes, index, (t - 1) as nat);
                assert(1 <= t - 1 <= picks - 1 && iterate(boxes, found, (t - 1) as nat) == index);
                assert(search_spec(m, index, boxes, (picks - 1) as nat, Some(found)));
            }
        }
    }
}

/// Monotonicity in the pick budget for the loop variant: on a fixed
/// permutation, enlarging the budget can only turn a failing searcher into
/// a succeeding one, never the reverse.
pub proof fn lemma_loop_monotonic(
    boxes: Seq<usize>,
    index: usize,
    n: nat,
    picks1: nat,
    picks2: nat,
)
    requires
        is_permutation(boxes),
        index < boxes.len(),
        picks1 <= picks2,
        search_spec(SearcherModel::Loop { index: index as nat, n }, index, boxes, picks1, None::<
            usize,
        >),
    ensures
        search_spec(SearcherModel::Loop { index: index as nat, n }, index, boxes, picks2, None::<
            usize,
        >),
{
    lemma_loop_cycle(boxes, index, n, picks1);
    lemma_loop_cycle(boxes, index, n, picks2);
    let t = choose|t: nat| 1 <= t <= picks1 && iterate(boxes, index, t) == index;
    assert(1 <= t <= picks2 && iterate(boxes, index, t) == index);
}

/// One possible outcome of a from-scratch trial: some permutation of the
/// `n` containers and some fresh searcher states that together decide
/// `success`.
pub open spec fn trial_outcome(
    kind: StrategyKind,
    n: nat,
    picks: nat,
    success: bool,
    boxes: Seq<usize>,
    searchers: Seq<Searcher>,
) -> bool {
    &&& is_permutation(boxes)
    &&& boxes.len() == n
    &&& searchers.len() == n
    &&& forall|i: int|
        0 <= i < n ==> {
            &&& (#[trigger] searchers[i]).model().wf()
            &&& searchers[i].model().fresh(kind, i as nat, n)
        }
    &&& success == trial_spec(searchers, boxes, picks)
}

/// One whole trial from scratch: a freshly drawn random permutation and one
/// freshly initialized searcher state per index. Whatever the random draws
/// were, the result is the conjunction that the drawn permutation and
/// states decide.
pub fn run_all(kind: StrategyKind, n: usize, picks: usize) -> (success: bool)
    requires
        (kind == StrategyKind::Random ==> picks <= n),
    ensures
        exists|boxes: Seq<usize>, searchers: Seq<Searcher>|
            trial_outcome(kind, n as nat, picks as nat, success, boxes, searchers),
{
    let boxes = make_boxes(n);
    let mut searchers: Vec<Searcher> = Vec::new();
    for i in 0..n
        invariant
            searchers@.len() == i,
            forall|j: int|
                0 <= j < i ==> {
                    &&& (#[trigger] searchers@[j]).model().wf()
                    &&& searchers@[j].model().n() == n as nat
                    &&& searchers@[j].model().budget() == n as nat
                    &&& searchers@[j].model().fresh(kind, j as nat, n as nat)
                },
    {
        searchers.push(Searcher::new(kind, i, n));
    }
    let ghost gboxes = boxes@;
    let ghost gsearchers = searchers@;
    let success = run_trial(searchers, &boxes, picks);
    proof {
        assert(trial_outcome(kind, n as nat, picks as nat, success, gboxes, gsearchers));
    }
    success
}

} // verus!
