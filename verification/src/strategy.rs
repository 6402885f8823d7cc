//! The two picking strategies and their per-searcher state.

use vstd::prelude::*;

verus! {

use crate::permutation::is_permutation;
use crate::permutation::make_boxes;

/// Which picking strategy an experiment runs.
#[derive(Clone, Copy, PartialEq, Eq, Structural, Debug)]
pub enum StrategyKind {
    Random,
    Loop,
}

/// State of a searcher that opens containers in a private random order: a
/// pre-shuffled queue of all container indices, consumed from the back, so
/// that no container is ever visited twice.
pub struct RandomStrategy {
    pub try_queue: Vec<usize>,
    pub n_boxes: usize,
}

/// State of a searcher that follows the cycle through its own index: open
/// one's own container first, then whatever the last opened container
/// revealed.
pub struct LoopStrategy {
    pub index: usize,
    pub n_boxes: usize,
}

/// Per-searcher strategy state, tagged by variant.
pub enum Searcher {
    Random(RandomStrategy),
    Loop(LoopStrategy),
}

/// Mathematical model of a searcher's state.
pub enum SearcherModel {
    Random { queue: Seq<usize>, n: nat },
    Loop { index: nat, n: nat },
}

impl SearcherModel {
    /// The container count the searcher was set up for.
    pub open spec fn n(self) -> nat {
        match self {
            SearcherModel::Random { n, .. } => n,
            SearcherModel::Loop { n, .. } => n,
        }
    }

    /// Internal invariant: every stored index is in range and the queue
    /// holds no duplicates.
    pub open spec fn wf(self) -> bool {
        match self {
            SearcherModel::Random { queue, n } => {
                &&& queue.len() <= n
                &&& forall|i: int| 0 <= i < queue.len() ==> queue[i] < n
                &&& forall|i: int, j: int| 0 <= i < j < queue.len() ==> queue[i] != queue[j]
            },
            SearcherModel::Loop { index, n } => index < n,
        }
    }

    /// How many more picks this state can serve.
    pub open spec fn budget(self) -> nat {
        match self {
            SearcherModel::Random { queue, .. } => queue.len(),
            SearcherModel::Loop { n, .. } => n,
        }
    }

    /// The container index the next call picks, given the contents revealed
    /// by the previous pick (absent on a searcher's first pick).
    pub open spec fn next_pick(self, last_inside: Option<usize>) -> usize {
        match self {
            SearcherModel::Random { queue, .. } => queue.last(),
            SearcherModel::Loop { index, .. } => match last_inside {
                Some(v) => v,
                None => index as usize,
            },
        }
    }

    /// The state after that pick.
    pub open spec fn step(self, last_inside: Option<usize>) -> SearcherModel {
        match self {
            SearcherModel::Random { queue, n } => SearcherModel::Random {
                queue: queue.drop_last(),
                n,
            },
            SearcherModel::Loop { .. } => self,
        }
    }

    /// The states a freshly initialized searcher of the given kind, identity
    /// and container count may be in.
    pub open spec fn fresh(self, kind: StrategyKind, index: nat, count: nat) -> bool {
        match (kind, self) {
            (StrategyKind::Random, SearcherModel::Random { queue, n }) => {
                queue.len() == count && n == count
            },
            (StrategyKind::Loop, SearcherModel::Loop { index: idx, n }) => {
                idx == index && n == count
            },
            _ => false,
        }
    }
}

impl RandomStrategy {
    /// Sets up the random variant: a private shuffled queue of all `n`
    /// container indices. The searcher's own identity plays no role here.
    pub fn new(_index: usize, n: usize) -> (s: Self)
        ensures
            s.try_queue@.len() == n,
            s.n_boxes == n,
            is_permutation(s.try_queue@),
    {
        RandomStrategy { try_queue: make_boxes(n), n_boxes: n }
    }

    /// Pops the next not-yet-visited container index off the queue. What the
    /// previous pick revealed is ignored.
    pub fn next_index(&mut self, _last_inside: Option<usize>) -> (r: usize)
        requires
            old(self).try_queue@.len() > 0,
        ensures
            r == old(self).try_queue@.last(),
            final(self).try_queue@ == old(self).try_queue@.drop_last(),
            final(self).n_boxes == old(self).n_boxes,
    {
        let picked = self.try_queue.pop();
        picked.unwrap()
    }
}

impl LoopStrategy {
    /// Sets up the cycle-following variant for the searcher at `index`.
    pub fn new(index: usize, n: usize) -> (s: Self)
        ensures
            s == (LoopStrategy { index, n_boxes: n }),
    {
        LoopStrategy { index, n_boxes: n }
    }

    /// First pick: the searcher's own index. Every later pick: the contents
    /// the previous pick revealed.
    pub fn next_index(&mut self, last_inside: Option<usize>) -> (r: usize)
        ensures
            r == (match last_inside {
                Some(v) => v,
                None => old(self).index,
            }),
            *final(self) == *old(self),
    {
        match last_inside {
            Some(last_inside) => last_inside,
            None => self.index,
        }
    }
}

impl Searcher {
    /// The state as its mathematical model.
    pub open spec fn model(self) -> SearcherModel {
        match self {
            Searcher::Random(r) => SearcherModel::Random {
                queue: r.try_queue@,
                n: r.n_boxes as nat,
            },
            Searcher::Loop(l) => SearcherModel::Loop {
                index: l.index as nat,
                n: l.n_boxes as nat,
            },
        }
    }

    /// Sets up one searcher's strategy state.
    pub fn new(kind: StrategyKind, index: usize, n: usize) -> (s: Self)
        requires
            index < n,
        ensures
            s.model().wf(),
            s.model().n() == n as nat,
            s.model().budget() == n as nat,
            s.model().fresh(kind, index as nat, n as nat),
    {
        match kind {
            StrategyKind::Random => Searcher::Random(RandomStrategy::new(index, n)),
            StrategyKind::Loop => Searcher::Loop(LoopStrategy::new(index, n)),
        }
    }

    /// Picks the next container to open, given what the previous pick
    /// revealed (`None` on the first pick).
    pub fn next_index(&mut self, last_inside: Option<usize>) -> (r: usize)
        requires
            old(self).model().wf(),
            old(self).model().budget() > 0,
            last_inside matches Some(v) ==> v < old(self).model().n(),
        ensures
            r == old(self).model().next_pick(last_inside),
            final(self).model() == old(self).model().step(last_inside),
            final(self).model().wf(),
            r < old(self).model().n(),
    {
        match self {
            Searcher::Random(r) => r.next_index(last_inside),
            Searcher::Loop(l) => l.next_index(last_inside),
        }
    }
}

/// A fresh loop-variant state is unique: unlike the random variant, whose
/// fresh states differ in their drawn queue, the loop variant starts from
/// the searcher's identity alone. A caller of a searcher set up this way can
/// therefore pin its outcome exactly.
pub proof fn lemma_loop_fresh_is_unique(m: SearcherModel, index: nat, count: nat)
    requires
        m.fresh(StrategyKind::Loop, index, count),
    ensures
        m == (SearcherModel::Loop { index, n: count }),
{
}

/// The model after `j` picks. The random variant never reads what the picks
/// reveal, so stepping with `None` throughout stands for any run.
pub open spec fn model_after(m: SearcherModel, j: nat) -> SearcherModel
    decreases j,
{
    if j == 0 {
        m
    } else {
        model_after(m, (j - 1) as nat).step(None)
    }
}

/// After `j` picks, a random searcher's queue has lost its last `j` entries.
proof fn lemma_random_state_after(queue: Seq<usize>, n: nat, j: nat)
    requires
        j <= queue.len(),
    ensures
        model_after(SearcherModel::Random { queue, n }, j) == (SearcherModel::Random {
            queue: queue.take(queue.len() - j),
            n,
        }),
    decreases j,
{
    if j == 0 {
        assert(queue.take(queue.len() as int) =~= queue);
    } else {
        lemma_random_state_after(queue, n, (j - 1) as nat);
        assert(queue.take(queue.len() - (j - 1)).drop_last() =~= queue.take(queue.len() - j));
    }
}

/// Pick `j` of a random searcher is the queue entry `j` places from the back.
proof fn lemma_random_pick_at(queue: Seq<usize>, n: nat, j: nat)
    requires
        j < queue.len(),
    ensures
        model_after(SearcherModel::Random { queue, n }, j).next_pick(None) == (queue[queue.len() - 1
            - j]),
{
    lemma_random_state_after(queue, n, j);
}

/// Exhaustiveness of the random variant: across `k` picks from one fresh
/// queue of distinct indices, no two picks return the same container, as
/// long as the queue lasts. What a pick reveals never enters this variant's
/// stepping, so the model is stepped with `None` throughout.
pub proof fn lemma_random_no_repeats(queue: Seq<usize>, n: nat, k: nat, a: nat, b: nat)
    requires
        (SearcherModel::Random { queue, n }).wf(),
        k <= queue.len(),
        a < b < k,
    ensures
        model_after(SearcherModel::Random { queue, n }, a).next_pick(None) != model_after(
            SearcherModel::Random { queue, n },
            b,
        ).next_pick(None),
{
    lemma_random_pick_at(queue, n, a);
    lemma_random_pick_at(queue, n, b);
    assert(queue[queue.len() - 1 - b] != queue[queue.len() - 1 - a]);
}

} // verus!
