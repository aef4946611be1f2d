//! Selection: ranking the candidates of a generation by their scores, keeping
//! the best of them, and remembering the best layout of all generations.
//!
//! A score is an effort in whole units. The lower it is, the better.

use vstd::prelude::*;
use rand::rngs::StdRng;
use crate::keyboard::error::KeyboardError;
use crate::keyboard::layout::{in_layout, key_at, Layout};
use crate::keyboard::mutation::{
    breaks_pair, can_replace, can_swap, has_moveable, has_pair_to_swap, held, layers_in_step,
    replaced, same_flags, swapped,
};
use crate::keyboard::LayoutPosition;
use crate::text_processor::keycode::Keycode;

verus! {

/// Whether candidate `a` ranks before candidate `b`: it has the lower score,
/// or the same score and the lower number.
pub open spec fn ranks_before(scores: Seq<u64>, a: int, b: int) -> bool {
    scores[a] < scores[b] || (scores[a] == scores[b] && a < b)
}

/// Whether `order` lists the first `n` candidates, each once, best first.
pub open spec fn ranks_first(scores: Seq<u64>, order: Seq<usize>, n: int) -> bool {
    &&& order.len() == n
    &&& forall|i: int| 0 <= i < order.len() ==> (#[trigger] order[i]) < n
    &&& forall|i: int, j: int|
        0 <= i < j < order.len() ==> ranks_before(
            scores,
            #[trigger] order[i] as int,
            #[trigger] order[j] as int,
        )
    &&& forall|k: int| 0 <= k < n ==> #[trigger] order.contains(k as usize)
}

/// Whether `order` lists all candidates, each once, best first.
pub open spec fn is_ranking(scores: Seq<u64>, order: Seq<usize>) -> bool {
    ranks_first(scores, order, scores.len() as int)
}

/// How many candidates survive a generation: as many as wanted, but one at
/// least, and no more than there are.
pub open spec fn survivor_count(population: int, wanted: int) -> int {
    if population <= 0 {
        0
    } else if wanted < 1 {
        1
    } else if wanted > population {
        population
    } else {
        wanted
    }
}

/// Whether `kept` are the `count` best candidates, best first: each of them
/// ranks before every candidate that is not among them.
pub open spec fn is_top(scores: Seq<u64>, kept: Seq<usize>, count: int) -> bool {
    &&& kept.len() == count
    &&& forall|i: int| 0 <= i < kept.len() ==> (#[trigger] kept[i]) < scores.len()
    &&& forall|i: int, j: int|
        0 <= i < j < kept.len() ==> ranks_before(
            scores,
            #[trigger] kept[i] as int,
            #[trigger] kept[j] as int,
        )
    &&& forall|i: int, k: int|
        0 <= i < kept.len() && 0 <= k < scores.len() && !kept.contains(k as usize)
            ==> #[trigger] ranks_before(scores, kept[i] as int, k)
}

/// The candidates by number, best first. Of two with one score the one with
/// the lower number comes first.
pub fn rank(scores: &Vec<u64>) -> (order: Vec<usize>)
    ensures
        is_ranking(scores@, order@),
{
    let mut order: Vec<usize> = Vec::new();
    let mut n: usize = 0;
    while n < scores.len()
        invariant
            n <= scores.len(),
            ranks_first(scores@, order@, n as int),
        decreases scores.len() - n,
    {
        let mut at: usize = 0;
        while at < order.len() && scores[order[at]] <= scores[n]
            invariant
                n < scores.len(),
                at <= order.len(),
                ranks_first(scores@, order@, n as int),
                forall|i: int| 0 <= i < at ==> scores@[(#[trigger] order@[i]) as int] <= scores@[n as int],
            decreases order.len() - at,
        {
            at += 1;
        }
        let ghost before = order@;
        order.insert(at, n);
        proof {
            assert forall|i: int, j: int| 0 <= i < j < order@.len() implies ranks_before(
                scores@,
                #[trigger] order@[i] as int,
                #[trigger] order@[j] as int,
            ) by {
                if j < at {
                    assert(order@[i] == before[i] && order@[j] == before[j]);
                } else if j == at {
                    assert(order@[i] == before[i]);
                } else if i < at {
                    assert(order@[i] == before[i] && order@[j] == before[j - 1]);
                } else if i == at {
                    assert(order@[j] == before[j - 1]);
                    assert(ranks_before(scores@, before[at as int] as int, before[j - 1] as int)
                        || j - 1 == at);
                } else {
                    assert(order@[i] == before[i - 1] && order@[j] == before[j - 1]);
                }
            }
            assert forall|k: int| 0 <= k < n + 1 implies #[trigger] order@.contains(k as usize) by {
                if k == n {
                    assert(order@[at as int] == n);
                } else {
                    assert(before.contains(k as usize));
                    let i = choose|i: int| 0 <= i < before.len() && before[i] == k as usize;
                    if i < at {
                        assert(order@[i] == k as usize);
                    } else {
                        assert(order@[i + 1] == k as usize);
                    }
                }
            }
            assert forall|i: int| 0 <= i < order@.len() implies (#[trigger] order@[i]) < n + 1 by {
                if i < at {
                    assert(order@[i] == before[i]);
                } else if i > at {
                    assert(order@[i] == before[i - 1]);
                }
            }
        }
        n += 1;
    }
    order
}

/// How many candidates survive a generation.
pub fn count_survivors(population: usize, wanted: usize) -> (count: usize)
    ensures
        count == survivor_count(population as int, wanted as int),
{
    if population == 0 {
        0
    } else if wanted < 1 {
        1
    } else if wanted > population {
        population
    } else {
        wanted
    }
}

/// The candidates that survive a generation, best first: as many as
/// `wanted`, but one at least, and no more than there are.
pub fn select(scores: &Vec<u64>, wanted: usize) -> (kept: Vec<usize>)
    ensures
        is_top(scores@, kept@, survivor_count(scores@.len() as int, wanted as int)),
{
    let count = count_survivors(scores.len(), wanted);
    let mut order = rank(scores);
    let ghost full = order@;
    order.truncate(count);
    proof {
        assert(order@ == full.take(count as int));
        assert forall|i: int, k: int|
            0 <= i < order@.len() && 0 <= k < scores@.len() && !order@.contains(
                k as usize,
            ) implies #[trigger] ranks_before(scores@, order@[i] as int, k) by {
            assert(full.contains(k as usize));
            let j = choose|j: int| 0 <= j < full.len() && full[j] == k as usize;
            if j < count {
                assert(order@[j] == k as usize);
            }
            assert(order@[i] == full[i]);
            assert(ranks_before(scores@, full[i] as int, full[j] as int));
        }
        assert forall|i: int, j: int| 0 <= i < j < order@.len() implies ranks_before(
            scores@,
            #[trigger] order@[i] as int,
            #[trigger] order@[j] as int,
        ) by {
            assert(order@[i] == full[i] && order@[j] == full[j]);
        }
        assert forall|i: int| 0 <= i < order@.len() implies (#[trigger] order@[i]) < scores@.len() by {
            assert(order@[i] == full[i]);
        }
    }
    order
}

/// The lowest of a first score and the scores offered after it.
pub open spec fn best_after(first: u64, offers: Seq<u64>) -> u64
    decreases offers.len(),
{
    if offers.len() == 0 {
        first
    } else {
        let before = best_after(first, offers.drop_last());
        if offers.last() < before {
            offers.last()
        } else {
            before
        }
    }
}

/// The best score on record never rises: after more offers it is at most
/// what it was after fewer.
pub proof fn lemma_best_never_rises(first: u64, offers: Seq<u64>, earlier: int, later: int)
    requires
        0 <= earlier <= later <= offers.len(),
    ensures
        best_after(first, offers.take(later)) <= best_after(first, offers.take(earlier)),
    decreases later - earlier,
{
    if earlier < later {
        assert(offers.take(later).drop_last() =~= offers.take(later - 1));
        lemma_best_never_rises(first, offers, earlier, later - 1);
    }
}

/// The best score on record is the first score or one of the offers, and no
/// offer is lower.
pub proof fn lemma_best_is_lowest(first: u64, offers: Seq<u64>)
    ensures
        best_after(first, offers) <= first,
        forall|i: int| 0 <= i < offers.len() ==> best_after(first, offers) <= #[trigger] offers[i],
        best_after(first, offers) == first || offers.contains(best_after(first, offers)),
    decreases offers.len(),
{
    if offers.len() > 0 {
        let init = offers.drop_last();
        lemma_best_is_lowest(first, init);
        assert forall|i: int| 0 <= i < offers.len() implies best_after(first, offers)
            <= #[trigger] offers[i] by {
            if i < init.len() {
                assert(init[i] == offers[i]);
            }
        }
        if best_after(first, offers) != first {
            if offers.last() < best_after(first, init) {
                assert(offers[offers.len() - 1] == best_after(first, offers));
            } else {
                let i = choose|i: int| 0 <= i < init.len() && init[i] == best_after(first, init);
                assert(offers[i] == best_after(first, offers));
            }
        }
    }
}

/// The best layout of a search so far, with its score.
pub struct Elite<const R: usize, const C: usize> {
    layout: Layout<R, C>,
    score: u64,
}

impl<const R: usize, const C: usize> Elite<R, C> {
    /// The keys of the layout on record.
    pub closed spec fn view(&self) -> Seq<Seq<Seq<crate::keyboard::key::KeycodeKey>>> {
        self.layout@
    }

    /// The score on record.
    pub closed spec fn best(&self) -> u64 {
        self.score
    }

    /// The layout on record is well formed.
    pub closed spec fn wf(&self) -> bool {
        self.layout.wf()
    }

    /// Starts the record with a first layout.
    pub fn new(layout: Layout<R, C>, score: u64) -> (elite: Self)
        requires
            layout.wf(),
        ensures
            elite.wf(),
            elite@ == layout@,
            elite.best() == score,
    {
        Elite { layout, score }
    }

    /// The score on record.
    pub fn score(&self) -> (score: u64)
        ensures
            score == self.best(),
    {
        self.score
    }

    /// The layout on record.
    pub fn layout(&self) -> (layout: &Layout<R, C>)
        ensures
            layout@ == self@,
            self.wf() ==> layout.wf(),
    {
        &self.layout
    }

    /// Offers a layout to the record. It is taken if its score is lower than
    /// the score on record; so the score on record never rises.
    pub fn offer(&mut self, layout: &Layout<R, C>, score: u64) -> (taken: bool)
        requires
            old(self).wf(),
            layout.wf(),
        ensures
            final(self).wf(),
            taken == (score < old(self).best()),
            final(self).best() == best_after(old(self).best(), seq![score]),
            final(self).best() <= old(self).best(),
            final(self)@ == if taken {
                layout@
            } else {
                old(self)@
            },
    {
        proof {
            assert(seq![score].drop_last() =~= Seq::<u64>::empty());
            assert(seq![score].last() == score);
            reveal_with_fuel(best_after, 2);
        }
        if score < self.score {
            self.layout = layout.clone();
            self.score = score;
            true
        } else {
            false
        }
    }
}

/// The parent of each child that is bred to fill a population again: as
/// many children as the population has room for beside the parents, each
/// from the next parent in turn, the best first. No child is bred without a
/// parent.
pub open spec fn breeding_plan(parents: int, population: int) -> Seq<usize> {
    if parents <= 0 || population <= parents {
        Seq::empty()
    } else {
        Seq::new((population - parents) as nat, |child: int| (child % parents) as usize)
    }
}

/// The parent of each child that is bred to fill a population again, by its
/// place among the survivors.
pub fn plan_breeding(parents: usize, population: usize) -> (plan: Vec<usize>)
    ensures
        plan@ == breeding_plan(parents as int, population as int),
{
    let mut plan: Vec<usize> = Vec::new();
    if parents == 0 || population <= parents {
        return plan;
    }
    let children = population - parents;
    let mut child: usize = 0;
    while child < children
        invariant
            parents > 0,
            child <= children,
            plan@ == Seq::new(child as nat, |i: int| (i % parents as int) as usize),
        decreases children - child,
    {
        plan.push(child % parents);
        child += 1;
        assert(plan@ =~= Seq::new(child as nat, |i: int| (i % parents as int) as usize));
    }
    assert(plan@ =~= breeding_plan(parents as int, population as int));
    plan
}

/// The change that makes a child differ from its parent.
#[derive(Debug, Clone, Copy, PartialEq, Eq, Structural)]
pub enum Mutation {
    /// Two replaceable keys exchange their values.
    Swap,
    /// One moveable key gets a new value.
    Replace,
}

/// A child of `parent`: a copy with one change of the given kind, made at
/// random. The parent stays as it is.
///
/// A swap lets two different replaceable keys exchange their values; the
/// child is a plain copy only if the parent has no two such keys. A
/// replacement gives a moveable key one of the candidates; the child is a
/// plain copy only if there is no candidate or no moveable key, or if a
/// moveable key is held by the other key of its pair. A replacement that
/// would break a symmetric pair is reported, and there is no child then.
///
/// The child has the flags of its parent, and if the symmetric keys of the
/// parent hold together, so do those of the child.
pub fn offspring<const R: usize, const C: usize>(
    parent: &Layout<R, C>,
    kind: Mutation,
    rng: &mut StdRng,
    candidates: &Vec<Keycode>,
) -> (res: Result<Layout<R, C>, KeyboardError>)
    requires
        parent.wf(),
    ensures
        kind == Mutation::Swap ==> res is Ok,
        kind == Mutation::Replace && (candidates@.len() == 0 || !has_moveable(
            parent@,
            R as int,
            C as int,
        )) ==> res is Ok && res.unwrap()@ == parent@,
        kind == Mutation::Replace && candidates@.len() > 0 && has_moveable(
            parent@,
            R as int,
            C as int,
        ) && (forall|p: LayoutPosition|
            in_layout(parent@, p, R as int, C as int) && (#[trigger] key_at(parent@, p)).moveable
                ==> can_replace(parent@, p, R as int, C as int)) ==> res is Ok && exists|
            p: LayoutPosition,
            value: Keycode,
        |
            can_replace(parent@, p, R as int, C as int) && candidates@.contains(value)
                && res.unwrap()@ == #[trigger] replaced(parent@, p, value, C as int),
        match res {
            Ok(child) => {
                &&& child.wf()
                &&& same_flags(parent@, child@, R as int, C as int)
                &&& layers_in_step(parent@, R as int, C as int) ==> layers_in_step(
                    child@,
                    R as int,
                    C as int,
                )
                &&& match kind {
                    Mutation::Swap => if has_pair_to_swap(parent@, R as int, C as int) {
                        exists|a: LayoutPosition, b: LayoutPosition|
                            a != b && can_swap(parent@, a, b, R as int, C as int) && child@
                                == #[trigger] swapped(parent@, a, b)
                    } else {
                        child@ == parent@
                    },
                    Mutation::Replace => {
                        ||| child@ == parent@ && (candidates@.len() == 0 || !has_moveable(
                            parent@,
                            R as int,
                            C as int,
                        ) || exists|p: LayoutPosition| #[trigger]
                            held(parent@, p, R as int, C as int))
                        ||| exists|p: LayoutPosition, value: Keycode|
                            can_replace(parent@, p, R as int, C as int) && candidates@.contains(
                                value,
                            ) && child@ == #[trigger] replaced(parent@, p, value, C as int)
                    },
                }
            },
            Err(e) => kind == Mutation::Replace && exists|p: LayoutPosition| #[trigger]
                breaks_pair(parent@, p, R as int, C as int) && e == KeyboardError::SymmetryError(
                    p.row_index,
                    p.col_index,
                    p.row_index,
                    (C - 1 - p.col_index) as usize,
                ),
        },
{
    let mut child = parent.clone();
    match kind {
        Mutation::Swap => {
            let done = child.mutate_swap(rng);
            assert(done == has_pair_to_swap(parent@, R as int, C as int));
            Ok(child)
        },
        Mutation::Replace => {
            match child.mutate_replace(rng, candidates) {
                Ok(changed) => {
                    proof {
                        if changed {
                            let (p, value) = choose|p: LayoutPosition, value: Keycode|
                                can_replace(parent@, p, R as int, C as int) && candidates@.contains(
                                    value,
                                ) && child@ == #[trigger] replaced(parent@, p, value, C as int);
                            assert(can_replace(parent@, p, R as int, C as int)
                                && candidates@.contains(value) && child@ == replaced(
                                parent@,
                                p,
                                value,
                                C as int,
                            ));
                        } else {
                            assert(child@ == parent@);
                        }
                    }
                    Ok(child)
                },
                Err(e) => Err(e),
            }
        },
    }
}

} // verus!
