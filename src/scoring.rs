use vstd::prelude::*;

use crate::geometry::Position;
use crate::sensors::{any_in_range, in_range, preys_wf, PreyBody};
use crate::vitals::{Hunger, UNIT};

verus! {

/// A score lies in `[0, UNIT]`.
pub open spec fn score_wf(s: i64) -> bool {
    0 <= s <= UNIT
}

pub open spec fn scores_wf(s: Seq<i64>) -> bool {
    forall|i: int| 0 <= i < s.len() ==> score_wf(#[trigger] s[i])
}

/// The scaled product of scores: `UNIT * prod(s_i / UNIT)`, truncated after each factor.
pub open spec fn product_spec(s: Seq<i64>) -> int
    decreases s.len(),
{
    if s.len() == 0 {
        UNIT as int
    } else {
        product_spec(s.drop_last()) * (s.last() as int) / (UNIT as int)
    }
}

/// Every child score reaches the threshold.
pub open spec fn all_reach(s: Seq<i64>, threshold: int) -> bool {
    forall|i: int| 0 <= i < s.len() ==> threshold <= #[trigger] s[i]
}

/// An AND-gate with graded output: when there is at least one child and every one
/// reaches the threshold, the scaled product of the child scores, but never less than
/// the smallest positive score; zero otherwise.
pub open spec fn all_or_nothing_spec(s: Seq<i64>, threshold: int) -> int {
    if s.len() > 0 && all_reach(s, threshold) {
        if product_spec(s) < 1 {
            1
        } else {
            product_spec(s)
        }
    } else {
        0
    }
}

/// `i` is the first candidate whose score exceeds the threshold.
pub open spec fn is_first_to_score(s: Seq<i64>, threshold: int, i: int) -> bool {
    &&& 0 <= i < s.len()
    &&& s[i] > threshold
    &&& forall|j: int| 0 <= j < i ==> #[trigger] s[j] <= threshold
}

/// No candidate exceeds the threshold.
pub open spec fn none_scores(s: Seq<i64>, threshold: int) -> bool {
    forall|j: int| 0 <= j < s.len() ==> #[trigger] s[j] <= threshold
}

/// Squared threshold distance of the proximity scorer: one world unit, squared.
pub const DISTANCE_SQ: u128 = 1_000_000;

proof fn lemma_product_step(p: int, x: int)
    requires
        0 <= p <= UNIT,
        0 <= x <= UNIT,
    ensures
        0 <= p * x / (UNIT as int) <= UNIT,
{
    assert(0 <= p * x <= UNIT * UNIT) by (nonlinear_arith)
        requires
            0 <= p <= UNIT,
            0 <= x <= UNIT,
    ;
}

/// Combines child scores with the all-or-nothing rule.
pub fn all_or_nothing(scores: &Vec<i64>, threshold: i64) -> (r: i64)
    requires
        scores_wf(scores@),
    ensures
        r == all_or_nothing_spec(scores@, threshold as int),
        score_wf(r),
        r > 0 <==> scores@.len() > 0 && all_reach(scores@, threshold as int),
{
    if scores.len() == 0 {
        return 0;
    }
    let mut acc: i64 = UNIT;
    let mut k: usize = 0;
    while k < scores.len()
        invariant
            scores_wf(scores@),
            0 <= k <= scores@.len(),
            all_reach(scores@.take(k as int), threshold as int),
            acc == product_spec(scores@.take(k as int)),
            score_wf(acc),
        decreases scores@.len() - k,
    {
        let s = scores[k];
        if s < threshold {
            assert(!all_reach(scores@, threshold as int));
            return 0;
        }
        proof {
            lemma_product_step(acc as int, s as int);
            assert(scores@.take(k + 1).drop_last() =~= scores@.take(k as int));
        }
        acc = acc * s / UNIT;
        k = k + 1;
    }
    assert(scores@.take(k as int) =~= scores@);
    if acc < 1 {
        1
    } else {
        acc
    }
}

/// Index of the first candidate, in priority order, whose score exceeds `threshold`.
pub fn first_to_score(scores: &Vec<i64>, threshold: i64) -> (r: Option<usize>)
    ensures
        r is None <==> none_scores(scores@, threshold as int),
        r matches Some(i) ==> is_first_to_score(scores@, threshold as int, i as int),
{
    let mut k: usize = 0;
    while k < scores.len()
        invariant
            0 <= k <= scores@.len(),
            forall|j: int| 0 <= j < k ==> #[trigger] scores@[j] <= threshold,
        decreases scores@.len() - k,
    {
        if scores[k] > threshold {
            return Some(k);
        }
        k = k + 1;
    }
    None
}

/// Scores the urgency to eat: the actor's hunger itself.
#[derive(Clone, Copy, Debug)]
pub struct HungerScorer;

/// Template of a hunger scorer.
#[derive(Clone, Copy, Debug)]
pub struct HungerScorerBuilder;

impl HungerScorer {
    pub fn build() -> (r: HungerScorerBuilder) {
        HungerScorerBuilder
    }

    pub fn run(hunger: &Hunger) -> (r: i64)
        requires
            hunger.wf(),
        ensures
            r == hunger.value(),
            score_wf(r),
    {
        hunger.get()
    }
}

/// Scores whether a prey is within one world unit: `UNIT` if so, zero otherwise.
#[derive(Clone, Copy, Debug)]
pub struct DistanceScorer;

/// Template of a proximity scorer.
#[derive(Clone, Copy, Debug)]
pub struct DistanceScorerBuilder;

impl DistanceScorer {
    pub fn build() -> (r: DistanceScorerBuilder) {
        DistanceScorerBuilder
    }

    pub fn run(actor: &Position, preys: &Vec<PreyBody>) -> (r: i64)
        requires
            actor.wf(),
            preys_wf(preys@),
        ensures
            r == (if any_in_range(*actor, preys@, DISTANCE_SQ as int) {
                UNIT
            } else {
                0
            }),
    {
        if in_range(actor, preys, DISTANCE_SQ) {
            UNIT
        } else {
            0
        }
    }
}

/// A scorer that reads the world directly.
#[derive(Clone, Copy, Debug, PartialEq, Eq, Structural)]
pub enum LeafScorer {
    Hunger,
    Distance,
}

impl HungerScorerBuilder {
    pub fn scorer(&self) -> (r: LeafScorer)
        ensures
            r == LeafScorer::Hunger,
    {
        LeafScorer::Hunger
    }
}

impl DistanceScorerBuilder {
    pub fn scorer(&self) -> (r: LeafScorer)
        ensures
            r == LeafScorer::Distance,
    {
        LeafScorer::Distance
    }
}

/// What one leaf scorer yields for an actor.
pub open spec fn leaf_score_spec(
    leaf: LeafScorer,
    actor: Position,
    hunger: Hunger,
    preys: Seq<PreyBody>,
) -> int {
    match leaf {
        LeafScorer::Hunger => hunger.value(),
        LeafScorer::Distance => if any_in_range(actor, preys, DISTANCE_SQ as int) {
            UNIT as int
        } else {
            0
        },
    }
}

pub fn leaf_score(leaf: LeafScorer, actor: &Position, hunger: &Hunger, preys: &Vec<PreyBody>) -> (r: i64)
    requires
        actor.wf(),
        hunger.wf(),
        preys_wf(preys@),
    ensures
        r == leaf_score_spec(leaf, *actor, *hunger, preys@),
        score_wf(r),
{
    match leaf {
        LeafScorer::Hunger => HungerScorer::run(hunger),
        LeafScorer::Distance => DistanceScorer::run(actor, preys),
    }
}

} // verus!
