use vstd::prelude::*;

use crate::actions::{ActionKind, ActionState};
use crate::geometry::Position;
use crate::scoring::{
    all_or_nothing, all_or_nothing_spec, first_to_score, is_first_to_score, leaf_score,
    leaf_score_spec, none_scores, score_wf, scores_wf, LeafScorer,
};
use crate::sensors::{preys_wf, PreyBody};
use crate::vitals::{Hunger, UNIT};

verus! {

/// A scorer of a choice: a single leaf, or several leaves gated all-or-nothing.
#[derive(Debug)]
pub enum ScorerExpr {
    Leaf(LeafScorer),
    AllOrNothing(i64, Vec<LeafScorer>),
}

/// One entry of a thinker's tree: when its scorer wins, its actions run together.
#[derive(Debug)]
pub struct Choice {
    pub scorer: ScorerExpr,
    pub actions: Vec<ActionKind>,
}

/// A running activation of one action.
#[derive(Clone, Copy, Debug, PartialEq, Eq, Structural)]
pub struct ActionInstance {
    pub kind: ActionKind,
    pub state: ActionState,
}

/// Per-actor orchestrator: a picker threshold, choices in priority order, and the
/// activation of the choice that currently runs.
#[derive(Debug)]
pub struct Thinker {
    pub threshold: i64,
    pub choices: Vec<Choice>,
    pub active: Option<usize>,
    pub instances: Vec<ActionInstance>,
}

/// The leaf scores of `leaves` for one actor.
pub open spec fn leaf_scores_spec(
    leaves: Seq<LeafScorer>,
    actor: Position,
    hunger: Hunger,
    preys: Seq<PreyBody>,
) -> Seq<i64> {
    leaves.map_values(|l: LeafScorer| leaf_score_spec(l, actor, hunger, preys) as i64)
}

/// What a choice's scorer yields for one actor.
pub open spec fn expr_score_spec(
    e: ScorerExpr,
    actor: Position,
    hunger: Hunger,
    preys: Seq<PreyBody>,
) -> int {
    match e {
        ScorerExpr::Leaf(l) => leaf_score_spec(l, actor, hunger, preys),
        ScorerExpr::AllOrNothing(t, leaves) => all_or_nothing_spec(
            leaf_scores_spec(leaves@, actor, hunger, preys),
            t as int,
        ),
    }
}

/// The fresh activation of a choice's actions: each one requested.
pub open spec fn requested(actions: Seq<ActionKind>) -> Seq<ActionInstance> {
    actions.map_values(|k: ActionKind| ActionInstance { kind: k, state: ActionState::Requested })
}

/// What a cancellation does to one state: a live activation is asked to stop.
pub open spec fn cancel_state(s: ActionState) -> ActionState {
    if s is Requested || s is Executing {
        ActionState::Cancelled
    } else {
        s
    }
}

pub open spec fn cancelled(inst: Seq<ActionInstance>) -> Seq<ActionInstance> {
    inst.map_values(|i: ActionInstance| ActionInstance { kind: i.kind, state: cancel_state(i.state) })
}

pub open spec fn all_terminal(inst: Seq<ActionInstance>) -> bool {
    forall|i: int| 0 <= i < inst.len() ==> (#[trigger] inst[i]).state.is_terminal()
}

impl Thinker {
    pub open spec fn wf(&self) -> bool {
        &&& self.active is None ==> self.instances@.len() == 0
        &&& self.active matches Some(c) ==> c < self.choices@.len()
    }

    /// A thinker that picks the first choice scoring above `threshold`, with nothing running.
    pub fn new(threshold: i64) -> (r: Self)
        ensures
            r.wf(),
            r.threshold == threshold,
            r.choices@.len() == 0,
            r.active is None,
    {
        Thinker { threshold, choices: Vec::new(), active: None, instances: Vec::new() }
    }

    /// Appends a choice of lowest priority so far.
    pub fn when(&mut self, scorer: ScorerExpr, actions: Vec<ActionKind>)
        requires
            old(self).wf(),
        ensures
            final(self).wf(),
            final(self).threshold == old(self).threshold,
            final(self).active == old(self).active,
            final(self).instances@ == old(self).instances@,
            final(self).choices@ == old(self).choices@.push(Choice { scorer, actions }),
    {
        self.choices.push(Choice { scorer, actions });
    }

    /// The state after one orchestration step with `picked` as the picker's choice:
    /// a finished activation is retired; a live one is cancelled when the picker
    /// selected another choice, and goes on when it selected it again or nothing; an empty slot takes the picked choice, freshly requested.
    pub open spec fn decide_spec(self, picked: Option<usize>) -> (Option<usize>, Seq<ActionInstance>) {
        let retire = self.active is Some && all_terminal(self.instances@);
        if self.active is Some && !retire {
            if picked is None || picked == self.active {
                (self.active, self.instances@)
            } else {
                (self.active, cancelled(self.instances@))
            }
        } else {
            match picked {
                Some(c) => (Some(c), requested(self.choices@[c as int].actions@)),
                None => (None, Seq::empty()),
            }
        }
    }

    /// One orchestration step, given the picker's choice.
    pub fn decide(&mut self, picked: Option<usize>)
        requires
            old(self).wf(),
            picked matches Some(c) ==> c < old(self).choices@.len(),
        ensures
            final(self).wf(),
            final(self).threshold == old(self).threshold,
            final(self).choices@ == old(self).choices@,
            (final(self).active, final(self).instances@) == old(self).decide_spec(picked),
    {
        let mut live = false;
        if self.active.is_some() {
            let mut k: usize = 0;
            while k < self.instances.len()
                invariant
                    0 <= k <= self.instances@.len(),
                    live <==> exists|j: int| 0 <= j < k && !(#[trigger] self.instances@[j]).state.is_terminal(),
                decreases self.instances@.len() - k,
            {
                let s = self.instances[k].state;
                if !(s == ActionState::Success || s == ActionState::Failure) {
                    live = true;
                }
                k = k + 1;
            }
        }
        if live {
            if picked.is_some() && picked != self.active {
                let mut k: usize = 0;
                let ghost before = self.instances@;
                while k < self.instances.len()
                    invariant
                        self.threshold == old(self).threshold,
                        self.choices@ == old(self).choices@,
                        self.active == old(self).active,
                        old(self).wf(),
                        before == old(self).instances@,
                        before.len() == self.instances@.len(),
                        0 <= k <= self.instances@.len(),
                        forall|j: int| 0 <= j < k ==> #[trigger] self.instances@[j] == cancelled(before)[j],
                        forall|j: int| k <= j < self.instances@.len() ==> #[trigger] self.instances@[j] == before[j],
                    decreases self.instances@.len() - k,
                {
                    let inst = self.instances[k];
                    let ns = if inst.state == ActionState::Requested || inst.state == ActionState::Executing {
                        ActionState::Cancelled
                    } else {
                        inst.state
                    };
                    self.instances.set(k, ActionInstance { kind: inst.kind, state: ns });
                    k = k + 1;
                }
                assert(self.instances@ =~= cancelled(before));
            }
        } else {
            match picked {
                Some(c) => {
                    let mut fresh: Vec<ActionInstance> = Vec::new();
                    let mut k: usize = 0;
                    while k < self.choices[c].actions.len()
                        invariant
                            c < self.choices@.len(),
                            0 <= k <= self.choices@[c as int].actions@.len(),
                            fresh@ =~= requested(self.choices@[c as int].actions@.take(k as int)),
                        decreases self.choices@[c as int].actions@.len() - k,
                    {
                        let kind = self.choices[c].actions[k];
                        fresh.push(ActionInstance { kind, state: ActionState::Requested });
                        k = k + 1;
                        assert(fresh@ =~= requested(self.choices@[c as int].actions@.take(k as int)));
                    }
                    assert(self.choices@[c as int].actions@.take(k as int) =~= self.choices@[c as int].actions@);
                    self.active = Some(c);
                    self.instances = fresh;
                },
                None => {
                    self.active = None;
                    self.instances = Vec::new();
                },
            }
        }
    }
}

/// Scores each leaf for one actor.
pub fn leaf_scores(leaves: &Vec<LeafScorer>, actor: &Position, hunger: &Hunger, preys: &Vec<PreyBody>) -> (r: Vec<i64>)
    requires
        actor.wf(),
        hunger.wf(),
        preys_wf(preys@),
    ensures
        r@ == leaf_scores_spec(leaves@, *actor, *hunger, preys@),
        scores_wf(r@),
{
    let mut out: Vec<i64> = Vec::new();
    let mut k: usize = 0;
    while k < leaves.len()
        invariant
            actor.wf(),
            hunger.wf(),
            preys_wf(preys@),
            0 <= k <= leaves@.len(),
            out@ =~= leaf_scores_spec(leaves@.take(k as int), *actor, *hunger, preys@),
            scores_wf(out@),
        decreases leaves@.len() - k,
    {
        let s = leaf_score(leaves[k], actor, hunger, preys);
        out.push(s);
        k = k + 1;
        assert(out@ =~= leaf_scores_spec(leaves@.take(k as int), *actor, *hunger, preys@));
    }
    assert(leaves@.take(k as int) =~= leaves@);
    out
}

/// Evaluates a choice's scorer for one actor.
pub fn expr_score(e: &ScorerExpr, actor: &Position, hunger: &Hunger, preys: &Vec<PreyBody>) -> (r: i64)
    requires
        actor.wf(),
        hunger.wf(),
        preys_wf(preys@),
    ensures
        r == expr_score_spec(*e, *actor, *hunger, preys@),
        score_wf(r),
{
    match e {
        ScorerExpr::Leaf(l) => leaf_score(*l, actor, hunger, preys),
        ScorerExpr::AllOrNothing(t, leaves) => {
            let s = leaf_scores(leaves, actor, hunger, preys);
            all_or_nothing(&s, *t)
        },
    }
}

/// The scores of a thinker's choices for one actor, in priority order.
pub open spec fn choice_scores_spec(
    choices: Seq<Choice>,
    actor: Position,
    hunger: Hunger,
    preys: Seq<PreyBody>,
) -> Seq<i64> {
    choices.map_values(|c: Choice| expr_score_spec(c.scorer, actor, hunger, preys) as i64)
}

/// What the picker selects: the first choice scoring above the threshold, if any.
pub open spec fn pick_spec(scores: Seq<i64>, threshold: int) -> Option<usize> {
    if none_scores(scores, threshold) {
        None
    } else {
        Some((choose|i: int| is_first_to_score(scores, threshold, i)) as usize)
    }
}

/// At most one index is the first to score.
pub proof fn lemma_first_to_score_unique(s: Seq<i64>, threshold: int, i: int, j: int)
    requires
        is_first_to_score(s, threshold, i),
        is_first_to_score(s, threshold, j),
    ensures
        i == j,
{
    if i < j {
        assert(s[i] <= threshold);
    } else if j < i {
        assert(s[j] <= threshold);
    }
}

impl Thinker {
    pub fn score_choices(&self, actor: &Position, hunger: &Hunger, preys: &Vec<PreyBody>) -> (r: Vec<i64>)
        requires
            actor.wf(),
            hunger.wf(),
            preys_wf(preys@),
        ensures
            r@ == choice_scores_spec(self.choices@, *actor, *hunger, preys@),
            scores_wf(r@),
    {
        let mut out: Vec<i64> = Vec::new();
        let mut k: usize = 0;
        while k < self.choices.len()
            invariant
                actor.wf(),
                hunger.wf(),
                preys_wf(preys@),
                0 <= k <= self.choices@.len(),
                out@ =~= choice_scores_spec(self.choices@.take(k as int), *actor, *hunger, preys@),
                scores_wf(out@),
            decreases self.choices@.len() - k,
        {
            let s = expr_score(&self.choices[k].scorer, actor, hunger, preys);
            out.push(s);
            k = k + 1;
            assert(out@ =~= choice_scores_spec(self.choices@.take(k as int), *actor, *hunger, preys@));
        }
        assert(self.choices@.take(k as int) =~= self.choices@);
        out
    }

    /// Scores every choice and asks the picker.
    pub fn pick(&self, actor: &Position, hunger: &Hunger, preys: &Vec<PreyBody>) -> (r: Option<usize>)
        requires
            actor.wf(),
            hunger.wf(),
            preys_wf(preys@),
        ensures
            r == pick_spec(choice_scores_spec(self.choices@, *actor, *hunger, preys@), self.threshold as int),
            r matches Some(c) ==> c < self.choices@.len(),
    {
        let scores = self.score_choices(actor, hunger, preys);
        let r = first_to_score(&scores, self.threshold);
        proof {
            if let Some(i) = r {
                let c = choose|c: int| is_first_to_score(scores@, self.threshold as int, c);
                lemma_first_to_score_unique(scores@, self.threshold as int, i as int, c);
            }
        }
        r
    }
}

} // verus!
