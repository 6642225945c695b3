use vstd::prelude::*;

use crate::actions::{
    eat_points, eaten, pursue_step, next_state, resolves, target_live, ActionKind, ActionState, EatAction, PersueAction, RestAction,
};
use crate::geometry::{dist_sq_spec, step_toward_spec, Position, MAX_DT_MS};
use crate::scoring::{all_or_nothing_spec, all_reach, is_first_to_score, none_scores, product_spec, LeafScorer, DISTANCE_SQ};
use crate::sensors::{
    any_in_range, find_prey, is_nearest, nearest_target, prey_dist, preys_wf, Entity, PreyBody,
    Target,
};
use crate::thinker::{
    choice_scores_spec, lemma_first_to_score_unique, leaf_scores_spec, pick_spec, ActionInstance,
    ScorerExpr, Thinker,
};
use crate::vitals::{clamp_spec, Hunger, Prey, HUNGER_GROWTH_PER_STEP, UNIT};

verus! {

/// Picker threshold of the predator's default tree.
pub const PICK_THRESHOLD: i64 = 600;

/// Threshold that every precondition of eating must reach.
pub const EAT_GATE_THRESHOLD: i64 = 800;

/// Length of one step of the fixed-rate hunger clock (60 steps per second), in microseconds.
pub const FIXED_STEP_US: u64 = 16_666;

/// The hunting agent: where it is, how hungry, what it chases, and how it decides.
#[derive(Debug)]
pub struct Predator {
    pub position: Position,
    pub hunger: Hunger,
    pub target: Target,
    pub thinker: Thinker,
}

/// One predator among live prey.
#[derive(Debug)]
pub struct World {
    pub predator: Predator,
    pub preys: Vec<PreyBody>,
}

/// The prey that survive a cleanup pass, in their order.
pub open spec fn live_preys(s: Seq<PreyBody>) -> Seq<PreyBody>
    decreases s.len(),
{
    if s.len() == 0 {
        Seq::empty()
    } else if s.last().prey.points > 0 {
        live_preys(s.drop_last()).push(s.last())
    } else {
        live_preys(s.drop_last())
    }
}

/// Two prey lists that hold the same entities at the same places; only what is
/// left of each may differ.
pub open spec fn same_bodies(a: Seq<PreyBody>, b: Seq<PreyBody>) -> bool {
    &&& a.len() == b.len()
    &&& forall|i: int|
        0 <= i < a.len() ==> (#[trigger] a[i]).entity == b[i].entity && a[i].position == b[i].position
}

/// Whether a step of an action of `kind` can do its work: resting always can;
/// pursuing and eating need a live target.
pub open spec fn step_ok(kind: ActionKind, live: bool) -> bool {
    kind is Rest || live
}

/// Each activation ran one execution step: kinds are kept, and each state went
/// where a step takes it, with `live` telling whether the target was still there.
pub open spec fn stepped(before: Seq<ActionInstance>, after: Seq<ActionInstance>, live: bool) -> bool {
    &&& before.len() == after.len()
    &&& forall|i: int|
        0 <= i < before.len() ==> (#[trigger] after[i]).kind == before[i].kind && after[i].state
            == next_state(before[i].state, step_ok(before[i].kind, live))
}

/// What the predator and the prey are made of, as far as actions change them:
/// where the predator stands, its hunger, and the prey.
pub type Body = (Position, int, Seq<PreyBody>);

/// At most one index is the first to carry the target's entity.
pub proof fn lemma_resolves_unique(preys: Seq<PreyBody>, t: Target, i: int, j: int)
    requires
        resolves(preys, t, i),
        resolves(preys, t, j),
    ensures
        i == j,
{
    if i < j {
        assert(preys[i].entity == t.0->0);
    } else if j < i {
        assert(preys[j].entity == t.0->0);
    }
}

/// One activation's execution step on `b`: a requested pursuit of a live target moves
/// the predator `pursue_step(dt_ms)` toward the first prey of the target's entity; a
/// requested meal from a live target takes `eat_points(dt_ms)` from that prey
/// (saturating) and from the hunger (clamped). Anything else changes nothing.
pub open spec fn apply_step(inst: ActionInstance, b: Body, target: Target, dt_ms: int) -> Body {
    if inst.state == ActionState::Requested && target_live(b.2, target) {
        let i = choose|i: int| resolves(b.2, target, i);
        match inst.kind {
            ActionKind::Pursue => (step_toward_spec(b.0, b.2[i].position, pursue_step(dt_ms)), b.1, b.2),
            ActionKind::Eat => (
                b.0,
                clamp_spec(b.1 - eat_points(dt_ms), 0, UNIT as int),
                b.2.update(i, eaten(b.2[i], eat_points(dt_ms))),
            ),
            ActionKind::Rest => b,
        }
    } else {
        b
    }
}

/// The activations' steps applied to `b` one after another, in their order.
pub open spec fn run_all(insts: Seq<ActionInstance>, b: Body, target: Target, dt_ms: int) -> Body
    decreases insts.len(),
{
    if insts.len() == 0 {
        b
    } else {
        apply_step(insts.last(), run_all(insts.drop_last(), b, target, dt_ms), target, dt_ms)
    }
}

/// Prey lists with the same entities agree on whether a target is live.
proof fn lemma_same_bodies_target_live(a: Seq<PreyBody>, b: Seq<PreyBody>, t: Target)
    requires
        same_bodies(a, b),
    ensures
        target_live(a, t) == target_live(b, t),
{
    if target_live(a, t) {
        let j = choose|j: int| 0 <= j < a.len() && (#[trigger] a[j]).entity == t.0->0;
        assert(b[j].entity == t.0->0);
    }
    if target_live(b, t) {
        let j = choose|j: int| 0 <= j < b.len() && (#[trigger] b[j]).entity == t.0->0;
        assert(a[j].entity == t.0->0);
    }
}

/// The predator's default tree: when a prey is within reach and hunger is high, eat
/// and pursue together; else, when hungry enough, pursue.
pub fn default_thinker() -> (r: Thinker)
    ensures
        r.wf(),
        r.active is None,
        is_default_tree(r),
{
    let mut t = Thinker::new(PICK_THRESHOLD);
    let mut gate: Vec<LeafScorer> = Vec::new();
    gate.push(LeafScorer::Distance);
    gate.push(LeafScorer::Hunger);
    let mut both: Vec<ActionKind> = Vec::new();
    both.push(ActionKind::Eat);
    both.push(ActionKind::Pursue);
    let mut chase: Vec<ActionKind> = Vec::new();
    chase.push(ActionKind::Pursue);
    assert(gate@ =~= seq![LeafScorer::Distance, LeafScorer::Hunger]);
    assert(both@ =~= seq![ActionKind::Eat, ActionKind::Pursue]);
    assert(chase@ =~= seq![ActionKind::Pursue]);
    t.when(ScorerExpr::AllOrNothing(EAT_GATE_THRESHOLD, gate), both);
    t.when(ScorerExpr::Leaf(LeafScorer::Hunger), chase);
    t
}

/// Removes every prey whose remaining value is at or below zero.
pub fn cleanup_prey(preys: &mut Vec<PreyBody>)
    ensures
        final(preys)@ == live_preys(old(preys)@),
{
    let mut kept: Vec<PreyBody> = Vec::new();
    let mut k: usize = 0;
    while k < preys.len()
        invariant
            0 <= k <= preys@.len(),
            kept@ == live_preys(preys@.take(k as int)),
        decreases preys@.len() - k,
    {
        let b = preys[k];
        proof {
            assert(preys@.take(k + 1).drop_last() =~= preys@.take(k as int));
        }
        if b.prey.points > 0 {
            kept.push(b);
        }
        k = k + 1;
    }
    assert(preys@.take(k as int) =~= preys@);
    *preys = kept;
}

/// Every prey that survives a cleanup was among those before it.
pub proof fn lemma_live_preys_subset(s: Seq<PreyBody>)
    ensures
        forall|i: int| 0 <= i < live_preys(s).len() ==> s.contains(#[trigger] live_preys(s)[i]),
        forall|i: int| 0 <= i < live_preys(s).len() ==> (#[trigger] live_preys(s)[i]).prey.points > 0,
    decreases s.len(),
{
    if s.len() > 0 {
        lemma_live_preys_subset(s.drop_last());
        let r = live_preys(s.drop_last());
        assert forall|i: int| 0 <= i < r.len() implies s.contains(#[trigger] r[i]) by {
            assert(s.drop_last().contains(r[i]));
            let j = choose|j: int| 0 <= j < s.drop_last().len() && s.drop_last()[j] == r[i];
            assert(s[j] == r[i]);
        }
        assert(s[s.len() - 1] == s.last());
    }
}

/// What one tick makes of the world `w`: `next` holds the prey that survived the
/// cleanup pass, at their places; the predator targets the nearest of them; its
/// thinker has retired, cancelled or activated by what the picker selected from the
/// scores on the cleaned world; and each activation has run one step of `dt_ms`
/// milliseconds, moving the predator, feeding it and depleting prey as `run_all` says.
pub open spec fn ticked(w: World, next: World, dt_ms: int) -> bool {
    let cleaned = live_preys(w.preys@);
    let picked = pick_spec(
        choice_scores_spec(w.predator.thinker.choices@, w.predator.position, w.predator.hunger, cleaned),
        w.predator.thinker.threshold as int,
    );
    let decided = w.predator.thinker.decide_spec(picked);
    &&& same_bodies(cleaned, next.preys@)
    &&& next.predator.target.0 is None <==> cleaned.len() == 0
    &&& next.predator.target.0 matches Some(e) ==> exists|i: int|
        is_nearest(w.predator.position, cleaned, i) && #[trigger] cleaned[i].entity == e
    &&& next.predator.thinker.choices@ == w.predator.thinker.choices@
    &&& next.predator.thinker.threshold == w.predator.thinker.threshold
    &&& next.predator.thinker.active == decided.0
    &&& stepped(decided.1, next.predator.thinker.instances@, target_live(cleaned, next.predator.target))
    &&& (next.predator.position, next.predator.hunger.value(), next.preys@) == run_all(
        decided.1,
        (w.predator.position, w.predator.hunger.value(), cleaned),
        next.predator.target,
        dt_ms,
    )
}

/// The predator's default tree: a picker threshold of `PICK_THRESHOLD`; first, eating
/// and pursuing together, gated all-or-nothing at `EAT_GATE_THRESHOLD` on proximity and
/// hunger; then pursuing alone, scored by hunger.
pub open spec fn is_default_tree(t: Thinker) -> bool {
    &&& t.threshold == PICK_THRESHOLD
    &&& t.choices@.len() == 2
    &&& t.choices@[0].scorer matches ScorerExpr::AllOrNothing(th, leaves) && th == EAT_GATE_THRESHOLD
        && leaves@ == seq![LeafScorer::Distance, LeafScorer::Hunger]
    &&& t.choices@[0].actions@ == seq![ActionKind::Eat, ActionKind::Pursue]
    &&& t.choices@[1].scorer == ScorerExpr::Leaf(LeafScorer::Hunger)
    &&& t.choices@[1].actions@ == seq![ActionKind::Pursue]
}

/// Every prey with a positive remaining value survives a cleanup pass.
proof fn lemma_live_preys_keeps(s: Seq<PreyBody>, j: int)
    requires
        0 <= j < s.len(),
        s[j].prey.points > 0,
    ensures
        live_preys(s).contains(s[j]),
    decreases s.len(),
{
    if j < s.len() - 1 {
        lemma_live_preys_keeps(s.drop_last(), j);
        let r = live_preys(s.drop_last());
        let k = choose|k: int| 0 <= k < r.len() && r[k] == s[j];
        if s.last().prey.points > 0 {
            assert(live_preys(s)[k] == s[j]);
        } else {
            assert(live_preys(s)[k] == s[j]);
        }
    } else {
        let r = live_preys(s.drop_last());
        assert(live_preys(s)[r.len() as int] == s[j]);
    }
}

/// A hungry predator with a live prey within reach, running the default tree with
/// nothing active, selects eating and pursuing together within one tick.
pub proof fn lemma_in_reach_eats_and_pursues(w: World, next: World, j: int, dt_ms: int)
    requires
        w.wf(),
        is_default_tree(w.predator.thinker),
        w.predator.thinker.active is None,
        w.predator.hunger.value() == UNIT,
        0 <= j < w.preys@.len(),
        w.preys@[j].prey.points > 0,
        dist_sq_spec(w.predator.position, w.preys@[j].position) <= DISTANCE_SQ,
        ticked(w, next, dt_ms),
    ensures
        next.predator.thinker.active == Some(0usize),
        next.predator.thinker.instances@.len() == 2,
        next.predator.thinker.instances@[0].kind == ActionKind::Eat,
        next.predator.thinker.instances@[1].kind == ActionKind::Pursue,
{
    let t = w.predator.thinker;
    let pos = w.predator.position;
    let cleaned = live_preys(w.preys@);
    lemma_live_preys_keeps(w.preys@, j);
    let k = choose|k: int| 0 <= k < cleaned.len() && cleaned[k] == w.preys@[j];
    assert(prey_dist(pos, cleaned, k) <= DISTANCE_SQ);
    assert(any_in_range(pos, cleaned, DISTANCE_SQ as int));
    let leaves = match t.choices@[0].scorer {
        ScorerExpr::AllOrNothing(_, l) => l@,
        _ => Seq::empty(),
    };
    let ls = leaf_scores_spec(leaves, pos, w.predator.hunger, cleaned);
    assert(ls =~= seq![UNIT, UNIT]);
    assert(ls.drop_last() =~= seq![UNIT]);
    assert(ls.drop_last().drop_last() =~= Seq::<i64>::empty());
    assert(product_spec(ls.drop_last().drop_last()) == UNIT);
    assert(ls.drop_last().last() == UNIT && ls.last() == UNIT);
    assert(product_spec(ls.drop_last()) == UNIT);
    assert(product_spec(ls) == UNIT);
    assert(all_or_nothing_spec(ls, EAT_GATE_THRESHOLD as int) == UNIT);
    assert(all_reach(ls, EAT_GATE_THRESHOLD as int));
    let scores = choice_scores_spec(t.choices@, pos, w.predator.hunger, cleaned);
    assert(scores[0] == UNIT);
    assert(is_first_to_score(scores, PICK_THRESHOLD as int, 0));
    let c = choose|c: int| is_first_to_score(scores, PICK_THRESHOLD as int, c);
    lemma_first_to_score_unique(scores, PICK_THRESHOLD as int, 0, c);
    assert(pick_spec(scores, PICK_THRESHOLD as int) == Some(0usize));
    let decided = t.decide_spec(Some(0usize));
    assert(decided.1 =~= seq![
        ActionInstance { kind: ActionKind::Eat, state: ActionState::Requested },
        ActionInstance { kind: ActionKind::Pursue, state: ActionState::Requested },
    ]);
    assert(next.predator.thinker.instances@[0].kind == decided.1[0].kind);
    assert(next.predator.thinker.instances@[1].kind == decided.1[1].kind);
}

/// A predator with no live prey within reach, running the default tree with nothing
/// active, pursues alone within one tick when its hunger is above `PICK_THRESHOLD`, and
/// stays idle otherwise.
pub proof fn lemma_out_of_reach_pursues_when_hungry(w: World, next: World, dt_ms: int)
    requires
        w.wf(),
        is_default_tree(w.predator.thinker),
        w.predator.thinker.active is None,
        forall|j: int|
            0 <= j < w.preys@.len() && (#[trigger] w.preys@[j]).prey.points > 0 ==> dist_sq_spec(
                w.predator.position,
                w.preys@[j].position,
            ) > DISTANCE_SQ,
        ticked(w, next, dt_ms),
    ensures
        w.predator.hunger.value() > PICK_THRESHOLD ==> next.predator.thinker.active == Some(1usize)
            && next.predator.thinker.instances@.len() == 1
            && next.predator.thinker.instances@[0].kind == ActionKind::Pursue,
        w.predator.hunger.value() <= PICK_THRESHOLD ==> next.predator.thinker.active is None
            && next.predator.thinker.instances@.len() == 0,
{
    let t = w.predator.thinker;
    let pos = w.predator.position;
    let h = w.predator.hunger.value();
    let cleaned = live_preys(w.preys@);
    lemma_live_preys_subset(w.preys@);
    assert forall|k: int| 0 <= k < cleaned.len() implies prey_dist(pos, cleaned, k) > DISTANCE_SQ by {
        assert(w.preys@.contains(cleaned[k]));
        let m = choose|m: int| 0 <= m < w.preys@.len() && w.preys@[m] == cleaned[k];
        assert(w.preys@[m].prey.points > 0);
    }
    assert(!any_in_range(pos, cleaned, DISTANCE_SQ as int));
    let leaves = match t.choices@[0].scorer {
        ScorerExpr::AllOrNothing(_, l) => l@,
        _ => Seq::empty(),
    };
    let ls = leaf_scores_spec(leaves, pos, w.predator.hunger, cleaned);
    assert(ls[0] == 0);
    assert(!all_reach(ls, EAT_GATE_THRESHOLD as int));
    let scores = choice_scores_spec(t.choices@, pos, w.predator.hunger, cleaned);
    assert(scores[0] == 0);
    assert(scores[1] == h);
    if h > PICK_THRESHOLD {
        assert(is_first_to_score(scores, PICK_THRESHOLD as int, 1));
        let c = choose|c: int| is_first_to_score(scores, PICK_THRESHOLD as int, c);
        lemma_first_to_score_unique(scores, PICK_THRESHOLD as int, 1, c);
        let decided = t.decide_spec(Some(1usize));
        assert(decided.1 =~= seq![ActionInstance { kind: ActionKind::Pursue, state: ActionState::Requested }]);
        assert(next.predator.thinker.instances@[0].kind == decided.1[0].kind);
    } else {
        assert(none_scores(scores, PICK_THRESHOLD as int));
    }
}

/// No two prey share an entity.
pub open spec fn entities_unique(preys: Seq<PreyBody>) -> bool {
    forall|i: int, k: int|
        0 <= i < preys.len() && 0 <= k < preys.len() && i != k ==> (#[trigger] preys[i]).entity
            != (#[trigger] preys[k]).entity
}

/// A prey whose remaining value is at or below zero when a tick begins is no longer
/// among the prey when it ends.
pub proof fn lemma_exhausted_prey_removed(w: World, next: World, i: int, dt_ms: int)
    requires
        entities_unique(w.preys@),
        0 <= i < w.preys@.len(),
        w.preys@[i].prey.points <= 0,
        ticked(w, next, dt_ms),
    ensures
        forall|k: int| 0 <= k < next.preys@.len() ==> (#[trigger] next.preys@[k]).entity != w.preys@[i].entity,
{
    let cleaned = live_preys(w.preys@);
    lemma_live_preys_subset(w.preys@);
    assert forall|k: int| 0 <= k < next.preys@.len() implies (#[trigger] next.preys@[k]).entity != w.preys@[i].entity by {
        assert(w.preys@.contains(cleaned[k]));
        let m = choose|m: int| 0 <= m < w.preys@.len() && w.preys@[m] == cleaned[k];
        assert(cleaned[k].prey.points > 0);
        assert(m != i);
        assert(w.preys@[m].entity != w.preys@[i].entity);
    }
}

/// A cleanup pass keeps every surviving prey inside the world's bounds.
proof fn lemma_live_preys_wf(s: Seq<PreyBody>)
    requires
        preys_wf(s),
    ensures
        preys_wf(live_preys(s)),
{
    lemma_live_preys_subset(s);
    assert forall|i: int| 0 <= i < live_preys(s).len() implies (#[trigger] live_preys(s)[i]).position.wf() by {
        assert(s.contains(live_preys(s)[i]));
    }
}

impl World {
    pub open spec fn wf(&self) -> bool {
        &&& self.predator.position.wf()
        &&& self.predator.hunger.wf()
        &&& self.predator.thinker.wf()
        &&& preys_wf(self.preys@)
    }

    /// A fully hungry predator at `position`, running the default tree, with no prey yet.
    pub fn new(position: Position) -> (r: Self)
        requires
            position.wf(),
        ensures
            r.wf(),
            r.predator.position == position,
            r.predator.hunger.value() == UNIT,
            r.predator.target == Target(None),
            r.predator.thinker.active is None,
            is_default_tree(r.predator.thinker),
            r.preys@.len() == 0,
    {
        World {
            predator: Predator {
                position,
                hunger: Hunger::new(),
                target: Target(None),
                thinker: default_thinker(),
            },
            preys: Vec::new(),
        }
    }

    /// Adds a prey of entity `entity` at `position`, carrying the default remaining value.
    pub fn spawn_prey(&mut self, entity: Entity, position: Position)
        requires
            old(self).wf(),
            position.wf(),
        ensures
            final(self).wf(),
            final(self).predator == old(self).predator,
            final(self).preys@ == old(self).preys@.push(
                PreyBody { entity, position, prey: Prey { points: crate::vitals::PREY_DEFAULT_POINTS } },
            ),
    {
        self.preys.push(PreyBody { entity, position, prey: Prey::default() });
    }

    /// One step of the fixed-rate clock: hunger grows by `HUNGER_GROWTH_PER_STEP`, clamped.
    pub fn hunger_tick_fixed(&mut self)
        requires
            old(self).wf(),
        ensures
            final(self).wf(),
            final(self).preys@ == old(self).preys@,
            final(self).predator.position == old(self).predator.position,
            final(self).predator.target == old(self).predator.target,
            final(self).predator.thinker == old(self).predator.thinker,
            final(self).predator.hunger.value() == clamp_spec(
                old(self).predator.hunger.value() + HUNGER_GROWTH_PER_STEP,
                0,
                UNIT as int,
            ),
    {
        let current = self.predator.hunger.get();
        self.predator.hunger.set(current + HUNGER_GROWTH_PER_STEP);
    }

    /// Advances the fixed-rate hunger clock by `elapsed_us` microseconds on top of the
    /// `carry_us` left over from before: hunger grows once per whole step that has
    /// passed, and what is left of an unfinished step is returned.
    pub fn advance_hunger_clock(&mut self, carry_us: u64, elapsed_us: u64) -> (r: u64)
        requires
            old(self).wf(),
            carry_us < FIXED_STEP_US,
            elapsed_us <= MAX_DT_MS * 1000,
        ensures
            final(self).wf(),
            final(self).preys@ == old(self).preys@,
            final(self).predator.position == old(self).predator.position,
            final(self).predator.target == old(self).predator.target,
            final(self).predator.thinker == old(self).predator.thinker,
            r == (carry_us + elapsed_us) % (FIXED_STEP_US as int),
            final(self).predator.hunger.value() == clamp_spec(
                old(self).predator.hunger.value() + HUNGER_GROWTH_PER_STEP * ((carry_us
                    + elapsed_us) / (FIXED_STEP_US as int)),
                0,
                UNIT as int,
            ),
    {
        let mut acc: u64 = carry_us + elapsed_us;
        let ghost total = acc as int;
        let ghost h0 = self.predator.hunger.value();
        let mut steps: u64 = 0;
        while acc >= FIXED_STEP_US
            invariant
                self.wf(),
                self.preys@ == old(self).preys@,
                self.predator.position == old(self).predator.position,
                self.predator.target == old(self).predator.target,
                self.predator.thinker == old(self).predator.thinker,
                h0 == old(self).predator.hunger.value(),
                0 <= h0 <= UNIT,
                total == carry_us + elapsed_us,
                acc + steps * FIXED_STEP_US == total,
                self.predator.hunger.value() == clamp_spec(h0 + HUNGER_GROWTH_PER_STEP * steps, 0, UNIT as int),
            decreases acc,
        {
            acc = acc - FIXED_STEP_US;
            steps = steps + 1;
            self.hunger_tick_fixed();
        }
        assert(total / (FIXED_STEP_US as int) == steps && total % (FIXED_STEP_US as int) == acc) by (nonlinear_arith)
            requires
                acc + steps * FIXED_STEP_US == total,
                0 <= acc < FIXED_STEP_US,
                steps >= 0,
        ;
        acc
    }

    /// Recomputes the predator's target: the nearest live prey.
    pub fn update_targets(&mut self)
        requires
            old(self).wf(),
        ensures
            final(self).wf(),
            final(self).preys@ == old(self).preys@,
            final(self).predator.position == old(self).predator.position,
            final(self).predator.hunger == old(self).predator.hunger,
            final(self).predator.thinker.active == old(self).predator.thinker.active,
            final(self).predator.thinker.instances@ == old(self).predator.thinker.instances@,
            final(self).predator.thinker.choices@ == old(self).predator.thinker.choices@,
            final(self).predator.thinker.threshold == old(self).predator.thinker.threshold,
            final(self).predator.target.0 is None <==> old(self).preys@.len() == 0,
            final(self).predator.target.0 matches Some(e) ==> exists|i: int|
                is_nearest(old(self).predator.position, old(self).preys@, i)
                    && #[trigger] old(self).preys@[i].entity == e,
    {
        self.predator.target = nearest_target(&self.predator.position, &self.preys);
    }

    /// Where the predator's target stands, if it is still live.
    pub fn target_position(&self) -> (r: Option<Position>)
        requires
            self.wf(),
        ensures
            r is Some <==> target_live(self.preys@, self.predator.target),
            r matches Some(p) ==> p.wf() && exists|i: int|
                resolves(self.preys@, self.predator.target, i) && #[trigger] self.preys@[i].position == p,
    {
        match self.predator.target.0 {
            Some(e) => match find_prey(&self.preys, e) {
                Some(i) => {
                    assert(resolves(self.preys@, self.predator.target, i as int));
                    Some(self.preys[i].position)
                },
                None => None,
            },
            None => None,
        }
    }

    /// Runs one execution step of every activation of the predator.
    pub fn run_actions(&mut self, dt_ms: u64)
        requires
            old(self).wf(),
            dt_ms <= MAX_DT_MS,
        ensures
            final(self).wf(),
            same_bodies(old(self).preys@, final(self).preys@),
            final(self).predator.target == old(self).predator.target,
            final(self).predator.thinker.active == old(self).predator.thinker.active,
            final(self).predator.thinker.choices@ == old(self).predator.thinker.choices@,
            final(self).predator.thinker.threshold == old(self).predator.thinker.threshold,
            stepped(
                old(self).predator.thinker.instances@,
                final(self).predator.thinker.instances@,
                target_live(old(self).preys@, old(self).predator.target),
            ),
            (final(self).predator.position, final(self).predator.hunger.value(), final(self).preys@)
                == run_all(
                old(self).predator.thinker.instances@,
                (old(self).predator.position, old(self).predator.hunger.value(), old(self).preys@),
                old(self).predator.target,
                dt_ms as int,
            ),
    {
        let n = self.predator.thinker.instances.len();
        let mut k: usize = 0;
        while k < n
            invariant
                self.wf(),
                dt_ms <= MAX_DT_MS,
                n == old(self).predator.thinker.instances@.len(),
                0 <= k <= n,
                same_bodies(old(self).preys@, self.preys@),
                self.predator.target == old(self).predator.target,
                self.predator.thinker.active == old(self).predator.thinker.active,
                self.predator.thinker.choices@ == old(self).predator.thinker.choices@,
                self.predator.thinker.threshold == old(self).predator.thinker.threshold,
                self.predator.thinker.instances@.len() == n,
                forall|j: int| k <= j < n ==> #[trigger] self.predator.thinker.instances@[j]
                    == old(self).predator.thinker.instances@[j],
                stepped(
                    old(self).predator.thinker.instances@.take(k as int),
                    self.predator.thinker.instances@.take(k as int),
                    target_live(old(self).preys@, old(self).predator.target),
                ),
                (self.predator.position, self.predator.hunger.value(), self.preys@) == run_all(
                    old(self).predator.thinker.instances@.take(k as int),
                    (old(self).predator.position, old(self).predator.hunger.value(), old(self).preys@),
                    old(self).predator.target,
                    dt_ms as int,
                ),
            decreases n - k,
        {
            let inst = self.predator.thinker.instances[k];
            let mut st = inst.state;
            let ghost before_preys = self.preys@;
            let ghost before: Body = (self.predator.position, self.predator.hunger.value(), self.preys@);
            proof {
                lemma_same_bodies_target_live(old(self).preys@, self.preys@, self.predator.target);
            }
            match inst.kind {
                ActionKind::Pursue => {
                    let tpos = self.target_position();
                    PersueAction::run(&mut st, &mut self.predator.position, tpos, dt_ms);
                    proof {
                        if inst.state == ActionState::Requested && target_live(before.2, self.predator.target) {
                            let i = choose|i: int| resolves(before.2, self.predator.target, i);
                            let p = tpos->0;
                            let j = choose|j: int|
                                resolves(before_preys, self.predator.target, j) && #[trigger] before_preys[j].position == p;
                            lemma_resolves_unique(before_preys, self.predator.target, i, j);
                        }
                    }
                },
                ActionKind::Eat => {
                    EatAction::run(&mut st, &mut self.predator.hunger, &mut self.preys, self.predator.target, dt_ms);
                    proof {
                        assert(same_bodies(before_preys, self.preys@));
                        if inst.state == ActionState::Requested && target_live(before.2, self.predator.target) {
                            let i = choose|i: int| resolves(before.2, self.predator.target, i);
                            let j = choose|j: int|
                                #![trigger resolves(before_preys, self.predator.target, j)]
                                resolves(before_preys, self.predator.target, j) && self.preys@ == before_preys.update(
                                    j,
                                    eaten(before_preys[j], eat_points(dt_ms as int)),
                                );
                            lemma_resolves_unique(before_preys, self.predator.target, i, j);
                        }
                    }
                },
                ActionKind::Rest => {
                    RestAction::run(&mut st);
                },
            }
            assert(st == next_state(inst.state, step_ok(inst.kind, target_live(old(self).preys@, old(self).predator.target))));
            proof {
                let insts = old(self).predator.thinker.instances@;
                assert(insts.take(k + 1).drop_last() =~= insts.take(k as int));
                assert(insts.take(k + 1).last() == inst);
                assert((self.predator.position, self.predator.hunger.value(), self.preys@) == apply_step(
                    inst,
                    before,
                    self.predator.target,
                    dt_ms as int,
                ));
            }
            let ghost prev = self.predator.thinker.instances@;
            self.predator.thinker.instances.set(k, ActionInstance { kind: inst.kind, state: st });
            assert(self.predator.thinker.instances@.take(k as int) =~= prev.take(k as int));
            k = k + 1;
            assert(stepped(
                old(self).predator.thinker.instances@.take(k as int),
                self.predator.thinker.instances@.take(k as int),
                target_live(old(self).preys@, old(self).predator.target),
            ));
        }
        assert(old(self).predator.thinker.instances@.take(n as int) =~= old(self).predator.thinker.instances@);
        assert(self.predator.thinker.instances@.take(n as int) =~= self.predator.thinker.instances@);
    }

    /// One tick of the world, in phase order: prey exhausted by earlier ticks are
    /// removed; the predator's target is recomputed; its choices are scored and the
    /// picker consulted; its thinker retires, cancels or activates; and each of its
    /// activations runs one step.
    pub fn tick(&mut self, dt_ms: u64)
        requires
            old(self).wf(),
            dt_ms <= MAX_DT_MS,
        ensures
            final(self).wf(),
            ticked(*old(self), *final(self), dt_ms as int),
    {
        proof {
            lemma_live_preys_wf(self.preys@);
        }
        cleanup_prey(&mut self.preys);
        self.update_targets();
        let picked = self.predator.thinker.pick(&self.predator.position, &self.predator.hunger, &self.preys);
        self.predator.thinker.decide(picked);
        self.run_actions(dt_ms);
    }
}

} // verus!
