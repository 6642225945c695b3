use vstd::prelude::*;

use crate::geometry::{step_toward, step_toward_spec, Position, MAX_DT_MS, PURSUE_SPEED_PER_MS};
use crate::sensors::{find_prey, preys_wf, PreyBody, Target};
use crate::vitals::{clamp_spec, Hunger};

verus! {

/// Rate of eating: 20 units per second is 20 thousandths per millisecond.
pub const EAT_RATE_PER_MS: i64 = 20;

/// The lifecycle of one activation of an action.
#[derive(Clone, Copy, Debug, PartialEq, Eq, Structural)]
pub enum ActionState {
    Init,
    Requested,
    Executing,
    Cancelled,
    Success,
    Failure,
}

impl ActionState {
    /// An activation that has finished, well or badly, and waits to be retired.
    pub open spec fn is_terminal(self) -> bool {
        self is Success || self is Failure
    }
}

/// What an execution step makes of a state: a request succeeds (or fails, when
/// `ok` is false), a cancellation fails, and every other state is left alone.
pub open spec fn next_state(s: ActionState, ok: bool) -> ActionState {
    match s {
        ActionState::Requested => if ok {
            ActionState::Success
        } else {
            ActionState::Failure
        },
        ActionState::Cancelled => ActionState::Failure,
        _ => s,
    }
}

/// A finished activation that an execution step meets again stays as it is: no
/// kind's step takes it anywhere, and each kind applies its side effects only on a
/// request.
pub proof fn lemma_finished_activation_is_inert(s: ActionState, ok: bool)
    requires
        s.is_terminal(),
    ensures
        next_state(s, ok) == s,
        s != ActionState::Requested,
{
}

/// The kinds of action a thinker can run.
#[derive(Clone, Copy, Debug, PartialEq, Eq, Structural)]
pub enum ActionKind {
    Pursue,
    Eat,
    Rest,
}

/// Saturating subtraction on `i64`.
pub open spec fn sat_sub(a: int, b: int) -> int {
    if a - b < i64::MIN {
        i64::MIN as int
    } else {
        a - b
    }
}

/// How far a pursuer travels in `dt_ms` milliseconds, in thousandths.
pub open spec fn pursue_step(dt_ms: int) -> int {
    dt_ms * PURSUE_SPEED_PER_MS
}

/// How much is eaten in `dt_ms` milliseconds, in thousandths.
pub open spec fn eat_points(dt_ms: int) -> int {
    dt_ms * EAT_RATE_PER_MS
}

/// Moves the actor toward its target at a fixed speed, then succeeds.
#[derive(Clone, Copy, Debug)]
pub struct PersueAction;

/// Template of a pursuit.
#[derive(Clone, Copy, Debug)]
pub struct PersueActionBuilder;

impl PersueAction {
    pub fn build() -> (r: PersueActionBuilder) {
        PersueActionBuilder
    }

    /// One execution step. On a request the actor moves `dt_ms * 10` thousandths
    /// toward `target` and the action succeeds; with no target it fails and nothing
    /// moves. A cancellation becomes a failure; any other state is left as it is.
    pub fn run(state: &mut ActionState, actor: &mut Position, target: Option<Position>, dt_ms: u64)
        requires
            old(actor).wf(),
            target matches Some(t) ==> t.wf(),
            dt_ms <= MAX_DT_MS,
        ensures
            *final(state) == next_state(*old(state), target is Some),
            final(actor).wf(),
            *final(actor) == (if *old(state) == ActionState::Requested && target is Some {
                step_toward_spec(*old(actor), target->0, pursue_step(dt_ms as int))
            } else {
                *old(actor)
            }),
    {
        match *state {
            ActionState::Requested => {
                match target {
                    Some(t) => {
                        let step: i64 = dt_ms as i64 * PURSUE_SPEED_PER_MS;
                        *actor = step_toward(actor, &t, step);
                        *state = ActionState::Success;
                    },
                    None => {
                        *state = ActionState::Failure;
                    },
                }
            },
            ActionState::Cancelled => {
                *state = ActionState::Failure;
            },
            _ => {},
        }
    }
}

impl PersueActionBuilder {
    pub fn kind(&self) -> (r: ActionKind)
        ensures
            r == ActionKind::Pursue,
    {
        ActionKind::Pursue
    }
}

/// The target resolves to a live prey, at index `i`.
pub open spec fn resolves(preys: Seq<PreyBody>, target: Target, i: int) -> bool {
    &&& target.0 is Some
    &&& 0 <= i < preys.len()
    &&& preys[i].entity == target.0->0
    &&& forall|j: int| 0 <= j < i ==> (#[trigger] preys[j]).entity != target.0->0
}

/// The target names an entity that is still among the prey.
pub open spec fn target_live(preys: Seq<PreyBody>, target: Target) -> bool {
    &&& target.0 is Some
    &&& exists|j: int| 0 <= j < preys.len() && (#[trigger] preys[j]).entity == target.0->0
}

/// The prey at index `i` after it lost `points`.
pub open spec fn eaten(b: PreyBody, points: int) -> PreyBody {
    PreyBody { prey: crate::vitals::Prey { points: sat_sub(b.prey.points as int, points) as i64 }, ..b }
}

/// Eats from the targeted prey, then succeeds.
#[derive(Clone, Copy, Debug)]
pub struct EatAction;

/// Template of eating.
#[derive(Clone, Copy, Debug)]
pub struct EatActionBuilder;

impl EatAction {
    pub fn build() -> (r: EatActionBuilder) {
        EatActionBuilder
    }

    /// One execution step. On a request whose target is a live prey, `dt_ms * 20`
    /// thousandths are taken from the prey's remaining value (saturating) and from
    /// the actor's hunger (clamped), and the action succeeds. When the target is
    /// missing or gone the action fails and nothing changes. A cancellation becomes
    /// a failure; any other state is left as it is.
    pub fn run(
        state: &mut ActionState,
        hunger: &mut Hunger,
        preys: &mut Vec<PreyBody>,
        target: Target,
        dt_ms: u64,
    )
        requires
            old(hunger).wf(),
            dt_ms <= MAX_DT_MS,
        ensures
            *final(state) == next_state(*old(state), target_live(old(preys)@, target)),
            final(hunger).wf(),
            preys_wf(old(preys)@) ==> preys_wf(final(preys)@),
            final(preys)@.len() == old(preys)@.len(),
            *old(state) == ActionState::Requested && target_live(old(preys)@, target) ==> {
                let points = eat_points(dt_ms as int);
                exists|i: int|
                    #![trigger resolves(old(preys)@, target, i)]
                    resolves(old(preys)@, target, i) && final(preys)@ == old(preys)@.update(
                        i,
                        eaten(old(preys)@[i], points),
                    ) && final(hunger).value() == clamp_spec(
                        old(hunger).value() - points,
                        0,
                        crate::vitals::UNIT as int,
                    )
            },
            !(*old(state) == ActionState::Requested && target_live(old(preys)@, target)) ==> {
                &&& final(preys)@ == old(preys)@
                &&& *final(hunger) == *old(hunger)
            },
    {
        match *state {
            ActionState::Requested => {
                let found = match target.0 {
                    Some(e) => find_prey(preys, e),
                    None => None,
                };
                match found {
                    Some(i) => {
                        proof {
                            assert(resolves(old(preys)@, target, i as int));
                            assert(old(preys)@[i as int].entity == target.0->0);
                        }
                        let points: i64 = dt_ms as i64 * EAT_RATE_PER_MS;
                        let current = hunger.get();
                        let left = preys[i].prey.points;
                        let new_left = if left >= i64::MIN + points {
                            left - points
                        } else {
                            i64::MIN
                        };
                        let mut body = preys[i];
                        body.prey.points = new_left;
                        preys.set(i, body);
                        hunger.set(current - points);
                        *state = ActionState::Success;
                        proof {
                            assert(final(preys)@ == old(preys)@.update(i as int, eaten(old(preys)@[i as int], points as int)));
                        }
                    },
                    None => {

                        *state = ActionState::Failure;
                    },
                }
            },
            ActionState::Cancelled => {
                *state = ActionState::Failure;
            },
            _ => {},
        }
    }
}

impl EatActionBuilder {
    pub fn kind(&self) -> (r: ActionKind)
        ensures
            r == ActionKind::Eat,
    {
        ActionKind::Eat
    }
}

/// Does nothing, and succeeds at once.
#[derive(Clone, Copy, Debug)]
pub struct RestAction;

/// Template of resting.
#[derive(Clone, Copy, Debug)]
pub struct RestActionBuilder;

impl RestAction {
    pub fn build() -> (r: RestActionBuilder) {
        RestActionBuilder
    }

    /// One execution step: a request succeeds, a cancellation fails, and any other
    /// state is left as it is.
    pub fn run(state: &mut ActionState)
        ensures
            *final(state) == next_state(*old(state), true),
    {
        match *state {
            ActionState::Requested => {
                *state = ActionState::Success;
            },
            ActionState::Cancelled => {
                *state = ActionState::Failure;
            },
            _ => {},
        }
    }
}

impl RestActionBuilder {
    pub fn kind(&self) -> (r: ActionKind)
        ensures
            r == ActionKind::Rest,
    {
        ActionKind::Rest
    }
}

} // verus!
