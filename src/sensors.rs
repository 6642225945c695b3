use vstd::prelude::*;

use crate::geometry::{dist_sq, dist_sq_spec, Position};
use crate::vitals::Prey;

verus! {

/// An opaque identifier of an entity of the world.
#[derive(Clone, Copy, Debug, PartialEq, Eq, Structural)]
pub struct Entity(pub u64);

/// The nearest live prey of an actor, recomputed every tick; `None` when there is none.
#[derive(Clone, Copy, Debug, PartialEq, Eq, Structural)]
pub struct Target(pub Option<Entity>);

/// A live prey: its identity, where it stands and what is left of it.
#[derive(Clone, Copy, Debug)]
pub struct PreyBody {
    pub entity: Entity,
    pub position: Position,
    pub prey: Prey,
}

/// Every prey stands inside the world's bounds.
pub open spec fn preys_wf(preys: Seq<PreyBody>) -> bool {
    forall|i: int| 0 <= i < preys.len() ==> (#[trigger] preys[i]).position.wf()
}

pub open spec fn prey_dist(actor: Position, preys: Seq<PreyBody>, i: int) -> int {
    dist_sq_spec(actor, preys[i].position)
}

/// `i` is the first of the prey nearest to `actor`.
pub open spec fn is_nearest(actor: Position, preys: Seq<PreyBody>, i: int) -> bool {
    &&& 0 <= i < preys.len()
    &&& forall|j: int| 0 <= j < preys.len() ==> prey_dist(actor, preys, i) <= prey_dist(actor, preys, j)
    &&& forall|j: int| 0 <= j < i ==> prey_dist(actor, preys, i) < prey_dist(actor, preys, j)
}

/// Some prey lies within squared distance `radius_sq` of `actor`.
pub open spec fn any_in_range(actor: Position, preys: Seq<PreyBody>, radius_sq: int) -> bool {
    exists|j: int| 0 <= j < preys.len() && prey_dist(actor, preys, j) <= radius_sq
}

/// Index of the prey nearest to `actor`, the earliest one among equals.
pub fn nearest_prey(actor: &Position, preys: &Vec<PreyBody>) -> (r: Option<usize>)
    requires
        actor.wf(),
        preys_wf(preys@),
    ensures
        r is None <==> preys@.len() == 0,
        r matches Some(i) ==> is_nearest(*actor, preys@, i as int),
{
    if preys.len() == 0 {
        return None;
    }
    let mut best: usize = 0;
    let mut best_d: u128 = dist_sq(actor, &preys[0].position);
    let mut k: usize = 1;
    while k < preys.len()
        invariant
            actor.wf(),
            preys_wf(preys@),
            1 <= k <= preys@.len(),
            best < k,
            best_d == prey_dist(*actor, preys@, best as int),
            forall|j: int| 0 <= j < k ==> best_d <= prey_dist(*actor, preys@, j),
            forall|j: int| 0 <= j < best ==> best_d < prey_dist(*actor, preys@, j),
        decreases preys@.len() - k,
    {
        let d = dist_sq(actor, &preys[k].position);
        if d < best_d {
            best = k;
            best_d = d;
        }
        k = k + 1;
    }
    Some(best)
}

/// The entity of the prey nearest to `actor`, or `None` when no prey is live.
pub fn nearest_target(actor: &Position, preys: &Vec<PreyBody>) -> (r: Target)
    requires
        actor.wf(),
        preys_wf(preys@),
    ensures
        r.0 is None <==> preys@.len() == 0,
        r.0 matches Some(e) ==> exists|i: int|
            is_nearest(*actor, preys@, i) && #[trigger] preys@[i].entity == e,
{
    match nearest_prey(actor, preys) {
        Some(i) => {
            assert(is_nearest(*actor, preys@, i as int));
            Target(Some(preys[i].entity))
        },
        None => Target(None),
    }
}

/// Whether any prey lies within squared distance `radius_sq` of `actor`.
pub fn in_range(actor: &Position, preys: &Vec<PreyBody>, radius_sq: u128) -> (r: bool)
    requires
        actor.wf(),
        preys_wf(preys@),
    ensures
        r == any_in_range(*actor, preys@, radius_sq as int),
{
    let mut k: usize = 0;
    while k < preys.len()
        invariant
            actor.wf(),
            preys_wf(preys@),
            0 <= k <= preys@.len(),
            forall|j: int| 0 <= j < k ==> prey_dist(*actor, preys@, j) > radius_sq,
        decreases preys@.len() - k,
    {
        if dist_sq(actor, &preys[k].position) <= radius_sq {
            assert(prey_dist(*actor, preys@, k as int) <= radius_sq);
            return true;
        }
        k = k + 1;
    }
    false
}

/// Where the prey of entity `e` stands in `preys`, if it is still there.
pub fn find_prey(preys: &Vec<PreyBody>, e: Entity) -> (r: Option<usize>)
    ensures
        r is None <==> forall|j: int| 0 <= j < preys@.len() ==> (#[trigger] preys@[j]).entity != e,
        r matches Some(i) ==> i < preys@.len() && preys@[i as int].entity == e
            && forall|j: int| 0 <= j < i ==> (#[trigger] preys@[j]).entity != e,
{
    let mut k: usize = 0;
    while k < preys.len()
        invariant
            0 <= k <= preys@.len(),
            forall|j: int| 0 <= j < k ==> (#[trigger] preys@[j]).entity != e,
        decreases preys@.len() - k,
    {
        if preys[k].entity == e {
            return Some(k);
        }
        k = k + 1;
    }
    None
}

} // verus!
