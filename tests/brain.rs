use predator_brain::actions::{
    ActionKind, ActionState, EatAction, PersueAction, RestAction, EAT_RATE_PER_MS,
};
use predator_brain::geometry::{dist_sq, isqrt, step_toward, Position};
use predator_brain::scoring::{
    all_or_nothing, first_to_score, DistanceScorer, HungerScorer, LeafScorer,
};
use predator_brain::sensors::{find_prey, in_range, nearest_prey, nearest_target, Entity, PreyBody, Target};
use predator_brain::thinker::{ActionInstance, ScorerExpr, Thinker};
use predator_brain::vitals::{Hunger, Prey, PREY_DEFAULT_POINTS, UNIT};
use predator_brain::world::{cleanup_prey, default_thinker, World, FIXED_STEP_US};

fn body(id: u64, x: i64, y: i64, points: i64) -> PreyBody {
    PreyBody { entity: Entity(id), position: Position::new(x, y, 0), prey: Prey { points } }
}

fn hunger_of(v: i64) -> Hunger {
    let mut h = Hunger::new();
    h.set(v);
    h
}

#[test]
fn hunger_set_clamps_into_range() {
    let mut h = Hunger::new();
    assert_eq!(h.get(), 1000);
    h.set(-5);
    assert_eq!(h.get(), 0);
    h.set(1500);
    assert_eq!(h.get(), 1000);
    h.set(400);
    assert_eq!(h.get(), 400);
    h.set(i64::MIN);
    assert_eq!(h.get(), 0);
    h.set(i64::MAX);
    assert_eq!(h.get(), UNIT);
}

#[test]
fn prey_default_points() {
    assert_eq!(Prey::default().points, 900);
    assert_eq!(PREY_DEFAULT_POINTS, 900);
}

#[test]
fn nearest_prey_is_the_closest() {
    let actor = Position::new(0, 0, 0);
    let preys = vec![body(1, 5000, 0, 900), body(2, 0, -2000, 900), body(3, 3000, 3000, 900)];
    assert_eq!(nearest_prey(&actor, &preys), Some(1));
    assert_eq!(nearest_target(&actor, &preys), Target(Some(Entity(2))));
}

#[test]
fn nearest_prey_ties_go_to_the_earliest() {
    let actor = Position::new(0, 0, 0);
    let preys = vec![body(7, 0, 2000, 900), body(8, 2000, 0, 900), body(9, 0, -2000, 900)];
    assert_eq!(nearest_prey(&actor, &preys), Some(0));
}

#[test]
fn nearest_prey_none_without_prey() {
    let actor = Position::new(10, 10, 10);
    let preys: Vec<PreyBody> = Vec::new();
    assert_eq!(nearest_prey(&actor, &preys), None);
    assert_eq!(nearest_target(&actor, &preys), Target(None));
}

#[test]
fn in_range_uses_squared_distance() {
    let actor = Position::new(0, 0, 0);
    let preys = vec![body(1, 1000, 0, 900)];
    assert!(in_range(&actor, &preys, 1_000_000));
    assert!(!in_range(&actor, &preys, 999_999));
    assert!(!in_range(&actor, &Vec::new(), 1_000_000));
}

#[test]
fn distance_scorer_is_binary() {
    let actor = Position::new(0, 0, 0);
    assert_eq!(DistanceScorer::run(&actor, &vec![body(1, 600, 800, 900)]), 1000);
    assert_eq!(DistanceScorer::run(&actor, &vec![body(1, 600, 801, 900)]), 0);
    assert_eq!(DistanceScorer::run(&actor, &Vec::new()), 0);
    assert_eq!(DistanceScorer::build().scorer(), LeafScorer::Distance);
}

#[test]
fn hunger_scorer_reads_hunger() {
    assert_eq!(HungerScorer::run(&hunger_of(730)), 730);
    assert_eq!(HungerScorer::run(&Hunger::new()), 1000);
    assert_eq!(HungerScorer::build().scorer(), LeafScorer::Hunger);
}

#[test]
fn all_or_nothing_gates_on_every_child() {
    let both = all_or_nothing(&vec![900, 900], 800);
    assert!(both > 0);
    assert_eq!(both, 810);
    assert_eq!(all_or_nothing(&vec![900, 500], 800), 0);
    assert_eq!(all_or_nothing(&Vec::new(), 800), 0);
    assert_eq!(all_or_nothing(&vec![1000, 1000], 800), 1000);
    assert_eq!(all_or_nothing(&vec![800], 800), 800);
    assert_eq!(all_or_nothing(&vec![1, 1], 1), 1);
    assert_eq!(all_or_nothing(&vec![30, 30, 30], 20), 1);
    assert_eq!(all_or_nothing(&vec![1, 0], 1), 0);
}

#[test]
fn picker_takes_first_qualifying() {
    assert_eq!(first_to_score(&vec![900, 300], 600), Some(0));
    assert_eq!(first_to_score(&vec![300, 900], 600), Some(1));
    assert_eq!(first_to_score(&vec![300, 500], 600), None);
    assert_eq!(first_to_score(&vec![700, 900], 600), Some(0));
    assert_eq!(first_to_score(&vec![600], 600), None);
    assert_eq!(first_to_score(&Vec::new(), 600), None);
}

#[test]
fn eat_action_depletes_prey_and_hunger() {
    let mut state = ActionState::Requested;
    let mut hunger = Hunger::new();
    let mut preys = vec![body(4, 0, 0, 900)];
    EatAction::run(&mut state, &mut hunger, &mut preys, Target(Some(Entity(4))), 100);
    assert_eq!(state, ActionState::Success);
    assert_eq!(preys[0].prey.points, -1100);
    assert!(preys[0].prey.points <= 0);
    assert_eq!(hunger.get(), 0);
    assert_eq!(EAT_RATE_PER_MS, 20);
}

#[test]
fn eat_action_partial_meal() {
    let mut state = ActionState::Requested;
    let mut hunger = Hunger::new();
    let mut preys = vec![body(1, 0, 0, 900), body(2, 0, 0, 900)];
    EatAction::run(&mut state, &mut hunger, &mut preys, Target(Some(Entity(2))), 10);
    assert_eq!(state, ActionState::Success);
    assert_eq!(preys[0].prey.points, 900);
    assert_eq!(preys[1].prey.points, 700);
    assert_eq!(hunger.get(), 800);
}

#[test]
fn eat_action_fails_on_missing_target() {
    let mut state = ActionState::Requested;
    let mut hunger = Hunger::new();
    let mut preys = vec![body(1, 0, 0, 900)];
    EatAction::run(&mut state, &mut hunger, &mut preys, Target(Some(Entity(99))), 100);
    assert_eq!(state, ActionState::Failure);
    assert_eq!(preys[0].prey.points, 900);
    assert_eq!(hunger.get(), 1000);
    let mut state = ActionState::Requested;
    EatAction::run(&mut state, &mut hunger, &mut preys, Target(None), 100);
    assert_eq!(state, ActionState::Failure);
    assert_eq!(hunger.get(), 1000);
}

#[test]
fn finished_actions_are_not_run_again() {
    for done in [ActionState::Success, ActionState::Failure, ActionState::Init, ActionState::Executing] {
        let mut state = done;
        let mut hunger = Hunger::new();
        let mut preys = vec![body(4, 0, 0, 900)];
        EatAction::run(&mut state, &mut hunger, &mut preys, Target(Some(Entity(4))), 100);
        assert_eq!(state, done);
        assert_eq!(preys[0].prey.points, 900);
        assert_eq!(hunger.get(), 1000);

        let mut state = done;
        let mut actor = Position::new(0, 0, 0);
        PersueAction::run(&mut state, &mut actor, Some(Position::new(5000, 0, 0)), 100);
        assert_eq!(state, done);
        assert_eq!(actor, Position::new(0, 0, 0));

        let mut state = done;
        RestAction::run(&mut state);
        assert_eq!(state, done);
    }
}

#[test]
fn cancelled_actions_fail() {
    let mut state = ActionState::Cancelled;
    let mut hunger = Hunger::new();
    let mut preys = vec![body(4, 0, 0, 900)];
    EatAction::run(&mut state, &mut hunger, &mut preys, Target(Some(Entity(4))), 100);
    assert_eq!(state, ActionState::Failure);
    assert_eq!(preys[0].prey.points, 900);

    let mut state = ActionState::Cancelled;
    let mut actor = Position::new(0, 0, 0);
    PersueAction::run(&mut state, &mut actor, Some(Position::new(5000, 0, 0)), 100);
    assert_eq!(state, ActionState::Failure);
    assert_eq!(actor, Position::new(0, 0, 0));

    let mut state = ActionState::Cancelled;
    RestAction::run(&mut state);
    assert_eq!(state, ActionState::Failure);
}

#[test]
fn pursue_moves_toward_target() {
    let mut state = ActionState::Requested;
    let mut actor = Position::new(0, 0, 0);
    PersueAction::run(&mut state, &mut actor, Some(Position::new(3000, 4000, 0)), 100);
    assert_eq!(state, ActionState::Success);
    assert_eq!(actor, Position::new(600, 800, 0));
}

#[test]
fn pursue_without_target_fails() {
    let mut state = ActionState::Requested;
    let mut actor = Position::new(5, 6, 7);
    PersueAction::run(&mut state, &mut actor, None, 100);
    assert_eq!(state, ActionState::Failure);
    assert_eq!(actor, Position::new(5, 6, 7));
}

#[test]
fn rest_succeeds_at_once() {
    let mut state = ActionState::Requested;
    RestAction::run(&mut state);
    assert_eq!(state, ActionState::Success);
    assert_eq!(RestAction::build().kind(), ActionKind::Rest);
    assert_eq!(EatAction::build().kind(), ActionKind::Eat);
    assert_eq!(PersueAction::build().kind(), ActionKind::Pursue);
}

#[test]
fn geometry_helpers() {
    let a = Position::new(0, 0, 0);
    let b = Position::new(3000, -4000, 12000);
    assert_eq!(dist_sq(&a, &b), 169_000_000);
    assert_eq!(isqrt(169_000_000), 13000);
    assert_eq!(isqrt(0), 0);
    assert_eq!(isqrt(15), 3);
    assert_eq!(isqrt(16), 4);
    assert_eq!(step_toward(&a, &a, 1000), a);
    assert_eq!(step_toward(&a, &Position::new(1, 1, 0), 1000), Position::new(707, 707, 0));
    assert_eq!(step_toward(&a, &Position::new(-5000, 0, 0), 1000), Position::new(-1000, 0, 0));
}

#[test]
fn find_prey_by_entity() {
    let preys = vec![body(3, 0, 0, 900), body(5, 0, 0, 900)];
    assert_eq!(find_prey(&preys, Entity(5)), Some(1));
    assert_eq!(find_prey(&preys, Entity(6)), None);
}

#[test]
fn cleanup_removes_exhausted_prey() {
    let mut preys = vec![body(1, 0, 0, 0), body(2, 0, 0, 5), body(3, 0, 0, -1100), body(4, 0, 0, 900)];
    cleanup_prey(&mut preys);
    assert_eq!(preys.len(), 2);
    assert_eq!(preys[0].entity, Entity(2));
    assert_eq!(preys[1].entity, Entity(4));
}

#[test]
fn hunger_grows_on_fixed_steps() {
    let mut world = World::new(Position::new(0, 0, 0));
    world.predator.hunger.set(500);
    world.hunger_tick_fixed();
    assert_eq!(world.predator.hunger.get(), 503);
    world.predator.hunger.set(998);
    world.hunger_tick_fixed();
    assert_eq!(world.predator.hunger.get(), 1000);
    world.hunger_tick_fixed();
    assert_eq!(world.predator.hunger.get(), 1000);
}

#[test]
fn thinker_cancels_an_unpicked_activation() {
    let mut t = Thinker::new(600);
    t.when(ScorerExpr::Leaf(LeafScorer::Hunger), vec![ActionKind::Pursue]);
    t.when(ScorerExpr::Leaf(LeafScorer::Distance), vec![ActionKind::Rest]);
    t.decide(Some(0));
    assert_eq!(t.active, Some(0));
    assert_eq!(t.instances, vec![ActionInstance { kind: ActionKind::Pursue, state: ActionState::Requested }]);
    t.decide(Some(0));
    assert_eq!(t.instances[0].state, ActionState::Requested);
    t.decide(None);
    assert_eq!(t.active, Some(0));
    assert_eq!(t.instances[0].state, ActionState::Requested);
    t.decide(Some(1));
    assert_eq!(t.active, Some(0));
    assert_eq!(t.instances[0].state, ActionState::Cancelled);
    t.decide(None);
    assert_eq!(t.instances[0].state, ActionState::Cancelled);
    t.instances[0].state = ActionState::Failure;
    t.decide(Some(1));
    assert_eq!(t.active, Some(1));
    assert_eq!(t.instances, vec![ActionInstance { kind: ActionKind::Rest, state: ActionState::Requested }]);
    t.instances[0].state = ActionState::Success;
    t.decide(None);
    assert_eq!(t.active, None);
    assert!(t.instances.is_empty());
}

#[test]
fn predator_in_reach_eats_and_pursues() {
    let mut world = World::new(Position::new(0, 0, 0));
    world.spawn_prey(Entity(1), Position::new(500, 0, 0));
    world.spawn_prey(Entity(2), Position::new(20000, 0, 0));
    world.tick(100);
    assert_eq!(world.predator.target, Target(Some(Entity(1))));
    assert_eq!(world.predator.thinker.active, Some(0));
    let kinds: Vec<ActionKind> = world.predator.thinker.instances.iter().map(|i| i.kind).collect();
    assert_eq!(kinds, vec![ActionKind::Eat, ActionKind::Pursue]);
    assert!(world.predator.thinker.instances.iter().all(|i| i.state == ActionState::Success));
    assert_eq!(world.predator.hunger.get(), 0);
    // the exhausted prey is still there until the next cleanup pass
    assert_eq!(world.preys.len(), 2);
    assert_eq!(world.preys[0].prey.points, -1100);
    assert_eq!(world.predator.position, Position::new(1000, 0, 0));

    world.tick(100);
    assert_eq!(world.preys.len(), 1);
    assert_eq!(world.preys[0].entity, Entity(2));
    assert_eq!(world.predator.target, Target(Some(Entity(2))));
    // hunger is zero, so nothing is picked and the finished activation is retired
    assert_eq!(world.predator.thinker.active, None);
}

#[test]
fn hungry_predator_far_from_prey_pursues() {
    let mut world = World::new(Position::new(0, 0, 0));
    world.spawn_prey(Entity(1), Position::new(0, 10000, 0));
    world.tick(50);
    assert_eq!(world.predator.thinker.active, Some(1));
    assert_eq!(world.predator.position, Position::new(0, 500, 0));
    assert_eq!(world.preys[0].prey.points, 900);
    world.tick(50);
    assert_eq!(world.predator.position, Position::new(0, 1000, 0));
}

#[test]
fn default_tree_shape() {
    let t = default_thinker();
    assert_eq!(t.threshold, 600);
    assert_eq!(t.choices.len(), 2);
    assert_eq!(t.choices[0].actions, vec![ActionKind::Eat, ActionKind::Pursue]);
    assert_eq!(t.choices[1].actions, vec![ActionKind::Pursue]);
}

#[test]
fn hunger_clock_counts_whole_steps() {
    let mut world = World::new(Position::new(0, 0, 0));
    world.predator.hunger.set(500);
    let rest = world.advance_hunger_clock(0, 50_000);
    assert_eq!(rest, 50_000 - 3 * FIXED_STEP_US);
    assert_eq!(world.predator.hunger.get(), 509);
    let rest = world.advance_hunger_clock(16_000, 1_000);
    assert_eq!(rest, 334);
    assert_eq!(world.predator.hunger.get(), 512);
    let rest = world.advance_hunger_clock(0, 1_000);
    assert_eq!(rest, 1_000);
    assert_eq!(world.predator.hunger.get(), 512);
    world.predator.hunger.set(999);
    world.advance_hunger_clock(0, 1_000_000);
    assert_eq!(world.predator.hunger.get(), 1000);
}

#[test]
fn eat_and_pursue_effects_within_one_tick() {
    let mut world = World::new(Position::new(0, 0, 0));
    world.spawn_prey(Entity(1), Position::new(0, 600, 0));
    world.tick(10);
    assert_eq!(world.predator.thinker.active, Some(0));
    assert_eq!(world.preys[0].prey.points, 700);
    assert_eq!(world.predator.hunger.get(), 800);
    assert_eq!(world.predator.position, Position::new(0, 100, 0));
}

#[test]
fn sated_predator_far_from_prey_idles() {
    let mut world = World::new(Position::new(0, 0, 0));
    world.spawn_prey(Entity(1), Position::new(0, 10000, 0));
    world.predator.hunger.set(600);
    world.tick(50);
    assert_eq!(world.predator.thinker.active, None);
    assert!(world.predator.thinker.instances.is_empty());
    assert_eq!(world.predator.position, Position::new(0, 0, 0));
    world.predator.hunger.set(601);
    world.tick(50);
    assert_eq!(world.predator.thinker.active, Some(1));
    assert_eq!(world.predator.position, Position::new(0, 500, 0));
}
