use bevy_dogoap::action::{simple_action, Action};
use bevy_dogoap::compare::Compare;
use bevy_dogoap::datum::Datum;
use bevy_dogoap::goal::Goal;
use bevy_dogoap::localstate::LocalState;
use bevy_dogoap::mutator::Mutator;
use bevy_dogoap::plan::{find_plan, make_plan, make_plan_within};
use bevy_dogoap::search::{search, SearchOutcome};
use bevy_dogoap::typing::is_well_typed;

fn hungry_and_tired() -> LocalState {
    LocalState::new()
        .with_datum("is_hungry", Datum::Bool(true))
        .with_datum("is_tired", Datum::Bool(true))
}

fn eat_and_sleep() -> Vec<Action> {
    let eat = simple_action("eat_action", "is_hungry", Datum::Bool(false))
        .with_precondition("is_tired", Compare::equals(Datum::Bool(false)));
    let sleep = simple_action("sleep_action", "is_tired", Datum::Bool(false));
    vec![eat, sleep]
}

fn fed_and_rested() -> Goal {
    Goal::new()
        .with_req("is_hungry", Compare::equals(Datum::Bool(false)))
        .with_req("is_tired", Compare::equals(Datum::Bool(false)))
}

#[test]
fn sequential_dependency_sleeps_then_eats() {
    let state = hungry_and_tired();
    let actions = eat_and_sleep();
    let goal = fed_and_rested();
    assert!(is_well_typed(&state, &actions, &goal));
    match search(&state, &actions, &goal, 100) {
        SearchOutcome::Found { path, cost } => {
            assert_eq!(path, vec![1, 0]);
            assert_eq!(cost, 2);
        }
        other => panic!("no path found: {:?}", other),
    }
    let (effects, cost) = make_plan(&state, &actions, &goal).unwrap();
    assert_eq!(cost, 2);
    assert_eq!(effects.len(), 2);
    assert_eq!(effects[0].action, "sleep_action");
    assert_eq!(effects[1].action, "eat_action");
}

#[test]
fn satisfied_goal_gives_empty_plan_at_no_cost() {
    let state = LocalState::new()
        .with_datum("is_hungry", Datum::Bool(false))
        .with_datum("is_tired", Datum::Bool(false));
    let actions = eat_and_sleep();
    let goal = fed_and_rested();
    let (effects, cost) = make_plan_within(&state, &actions, &goal, 0).unwrap();
    assert!(effects.is_empty());
    assert_eq!(cost, 0);
}

#[test]
fn unreachable_goal_gives_no_plan() {
    let state = hungry_and_tired();
    let actions = eat_and_sleep();
    let goal = Goal::new().with_req("has_key", Compare::equals(Datum::Bool(true)));
    assert!(matches!(search(&state, &actions, &goal, 100), SearchOutcome::Unreachable));
    assert!(make_plan(&state, &actions, &goal).is_none());
    assert!(find_plan(&state, &actions, &vec![goal], 100).is_none());
}

#[test]
fn satisfied_goal_is_passed_over() {
    let state = LocalState::new()
        .with_datum("is_hungry", Datum::Bool(true))
        .with_datum("is_tired", Datum::Bool(false));
    let actions = eat_and_sleep();
    let rested = Goal::new().with_req("is_tired", Compare::equals(Datum::Bool(false)));
    let fed = Goal::new().with_req("is_hungry", Compare::equals(Datum::Bool(false)));
    let plan = find_plan(&state, &actions, &vec![rested, fed.clone()], 100).unwrap();
    assert!(plan.goal.same_goal(&fed));
    assert_eq!(plan.cost, 1);
    assert_eq!(plan.effects.len(), 1);
    assert_eq!(plan.effects[0].action, "eat_action");
}

#[test]
fn plan_queues_first_action_last() {
    let state = hungry_and_tired();
    let actions = eat_and_sleep();
    let plan = find_plan(&state, &actions, &vec![fed_and_rested()], 100).unwrap();
    assert_eq!(plan.cost, 2);
    assert_eq!(plan.effects.len(), 2);
    assert_eq!(plan.effects[1].action, "sleep_action");
    assert_eq!(plan.effects[0].action, "eat_action");
}

#[test]
fn cycles_of_increase_and_decrease_terminate() {
    let state = LocalState::new().with_datum("gold", Datum::I64(0));
    let earn = Action::new("earn").with_mutator(Mutator::increment("gold", Datum::I64(1)));
    let spend = Action::new("spend").with_mutator(Mutator::decrement("gold", Datum::I64(1)));
    let actions = vec![earn, spend];
    let goal = Goal::new().with_req("gold", Compare::equals(Datum::I64(3)));
    match search(&state, &actions, &goal, 100) {
        SearchOutcome::Found { path, cost } => {
            assert_eq!(path, vec![0, 0, 0]);
            assert_eq!(cost, 3);
        }
        other => panic!("no path found: {:?}", other),
    }
    let never = Goal::new().with_req("silver", Compare::equals(Datum::I64(3)));
    assert!(matches!(search(&state, &actions, &never, 50), SearchOutcome::Exhausted));
}

#[test]
fn identical_inputs_give_identical_plans() {
    let state = hungry_and_tired();
    let actions = eat_and_sleep();
    let goals = vec![fed_and_rested()];
    let first = find_plan(&state, &actions, &goals, 100).unwrap();
    for _ in 0..5 {
        let again = find_plan(&state.clone(), &actions.clone(), &goals.clone(), 100).unwrap();
        assert_eq!(again.cost, first.cost);
        assert_eq!(again.effects.len(), first.effects.len());
        for (a, b) in again.effects.iter().zip(first.effects.iter()) {
            assert_eq!(a.action, b.action);
            assert_eq!(a.cost, b.cost);
        }
        assert!(again.goal.same_goal(&first.goal));
    }
}

#[test]
fn cheapest_path_wins() {
    let state = LocalState::new().with_datum("at_home", Datum::Bool(false));
    let taxi = simple_action("taxi", "at_home", Datum::Bool(true)).set_cost(10);
    let walk = simple_action("walk", "at_home", Datum::Bool(true)).set_cost(3);
    let bus = simple_action("bus", "at_home", Datum::Bool(true)).set_cost(4);
    let actions = vec![taxi, walk, bus];
    let goal = Goal::new().with_req("at_home", Compare::equals(Datum::Bool(true)));
    let (effects, cost) = make_plan(&state, &actions, &goal).unwrap();
    assert_eq!(cost, 3);
    assert_eq!(effects.len(), 1);
    assert_eq!(effects[0].action, "walk");
    assert_eq!(effects[0].cost, 3);
}

#[test]
fn cost_is_the_sum_of_the_costs_of_the_actions() {
    let state = LocalState::new().with_datum("gold", Datum::I64(0));
    let small = Action::new("small")
        .with_mutator(Mutator::increment("gold", Datum::I64(1)))
        .set_cost(2);
    let large = Action::new("large")
        .with_mutator(Mutator::increment("gold", Datum::I64(5)))
        .set_cost(7);
    let actions = vec![small, large];
    let goal = Goal::new().with_req("gold", Compare::equals(Datum::I64(7)));
    let (effects, cost) = make_plan(&state, &actions, &goal).unwrap();
    assert_eq!(cost, 11);
    let sum: usize = effects.iter().map(|e| e.cost).sum();
    assert_eq!(sum, cost);
    let names: Vec<&str> = effects.iter().map(|e| e.action.as_str()).collect();
    assert_eq!(names, vec!["small", "small", "large"]);
}

#[test]
fn fewer_steps_win_at_equal_cost() {
    let state = LocalState::new().with_datum("gold", Datum::I64(0));
    let one = Action::new("one").with_mutator(Mutator::increment("gold", Datum::I64(1)));
    let two = Action::new("two")
        .with_mutator(Mutator::increment("gold", Datum::I64(2)))
        .set_cost(2);
    let goal = Goal::new().with_req("gold", Compare::equals(Datum::I64(2)));
    match search(&state, &vec![one, two], &goal, 100) {
        SearchOutcome::Found { path, cost } => {
            assert_eq!(path, vec![1]);
            assert_eq!(cost, 2);
        }
        other => panic!("no path found: {:?}", other),
    }
}

#[test]
fn earlier_action_wins_at_equal_cost_and_length() {
    let state = LocalState::new().with_datum("at_home", Datum::Bool(false));
    let goal = Goal::new().with_req("at_home", Compare::equals(Datum::Bool(true)));
    let walk = simple_action("walk", "at_home", Datum::Bool(true));
    let run = simple_action("run", "at_home", Datum::Bool(true));
    match search(&state, &vec![walk.clone(), run.clone()], &goal, 100) {
        SearchOutcome::Found { path, .. } => assert_eq!(path, vec![0]),
        other => panic!("no path found: {:?}", other),
    }
    let (effects, _) = make_plan(&state, &vec![run, walk], &goal).unwrap();
    assert_eq!(effects[0].action, "run");
}

#[test]
fn actions_without_cost_are_allowed() {
    let state = LocalState::new().with_datum("gold", Datum::I64(0));
    let gift = Action::new("gift")
        .with_mutator(Mutator::increment("gold", Datum::I64(1)))
        .set_cost(0);
    let goal = Goal::new().with_req("gold", Compare::greater_than_equals(Datum::I64(4)));
    match search(&state, &vec![gift], &goal, 100) {
        SearchOutcome::Found { path, cost } => {
            assert_eq!(path, vec![0, 0, 0, 0]);
            assert_eq!(cost, 0);
        }
        other => panic!("no path found: {:?}", other),
    }
}

#[test]
fn cost_beyond_the_largest_number_is_never_taken_up() {
    let state = LocalState::new().with_datum("gold", Datum::I64(0));
    let dear = Action::new("dear")
        .with_mutator(Mutator::increment("gold", Datum::I64(1)))
        .set_cost(usize::MAX);
    let goal = Goal::new().with_req("gold", Compare::equals(Datum::I64(2)));
    assert!(matches!(search(&state, &vec![dear.clone()], &goal, 100), SearchOutcome::Unreachable));
    let once = Goal::new().with_req("gold", Compare::equals(Datum::I64(1)));
    match search(&state, &vec![dear], &once, 100) {
        SearchOutcome::Found { path, cost } => {
            assert_eq!(path, vec![0]);
            assert_eq!(cost, usize::MAX);
        }
        other => panic!("no path found: {:?}", other),
    }
}

#[test]
fn limit_counts_expanded_states() {
    let state = LocalState::new().with_datum("gold", Datum::I64(0));
    let earn = Action::new("earn").with_mutator(Mutator::increment("gold", Datum::I64(1)));
    let actions = vec![earn];
    let goal = Goal::new().with_req("gold", Compare::equals(Datum::I64(3)));
    assert!(matches!(search(&state, &actions, &goal, 2), SearchOutcome::Exhausted));
    assert!(matches!(search(&state, &actions, &goal, 3), SearchOutcome::Found { .. }));
    assert!(make_plan_within(&state, &actions, &goal, 2).is_none());
    assert!(find_plan(&state, &actions, &vec![goal.clone()], 2).is_none());
    assert_eq!(find_plan(&state, &actions, &vec![goal], 3).unwrap().cost, 3);
}

#[test]
fn states_are_expanded_once() {
    let state = LocalState::new()
        .with_datum("light", Datum::Bool(false))
        .with_datum("door", Datum::Bool(false));
    let on = simple_action("on", "light", Datum::Bool(true));
    let off = simple_action("off", "light", Datum::Bool(false));
    let open = simple_action("open", "door", Datum::Bool(true));
    let shut = simple_action("shut", "door", Datum::Bool(false));
    let actions = vec![on, off, open, shut];
    let never = Goal::new().with_req("window", Compare::equals(Datum::Bool(true)));
    assert!(matches!(search(&state, &actions, &never, 4), SearchOutcome::Unreachable));
    assert!(matches!(search(&state, &actions, &never, 3), SearchOutcome::Exhausted));
}

#[test]
fn no_goal_gives_no_plan() {
    let state = hungry_and_tired();
    let actions = eat_and_sleep();
    assert!(find_plan(&state, &actions, &vec![], 100).is_none());
}

#[test]
fn unreachable_goal_falls_through_to_the_next() {
    let state = hungry_and_tired();
    let actions = eat_and_sleep();
    let never = Goal::new().with_req("has_key", Compare::equals(Datum::Bool(true)));
    let rested = Goal::new().with_req("is_tired", Compare::equals(Datum::Bool(false)));
    let plan = find_plan(&state, &actions, &vec![never, rested.clone(), fed_and_rested()], 100).unwrap();
    assert!(plan.goal.same_goal(&rested));
    assert_eq!(plan.cost, 1);
    assert_eq!(plan.effects.len(), 1);
    assert_eq!(plan.effects[0].action, "sleep_action");
}

#[test]
fn all_goals_satisfied_gives_no_plan() {
    let state = LocalState::new()
        .with_datum("is_hungry", Datum::Bool(false))
        .with_datum("is_tired", Datum::Bool(false));
    let actions = eat_and_sleep();
    assert!(find_plan(&state, &actions, &vec![fed_and_rested()], 100).is_none());
}

#[test]
fn effects_follow_the_positions_of_the_path() {
    let actions = eat_and_sleep();
    let effects = bevy_dogoap::plan::get_effects_from_plan(&actions, &vec![1, 0, 1]);
    let names: Vec<&str> = effects.iter().map(|e| e.action.as_str()).collect();
    assert_eq!(names, vec!["sleep_action", "eat_action", "sleep_action"]);
    assert_eq!(effects[0].cost, 1);
    assert_eq!(effects[0].mutators.len(), 1);
    assert!(bevy_dogoap::plan::get_effects_from_plan(&actions, &vec![]).is_empty());
}

#[test]
fn copies_are_equal_to_what_was_copied() {
    let actions = eat_and_sleep();
    let copies = bevy_dogoap::action::clone_actions(&actions);
    assert_eq!(copies.len(), 2);
    assert!(copies[0].same_action(&actions[0]));
    assert!(copies[1].same_action(&actions[1]));
    assert!(!copies[0].same_action(&actions[1]));
    let goals = vec![fed_and_rested(), Goal::new()];
    let goal_copies = bevy_dogoap::goal::clone_goals(&goals);
    assert_eq!(goal_copies.len(), 2);
    assert!(goal_copies[0].same_goal(&goals[0]));
    assert!(goal_copies[1].same_goal(&goals[1]));
    let plan = find_plan(&hungry_and_tired(), &actions, &goals, 100).unwrap();
    let plan_copy = plan.clone();
    assert_eq!(plan_copy.cost, plan.cost);
    assert_eq!(plan_copy.effects.len(), plan.effects.len());
    assert_eq!(plan_copy.effects[0].action, plan.effects[0].action);
    assert!(plan_copy.goal.same_goal(&plan.goal));
    let effect_copies = bevy_dogoap::action::clone_effects(&plan.effects);
    assert_eq!(effect_copies.len(), 2);
    assert_eq!(effect_copies[1].action, "sleep_action");
    let mutators = vec![
        Mutator::set("a", Datum::Bool(true)),
        Mutator::increment("b", Datum::I64(1)),
        Mutator::decrement("b", Datum::I64(1)),
    ];
    let mutator_copies = bevy_dogoap::mutator::clone_mutators(&mutators);
    assert!(bevy_dogoap::mutator::same_mutators(&mutators, &mutator_copies));
    assert!(!bevy_dogoap::mutator::same_mutators(&mutators, &vec![]));
    let swapped = vec![
        Mutator::set("a", Datum::Bool(true)),
        Mutator::decrement("b", Datum::I64(1)),
        Mutator::increment("b", Datum::I64(1)),
    ];
    assert!(!bevy_dogoap::mutator::same_mutators(&mutators, &swapped));
}

#[test]
fn mutators_are_applied_in_order() {
    let mut state = LocalState::new().with_datum("gold", Datum::I64(1));
    let mutators = vec![
        Mutator::increment("gold", Datum::I64(2)),
        Mutator::set("silver", Datum::I64(10)),
        Mutator::decrement("silver", Datum::I64(4)),
        Mutator::set("gold", Datum::I64(0)),
        Mutator::decrement("gold", Datum::I64(3)),
    ];
    bevy_dogoap::mutator::apply_mutators(&mutators, &mut state);
    assert_eq!(state.get("gold"), Some(Datum::I64(-3)));
    assert_eq!(state.get("silver"), Some(Datum::I64(6)));
    assert_eq!(state.len(), 2);
}

#[test]
fn carrying_out_the_plan_achieves_the_goal() {
    let state = LocalState::new()
        .with_datum("gold", Datum::I64(0))
        .with_datum("is_tired", Datum::Bool(true));
    let work = Action::new("work")
        .with_precondition("is_tired", Compare::equals(Datum::Bool(false)))
        .with_mutator(Mutator::increment("gold", Datum::I64(2)))
        .with_mutator(Mutator::set("is_tired", Datum::Bool(true)))
        .set_cost(3);
    let sleep = simple_action("sleep", "is_tired", Datum::Bool(false));
    let goal = Goal::new()
        .with_req("gold", Compare::greater_than_equals(Datum::I64(4)))
        .with_req("is_tired", Compare::equals(Datum::Bool(false)));
    let mut plan = find_plan(&state, &vec![work, sleep], &vec![goal.clone()], 100).unwrap();
    assert_eq!(plan.cost, 9);
    let mut facts = state.clone();
    let mut taken: Vec<String> = vec![];
    while let Some(effect) = plan.effects.pop() {
        bevy_dogoap::mutator::apply_mutators(&effect.mutators, &mut facts);
        taken.push(effect.action);
    }
    assert_eq!(taken, vec!["sleep", "work", "sleep", "work", "sleep"]);
    assert!(goal.is_satisfied_by(&facts));
    assert_eq!(facts.get("gold"), Some(Datum::I64(4)));
    assert!(!goal.is_satisfied_by(&state));
}
