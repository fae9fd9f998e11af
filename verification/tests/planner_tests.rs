use bevy_dogoap::action::{simple_action, Action};
use bevy_dogoap::channel::Polled;
use bevy_dogoap::compare::Compare;
use bevy_dogoap::datum::Datum;
use bevy_dogoap::goal::Goal;
use bevy_dogoap::mutator::Mutator;
use bevy_dogoap::plan::{Plan, DEFAULT_MAX_EXPANSIONS};
use bevy_dogoap::job::{PlanJob, PlanUndelivered};
use bevy_dogoap::planner::{
    ChannelDisconnected, ConfigError, IsPlanning, Planner, Step, TaskStatus,
};
use bevy_dogoap::update::UpdatePlan;
use bevy_ecs::entity::Entity;
use bevy_platform::collections::HashMap;

fn facts(hungry: bool, tired: bool) -> Vec<(String, Datum)> {
    vec![
        ("is_hungry".to_string(), Datum::Bool(hungry)),
        ("is_tired".to_string(), Datum::Bool(tired)),
    ]
}

fn eat_and_sleep() -> HashMap<String, Action> {
    let eat = simple_action("eat_action", "is_hungry", Datum::Bool(false))
        .with_precondition("is_tired", Compare::equals(Datum::Bool(false)));
    let sleep = simple_action("sleep_action", "is_tired", Datum::Bool(false));
    HashMap::from([("eat_action".to_string(), eat), ("sleep_action".to_string(), sleep)])
}

fn only(action: Action) -> HashMap<String, Action> {
    HashMap::from([(action.key.clone(), action)])
}

fn fed_and_rested() -> Goal {
    Goal::new()
        .with_req("is_hungry", Compare::equals(Datum::Bool(false)))
        .with_req("is_tired", Compare::equals(Datum::Bool(false)))
}

fn planner() -> Planner {
    Planner::new(facts(true, true), vec![fed_and_rested()], eat_and_sleep())
}

fn request() -> UpdatePlan {
    UpdatePlan::from(Entity::PLACEHOLDER)
}

fn names(plan: &Plan) -> Vec<String> {
    plan.effects.iter().map(|e| e.action.clone()).collect()
}

fn plan_now(planner: &mut Planner, update: &UpdatePlan) -> TaskStatus {
    assert!(planner.is_well_typed(update));
    let (_, job) = planner.create_planner_task(update).unwrap();
    assert!(job.run().is_ok());
    planner.handle_planner_task().unwrap()
}

#[test]
fn new_planner_is_idle() {
    let planner = planner();
    assert_eq!(planner.state.get("is_hungry"), Some(Datum::Bool(true)));
    assert_eq!(planner.state.get("is_tired"), Some(Datum::Bool(true)));
    assert_eq!(planner.state.len(), 2);
    assert_eq!(planner.goals.len(), 1);
    let mut keys: Vec<&str> = planner.actions().iter().map(|a| a.key.as_str()).collect();
    keys.sort();
    assert_eq!(keys, vec!["eat_action", "sleep_action"]);
    let eat = planner.action(&"eat_action".to_string()).unwrap();
    assert_eq!(eat.key, "eat_action");
    assert_eq!(eat.preconditions.len(), 1);
    let sleep = planner.action(&"sleep_action".to_string()).unwrap();
    assert_eq!(sleep.key, "sleep_action");
    assert!(sleep.preconditions.is_empty());
    assert!(planner.action(&"fly_action".to_string()).is_none());
    assert!(planner.current_action.is_none());
    assert!(planner.current_plan.is_none());
    assert!(!planner.is_planning());
    assert_eq!(planner.max_expansions, DEFAULT_MAX_EXPANSIONS);
    assert_eq!(planner.state().len(), 2);
    assert_eq!(planner.goals().len(), 1);
    assert!(planner.current_action().is_none());
    assert!(planner.current_plan().is_none());
}

#[test]
fn later_fact_of_a_key_wins_at_setup() {
    let planner = Planner::new(
        vec![
            ("gold".to_string(), Datum::I64(1)),
            ("gold".to_string(), Datum::I64(2)),
        ],
        vec![],
        HashMap::new(),
    );
    assert_eq!(planner.state.len(), 1);
    assert_eq!(planner.state.get("gold"), Some(Datum::I64(2)));
}

#[test]
fn observed_facts_are_written_into_the_state() {
    let mut planner = planner();
    planner.update_local_state(&vec![("is_tired".to_string(), Datum::Bool(false))]);
    assert_eq!(planner.state.get("is_tired"), Some(Datum::Bool(false)));
    assert_eq!(planner.state.get("is_hungry"), Some(Datum::Bool(true)));
    planner.update_local_state(&vec![
        ("gold".to_string(), Datum::I64(4)),
        ("is_hungry".to_string(), Datum::Bool(false)),
    ]);
    assert_eq!(planner.state.get("gold"), Some(Datum::I64(4)));
    assert_eq!(planner.state.get("is_hungry"), Some(Datum::Bool(false)));
    assert_eq!(planner.state.len(), 3);
}

#[test]
fn request_carries_its_entity_and_no_goals() {
    let update = UpdatePlan::from(Entity::PLACEHOLDER);
    assert_eq!(update.planner, Entity::PLACEHOLDER);
    assert!(update.goals.is_none());
}

#[test]
fn request_while_planning_is_ignored() {
    let mut planner = planner();
    let update = request();
    let started = planner.create_planner_task(&update);
    assert!(matches!(started, Some((IsPlanning, _))));
    assert!(planner.is_planning());
    assert!(planner.create_planner_task(&update).is_none());
    assert!(planner.create_planner_task(&update).is_none());
    assert!(planner.is_planning());
    assert!(planner.current_plan.is_none());
    let (_, job) = started.unwrap();
    assert!(job.run().is_ok());
    assert_eq!(planner.handle_planner_task(), Ok(TaskStatus::Installed));
    assert!(!planner.is_planning());
    assert!(planner.create_planner_task(&update).is_some());
}

#[test]
fn result_is_installed_once_it_is_there() {
    let mut planner = planner();
    assert_eq!(planner.handle_planner_task(), Ok(TaskStatus::NotPlanning));
    let (_, job) = planner.create_planner_task(&request()).unwrap();
    assert_eq!(planner.handle_planner_task(), Ok(TaskStatus::Pending));
    assert_eq!(planner.handle_planner_task(), Ok(TaskStatus::Pending));
    assert!(planner.is_planning());
    assert!(planner.current_plan.is_none());
    let found = job.find_plan();
    assert_eq!(names(found.as_ref().unwrap()), vec!["eat_action", "sleep_action"]);
    assert!(job.deliver(found).is_ok());
    assert_eq!(planner.handle_planner_task(), Ok(TaskStatus::Installed));
    assert!(!planner.is_planning());
    let plan = planner.current_plan.as_ref().unwrap();
    assert_eq!(names(plan), vec!["eat_action", "sleep_action"]);
    assert_eq!(plan.cost, 2);
    assert!(plan.goal.same_goal(&fed_and_rested()));
    assert_eq!(planner.handle_planner_task(), Ok(TaskStatus::NotPlanning));
}

#[test]
fn search_works_on_a_snapshot() {
    let mut planner = planner();
    let (_, job) = planner.create_planner_task(&request()).unwrap();
    planner.update_local_state(&facts(false, false));
    planner.set_goals(vec![]);
    assert!(job.run().is_ok());
    assert_eq!(planner.handle_planner_task(), Ok(TaskStatus::Installed));
    assert_eq!(names(planner.current_plan.as_ref().unwrap()), vec!["eat_action", "sleep_action"]);
}

#[test]
fn goals_of_the_request_replace_the_planners() {
    let mut planner = planner();
    let rested = Goal::new().with_req("is_tired", Compare::equals(Datum::Bool(false)));
    let update = UpdatePlan { planner: Entity::PLACEHOLDER, goals: Some(vec![rested.clone()]) };
    assert_eq!(plan_now(&mut planner, &update), TaskStatus::Installed);
    let plan = planner.current_plan.as_ref().unwrap();
    assert_eq!(names(plan), vec!["sleep_action"]);
    assert!(plan.goal.same_goal(&rested));
    assert_eq!(planner.goals.len(), 1);
    assert!(planner.goals[0].same_goal(&fed_and_rested()));
}

#[test]
fn failed_search_leaves_the_planner_idle() {
    let never = Goal::new().with_req("has_key", Compare::equals(Datum::Bool(true)));
    let mut planner = Planner::new(facts(true, true), vec![never], eat_and_sleep());
    planner.current_action = Some(Action::new("stale"));
    planner.current_plan = Some(Plan { effects: vec![], cost: 0, goal: Goal::new() });
    assert_eq!(plan_now(&mut planner, &request()), TaskStatus::Failed);
    assert!(planner.current_plan.is_none());
    assert!(planner.current_action.is_none());
    assert!(!planner.is_planning());
    assert!(matches!(planner.execute_plan(false), Step::Idle));
}

#[test]
fn limit_of_the_planner_bounds_its_searches() {
    let earn = Action::new("earn").with_mutator(Mutator::increment("gold", Datum::I64(1)));
    let rich = Goal::new().with_req("gold", Compare::equals(Datum::I64(5)));
    let mut planner =
        Planner::new(vec![("gold".to_string(), Datum::I64(0))], vec![rich], only(earn));
    planner.max_expansions = 4;
    assert_eq!(plan_now(&mut planner, &request()), TaskStatus::Failed);
    planner.max_expansions = 5;
    assert_eq!(plan_now(&mut planner, &request()), TaskStatus::Installed);
    assert_eq!(planner.current_plan.as_ref().unwrap().cost, 5);
}

#[test]
fn search_that_went_away_is_reported() {
    let mut planner = planner();
    let (_, job) = planner.create_planner_task(&request()).unwrap();
    drop(job);
    assert_eq!(planner.handle_planner_task(), Err(ChannelDisconnected));
    assert!(planner.is_planning());
    assert!(planner.current_plan.is_none());
    assert_eq!(planner.handle_planner_task(), Err(ChannelDisconnected));
}

#[test]
fn plan_for_a_planner_that_is_gone_is_not_delivered() {
    let mut planner = planner();
    let (_, job) = planner.create_planner_task(&request()).unwrap();
    drop(planner);
    match job.run() {
        Err(PlanUndelivered { plan: Some(plan) }) => {
            assert_eq!(names(&plan), vec!["eat_action", "sleep_action"]);
            assert_eq!(plan.cost, 2);
        }
        other => panic!("unexpected result: {:?}", other),
    }
}

#[test]
fn mistyped_request_is_recognised() {
    let planner = planner();
    assert!(planner.is_well_typed(&request()));
    let mistyped = Goal::new().with_req("is_tired", Compare::equals(Datum::I64(0)));
    let update = UpdatePlan { planner: Entity::PLACEHOLDER, goals: Some(vec![mistyped]) };
    assert!(!planner.is_well_typed(&update));
}

#[test]
fn installing_follows_what_was_found() {
    let mut planner = planner();
    let plan = Plan { effects: vec![Action::new("eat_action").effect()], cost: 1, goal: Goal::new() };
    planner.current_action = Some(Action::new("sleep_action"));
    assert_eq!(planner.install(Polled::Empty), Ok(TaskStatus::Pending));
    assert_eq!(planner.install(Polled::Disconnected), Err(ChannelDisconnected));
    assert!(planner.current_plan.is_none());
    assert!(planner.current_action.is_some());
    assert_eq!(planner.install(Polled::Ready(Some(plan))), Ok(TaskStatus::Installed));
    assert_eq!(names(planner.current_plan.as_ref().unwrap()), vec!["eat_action"]);
    assert_eq!(planner.current_action.as_ref().unwrap().key, "sleep_action");
    assert_eq!(planner.install(Polled::Ready(None)), Ok(TaskStatus::Failed));
    assert!(planner.current_plan.is_none());
    assert!(planner.current_action.is_none());
}

#[test]
fn plan_is_carried_out_one_action_at_a_time() {
    let mut planner = planner();
    assert_eq!(plan_now(&mut planner, &request()), TaskStatus::Installed);

    assert!(planner.next_is_registered());
    match planner.execute_plan(false) {
        Step::Activate { action, detach_all } => {
            assert_eq!(action, "sleep_action");
            assert!(!detach_all);
        }
        other => panic!("unexpected step: {:?}", other),
    }
    assert_eq!(planner.current_action.as_ref().unwrap().key, "sleep_action");
    assert_eq!(names(planner.current_plan.as_ref().unwrap()), vec!["eat_action"]);

    assert!(matches!(planner.execute_plan(true), Step::Wait));
    assert!(matches!(planner.execute_plan(true), Step::Wait));
    assert_eq!(planner.current_action.as_ref().unwrap().key, "sleep_action");
    assert_eq!(names(planner.current_plan.as_ref().unwrap()), vec!["eat_action"]);

    match planner.execute_plan(false) {
        Step::Activate { action, detach_all } => {
            assert_eq!(action, "eat_action");
            assert!(detach_all);
        }
        other => panic!("unexpected step: {:?}", other),
    }
    assert_eq!(planner.current_action.as_ref().unwrap().key, "eat_action");
    assert!(planner.current_plan.as_ref().unwrap().effects.is_empty());
    assert_eq!(planner.current_plan.as_ref().unwrap().cost, 2);

    assert!(matches!(planner.execute_plan(false), Step::Finished));
    assert!(planner.current_plan.is_none());
    assert!(planner.current_action.is_none());

    assert!(matches!(planner.execute_plan(false), Step::Idle));
    assert!(planner.current_plan.is_none());
    assert!(planner.current_action.is_none());
}

#[test]
fn repeated_action_keeps_its_mark() {
    let earn = Action::new("earn").with_mutator(Mutator::increment("gold", Datum::I64(1)));
    let rich = Goal::new().with_req("gold", Compare::equals(Datum::I64(2)));
    let mut planner =
        Planner::new(vec![("gold".to_string(), Datum::I64(0))], vec![rich], only(earn));
    assert_eq!(plan_now(&mut planner, &request()), TaskStatus::Installed);
    for _ in 0..2 {
        match planner.execute_plan(false) {
            Step::Activate { action, detach_all } => {
                assert_eq!(action, "earn");
                assert!(!detach_all);
            }
            other => panic!("unexpected step: {:?}", other),
        }
    }
    assert!(matches!(planner.execute_plan(false), Step::Finished));
}

#[test]
fn idle_planner_without_plan_forgets_its_action() {
    let mut planner = planner();
    planner.current_action = Some(Action::new("eat_action"));
    assert!(matches!(planner.execute_plan(true), Step::Wait));
    assert!(planner.current_action.is_some());
    assert!(matches!(planner.execute_plan(false), Step::Idle));
    assert!(planner.current_action.is_none());
}

#[test]
fn unregistered_action_is_recognised() {
    let mut planner = planner();
    assert!(planner.next_is_registered());
    planner.current_plan = Some(Plan {
        effects: vec![Action::new("fly_action").effect(), Action::new("eat_action").effect()],
        cost: 2,
        goal: Goal::new(),
    });
    assert!(planner.next_is_registered());
    planner.current_plan = Some(Plan {
        effects: vec![Action::new("eat_action").effect(), Action::new("fly_action").effect()],
        cost: 2,
        goal: Goal::new(),
    });
    assert!(!planner.next_is_registered());
    planner.current_plan = Some(Plan { effects: vec![], cost: 0, goal: Goal::new() });
    assert!(planner.next_is_registered());
}

#[test]
fn action_is_found_under_the_key_of_the_table() {
    let dine = Action::new("dine").set_cost(3);
    let table = HashMap::from([("eat".to_string(), dine)]);
    let mut planner = Planner::new(vec![], vec![], table);
    assert_eq!(planner.actions().len(), 1);
    assert_eq!(planner.actions()[0].key, "dine");
    planner.current_plan =
        Some(Plan { effects: vec![Action::new("dine").effect()], cost: 3, goal: Goal::new() });
    assert!(!planner.next_is_registered());
    planner.current_plan =
        Some(Plan { effects: vec![Action::new("eat").effect()], cost: 3, goal: Goal::new() });
    assert!(planner.next_is_registered());
    match planner.execute_plan(false) {
        Step::Activate { action, detach_all } => {
            assert_eq!(action, "eat");
            assert!(!detach_all);
        }
        other => panic!("unexpected step: {:?}", other),
    }
    assert_eq!(planner.current_action.as_ref().unwrap().key, "dine");
    assert_eq!(planner.current_action.as_ref().unwrap().cost, 3);
}

#[test]
fn mistyped_request_starts_no_search() {
    let mut planner = planner();
    let mistyped = Goal::new().with_req("is_tired", Compare::equals(Datum::I64(0)));
    let update = UpdatePlan { planner: Entity::PLACEHOLDER, goals: Some(vec![mistyped]) };
    assert!(matches!(planner.try_create_planner_task(&update), Err(ConfigError::KindMismatch)));
    assert!(!planner.is_planning());
    let started = planner.try_create_planner_task(&request());
    assert!(matches!(started, Ok(Some(_))));
    assert!(planner.is_planning());
    assert!(matches!(planner.try_create_planner_task(&update), Ok(None)));
    assert!(matches!(planner.try_create_planner_task(&request()), Ok(None)));
    assert!(planner.is_planning());
}

#[test]
fn plan_with_an_unregistered_action_is_not_carried_out() {
    let mut planner = planner();
    planner.current_plan = Some(Plan {
        effects: vec![Action::new("eat_action").effect(), Action::new("fly_action").effect()],
        cost: 2,
        goal: Goal::new(),
    });
    assert!(matches!(planner.try_execute_plan(true), Ok(Step::Wait)));
    assert!(matches!(planner.try_execute_plan(false), Err(ConfigError::UnregisteredAction)));
    assert_eq!(planner.current_plan.as_ref().unwrap().effects.len(), 2);
    assert!(planner.current_action.is_none());
    planner.current_plan.as_mut().unwrap().effects.pop();
    match planner.try_execute_plan(false) {
        Ok(Step::Activate { action, detach_all }) => {
            assert_eq!(action, "eat_action");
            assert!(!detach_all);
        }
        other => panic!("unexpected step: {:?}", other),
    }
    assert!(matches!(planner.try_execute_plan(false), Ok(Step::Finished)));
    assert!(matches!(planner.try_execute_plan(false), Ok(Step::Idle)));
}

#[test]
fn delivery_follows_what_the_slot_answered() {
    assert!(PlanJob::delivery(Ok(())).is_ok());
    match PlanJob::delivery(Err(None)) {
        Err(PlanUndelivered { plan: None }) => {}
        other => panic!("unexpected result: {:?}", other),
    }
    let plan = Plan { effects: vec![Action::new("eat_action").effect()], cost: 1, goal: Goal::new() };
    match PlanJob::delivery(Err(Some(plan))) {
        Err(PlanUndelivered { plan: Some(back) }) => {
            assert_eq!(names(&back), vec!["eat_action"]);
            assert_eq!(back.cost, 1);
        }
        other => panic!("unexpected result: {:?}", other),
    }
}
