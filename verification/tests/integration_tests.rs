use bevy_dogoap::prelude::{
    simple_action, Action, Compare, Datum, Goal, Mutator, Planner, Step, TaskStatus, UpdatePlan,
};
use bevy_ecs::entity::Entity;
use bevy_platform::collections::HashMap;

const IS_HUNGRY_KEY: &str = "is_hungry";
const EAT_ACTION: &str = "eat_action";
const IS_TIRED_KEY: &str = "is_tired";
const SLEEP_ACTION: &str = "sleep_action";

/// A world of one agent: what is true of it, and which action is marked.
struct World {
    is_hungry: bool,
    is_tired: bool,
    marker: Option<String>,
    planner: Planner,
    planner_done: bool,
}

impl World {
    fn new(planner: Planner) -> World {
        World { is_hungry: true, is_tired: true, marker: None, planner, planner_done: false }
    }

    fn observed(&self) -> Vec<(String, Datum)> {
        vec![
            (IS_HUNGRY_KEY.to_string(), Datum::Bool(self.is_hungry)),
            (IS_TIRED_KEY.to_string(), Datum::Bool(self.is_tired)),
        ]
    }

    fn trigger(&mut self) {
        let update = UpdatePlan::from(Entity::PLACEHOLDER);
        assert!(self.planner.is_planning() || self.planner.is_well_typed(&update));
        if let Some((_, job)) = self.planner.create_planner_task(&update) {
            job.run().expect("Failed to send plan");
        }
    }

    fn handle_actions(&mut self) {
        match self.marker.as_deref() {
            Some(EAT_ACTION) => {
                self.is_hungry = false;
                self.marker = None;
            }
            Some(SLEEP_ACTION) => {
                self.is_tired = false;
                self.marker = None;
            }
            _ => {}
        }
    }

    fn update(&mut self) {
        let observed = self.observed();
        self.planner.update_local_state(&observed);
        self.trigger();
        self.handle_actions();
        match self.planner.handle_planner_task().unwrap() {
            TaskStatus::Installed | TaskStatus::Failed => self.planner_done = true,
            TaskStatus::Pending | TaskStatus::NotPlanning => {}
        }
        let attached = self.marker.is_some();
        assert!(attached || self.planner.next_is_registered());
        match self.planner.execute_plan(attached) {
            Step::Activate { action, detach_all } => {
                if detach_all {
                    self.marker = None;
                }
                self.marker = Some(action);
            }
            Step::Wait | Step::Idle | Step::Finished => {}
        }
    }

    fn assert_key_is_bool(&self, key: &str, expected_bool: bool, msg: &str) {
        let expected_val = Datum::Bool(expected_bool);
        let found_val = self.planner.state.get(key).unwrap();
        assert_eq!(found_val, expected_val, "{msg}");
    }
}

#[test]
fn test_basic_bevy_integration_internal() {
    let components = vec![
        (IS_HUNGRY_KEY.to_string(), Datum::Bool(true)),
        (IS_TIRED_KEY.to_string(), Datum::Bool(true)),
    ];
    let goal = Goal::new()
        .with_req(IS_HUNGRY_KEY, Compare::equals(Datum::from(false)))
        .with_req(IS_TIRED_KEY, Compare::equals(Datum::from(false)));
    let goals = vec![goal.clone()];
    let eat_action = simple_action(EAT_ACTION, IS_HUNGRY_KEY, Datum::from(false))
        .with_precondition(IS_TIRED_KEY, Compare::equals(Datum::from(false)));
    let sleep_action = simple_action(SLEEP_ACTION, IS_TIRED_KEY, Datum::from(false));
    let actions_map = HashMap::from([
        (EAT_ACTION.to_string(), eat_action.clone()),
        (SLEEP_ACTION.to_string(), sleep_action.clone()),
    ]);
    let planner = Planner::new(components, goals, actions_map);
    let mut world = World::new(planner);
    world.trigger();

    loop {
        world.update();
        if world.planner_done {
            break;
        }
    }
    for _ in 0..4 {
        world.update();
    }

    world.assert_key_is_bool(IS_HUNGRY_KEY, false, "is_hungry wasn't false");
    world.assert_key_is_bool(IS_TIRED_KEY, false, "is_tired wasn't false");
    assert!(world.marker.is_none());
    println!("Final State:\n{:#?}", world.planner.state);
}

#[test]
fn test_basic_bevy_integration_external() {
    let goal = Goal::from_reqs(&vec![
        (IS_HUNGRY_KEY.to_string(), Compare::equals(Datum::from(false))),
        (IS_TIRED_KEY.to_string(), Compare::equals(Datum::from(false))),
    ]);
    let eat_action = Action::new(EAT_ACTION)
        .with_precondition(IS_TIRED_KEY, Compare::equals(Datum::from(false)))
        .with_mutator(Mutator::set(IS_HUNGRY_KEY, Datum::from(false)));
    let sleep_action =
        Action::new(SLEEP_ACTION).with_mutator(Mutator::set(IS_TIRED_KEY, Datum::from(false)));
    let state = vec![
        (IS_HUNGRY_KEY.to_string(), Datum::Bool(true)),
        (IS_TIRED_KEY.to_string(), Datum::Bool(true)),
    ];
    let actions_map = HashMap::from([
        (EAT_ACTION.to_string(), eat_action),
        (SLEEP_ACTION.to_string(), sleep_action),
    ]);
    let planner = Planner::new(state, vec![goal], actions_map);
    let mut world = World::new(planner);
    world.trigger();

    loop {
        world.update();
        if world.planner_done {
            break;
        }
    }
    for _ in 0..4 {
        world.update();
    }

    println!("Final State:\n{:#?}", world.planner.state);
    world.assert_key_is_bool("is_hungry", false, "is_hungry wasn't false");
    world.assert_key_is_bool("is_tired", false, "is_tired wasn't false");
    assert!(world.marker.is_none());
}

#[test]
fn sequential_dependency_is_carried_out_in_order() {
    let goal = Goal::new()
        .with_req(IS_HUNGRY_KEY, Compare::equals(Datum::Bool(false)))
        .with_req(IS_TIRED_KEY, Compare::equals(Datum::Bool(false)));
    let eat_action = simple_action(EAT_ACTION, IS_HUNGRY_KEY, Datum::Bool(false))
        .with_precondition(IS_TIRED_KEY, Compare::equals(Datum::Bool(false)));
    let sleep_action = simple_action(SLEEP_ACTION, IS_TIRED_KEY, Datum::Bool(false));
    let state = vec![
        (IS_HUNGRY_KEY.to_string(), Datum::Bool(true)),
        (IS_TIRED_KEY.to_string(), Datum::Bool(true)),
    ];
    let actions_map = HashMap::from([
        (EAT_ACTION.to_string(), eat_action),
        (SLEEP_ACTION.to_string(), sleep_action),
    ]);
    let mut planner = Planner::new(state, vec![goal], actions_map);
    let update = UpdatePlan::from(Entity::PLACEHOLDER);
    let (_, job) = planner.create_planner_task(&update).unwrap();
    job.run().unwrap();
    assert_eq!(planner.handle_planner_task(), Ok(TaskStatus::Installed));
    assert_eq!(planner.current_plan.as_ref().unwrap().cost, 2);

    let mut is_hungry = true;
    let mut is_tired = true;
    let mut taken: Vec<String> = vec![];
    loop {
        match planner.execute_plan(false) {
            Step::Activate { action, .. } => {
                if action == EAT_ACTION {
                    assert!(!is_tired);
                    is_hungry = false;
                } else {
                    is_tired = false;
                }
                taken.push(action);
                planner.update_local_state(&vec![
                    (IS_HUNGRY_KEY.to_string(), Datum::Bool(is_hungry)),
                    (IS_TIRED_KEY.to_string(), Datum::Bool(is_tired)),
                ]);
            }
            Step::Finished => break,
            other => panic!("unexpected step: {:?}", other),
        }
    }
    assert_eq!(taken, vec![SLEEP_ACTION, EAT_ACTION]);
    assert_eq!(planner.state.get(IS_HUNGRY_KEY), Some(Datum::Bool(false)));
    assert_eq!(planner.state.get(IS_TIRED_KEY), Some(Datum::Bool(false)));
    assert!(planner.current_plan.is_none());
    assert!(planner.current_action.is_none());
}
