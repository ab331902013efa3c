use goap::Action;
use goap::Condition;
use goap::Cost;
use goap::Effect;
use goap::FactId;
use goap::Goal;
use goap::Planner;
use goap::PlannerError;
use goap::Value;
use goap::WorldState;

fn axe_and_wood_planner() -> (Planner, WorldState, Goal) {
    let has_axe = FactId(0);
    let has_wood = FactId(1);

    let start = WorldState::new(0)
        .with_fact(has_axe, Value::Int(0))
        .with_fact(has_wood, Value::Int(0));

    let mut get_axe = Action::new(String::from("Get Axe"), Cost(1));
    get_axe.push_effect(Effect::Assign(has_axe, Value::Int(1)));

    let mut chop_wood = Action::new(String::from("Chop Wood"), Cost(2));
    chop_wood.push_precondition(Condition::Eq(has_axe, Value::Int(1)));
    chop_wood.push_effect(Effect::Assign(has_wood, Value::Int(1)));

    let mut goal = Goal::new(String::from("Get wood"));
    goal.push_condition(Condition::Eq(has_wood, Value::Int(1)));

    let mut planner = Planner::new();
    planner.add_action(get_axe);
    planner.add_action(chop_wood);
    (planner, start, goal)
}

#[test]
fn simple_goap_plan() {
    let (planner, start, goal) = axe_and_wood_planner();

    let plan = planner.plan(&start, &goal).expect("no plan found");

    for index in &plan.actions {
        if let Some(action) = planner.get_plan_action(&plan, *index) {
            println!("{}", action.name);
        }
    }

    assert_eq!(plan.actions.len(), 2);
    assert_eq!(
        planner.get_plan_action(&plan, 0).expect("missing action").name,
        "Get Axe"
    );
    assert_eq!(
        planner.get_plan_action(&plan, 1).expect("missing action").name,
        "Chop Wood"
    );
}

#[test]
fn two_action_plan_is_optimal() {
    let (planner, start, goal) = axe_and_wood_planner();
    let plan = planner.plan(&start, &goal).expect("no plan found");
    assert_eq!(plan.actions, vec![0, 1]);
    assert_eq!(plan.total_cost, Cost(3));
}

#[test]
fn plan_picks_the_cheaper_route() {
    let done = FactId(0);
    let gate = FactId(1);
    let start = WorldState::new(2);

    let mut open_gate = Action::new(String::from("Open Gate"), Cost(10));
    open_gate.push_effect(Effect::Assign(gate, Value::Int(1)));
    let mut through_gate = Action::new(String::from("Through Gate"), Cost(1));
    through_gate.push_precondition(Condition::Eq(gate, Value::Int(1)));
    through_gate.push_effect(Effect::Assign(done, Value::Int(1)));
    let mut direct = Action::new(String::from("Direct"), Cost(2));
    direct.push_effect(Effect::Assign(done, Value::Int(1)));

    let mut goal = Goal::new(String::from("Done"));
    goal.push_condition(Condition::Eq(done, Value::Int(1)));

    let mut planner = Planner::new();
    planner.add_action(open_gate);
    planner.add_action(through_gate);
    planner.add_action(direct);

    let plan = planner.plan(&start, &goal).expect("no plan found");
    assert_eq!(plan.actions, vec![2]);
    assert_eq!(plan.total_cost, Cost(2));
}

#[test]
fn same_transition_reconstructs_to_lowest_index_action() {
    // Two actions realize the same state transition; the search costs the
    // edge at the cheaper action, while reconstruction names the
    // lowest-index action that explains it.
    let done = FactId(0);
    let start = WorldState::new(1);

    let mut slow = Action::new(String::from("Slow"), Cost(10));
    slow.push_effect(Effect::Assign(done, Value::Int(1)));
    let mut fast = Action::new(String::from("Fast"), Cost(2));
    fast.push_effect(Effect::Assign(done, Value::Int(1)));

    let mut goal = Goal::new(String::from("Done"));
    goal.push_condition(Condition::Eq(done, Value::Int(1)));

    let mut planner = Planner::new();
    planner.add_action(slow);
    planner.add_action(fast);

    let plan = planner.plan(&start, &goal).expect("no plan found");
    assert_eq!(plan.total_cost, Cost(2));
    assert_eq!(plan.actions, vec![0]);
}

#[test]
fn repeated_plan_calls_agree() {
    let (planner, start, goal) = axe_and_wood_planner();
    let first = planner.plan(&start, &goal).expect("no plan found");
    let second = planner.plan(&start, &goal).expect("no plan found");
    assert_eq!(first.actions, second.actions);
    assert_eq!(first.total_cost, second.total_cost);
}

#[test]
fn equal_cost_tie_breaks_by_lowest_index() {
    let done = FactId(0);
    let start = WorldState::new(1);

    let mut a = Action::new(String::from("A"), Cost(3));
    a.push_effect(Effect::Assign(done, Value::Int(1)));
    let mut b = Action::new(String::from("B"), Cost(3));
    b.push_effect(Effect::Assign(done, Value::Int(1)));

    let mut goal = Goal::new(String::from("Done"));
    goal.push_condition(Condition::Eq(done, Value::Int(1)));

    let mut planner = Planner::new();
    planner.add_action(a);
    planner.add_action(b);

    let plan = planner.plan(&start, &goal).expect("no plan found");
    assert_eq!(plan.actions, vec![0]);
    assert_eq!(plan.total_cost, Cost(3));
}

#[test]
fn goals_compare_by_name() {
    let mut g1 = Goal::new(String::from("Get wood"));
    g1.push_condition(Condition::Eq(FactId(0), Value::Int(1)));
    let g2 = Goal::new(String::from("Get wood"));
    let g3 = Goal::new(String::from("Get gold"));
    assert!(g1 == g2);
    assert!(g1 != g3);
}

#[test]
fn unsatisfiable_goal_reports_no_plan_found() {
    let (planner, start, _) = axe_and_wood_planner();
    let mut goal = Goal::new(String::from("Get gold"));
    goal.push_condition(Condition::Eq(FactId(2), Value::Int(1)));
    let result = planner.plan(&start, &goal);
    assert!(matches!(result, Err(PlannerError::NoPlanFound)));
}

#[test]
fn empty_library_finds_no_plan() {
    let planner = Planner::new();
    let start = WorldState::new(1);
    let mut goal = Goal::new(String::from("Anything"));
    goal.push_condition(Condition::Eq(FactId(0), Value::Int(1)));
    let result = planner.plan(&start, &goal);
    assert!(matches!(result, Err(PlannerError::NoPlanFound)));
}

#[test]
fn already_satisfied_goal_yields_empty_plan() {
    let (planner, start, goal) = axe_and_wood_planner();
    let done = start.with_effects(&[
        Effect::Assign(FactId(0), Value::Int(1)),
        Effect::Assign(FactId(1), Value::Int(1)),
    ]);
    let plan = planner.plan(&done, &goal).expect("no plan found");
    assert_eq!(plan.actions, Vec::<usize>::new());
    assert_eq!(plan.total_cost, Cost(0));
}

#[test]
fn get_plan_action_is_bounds_checked() {
    let (planner, start, goal) = axe_and_wood_planner();
    let plan = planner.plan(&start, &goal).expect("no plan found");
    assert!(planner.get_plan_action(&plan, 0).is_some());
    assert!(planner.get_plan_action(&plan, 1).is_some());
    assert!(planner.get_plan_action(&plan, 2).is_none());
}

#[test]
fn successors_follow_library_order() {
    let (planner, start, _) = axe_and_wood_planner();
    // From the start state only "Get Axe" applies.
    let succ = planner.successors(&start);
    assert_eq!(succ.len(), 1);
    assert_eq!(succ[0].1, Cost(1));
    assert_eq!(succ[0].0.get(FactId(0)), Value::Int(1));
    // Once the axe is there, both actions apply, in library order.
    let armed = start.with_effects(&[Effect::Assign(FactId(0), Value::Int(1))]);
    let succ2 = planner.successors(&armed);
    assert_eq!(succ2.len(), 2);
    assert_eq!(succ2[0].1, Cost(1));
    assert_eq!(succ2[1].1, Cost(2));
    assert_eq!(succ2[1].0.get(FactId(1)), Value::Int(1));
}

#[test]
fn plan_through_indirect_conditions() {
    // The goal condition compares through a reference: fact 1 must equal
    // fact 0, which holds once an action assigns it.
    let target = FactId(0);
    let mirror = FactId(1);
    let start = WorldState::new(0)
        .with_fact(target, Value::Int(4))
        .with_fact(mirror, Value::Int(0));

    let mut copy = Action::new(String::from("Copy"), Cost(1));
    copy.push_effect(Effect::Assign(mirror, Value::Int(4)));

    let mut goal = Goal::new(String::from("Mirrored"));
    goal.push_condition(Condition::Eq(mirror, Value::Ref(target)));

    let mut planner = Planner::new();
    planner.add_action(copy);

    let plan = planner.plan(&start, &goal).expect("no plan found");
    assert_eq!(plan.actions, vec![0]);
    assert_eq!(plan.total_cost, Cost(1));
}
