use dask_planner::plan::{JoinType, Plan, PlanError, PlanKind};
use dask_planner::rule::EliminateLeftSemiDistinct;

const T1: u64 = 1;
const T2: u64 = 2;
const T3: u64 = 3;
const T1_A_EQ_T2_B: u64 = 10;
const FILTER: u64 = 20;

fn scan(table: u64) -> Plan {
    Plan { kind: PlanKind::Other, metadata: table, expressions: vec![], children: vec![] }
}

fn distinct(input: Plan) -> Plan {
    Plan { kind: PlanKind::Distinct, metadata: 0, expressions: vec![], children: vec![input] }
}

fn join(join_type: JoinType, on: Vec<u64>, left: Plan, right: Plan) -> Plan {
    Plan { kind: PlanKind::Join(join_type), metadata: 0, expressions: on, children: vec![left, right] }
}

fn filter(predicate: u64, input: Plan) -> Plan {
    Plan { kind: PlanKind::Other, metadata: FILTER, expressions: vec![predicate], children: vec![input] }
}

fn optimize(plan: &Plan) -> Result<Plan, PlanError> {
    EliminateLeftSemiDistinct::new().optimize(plan)
}

#[test]
fn left_semi_join_loses_the_distinct_on_its_left() {
    let plan = join(JoinType::LeftSemi, vec![T1_A_EQ_T2_B], distinct(scan(T1)), scan(T2));
    let expected = join(JoinType::LeftSemi, vec![T1_A_EQ_T2_B], scan(T1), scan(T2));
    assert_eq!(optimize(&plan), Ok(expected));
}

#[test]
fn inner_join_keeps_the_distinct_on_its_left() {
    let plan = join(JoinType::Inner, vec![], distinct(scan(T1)), scan(T2));
    let expected = join(JoinType::Inner, vec![], distinct(scan(T1)), scan(T2));
    assert_eq!(optimize(&plan), Ok(expected));
}

#[test]
fn distinct_at_the_root_stays() {
    let plan = distinct(scan(T1));
    assert_eq!(optimize(&plan), Ok(distinct(scan(T1))));
}

#[test]
fn every_other_join_type_keeps_the_distinct() {
    let others = [
        JoinType::Inner,
        JoinType::Left,
        JoinType::Right,
        JoinType::Full,
        JoinType::RightSemi,
        JoinType::LeftAnti,
        JoinType::RightAnti,
    ];
    for join_type in others {
        let plan = join(join_type, vec![T1_A_EQ_T2_B], distinct(scan(T1)), scan(T2));
        let out = optimize(&plan).unwrap();
        assert_eq!(out.children[0].kind, PlanKind::Distinct);
        assert_eq!(out, join(join_type, vec![T1_A_EQ_T2_B], distinct(scan(T1)), scan(T2)));
    }
}

#[test]
fn distinct_on_the_right_stays() {
    let plan = join(JoinType::LeftSemi, vec![], scan(T1), distinct(scan(T2)));
    assert_eq!(optimize(&plan), Ok(join(JoinType::LeftSemi, vec![], scan(T1), distinct(scan(T2)))));
}

#[test]
fn input_is_left_untouched() {
    let plan = join(JoinType::LeftSemi, vec![T1_A_EQ_T2_B], distinct(scan(T1)), scan(T2));
    let _ = optimize(&plan);
    assert_eq!(plan, join(JoinType::LeftSemi, vec![T1_A_EQ_T2_B], distinct(scan(T1)), scan(T2)));
}

#[test]
fn metadata_and_expressions_are_carried_over() {
    let mut plan = join(JoinType::LeftSemi, vec![7, 8, 9], distinct(scan(T1)), scan(T2));
    plan.metadata = 77;
    let out = optimize(&plan).unwrap();
    assert_eq!(out.kind, PlanKind::Join(JoinType::LeftSemi));
    assert_eq!(out.metadata, 77);
    assert_eq!(out.expressions, vec![7, 8, 9]);
    assert_eq!(out.children.len(), 2);
}

#[test]
fn rule_fires_below_other_nodes() {
    let target = join(JoinType::LeftSemi, vec![T1_A_EQ_T2_B], distinct(scan(T1)), scan(T2));
    let plan = filter(5, filter(6, target));
    let rewritten = join(JoinType::LeftSemi, vec![T1_A_EQ_T2_B], scan(T1), scan(T2));
    assert_eq!(optimize(&plan), Ok(filter(5, filter(6, rewritten))));
}

#[test]
fn rule_fires_below_the_distinct_of_another_join() {
    let inner = join(JoinType::LeftSemi, vec![], distinct(scan(T1)), scan(T2));
    let plan = join(JoinType::Inner, vec![], distinct(inner), scan(T3));
    let rewritten = join(JoinType::LeftSemi, vec![], scan(T1), scan(T2));
    assert_eq!(optimize(&plan), Ok(join(JoinType::Inner, vec![], distinct(rewritten), scan(T3))));
}

#[test]
fn rule_is_not_tried_at_the_root_of_what_moves_up() {
    // The input of the dropped Distinct is itself a join on which the rule
    // would fire: it is traversed, not rewritten at its root.
    let inner = join(JoinType::LeftSemi, vec![], distinct(scan(T1)), scan(T2));
    let plan = join(JoinType::LeftSemi, vec![], distinct(inner), scan(T3));
    let kept = join(JoinType::LeftSemi, vec![], distinct(scan(T1)), scan(T2));
    assert_eq!(optimize(&plan), Ok(join(JoinType::LeftSemi, vec![], kept, scan(T3))));
}

#[test]
fn rule_is_not_tried_at_the_root_of_the_right_input() {
    let right = join(JoinType::LeftSemi, vec![], distinct(scan(T2)), scan(T3));
    let plan = join(JoinType::LeftSemi, vec![], distinct(scan(T1)), right);
    let kept = join(JoinType::LeftSemi, vec![], distinct(scan(T2)), scan(T3));
    assert_eq!(optimize(&plan), Ok(join(JoinType::LeftSemi, vec![], scan(T1), kept)));
}

#[test]
fn only_one_distinct_of_two_is_dropped() {
    let plan = join(JoinType::LeftSemi, vec![], distinct(distinct(scan(T1))), scan(T2));
    assert_eq!(optimize(&plan), Ok(join(JoinType::LeftSemi, vec![], distinct(scan(T1)), scan(T2))));
}

#[test]
fn second_pass_changes_nothing_when_no_target_is_left() {
    let target = join(JoinType::LeftSemi, vec![T1_A_EQ_T2_B], distinct(scan(T1)), scan(T2));
    let plan = filter(5, join(JoinType::Inner, vec![], target, distinct(scan(T3))));
    let once = optimize(&plan).unwrap();
    let twice = optimize(&once).unwrap();
    assert_eq!(twice, once);
}

#[test]
fn second_pass_fires_where_the_first_left_a_target() {
    let plan = join(JoinType::LeftSemi, vec![], distinct(distinct(scan(T1))), scan(T2));
    let once = optimize(&plan).unwrap();
    let twice = optimize(&once).unwrap();
    assert_eq!(once, join(JoinType::LeftSemi, vec![], distinct(scan(T1)), scan(T2)));
    assert_eq!(twice, join(JoinType::LeftSemi, vec![], scan(T1), scan(T2)));
}

#[test]
fn plan_without_target_comes_back_as_it_was() {
    let plan = filter(1, join(JoinType::Left, vec![2], filter(3, scan(T1)), distinct(scan(T2))));
    let same = filter(1, join(JoinType::Left, vec![2], filter(3, scan(T1)), distinct(scan(T2))));
    assert_eq!(optimize(&plan), Ok(same));
}

#[test]
fn joins_keep_two_inputs() {
    let target = join(JoinType::LeftSemi, vec![], distinct(scan(T1)), scan(T2));
    let plan = join(JoinType::Full, vec![], target, distinct(scan(T3)));
    let out = optimize(&plan).unwrap();
    assert!(out.is_well_formed());
    assert_eq!(out.children.len(), 2);
    assert_eq!(out.children[0].kind, PlanKind::Join(JoinType::LeftSemi));
    assert_eq!(out.children[0].children.len(), 2);
    assert_eq!(out.children[1].children.len(), 1);
}

#[test]
fn join_with_one_input_is_refused() {
    let mut plan = join(JoinType::LeftSemi, vec![], distinct(scan(T1)), scan(T2));
    plan.children.pop();
    assert_eq!(optimize(&plan), Err(PlanError::ArityMismatch));
}

#[test]
fn distinct_without_input_is_refused_wherever_it_stands() {
    let mut bad = distinct(scan(T1));
    bad.children.clear();
    let plan = filter(1, join(JoinType::LeftSemi, vec![], bad, scan(T2)));
    assert_eq!(optimize(&plan), Err(PlanError::ArityMismatch));
}

#[test]
fn malformed_input_of_the_dropped_distinct_is_refused() {
    let mut bad = distinct(scan(T1));
    bad.children.push(scan(T3));
    let plan = join(JoinType::LeftSemi, vec![], distinct(filter(1, bad)), scan(T2));
    assert_eq!(optimize(&plan), Err(PlanError::ArityMismatch));
}

#[test]
fn rule_has_its_name() {
    assert_eq!(EliminateLeftSemiDistinct::new().name(), "eliminate_leftsemi_distinct");
    assert_eq!(EliminateLeftSemiDistinct::default().name(), "eliminate_leftsemi_distinct");
}

fn nodes(plan: &Plan) -> usize {
    1 + plan.children.iter().map(nodes).sum::<usize>()
}

#[test]
fn one_firing_takes_one_node_away() {
    let plan = filter(1, join(JoinType::LeftSemi, vec![], distinct(filter(2, scan(T1))), scan(T2)));
    let out = optimize(&plan).unwrap();
    assert_eq!(nodes(&plan), 6);
    assert_eq!(nodes(&out), 5);
}

#[test]
fn two_firings_take_two_nodes_away() {
    let a = join(JoinType::LeftSemi, vec![], distinct(scan(T1)), scan(T2));
    let b = join(JoinType::LeftSemi, vec![], distinct(scan(T2)), scan(T3));
    let plan = join(JoinType::Inner, vec![], a, b);
    let out = optimize(&plan).unwrap();
    assert_eq!(nodes(&plan), 9);
    assert_eq!(nodes(&out), 7);
}
