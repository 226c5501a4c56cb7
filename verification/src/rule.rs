//! The rule that removes a duplicate elimination from below the left input
//! of a left semi join.
//!
//! Such a join keeps a left row when some right row matches it; whether the
//! left input was freed of duplicates beforehand is left to the rest of the
//! query, so the `Distinct` there is dropped.

use crate::plan::{
    lemma_view_children, rebuild, views_of, JoinType, Plan, PlanError, PlanKind, PlanView,
};
use crate::laws::lemma_arity_preserved;
use crate::traversal::{optimize_children, rewrites};
use vstd::prelude::*;

verus! {

/// The rule. It has no state.
#[derive(Default)]
pub struct EliminateLeftSemiDistinct {}

impl EliminateLeftSemiDistinct {
    /// The rule fires at `plan`: a left semi join whose left input is a
    /// duplicate elimination.
    pub open spec fn fires(plan: PlanView) -> bool {
        &&& plan.kind == PlanKind::Join(JoinType::LeftSemi)
        &&& plan.children.len() == 2
        &&& plan.children[0].kind == PlanKind::Distinct
        &&& plan.children[0].children.len() == 1
    }

    /// What the rule makes of `plan`.
    ///
    /// Where it fires, the join is kept, over what the traversal makes of
    /// the input of the `Distinct` and of the right input: the `Distinct` is
    /// gone, and the rule is not tried at the root of either. Elsewhere the
    /// node is kept and the rule goes on in its inputs.
    pub open spec fn optimized(plan: PlanView) -> PlanView
        decreases plan, 1nat,
    {
        if Self::fires(plan) {
            plan.with(
                plan.expressions,
                seq![
                    Self::inputs_optimized(plan.children[0].children[0]),
                    Self::inputs_optimized(plan.children[1]),
                ],
            )
        } else {
            Self::inputs_optimized(plan)
        }
    }

    /// `plan` with the rule applied to each of its inputs.
    pub open spec fn inputs_optimized(plan: PlanView) -> PlanView
        decreases plan, 0nat,
    {
        plan.with(
            plan.expressions,
            Seq::new(
                plan.children.len(),
                |i: int|
                    if 0 <= i < plan.children.len() {
                        Self::optimized(plan.children[i])
                    } else {
                        arbitrary()
                    },
            ),
        )
    }

    /// Makes the rule.
    pub fn new() -> (rule: Self)
        ensures
            rule == (EliminateLeftSemiDistinct {}),
    {
        EliminateLeftSemiDistinct {}
    }

    /// Rewrites `plan`, which is left as it is, into a new plan.
    ///
    /// A plan that is well formed is always rewritten, into a plan that is
    /// well formed too. One that is not is refused with `ArityMismatch`.
    pub fn optimize(&self, plan: &Plan) -> (r: Result<Plan, PlanError>)
        ensures
            plan@.well_formed() ==> r is Ok && r->Ok_0@ == Self::optimized(plan@)
                && r->Ok_0@.well_formed(),
            !plan@.well_formed() ==> r is Err && r->Err_0 == PlanError::ArityMismatch,
        decreases plan, 1nat,
    {
        proof {
            lemma_view_children(*plan);
            if plan@.well_formed() {
                lemma_arity_preserved(plan@);
            }
        }
        if plan.kind == PlanKind::Join(JoinType::LeftSemi) && plan.children.len() == 2 {
            let distinct = &plan.children[0];
            proof {
                lemma_view_children(*distinct);
            }
            if distinct.kind == PlanKind::Distinct && distinct.children.len() == 1 {
                proof {
                    Self::lemma_fires(*plan);
                }
                let left = match self.optimize_inputs(&distinct.children[0]) {
                    Ok(left) => left,
                    Err(e) => {
                        return Err(e);
                    },
                };
                let right = match self.optimize_inputs(&plan.children[1]) {
                    Ok(right) => right,
                    Err(e) => {
                        return Err(e);
                    },
                };
                let mut inputs: Vec<Plan> = Vec::new();
                inputs.push(left);
                inputs.push(right);
                assert(views_of(inputs@) =~= seq![left@, right@]);
                return rebuild(plan, plan.expressions.clone(), inputs);
            }
        }
        self.optimize_inputs(plan)
    }

    /// Where the rule fires, the plan is well formed exactly if the input of
    /// the `Distinct` and the right input are.
    proof fn lemma_fires(plan: Plan)
        requires
            plan.kind == PlanKind::Join(JoinType::LeftSemi),
            plan.children@.len() == 2,
            plan.children@[0].kind == PlanKind::Distinct,
            plan.children@[0].children@.len() == 1,
        ensures
            Self::fires(plan@),
            plan@.children[0].children[0] == plan.children@[0].children@[0]@,
            plan@.children[1] == plan.children@[1]@,
            plan@.well_formed() <==> plan.children@[0].children@[0]@.well_formed()
                && plan.children@[1]@.well_formed(),
    {
        let distinct = plan.children@[0];
        lemma_view_children(plan);
        lemma_view_children(distinct);
        assert(plan@.children[0] == distinct@);
        assert(distinct@.children[0] == distinct.children@[0]@);
        if distinct.children@[0]@.well_formed() && plan.children@[1]@.well_formed() {
            assert forall|i: int| 0 <= i < distinct@.children.len() implies (
            #[trigger] distinct@.children[i]).well_formed() by {}
            assert(distinct@.well_formed());
            assert forall|i: int| 0 <= i < plan@.children.len() implies (
            #[trigger] plan@.children[i]).well_formed() by {}
        }
        if plan@.well_formed() {
            assert(plan@.children[0].well_formed());
            assert(plan@.children[1].well_formed());
            assert(distinct@.children[0].well_formed());
        }
    }

    /// Applies the rule to each input of `plan` and rebuilds `plan` from the
    /// results.
    fn optimize_inputs(&self, plan: &Plan) -> (r: Result<Plan, PlanError>)
        ensures
            plan@.well_formed() ==> r is Ok && r->Ok_0@ == Self::inputs_optimized(plan@),
            !plan@.well_formed() ==> r is Err && r->Err_0 == PlanError::ArityMismatch,
        decreases plan, 0nat,
    {
        let rule = |input: &Plan| -> (out: Result<Plan, PlanError>)
            requires
                decreases_to!(plan => input),
            ensures
                input@.well_formed() ==> out is Ok && out->Ok_0@ == Self::optimized(input@),
                !input@.well_formed() ==> out is Err && out->Err_0 == PlanError::ArityMismatch,
            { self.optimize(input) };
        let r = optimize_children(plan, rule);
        proof {
            lemma_view_children(*plan);
            let n = plan.children@.len() as int;
            match r {
                Ok(_) => {
                    let p = r->Ok_0;
                    lemma_view_children(p);
                    let want = Self::inputs_optimized(plan@).children;
                    assert forall|i: int| 0 <= i < n implies (#[trigger] plan@.children[i]).well_formed()
                        && p@.children[i] == want[i] by {
                        let out = Ok::<Plan, PlanError>(p.children@[i]);
                        assert(call_ensures(rule, (&plan.children@[i],), out));
                        assert(plan@.children[i] == plan.children@[i]@);
                        assert(p@.children[i] == p.children@[i]@);
                    }
                    assert(p@.children =~= want);
                    assert(p@ =~= Self::inputs_optimized(plan@));
                },
                Err(_) => {
                    let e = r->Err_0;
                    let done = choose|done: Seq<Plan>| #[trigger]
                        rewrites(rule, plan.children@, done) && if done.len() < n {
                            call_ensures(
                                rule,
                                (&plan.children@[done.len() as int],),
                                Err::<Plan, PlanError>(e),
                            )
                        } else {
                            e == PlanError::ArityMismatch && !plan.kind.admits(plan.children@.len())
                        };
                    if done.len() < n {
                        let i = done.len() as int;
                        assert(plan@.children[i] == plan.children@[i]@);
                        assert(!plan@.children[i].well_formed());
                    }
                },
            }
        }
        r
    }

    /// The name under which a pipeline of rules knows this one.
    pub fn name(&self) -> (name: &'static str)
        ensures
            name@ == "eliminate_leftsemi_distinct"@,
    {
        "eliminate_leftsemi_distinct"
    }
}

} // verus!
