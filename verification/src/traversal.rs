//! The default traversal of a rewrite: apply a function to every input of a
//! node and put the node together again from what comes back.

use crate::plan::{lemma_view_children, rebuild, Plan, PlanError};
use vstd::prelude::*;

verus! {

/// `outputs` are plans that `optimize` may return for the first of
/// `inputs`, in order.
pub open spec fn rewrites<F: Fn(&Plan) -> Result<Plan, PlanError>>(
    optimize: F,
    inputs: Seq<Plan>,
    outputs: Seq<Plan>,
) -> bool {
    &&& outputs.len() <= inputs.len()
    &&& forall|i: int|
        0 <= i < outputs.len() ==> call_ensures(
            optimize,
            (&inputs[i],),
            Ok::<Plan, PlanError>(#[trigger] outputs[i]),
        )
}

/// Applies `optimize` to the inputs of `plan`, from the first to the last,
/// and rebuilds `plan` from the results, with its own expressions.
///
/// The first input on which `optimize` fails ends the traversal with that
/// error, unchanged. When every input was rewritten, the only failure left
/// is `ArityMismatch`, for a node that has not the number of inputs its kind
/// admits.
pub fn optimize_children<F: Fn(&Plan) -> Result<Plan, PlanError>>(plan: &Plan, optimize: F) -> (r:
    Result<Plan, PlanError>)
    requires
        forall|i: int|
            0 <= i < plan.children@.len() ==> call_requires(
                optimize,
                (&#[trigger] plan.children@[i],),
            ),
    ensures
        r matches Ok(p) ==> {
            &&& plan.kind.admits(plan.children@.len())
            &&& p.kind == plan.kind
            &&& p.metadata == plan.metadata
            &&& p.expressions@ == plan.expressions@
            &&& p.children@.len() == plan.children@.len()
            &&& rewrites(optimize, plan.children@, p.children@)
        },
        r matches Err(e) ==> exists|done: Seq<Plan>| #[trigger]
            rewrites(optimize, plan.children@, done) && if done.len() < plan.children@.len() {
                call_ensures(
                    optimize,
                    (&plan.children@[done.len() as int],),
                    Err::<Plan, PlanError>(e),
                )
            } else {
                e == PlanError::ArityMismatch && !plan.kind.admits(plan.children@.len())
            },
{
    let mut optimized: Vec<Plan> = Vec::new();
    let mut i: usize = 0;
    while i < plan.children.len()
        invariant
            i <= plan.children@.len(),
            optimized@.len() == i,
            forall|j: int|
                0 <= j < plan.children@.len() ==> call_requires(
                    optimize,
                    (&#[trigger] plan.children@[j],),
                ),
            rewrites(optimize, plan.children@, optimized@),
        decreases plan.children@.len() - i,
    {
        match optimize(&plan.children[i]) {
            Ok(child) => {
                optimized.push(child);
            },
            Err(e) => {
                return Err(e);
            },
        }
        i = i + 1;
    }
    proof {
        lemma_view_children(*plan);
    }
    let ghost done = optimized@;
    let r = rebuild(plan, plan.expressions.clone(), optimized);
    assert(r is Err ==> rewrites(optimize, plan.children@, done));
    r
}

} // verus!
