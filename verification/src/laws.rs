//! What holds of the rule on every plan.

use crate::plan::{JoinType, PlanKind, PlanView};
use crate::rule::EliminateLeftSemiDistinct;
use vstd::prelude::*;

verus! {

/// The rule fires at `plan` or at a node below it.
pub open spec fn contains_target(plan: PlanView) -> bool
    decreases plan,
{
    ||| EliminateLeftSemiDistinct::fires(plan)
    ||| exists|i: int| 0 <= i < plan.children.len() && contains_target(#[trigger] plan.children[i])
}

/// The rule keeps the root of a plan: its kind, its metadata and its
/// expressions stay, whatever happens to its inputs.
pub proof fn lemma_root_kept(plan: PlanView)
    ensures
        EliminateLeftSemiDistinct::optimized(plan).kind == plan.kind,
        EliminateLeftSemiDistinct::optimized(plan).metadata == plan.metadata,
        EliminateLeftSemiDistinct::optimized(plan).expressions == plan.expressions,
        EliminateLeftSemiDistinct::optimized(plan).children.len() == plan.children.len(),
{
}

/// The rule keeps plans well formed: in what it returns, as in what it was
/// given, every join has exactly two inputs and every duplicate elimination
/// has one.
pub proof fn lemma_arity_preserved(plan: PlanView)
    requires
        plan.well_formed(),
    ensures
        EliminateLeftSemiDistinct::optimized(plan).well_formed(),
        EliminateLeftSemiDistinct::inputs_optimized(plan).well_formed(),
    decreases plan,
{
    let inputs = EliminateLeftSemiDistinct::inputs_optimized(plan);
    assert forall|i: int| 0 <= i < inputs.children.len() implies (
    #[trigger] inputs.children[i]).well_formed() by {
        assert(plan.children[i].well_formed());
        lemma_arity_preserved(plan.children[i]);
    }
    if EliminateLeftSemiDistinct::fires(plan) {
        let distinct = plan.children[0];
        assert(distinct.well_formed());
        assert(distinct.children[0].well_formed());
        assert(plan.children[1].well_formed());
        lemma_arity_preserved(distinct.children[0]);
        lemma_arity_preserved(plan.children[1]);
        let out = EliminateLeftSemiDistinct::optimized(plan);
        assert forall|i: int| 0 <= i < out.children.len() implies (
        #[trigger] out.children[i]).well_formed() by {}
    }
}

/// Where the rule fires, the join stays, with its type, metadata and
/// expressions, and its inputs become what the traversal makes of the input
/// of the `Distinct` and of the right input.
pub proof fn lemma_rewrite_at_target(plan: PlanView)
    requires
        EliminateLeftSemiDistinct::fires(plan),
    ensures
        EliminateLeftSemiDistinct::optimized(plan) == (PlanView {
            kind: PlanKind::Join(JoinType::LeftSemi),
            metadata: plan.metadata,
            expressions: plan.expressions,
            children: seq![
                EliminateLeftSemiDistinct::inputs_optimized(plan.children[0].children[0]),
                EliminateLeftSemiDistinct::inputs_optimized(plan.children[1]),
            ],
        }),
{
}

/// Below a left semi join the `Distinct` on the left goes: the join stays,
/// over the rewritten input of the `Distinct` and the rewritten right input.
///
/// The rule is not tried at the root of either of the two; what it returns
/// for them is what it makes of them only where it would not have fired
/// there.
pub proof fn lemma_targeted_rewrite(plan: PlanView)
    requires
        plan.kind == PlanKind::Join(JoinType::LeftSemi),
        plan.children.len() == 2,
        plan.children[0].kind == PlanKind::Distinct,
        plan.children[0].children.len() == 1,
        !EliminateLeftSemiDistinct::fires(plan.children[0].children[0]),
        !EliminateLeftSemiDistinct::fires(plan.children[1]),
    ensures
        EliminateLeftSemiDistinct::optimized(plan) == plan.with(
            plan.expressions,
            seq![
                EliminateLeftSemiDistinct::optimized(plan.children[0].children[0]),
                EliminateLeftSemiDistinct::optimized(plan.children[1]),
            ],
        ),
        EliminateLeftSemiDistinct::optimized(plan).children[0].kind
            == plan.children[0].children[0].kind,
{
}

/// A join of any other type keeps the `Distinct` on its left: the rule goes
/// on below the `Distinct` and in the right input, and changes nothing else.
pub proof fn lemma_non_interference(plan: PlanView, join_type: JoinType)
    requires
        plan.kind == PlanKind::Join(join_type),
        join_type != JoinType::LeftSemi,
        plan.children.len() == 2,
        plan.children[0].kind == PlanKind::Distinct,
        plan.children[0].children.len() == 1,
    ensures
        EliminateLeftSemiDistinct::optimized(plan) == plan.with(
            plan.expressions,
            seq![
                plan.children[0].with(
                    plan.children[0].expressions,
                    seq![EliminateLeftSemiDistinct::optimized(plan.children[0].children[0])],
                ),
                EliminateLeftSemiDistinct::optimized(plan.children[1]),
            ],
        ),
{
    let out = EliminateLeftSemiDistinct::optimized(plan);
    let distinct = plan.children[0];
    let kept = distinct.with(
        distinct.expressions,
        seq![EliminateLeftSemiDistinct::optimized(distinct.children[0])],
    );
    assert(!EliminateLeftSemiDistinct::fires(distinct));
    assert(EliminateLeftSemiDistinct::optimized(distinct).children =~= kept.children);
    assert(out.children[0] == kept);
    assert(out.children =~= seq![kept, EliminateLeftSemiDistinct::optimized(plan.children[1])]);
}

/// Where the rule does not fire at a node, the node is kept, over what the
/// rule makes of each of its inputs.
pub proof fn lemma_pass_through(plan: PlanView)
    requires
        !EliminateLeftSemiDistinct::fires(plan),
    ensures
        EliminateLeftSemiDistinct::optimized(plan).kind == plan.kind,
        EliminateLeftSemiDistinct::optimized(plan).metadata == plan.metadata,
        EliminateLeftSemiDistinct::optimized(plan).expressions == plan.expressions,
        EliminateLeftSemiDistinct::optimized(plan).children.len() == plan.children.len(),
        forall|i: int|
            0 <= i < plan.children.len() ==> #[trigger] EliminateLeftSemiDistinct::optimized(
                plan,
            ).children[i] == EliminateLeftSemiDistinct::optimized(plan.children[i]),
{
}

/// A plan in which the rule fires nowhere comes back as it was.
pub proof fn lemma_unchanged_without_target(plan: PlanView)
    requires
        !contains_target(plan),
    ensures
        EliminateLeftSemiDistinct::optimized(plan) == plan,
    decreases plan,
{
    let out = EliminateLeftSemiDistinct::optimized(plan);
    assert forall|i: int| 0 <= i < plan.children.len() implies out.children[i]
        == plan.children[i] by {
        assert(!contains_target(plan.children[i]));
        lemma_unchanged_without_target(plan.children[i]);
    }
    assert(out.children =~= plan.children);
}

/// Trees that are no larger one by one are no larger taken together.
proof fn lemma_total_size_monotone(small: Seq<PlanView>, large: Seq<PlanView>)
    requires
        small.len() == large.len(),
        forall|i: int| 0 <= i < small.len() ==> small[i].size() <= large[i].size(),
    ensures
        PlanView::total_size(small) <= PlanView::total_size(large),
    decreases small.len(),
{
    if small.len() > 0 {
        lemma_total_size_monotone(small.drop_last(), large.drop_last());
    }
}

/// The rule never adds a node, and where it fires it takes one away.
pub proof fn lemma_size_not_grown(plan: PlanView)
    ensures
        EliminateLeftSemiDistinct::optimized(plan).size() <= plan.size(),
        EliminateLeftSemiDistinct::inputs_optimized(plan).size() <= plan.size(),
        EliminateLeftSemiDistinct::fires(plan) ==> EliminateLeftSemiDistinct::optimized(
            plan,
        ).size() < plan.size(),
    decreases plan,
{
    let inputs = EliminateLeftSemiDistinct::inputs_optimized(plan);
    assert forall|i: int| 0 <= i < plan.children.len() implies inputs.children[i].size()
        <= plan.children[i].size() by {
        lemma_size_not_grown(plan.children[i]);
    }
    lemma_total_size_monotone(inputs.children, plan.children);
    if EliminateLeftSemiDistinct::fires(plan) {
        let distinct = plan.children[0];
        let left = EliminateLeftSemiDistinct::inputs_optimized(distinct.children[0]);
        let right = EliminateLeftSemiDistinct::inputs_optimized(plan.children[1]);
        lemma_size_not_grown(distinct.children[0]);
        lemma_size_not_grown(plan.children[1]);
        lemma_total_size_pair(seq![left, right]);
        lemma_total_size_pair(plan.children);
        lemma_total_size_single(distinct.children);
    }
}

/// Where the rule fires at the root and nowhere further down, the plan
/// loses exactly one node, the `Distinct`.
pub proof fn lemma_one_node_fewer(plan: PlanView)
    requires
        EliminateLeftSemiDistinct::fires(plan),
        forall|i: int|
            0 <= i < plan.children[0].children[0].children.len() ==> !contains_target(
                #[trigger] plan.children[0].children[0].children[i],
            ),
        forall|i: int|
            0 <= i < plan.children[1].children.len() ==> !contains_target(
                #[trigger] plan.children[1].children[i],
            ),
    ensures
        EliminateLeftSemiDistinct::optimized(plan).size() + 1 == plan.size(),
        EliminateLeftSemiDistinct::optimized(plan) == plan.with(
            plan.expressions,
            seq![plan.children[0].children[0], plan.children[1]],
        ),
{
    let distinct = plan.children[0];
    let left = distinct.children[0];
    let right = plan.children[1];
    lemma_inputs_unchanged(left);
    lemma_inputs_unchanged(right);
    lemma_total_size_pair(seq![left, right]);
    lemma_total_size_pair(plan.children);
    lemma_total_size_single(distinct.children);
}

/// A node whose inputs hold no place for the rule to fire comes out of the
/// traversal as it was.
proof fn lemma_inputs_unchanged(plan: PlanView)
    requires
        forall|i: int|
            0 <= i < plan.children.len() ==> !contains_target(#[trigger] plan.children[i]),
    ensures
        EliminateLeftSemiDistinct::inputs_optimized(plan) == plan,
{
    let out = EliminateLeftSemiDistinct::inputs_optimized(plan);
    assert forall|i: int| 0 <= i < plan.children.len() implies out.children[i]
        == plan.children[i] by {
        lemma_unchanged_without_target(plan.children[i]);
    }
    assert(out.children =~= plan.children);
}

/// The size of two trees together.
proof fn lemma_total_size_pair(trees: Seq<PlanView>)
    requires
        trees.len() == 2,
    ensures
        PlanView::total_size(trees) == trees[0].size() + trees[1].size(),
{
    lemma_total_size_single(trees.drop_last());
}

/// The size of one tree alone.
proof fn lemma_total_size_single(trees: Seq<PlanView>)
    requires
        trees.len() == 1,
    ensures
        PlanView::total_size(trees) == trees[0].size(),
{
    assert(PlanView::total_size(trees.drop_last()) == 0);
}

/// A plan in which the rule fires somewhere does not come back as it was.
pub proof fn lemma_changed_with_target(plan: PlanView)
    requires
        contains_target(plan),
    ensures
        EliminateLeftSemiDistinct::optimized(plan) != plan,
    decreases plan,
{
    if EliminateLeftSemiDistinct::fires(plan) {
        lemma_size_not_grown(plan);
    } else {
        let i = choose|i: int|
            0 <= i < plan.children.len() && contains_target(#[trigger] plan.children[i]);
        lemma_changed_with_target(plan.children[i]);
        assert(EliminateLeftSemiDistinct::optimized(plan).children[i]
            == EliminateLeftSemiDistinct::optimized(plan.children[i]));
    }
}

/// The plans that the rule leaves as they are, are those in which it fires
/// nowhere.
pub proof fn lemma_fixed_points(plan: PlanView)
    ensures
        EliminateLeftSemiDistinct::optimized(plan) == plan <==> !contains_target(plan),
{
    if contains_target(plan) {
        lemma_changed_with_target(plan);
    } else {
        lemma_unchanged_without_target(plan);
    }
}

/// Applying the rule a second time changes nothing, provided that the first
/// application left no place for the rule to fire.
///
/// A place is left where the rule had fired on a join whose `Distinct` stood
/// over another `Distinct`, or where the input of that `Distinct` or the
/// right input is a join on which the rule fires as well: the rule is not
/// tried at the root of either.
pub proof fn lemma_idempotent(plan: PlanView)
    requires
        !contains_target(EliminateLeftSemiDistinct::optimized(plan)),
    ensures
        EliminateLeftSemiDistinct::optimized(EliminateLeftSemiDistinct::optimized(plan))
            == EliminateLeftSemiDistinct::optimized(plan),
{
    lemma_fixed_points(EliminateLeftSemiDistinct::optimized(plan));
}

/// Where the first application did leave a place for the rule to fire, a
/// second application changes the plan again.
pub proof fn lemma_second_pass_needed(plan: PlanView)
    requires
        contains_target(EliminateLeftSemiDistinct::optimized(plan)),
    ensures
        EliminateLeftSemiDistinct::optimized(EliminateLeftSemiDistinct::optimized(plan))
            != EliminateLeftSemiDistinct::optimized(plan),
{
    lemma_fixed_points(EliminateLeftSemiDistinct::optimized(plan));
}

} // verus!
