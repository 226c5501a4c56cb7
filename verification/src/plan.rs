//! Logical query plans: an immutable tree of operators.
//!
//! A rewrite only needs to know what kind of operator a node is and what its
//! inputs are. Everything else a planner knows about a node (the table that
//! is scanned, the schema, the join constraint) stays in the planner's own
//! tables and is referred to by the node's `metadata` handle; the
//! expressions of a node are handles of the same sort. A rewrite carries
//! both along without looking at them.

use vstd::prelude::*;

verus! {

/// The way a join combines the rows of its two inputs.
#[derive(Clone, Copy, Debug, PartialEq, Eq, Structural)]
pub enum JoinType {
    Inner,
    Left,
    Right,
    Full,
    LeftSemi,
    RightSemi,
    LeftAnti,
    RightAnti,
}

/// What operator a plan node is, with what is specific to that operator.
#[derive(Clone, Copy, Debug, PartialEq, Eq, Structural)]
pub enum PlanKind {
    /// Combines a left and a right input.
    Join(JoinType),
    /// Removes duplicate rows from its single input.
    Distinct,
    /// Any other operator, with any number of inputs.
    Other,
}

/// Why a plan could not be built or rewritten.
#[derive(Clone, Copy, Debug, PartialEq, Eq, Structural)]
pub enum PlanError {
    /// A node was given a number of inputs that its kind does not take.
    ArityMismatch,
    /// A rule could not rewrite one of the inputs of a node.
    ChildOptimizationFailure,
}

/// A plan as a mathematical tree.
#[verifier::ext_equal]
pub ghost struct PlanView {
    pub kind: PlanKind,
    pub metadata: u64,
    pub expressions: Seq<u64>,
    pub children: Seq<PlanView>,
}

impl PlanKind {
    /// Whether a node of this kind may have `n` inputs: two for a join, one
    /// for a duplicate elimination, any number for another operator.
    pub open spec fn admits(self, n: nat) -> bool {
        match self {
            PlanKind::Join(_) => n == 2,
            PlanKind::Distinct => n == 1,
            PlanKind::Other => true,
        }
    }

    /// Run-time form of [`PlanKind::admits`].
    pub fn takes(&self, n: usize) -> (b: bool)
        ensures
            b == self.admits(n as nat),
    {
        match self {
            PlanKind::Join(_) => n == 2,
            PlanKind::Distinct => n == 1,
            PlanKind::Other => true,
        }
    }
}

impl PlanView {
    /// Every node of the tree has a number of inputs that its kind admits.
    pub open spec fn well_formed(self) -> bool
        decreases self,
    {
        &&& self.kind.admits(self.children.len())
        &&& forall|i: int| 0 <= i < self.children.len() ==> (#[trigger] self.children[i]).well_formed()
    }

    /// The number of inputs that a node must be given to take the place of
    /// this one: what its kind fixes, or else as many as this node has.
    pub open spec fn arity(self) -> nat {
        match self.kind {
            PlanKind::Join(_) => 2,
            PlanKind::Distinct => 1,
            PlanKind::Other => self.children.len(),
        }
    }

    /// This node with other expressions and other inputs.
    pub open spec fn with(self, expressions: Seq<u64>, children: Seq<PlanView>) -> PlanView {
        PlanView { kind: self.kind, metadata: self.metadata, expressions, children }
    }

    /// The number of nodes in the tree.
    pub open spec fn size(self) -> nat
        decreases self,
    {
        1 + Self::total_size(self.children)
    }

    /// The number of nodes in a sequence of trees.
    pub open spec fn total_size(trees: Seq<PlanView>) -> nat
        decreases trees,
    {
        if trees.len() == 0 {
            0
        } else {
            trees.last().size() + Self::total_size(trees.drop_last())
        }
    }
}

/// A node of a logical plan, owning its inputs.
#[derive(Debug, PartialEq, Eq)]
pub struct Plan {
    pub kind: PlanKind,
    /// Handle of what else the planner knows about this node.
    pub metadata: u64,
    /// Handles of the expressions of this node, in order.
    pub expressions: Vec<u64>,
    /// The inputs of this node, in order.
    pub children: Vec<Plan>,
}

impl Plan {
    /// The tree that this plan stands for.
    pub open spec fn tree(self) -> PlanView
        decreases self,
    {
        PlanView {
            kind: self.kind,
            metadata: self.metadata,
            expressions: self.expressions@,
            children: Seq::new(
                self.children@.len(),
                |i: int|
                    if 0 <= i < self.children@.len() {
                        self.children@[i].tree()
                    } else {
                        arbitrary()
                    },
            ),
        }
    }
}

impl View for Plan {
    type V = PlanView;

    open spec fn view(&self) -> PlanView {
        self.tree()
    }
}

impl Clone for Plan {
    /// A copy of the whole plan.
    fn clone(&self) -> (copy: Self)
        ensures
            copy@ == self@,
        decreases self,
    {
        let mut children: Vec<Plan> = Vec::new();
        let mut i: usize = 0;
        while i < self.children.len()
            invariant
                i <= self.children@.len(),
                children@.len() == i,
                forall|j: int| 0 <= j < i ==> (#[trigger] children@[j])@ == self.children@[j]@,
            decreases self.children@.len() - i,
        {
            children.push(self.children[i].clone());
            i = i + 1;
        }
        let copy = Plan {
            kind: self.kind,
            metadata: self.metadata,
            expressions: self.expressions.clone(),
            children,
        };
        proof {
            lemma_view_children(*self);
            lemma_view_children(copy);
            assert(views_of(copy.children@) =~= views_of(self.children@));
        }
        copy
    }
}

/// The trees that a sequence of plans stands for, in order.
pub open spec fn views_of(plans: Seq<Plan>) -> Seq<PlanView> {
    Seq::new(plans.len(), |i: int| plans[i]@)
}

/// A plan's inputs are the trees of its `children`.
pub proof fn lemma_view_children(plan: Plan)
    ensures
        plan@.children == views_of(plan.children@),
        plan@.kind == plan.kind,
        plan@.metadata == plan.metadata,
        plan@.expressions == plan.expressions@,
{
    let mine = plan@.children;
    let theirs = views_of(plan.children@);
    assert(mine.len() == theirs.len());
    assert forall|i: int| 0 <= i < mine.len() implies mine[i] == theirs[i] by {
        assert(theirs[i] == plan.children@[i]@);
    }
    assert(mine =~= theirs);
}

/// Makes a node like `original`, with the same kind and metadata, from the
/// expressions and inputs given.
///
/// Fails with `ArityMismatch`, and only then, when the number of inputs is
/// not the one that `original` asks for.
pub fn rebuild(original: &Plan, expressions: Vec<u64>, children: Vec<Plan>) -> (r: Result<
    Plan,
    PlanError,
>)
    ensures
        children@.len() == original@.arity() ==> r is Ok && r->Ok_0 == (Plan {
            kind: original.kind,
            metadata: original.metadata,
            expressions,
            children,
        }) && r->Ok_0@ == original@.with(expressions@, views_of(children@)),
        children@.len() != original@.arity() ==> r is Err && r->Err_0 == PlanError::ArityMismatch,
{
    proof {
        lemma_view_children(*original);
    }
    let wanted: usize = match original.kind {
        PlanKind::Join(_) => 2,
        PlanKind::Distinct => 1,
        PlanKind::Other => original.children.len(),
    };
    if children.len() != wanted {
        return Err(PlanError::ArityMismatch);
    }
    let plan = Plan { kind: original.kind, metadata: original.metadata, expressions, children };
    proof {
        lemma_view_children(plan);
    }
    Ok(plan)
}

impl Plan {
    /// Whether every node of this plan has a number of inputs that its kind
    /// admits.
    pub fn is_well_formed(&self) -> (b: bool)
        ensures
            b == self@.well_formed(),
        decreases self,
    {
        proof {
            lemma_view_children(*self);
        }
        if !self.kind.takes(self.children.len()) {
            return false;
        }
        let mut i: usize = 0;
        while i < self.children.len()
            invariant
                i <= self.children@.len(),
                self@.children == views_of(self.children@),
                forall|j: int| 0 <= j < i ==> (#[trigger] self@.children[j]).well_formed(),
            decreases self.children@.len() - i,
        {
            if !self.children[i].is_well_formed() {
                assert(!self@.children[i as int].well_formed());
                return false;
            }
            i = i + 1;
        }
        true
    }
}

} // verus!
