//! The integer side of the direct-stiffness analysis: which degrees of
//! freedom are free or supported, the reasons an analysis cannot proceed,
//! and how a member's state is named.
use vstd::prelude::*;

use crate::model::{Model, NodeV};

verus! {

/// Reasons the analysis cannot proceed.
#[derive(Debug, PartialEq, Eq, Structural)]
pub enum SolveError {
    /// Every DOF is fixed: nothing to solve.
    NoFreeDof,
    /// The reduced stiffness matrix is singular: the structure is a mechanism
    /// (under-constrained / unstable) for the given supports.
    Singular,
}

impl SolveError {
    /// The human-readable message for this error.
    pub fn message(&self) -> (s: &'static str)
        ensures
            s@ == match self {
                SolveError::NoFreeDof => "all degrees of freedom are fixed: the model has nothing to solve"@,
                SolveError::Singular => "the stiffness matrix is singular: the truss is unstable (a mechanism) for the given supports \u{2014} add constraints or members"@,
            },
    {
        match self {
            SolveError::NoFreeDof => "all degrees of freedom are fixed: the model has nothing to solve",
            SolveError::Singular => "the stiffness matrix is singular: the truss is unstable (a mechanism) for the given supports \u{2014} add constraints or members",
        }
    }
}

/// Whether degree of freedom `d` (node `d / 3`, axis `d % 3`) is a support.
pub open spec fn dof_fixed(nodes: Seq<NodeV>, d: int) -> bool {
    nodes[d / 3].fixed[d % 3]
}

/// The free degrees of freedom among `0..k`, in increasing order.
pub open spec fn free_dofs_upto(nodes: Seq<NodeV>, k: nat) -> Seq<usize>
    decreases k,
{
    if k == 0 {
        seq![]
    } else {
        let r = free_dofs_upto(nodes, (k - 1) as nat);
        if dof_fixed(nodes, k - 1) {
            r
        } else {
            r.push((k - 1) as usize)
        }
    }
}

/// The free degrees of freedom of a model, in increasing order.
pub open spec fn free_dof_list(nodes: Seq<NodeV>) -> Seq<usize> {
    free_dofs_upto(nodes, 3 * nodes.len())
}

/// Number of unsupported axes of a node.
pub open spec fn unfixed_axes(n: NodeV) -> nat {
    (if n.fixed[0] {
        0nat
    } else {
        1nat
    }) + (if n.fixed[1] {
        0nat
    } else {
        1nat
    }) + (if n.fixed[2] {
        0nat
    } else {
        1nat
    })
}

/// Number of free degrees of freedom, counted node by node.
pub open spec fn free_count(nodes: Seq<NodeV>) -> nat
    decreases nodes.len(),
{
    if nodes.len() == 0 {
        0
    } else {
        free_count(nodes.drop_last()) + unfixed_axes(nodes.last())
    }
}

/// Whether a node has at least one fixed axis.
pub open spec fn is_support(n: NodeV) -> bool {
    n.fixed[0] || n.fixed[1] || n.fixed[2]
}

/// Number of nodes with at least one fixed axis.
pub open spec fn support_count(nodes: Seq<NodeV>) -> nat
    decreases nodes.len(),
{
    if nodes.len() == 0 {
        0
    } else {
        support_count(nodes.drop_last()) + if is_support(nodes.last()) {
            1nat
        } else {
            0nat
        }
    }
}

proof fn lemma_free_dofs_node(nodes: Seq<NodeV>, k: nat)
    requires
        k < nodes.len(),
    ensures
        free_dofs_upto(nodes, 3 * k + 3).len() == free_dofs_upto(nodes, 3 * k).len()
            + unfixed_axes(nodes[k as int]),
{
    assert((3 * k) / 3 == k && (3 * k) % 3 == 0);
    assert((3 * k + 1) / 3 == k && (3 * k + 1) % 3 == 1);
    assert((3 * k + 2) / 3 == k && (3 * k + 2) % 3 == 2);
    assert(free_dofs_upto(nodes, 3 * k + 1).len() == free_dofs_upto(nodes, 3 * k).len() + if nodes[k as int].fixed[0] {
        0nat
    } else {
        1nat
    });
    assert(free_dofs_upto(nodes, 3 * k + 2).len() == free_dofs_upto(nodes, 3 * k + 1).len() + if nodes[k as int].fixed[1] {
        0nat
    } else {
        1nat
    });
}

/// Counting free axes node by node gives the number of free degrees of freedom.
pub proof fn lemma_free_count(nodes: Seq<NodeV>, k: nat)
    requires
        k <= nodes.len(),
    ensures
        free_dofs_upto(nodes, 3 * k).len() == free_count(nodes.take(k as int)),
    decreases k,
{
    if k > 0 {
        lemma_free_count(nodes, (k - 1) as nat);
        lemma_free_dofs_node(nodes, (k - 1) as nat);
        assert(nodes.take(k as int).drop_last() =~= nodes.take(k - 1));
        assert(nodes.take(k as int).last() == nodes[k - 1]);
    } else {
        assert(nodes.take(0) =~= Seq::<NodeV>::empty());
    }
}

pub open spec fn dofs_fit(m: Model) -> bool {
    m.nodes.len() * 3 <= usize::MAX
}

/// The free degrees of freedom of the model (those not fixed by a support),
/// in increasing order; the analysis cannot proceed when there is none.
pub fn free_dof_indices(model: &Model) -> (r: Result<Vec<usize>, SolveError>)
    requires
        dofs_fit(*model),
    ensures
        match r {
            Ok(v) => v@ == free_dof_list(model@.nodes) && v.len() > 0,
            Err(e) => e == SolveError::NoFreeDof && free_dof_list(model@.nodes).len() == 0,
        },
{
    let ghost nodes = model@.nodes;
    let mut free: Vec<usize> = Vec::new();
    let mut n: usize = 0;
    while n < model.nodes.len()
        invariant
            n <= model.nodes.len(),
            model.nodes.len() * 3 <= usize::MAX,
            nodes == model@.nodes,
            free@ == free_dofs_upto(nodes, 3 * n as nat),
        decreases model.nodes.len() - n,
    {
        let node = &model.nodes[n];
        assert(model.nodes@[n as int]@ == nodes[n as int]);
        let mut axis: usize = 0;
        while axis < 3
            invariant
                n < model.nodes.len(),
                model.nodes.len() * 3 <= usize::MAX,
                nodes == model@.nodes,
                node@ == nodes[n as int],
                axis <= 3,
                free@ == free_dofs_upto(nodes, (3 * n + axis) as nat),
            decreases 3 - axis,
        {
            let d = n * 3 + axis;
            assert(d / 3 == n && d % 3 == axis);
            if !node.fixed[axis] {
                free.push(d);
            }
            axis += 1;
        }
        n += 1;
    }
    if free.len() == 0 {
        Err(SolveError::NoFreeDof)
    } else {
        Ok(free)
    }
}

/// Number of free degrees of freedom (axes without a support).
pub fn free_dofs(model: &Model) -> (count: usize)
    requires
        dofs_fit(*model),
    ensures
        count == free_count(model@.nodes),
{
    let ghost nodes = model@.nodes;
    let mut count: usize = 0;
    let mut n: usize = 0;
    assert(nodes.take(0) =~= Seq::<NodeV>::empty());
    while n < model.nodes.len()
        invariant
            n <= model.nodes.len(),
            model.nodes.len() * 3 <= usize::MAX,
            nodes == model@.nodes,
            count == free_count(nodes.take(n as int)),
            count <= 3 * n,
        decreases model.nodes.len() - n,
    {
        let node = &model.nodes[n];
        assert(model.nodes@[n as int]@ == nodes[n as int]);
        let mut c: usize = 0;
        if !node.fixed[0] {
            c += 1;
        }
        if !node.fixed[1] {
            c += 1;
        }
        if !node.fixed[2] {
            c += 1;
        }
        assert(nodes.take(n + 1).drop_last() =~= nodes.take(n as int));
        assert(nodes.take(n + 1).last() == nodes[n as int]);
        count = count + c;
        n += 1;
    }
    assert(nodes.take(n as int) =~= nodes);
    count
}

/// Number of nodes with at least one fixed axis.
pub fn supports(model: &Model) -> (count: usize)
    ensures
        count == support_count(model@.nodes),
{
    let ghost nodes = model@.nodes;
    let mut count: usize = 0;
    let mut n: usize = 0;
    assert(nodes.take(0) =~= Seq::<NodeV>::empty());
    while n < model.nodes.len()
        invariant
            n <= model.nodes.len(),
            nodes == model@.nodes,
            count == support_count(nodes.take(n as int)),
            count <= n,
        decreases model.nodes.len() - n,
    {
        let node = &model.nodes[n];
        assert(model.nodes@[n as int]@ == nodes[n as int]);
        assert(nodes.take(n + 1).drop_last() =~= nodes.take(n as int));
        assert(nodes.take(n + 1).last() == nodes[n as int]);
        if node.fixed[0] || node.fixed[1] || node.fixed[2] {
            count = count + 1;
        }
        n += 1;
    }
    assert(nodes.take(n as int) =~= nodes);
    count
}

/// The free degrees of freedom that the analysis solves for are exactly as
/// many as the model summary reports.
pub proof fn lemma_free_dofs_agree(nodes: Seq<NodeV>)
    ensures
        free_dof_list(nodes).len() == free_count(nodes),
{
    lemma_free_count(nodes, nodes.len());
    assert(nodes.take(nodes.len() as int) =~= nodes);
}

/// The state of a member under load.
#[derive(Clone, Copy, Debug, PartialEq, Eq, Structural)]
pub enum MemberState {
    Tension,
    Compression,
    ZeroForce,
}

/// A member is in tension when its force exceeds the tolerance, in
/// compression when it is below minus the tolerance, otherwise zero-force.
pub fn member_state(tension: bool, compression: bool) -> (s: MemberState)
    ensures
        s == (if tension {
            MemberState::Tension
        } else if compression {
            MemberState::Compression
        } else {
            MemberState::ZeroForce
        }),
{
    if tension {
        MemberState::Tension
    } else if compression {
        MemberState::Compression
    } else {
        MemberState::ZeroForce
    }
}

impl MemberState {
    /// `tension`, `compression` or `zero-force`.
    pub fn label(&self) -> (s: &'static str)
        ensures
            s@ == match self {
                MemberState::Tension => "tension"@,
                MemberState::Compression => "compression"@,
                MemberState::ZeroForce => "zero-force"@,
            },
    {
        match self {
            MemberState::Tension => "tension",
            MemberState::Compression => "compression",
            MemberState::ZeroForce => "zero-force",
        }
    }
}

} // verus!
