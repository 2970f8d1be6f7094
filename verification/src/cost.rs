use vstd::prelude::*;
use crate::language::{BinaryOp, ENode, Expr};

verus! {

/// `a + b`, saturating at `usize::MAX`.
pub open spec fn sat_add(a: int, b: int) -> int {
    if a + b > usize::MAX { usize::MAX as int } else { a + b }
}

/// The cost of an operator node before its children are added: an
/// unevaluated derivative or integral costs 100, everything else 1.
pub open spec fn op_cost(op: BinaryOp) -> int {
    if op == BinaryOp::D || op == BinaryOp::Int { 100 } else { 1 }
}

/// The cost of one e-node given the costs of its children, added to the
/// node's own cost from left to right, saturating.
pub open spec fn spec_node_cost(node: ENode, lhs: int, rhs: int) -> int {
    match node {
        ENode::Binary(op, _, _) => sat_add(sat_add(op_cost(op), lhs), rhs),
        ENode::Unary(_, _) => sat_add(1, lhs),
        _ => 1,
    }
}

/// The cost of a whole expression tree.
pub open spec fn spec_expr_cost(e: Expr) -> int
    decreases e,
{
    match e {
        Expr::Binary(op, a, b) => sat_add(
            sat_add(op_cost(op), spec_expr_cost(*a)),
            spec_expr_cost(*b),
        ),
        Expr::Unary(_, a) => sat_add(1, spec_expr_cost(*a)),
        _ => 1,
    }
}

/// Cost model of extraction: it penalises unevaluated `d` and `int` nodes
/// so that fully evaluated forms are preferred.
#[derive(Clone, Copy, Debug)]
pub struct IntegCost;

impl IntegCost {
    /// The cost of an e-node whose first and second children cost `lhs`
    /// and `rhs` (ignored when the node has fewer children).
    pub fn cost(&self, node: &ENode, lhs: usize, rhs: usize) -> (r: usize)
        ensures
            r == spec_node_cost(*node, lhs as int, rhs as int),
            // monotone, as extraction requires: never below a child's cost,
            // and strictly above it unless the cost saturated
            node matches ENode::Unary(_, _) ==> r >= lhs && (r < usize::MAX ==> r > lhs),
            node matches ENode::Binary(_, _, _) ==> r >= lhs && r >= rhs && (r < usize::MAX ==> r
                > lhs && r > rhs),
    {
        match node {
            ENode::Binary(op, _, _) => {
                let base: usize = match op {
                    BinaryOp::D => 100,
                    BinaryOp::Int => 100,
                    _ => 1,
                };
                base.saturating_add(lhs).saturating_add(rhs)
            },
            ENode::Unary(_, _) => 1usize.saturating_add(lhs),
            _ => 1,
        }
    }

    /// The cost of a whole expression.
    pub fn cost_rec(&self, e: &Expr) -> (r: usize)
        ensures
            r == spec_expr_cost(*e),
        decreases e,
    {
        match e {
            Expr::Binary(op, a, b) => {
                let ca = self.cost_rec(a);
                let cb = self.cost_rec(b);
                let base: usize = match op {
                    BinaryOp::D => 100,
                    BinaryOp::Int => 100,
                    _ => 1,
                };
                base.saturating_add(ca).saturating_add(cb)
            },
            Expr::Unary(_, a) => {
                let ca = self.cost_rec(a);
                1usize.saturating_add(ca)
            },
            _ => 1,
        }
    }
}

/// Law: every expression costs at least 1 and at most `usize::MAX`, and
/// an expression costs at least as much as each of its direct subterms.
pub proof fn cost_bounds(e: Expr)
    ensures
        1 <= spec_expr_cost(e) <= usize::MAX,
        e matches Expr::Unary(_, a) ==> spec_expr_cost(*a) <= spec_expr_cost(e),
        e matches Expr::Binary(_, a, b) ==> spec_expr_cost(*a) <= spec_expr_cost(e)
            && spec_expr_cost(*b) <= spec_expr_cost(e),
    decreases e,
{
    match e {
        Expr::Binary(_, a, b) => {
            cost_bounds(*a);
            cost_bounds(*b);
        },
        Expr::Unary(_, a) => {
            cost_bounds(*a);
        },
        _ => {},
    }
}

/// Law: the cost of an expression is the node cost of its root applied to
/// the costs of its children, as an extractor folds the node costs.
pub proof fn expression_cost_folds_node_costs(e: Expr, lhs_id: usize, rhs_id: usize)
    ensures
        e matches Expr::Binary(op, a, b) ==> spec_expr_cost(e) == spec_node_cost(
            ENode::Binary(op, lhs_id, rhs_id),
            spec_expr_cost(*a),
            spec_expr_cost(*b),
        ),
        e matches Expr::Unary(op, a) ==> spec_expr_cost(e) == spec_node_cost(
            ENode::Unary(op, lhs_id),
            spec_expr_cost(*a),
            0,
        ),
        e matches Expr::Num(n) ==> spec_expr_cost(e) == spec_node_cost(ENode::Num(n), 0, 0),
{
}

/// Law: an expression that still holds an unevaluated `d` or `int` node
/// costs at least 100, more than any of the rules' small closed forms
/// without them.
pub proof fn unevaluated_costs_at_least_100(e: Expr)
    requires
        e.spec_has_int_or_d(),
    ensures
        spec_expr_cost(e) >= 100,
    decreases e,
{
    match e {
        Expr::Binary(op, a, b) => {
            cost_bounds(*a);
            cost_bounds(*b);
            if !(op == BinaryOp::D || op == BinaryOp::Int) {
                if a.spec_has_int_or_d() {
                    unevaluated_costs_at_least_100(*a);
                } else {
                    unevaluated_costs_at_least_100(*b);
                }
            }
        },
        Expr::Unary(_, a) => {
            cost_bounds(*a);
            unevaluated_costs_at_least_100(*a);
        },
        _ => {},
    }
}

} // verus!
