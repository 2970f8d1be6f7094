use integ::cost::IntegCost;
use integ::language::{BinaryOp, ENode, Expr, UnaryOp};
use integ::saturation::eqsat_verdict;

fn sym(s: &str) -> Box<Expr> {
    Box::new(Expr::Symbol(s.to_string()))
}

fn num(n: i32) -> Box<Expr> {
    Box::new(Expr::Num(n))
}

fn bin(op: BinaryOp, a: Box<Expr>, b: Box<Expr>) -> Box<Expr> {
    Box::new(Expr::Binary(op, a, b))
}

#[test]
fn node_costs() {
    assert_eq!(IntegCost.cost(&ENode::Num(4), 9, 9), 1);
    assert_eq!(IntegCost.cost(&ENode::Symbol("x".into()), 9, 9), 1);
    assert_eq!(IntegCost.cost(&ENode::Unary(UnaryOp::Sin, 0), 5, 9), 6);
    assert_eq!(IntegCost.cost(&ENode::Binary(BinaryOp::Add, 0, 1), 2, 3), 6);
    assert_eq!(IntegCost.cost(&ENode::Binary(BinaryOp::Int, 0, 1), 2, 3), 105);
    assert_eq!(IntegCost.cost(&ENode::Binary(BinaryOp::D, 0, 1), 1, 1), 102);
}

#[test]
fn node_costs_saturate() {
    assert_eq!(IntegCost.cost(&ENode::Binary(BinaryOp::Mul, 0, 1), usize::MAX, 1), usize::MAX);
    assert_eq!(IntegCost.cost(&ENode::Unary(UnaryOp::Ln, 0), usize::MAX, 0), usize::MAX);
    assert_eq!(IntegCost.cost(&ENode::Binary(BinaryOp::Int, 0, 1), usize::MAX - 50, 0), usize::MAX);
}

#[test]
fn expression_costs() {
    // (+ (/ (pow x 3) 3) (- (* 2 x) (/ 1 x)))
    let e = bin(
        BinaryOp::Add,
        bin(BinaryOp::Div, bin(BinaryOp::Pow, sym("x"), num(3)), num(3)),
        bin(
            BinaryOp::Sub,
            bin(BinaryOp::Mul, num(2), sym("x")),
            bin(BinaryOp::Div, num(1), sym("x")),
        ),
    );
    assert_eq!(IntegCost.cost_rec(&e), 13);
    assert!(!e.has_int_or_d());
    let i = bin(BinaryOp::Int, sym("x"), sym("x"));
    assert_eq!(IntegCost.cost_rec(&i), 102);
    assert!(i.has_int_or_d());
    let ln = Expr::Unary(UnaryOp::Ln, sym("x"));
    assert_eq!(IntegCost.cost_rec(&ln), 2);
    assert!(!ln.has_int_or_d());
}

#[test]
fn unevaluated_costs_at_least_100() {
    let nested = Expr::Unary(
        UnaryOp::Exp,
        bin(BinaryOp::Add, num(1), bin(BinaryOp::D, sym("x"), sym("x"))),
    );
    assert!(nested.has_int_or_d());
    assert_eq!(IntegCost.cost_rec(&nested), 105);
    assert!(IntegCost.cost_rec(&nested) >= 100);
}

#[test]
fn eqsat_verdicts() {
    let expected = bin(BinaryOp::Mul, num(2), sym("x")); // cost 3
    let good = bin(BinaryOp::Add, sym("x"), sym("x"));
    assert!(eqsat_verdict(3, &good, &expected));
    assert!(!eqsat_verdict(4, &good, &expected));
    let unevaluated = bin(BinaryOp::Int, num(2), sym("x"));
    assert!(!eqsat_verdict(1, &unevaluated, &expected));
}
