use integ::fold::{checked_pow, is_const, is_not_neg1, prune_to_leaves, ConstantFold, ModifyPlan};
use integ::language::{BinaryOp, ENode, Expr, UnaryOp};

fn num(n: i32) -> Box<Expr> {
    Box::new(Expr::Num(n))
}

fn justify(op: BinaryOp, a: i32, b: i32) -> Expr {
    Expr::Binary(op, num(a), num(b))
}

fn bin(op: BinaryOp) -> ENode {
    ENode::Binary(op, 0, 1)
}

#[test]
fn make_number_is_its_own_constant() {
    assert_eq!(ConstantFold::make(&ENode::Num(7), None, None), Some((7, Expr::Num(7))));
}

#[test]
fn make_adds_subtracts_multiplies() {
    assert_eq!(
        ConstantFold::make(&bin(BinaryOp::Add), Some(2), Some(3)),
        Some((5, justify(BinaryOp::Add, 2, 3)))
    );
    assert_eq!(
        ConstantFold::make(&bin(BinaryOp::Sub), Some(2), Some(3)),
        Some((-1, justify(BinaryOp::Sub, 2, 3)))
    );
    assert_eq!(
        ConstantFold::make(&bin(BinaryOp::Mul), Some(-4), Some(3)),
        Some((-12, justify(BinaryOp::Mul, -4, 3)))
    );
}

#[test]
fn make_refuses_overflow() {
    assert_eq!(ConstantFold::make(&bin(BinaryOp::Add), Some(i32::MAX), Some(1)), None);
    assert_eq!(ConstantFold::make(&bin(BinaryOp::Sub), Some(i32::MIN), Some(1)), None);
    assert_eq!(ConstantFold::make(&bin(BinaryOp::Mul), Some(65536), Some(65536)), None);
}

#[test]
fn make_powers() {
    assert_eq!(
        ConstantFold::make(&bin(BinaryOp::Pow), Some(2), Some(10)),
        Some((1024, justify(BinaryOp::Pow, 2, 10)))
    );
    assert_eq!(
        ConstantFold::make(&bin(BinaryOp::Pow), Some(0), Some(0)),
        Some((1, justify(BinaryOp::Pow, 0, 0)))
    );
    assert_eq!(ConstantFold::make(&bin(BinaryOp::Pow), Some(2), Some(31)), None);
    assert_eq!(
        ConstantFold::make(&bin(BinaryOp::Pow), Some(-2), Some(31)),
        Some((i32::MIN, justify(BinaryOp::Pow, -2, 31)))
    );
}

#[test]
fn make_negative_exponents() {
    assert_eq!(
        ConstantFold::make(&bin(BinaryOp::Pow), Some(-1), Some(-3)),
        Some((-1, Expr::Num(-1)))
    );
    assert_eq!(
        ConstantFold::make(&bin(BinaryOp::Pow), Some(-1), Some(-4)),
        Some((1, Expr::Num(1)))
    );
    assert_eq!(
        ConstantFold::make(&bin(BinaryOp::Pow), Some(1), Some(-7)),
        Some((1, Expr::Num(1)))
    );
    assert_eq!(ConstantFold::make(&bin(BinaryOp::Pow), Some(2), Some(-1)), None);
    assert_eq!(ConstantFold::make(&bin(BinaryOp::Pow), Some(i32::MIN), Some(-1)), None);
}

#[test]
fn make_leaves_other_nodes_alone() {
    assert_eq!(ConstantFold::make(&bin(BinaryOp::Div), Some(6), Some(3)), None);
    assert_eq!(ConstantFold::make(&bin(BinaryOp::Int), Some(6), Some(3)), None);
    assert_eq!(ConstantFold::make(&bin(BinaryOp::D), Some(6), Some(3)), None);
    assert_eq!(ConstantFold::make(&ENode::Unary(UnaryOp::Sin, 0), Some(0), None), None);
    assert_eq!(ConstantFold::make(&ENode::Symbol("x".to_string()), None, None), None);
    assert_eq!(ConstantFold::make(&bin(BinaryOp::Add), Some(1), None), None);
    assert_eq!(ConstantFold::make(&bin(BinaryOp::Add), None, Some(1)), None);
}

#[test]
fn checked_pow_values() {
    assert_eq!(checked_pow(3, 4), Some(81));
    assert_eq!(checked_pow(-3, 3), Some(-27));
    assert_eq!(checked_pow(7, 0), Some(1));
    assert_eq!(checked_pow(0, 5), Some(0));
    assert_eq!(checked_pow(-1, 4_000_000_001), Some(-1));
    assert_eq!(checked_pow(1, u32::MAX), Some(1));
    assert_eq!(checked_pow(2, 30), Some(1 << 30));
    assert_eq!(checked_pow(2, u32::MAX), None);
    assert_eq!(checked_pow(10, 10), None);
    for b in -12i32..=12 {
        for e in 0u32..40 {
            assert_eq!(checked_pow(b, e), b.checked_pow(e), "{}^{}", b, e);
        }
    }
}

#[test]
fn merge_takes_a_constant_over_none() {
    let mut cf = ConstantFold::default();
    let mut to: Option<(i32, u8)> = None;
    assert_eq!(cf.merge(&mut to, Some((4, 1))), (true, false));
    assert_eq!(to, Some((4, 1)));
    assert!(!cf.unsound);

    let mut to: Option<(i32, u8)> = Some((4, 1));
    assert_eq!(cf.merge(&mut to, None), (false, true));
    assert_eq!(to, Some((4, 1)));

    let mut to: Option<(i32, u8)> = None;
    assert_eq!(cf.merge(&mut to, None), (false, false));
    assert_eq!(to, None);
    assert!(!cf.unsound);
}

#[test]
fn merge_of_different_constants_is_unsound_and_sticky() {
    let mut cf = ConstantFold::default();
    let mut to: Option<(i32, u8)> = Some((3, 1));
    assert_eq!(cf.merge(&mut to, Some((3, 2))), (false, false));
    assert_eq!(to, Some((3, 1)));
    assert!(!cf.unsound);

    assert_eq!(cf.merge(&mut to, Some((5, 2))), (false, false));
    assert_eq!(to, Some((3, 1)));
    assert!(cf.unsound);

    let mut other: Option<(i32, u8)> = None;
    cf.merge(&mut other, Some((9, 9)));
    assert!(cf.unsound);
}

#[test]
fn modify_plans() {
    assert_eq!(ConstantFold::modify_plan::<u8>(None, false), ModifyPlan::Keep);
    assert_eq!(ConstantFold::modify_plan(Some((6, 'p')), false), ModifyPlan::AddConstant(6));
    assert_eq!(
        ConstantFold::modify_plan(Some((6, 'p')), true),
        ModifyPlan::Explain { from: 'p', to: 6 }
    );
}

#[test]
fn pruning_keeps_leaves_in_order() {
    let mut nodes = vec![
        ENode::Binary(BinaryOp::Add, 1, 2),
        ENode::Num(3),
        ENode::Unary(UnaryOp::Ln, 4),
        ENode::Symbol("y".to_string()),
        ENode::Binary(BinaryOp::Mul, 1, 1),
    ];
    prune_to_leaves(&mut nodes);
    assert_eq!(nodes, vec![ENode::Num(3), ENode::Symbol("y".to_string())]);
    prune_to_leaves(&mut nodes);
    assert_eq!(nodes, vec![ENode::Num(3), ENode::Symbol("y".to_string())]);
    let mut none: Vec<ENode> = vec![ENode::Unary(UnaryOp::Exp, 0)];
    prune_to_leaves(&mut none);
    assert!(none.is_empty());
}

#[test]
fn rule_conditions_on_class_data() {
    assert!(is_const(&Some((0, ()))));
    assert!(!is_const::<()>(&None));
    assert!(is_not_neg1(&Some((2, ()))));
    assert!(!is_not_neg1(&Some((-1, ()))));
    assert!(is_not_neg1::<()>(&None));
}

#[test]
fn fold_justification_evaluates_to_constant() {
    // the recorded term of a folded node is the node applied to the
    // constants, whose value is the folded constant
    for (op, a, b, c) in [
        (BinaryOp::Add, 20, 22, 42),
        (BinaryOp::Sub, 20, 22, -2),
        (BinaryOp::Mul, 6, 7, 42),
        (BinaryOp::Pow, 3, 3, 27),
    ] {
        let (v, pat) = ConstantFold::make(&bin(op), Some(a), Some(b)).unwrap();
        assert_eq!(v, c);
        assert_eq!(pat, justify(op, a, b));
    }
}
