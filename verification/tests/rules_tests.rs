use integ::language::{BinaryOp, Expr};
use integ::rules::{rules, Condition};

fn mentions(e: &Expr, c: char) -> bool {
    match e {
        Expr::Var(v) => *v == c,
        Expr::Unary(_, a) => mentions(a, c),
        Expr::Binary(_, a, b) => mentions(a, c) || mentions(b, c),
        _ => false,
    }
}

fn vars(e: &Expr, out: &mut Vec<char>) {
    match e {
        Expr::Var(v) => out.push(*v),
        Expr::Unary(_, a) => vars(a, out),
        Expr::Binary(_, a, b) => {
            vars(a, out);
            vars(b, out)
        }
        _ => {}
    }
}

#[test]
fn rule_names_in_order() {
    let names: Vec<&str> = rules().iter().map(|r| r.name).collect();
    assert_eq!(names.len(), 66);
    assert_eq!(&names[..4], &["pow2", "i-pow2", "binom2", "i-binom2"]);
    assert_eq!(names[65], "i-diff-cubes-1");
    assert_eq!(names[55], "int-exp");
    assert_eq!(names[57], "ibp");
    let mut sorted = names.clone();
    sorted.sort();
    sorted.dedup();
    assert_eq!(sorted.len(), 66);
}

#[test]
fn rules_are_well_formed() {
    for r in rules() {
        let mut vs = Vec::new();
        vars(&r.applier, &mut vs);
        for v in vs {
            assert!(mentions(&r.searcher, v), "{} uses unbound ?{}", r.name, v);
        }
        for c in &r.conditions {
            let v = match c {
                Condition::IsConst(v) | Condition::IsNotNeg1(v) => *v,
            };
            assert!(mentions(&r.searcher, v));
        }
        assert!(!matches!(r.searcher, Expr::Var(_)));
    }
}

#[test]
fn some_rules_exactly() {
    let rs = rules();
    let pow2 = &rs[0];
    assert_eq!(
        pow2.searcher,
        Expr::Binary(BinaryOp::Pow, Box::new(Expr::Var('a')), Box::new(Expr::Num(2)))
    );
    assert_eq!(
        pow2.applier,
        Expr::Binary(BinaryOp::Mul, Box::new(Expr::Var('a')), Box::new(Expr::Var('a')))
    );
    let int_pow = rs.iter().find(|r| r.name == "int-pow").unwrap();
    assert_eq!(int_pow.conditions, vec![Condition::IsConst('n'), Condition::IsNotNeg1('n')]);
    let d_const = rs.iter().find(|r| r.name == "d-const").unwrap();
    assert_eq!(d_const.applier, Expr::Num(0));
    assert_eq!(d_const.conditions, vec![Condition::IsConst('c')]);
    let pow_neg = rs.iter().find(|r| r.name == "pow-neg").unwrap();
    assert_eq!(
        pow_neg.searcher,
        Expr::Binary(BinaryOp::Pow, Box::new(Expr::Var('a')), Box::new(Expr::Num(-1)))
    );
    let conditional: Vec<&str> =
        rs.iter().filter(|r| !r.conditions.is_empty()).map(|r| r.name).collect();
    assert_eq!(
        conditional,
        vec!["int-const-mul", "int-const", "int-pow", "d-const", "d-pow", "d-const-mul"]
    );
}

fn pow_value(x: i128, y: i128) -> Option<i128> {
    if y >= 0 {
        let mut acc: i128 = 1;
        for _ in 0..y {
            acc = acc.checked_mul(x)?;
        }
        Some(acc)
    } else if x == 1 {
        Some(1)
    } else if x == -1 {
        Some(if y % 2 == 0 { 1 } else { -1 })
    } else {
        None
    }
}

fn eval(e: &Expr, env: &dyn Fn(char) -> i128) -> Option<i128> {
    match e {
        Expr::Num(n) => Some(*n as i128),
        Expr::Var(c) => Some(env(*c)),
        Expr::Binary(op, a, b) => {
            let (x, y) = (eval(a, env)?, eval(b, env)?);
            match op {
                BinaryOp::Add => x.checked_add(y),
                BinaryOp::Sub => x.checked_sub(y),
                BinaryOp::Mul => x.checked_mul(y),
                BinaryOp::Pow => {
                    if y > 40 {
                        None
                    } else {
                        pow_value(x, y)
                    }
                }
                _ => None,
            }
        }
        _ => None,
    }
}

#[test]
fn arithmetic_rules_agree_on_integers() {
    let samples: [i128; 7] = [-3, -1, 0, 1, 2, 5, -7];
    let mut checked = 0;
    for r in rules() {
        for (k, &a) in samples.iter().enumerate() {
            for &b in &samples {
                let c = samples[(k + 3) % samples.len()];
                let env = move |v: char| match v {
                    'a' | 'f' | 'u' => a,
                    'b' | 'g' | 'v' | 'x' => b,
                    'm' => c.abs() % 4,
                    'n' => b.abs() % 5 - 1,
                    _ => c,
                };
                if let (Some(l), Some(rv)) = (eval(&r.searcher, &env), eval(&r.applier, &env)) {
                    assert_eq!(l, rv, "rule {} with a={} b={} c={}", r.name, a, b, c);
                    checked += 1;
                }
            }
        }
    }
    assert!(checked > 1000);
}
