use vstd::prelude::*;
use crate::fold::{
    eval_with, lemma_pow_value_add, lemma_pow_value_mul, lemma_power_small,
};
use crate::language::{BinaryOp, Expr, UnaryOp};
use crate::semantics::{denote, qeq, Interp};

verus! {

/// A side condition of a rewrite, checked on the e-class bound to a
/// pattern variable.
#[derive(Clone, Copy, Debug, PartialEq, Eq, Structural)]
pub enum Condition {
    /// The class has a constant value.
    IsConst(char),
    /// The class is not the constant -1.
    IsNotNeg1(char),
}

impl Condition {
    /// The pattern variable that the condition inspects.
    pub open spec fn var(&self) -> char {
        match self {
            Condition::IsConst(c) => *c,
            Condition::IsNotNeg1(c) => *c,
        }
    }
}

/// A named rewrite: every match of `searcher` whose bindings pass all
/// `conditions` (checked in order) is made equal to `applier`.
#[derive(Debug)]
pub struct Rule {
    pub name: &'static str,
    pub searcher: Expr,
    pub applier: Expr,
    pub conditions: Vec<Condition>,
}

/// A rule as a mathematical value.
pub type RuleView = (&'static str, Expr, Expr, Seq<Condition>);

impl View for Rule {
    type V = RuleView;

    open spec fn view(&self) -> RuleView {
        (self.name, self.searcher, self.applier, self.conditions@)
    }
}

/// A rule can be built and applied: the applier and every condition only
/// use variables that the searcher binds, both sides are patterns over
/// variables, numbers and operators, and the searcher is not a bare
/// variable.
pub open spec fn well_formed_rule(r: RuleView) -> bool {
    &&& forall|c: char| r.2.mentions_var(c) ==> r.1.mentions_var(c)
    &&& forall|i: int| 0 <= i < r.3.len() ==> r.1.mentions_var(#[trigger] r.3[i].var())
    &&& r.1.symbol_free()
    &&& r.2.symbol_free()
    &&& !(r.1 is Var)
}

/// A rule is sound for integer arithmetic: under every assignment of
/// integers to its variables, whenever both sides have an integer value
/// (see `eval_with`), the two values are equal.
pub open spec fn sound_rule(r: RuleView) -> bool {
    forall|env: spec_fn(char) -> int|
        #![trigger eval_with(r.1, env)]
        (eval_with(r.1, env) is Some && eval_with(r.2, env) is Some) ==> eval_with(r.1, env)
            == eval_with(r.2, env)
}

/// The left side is an antiderivative term `(int f x)`.
pub open spec fn is_int_head(e: Expr) -> bool {
    e matches Expr::Binary(BinaryOp::Int, _, _)
}

/// Both sides agree under `i` wherever both have a meaning: in value, or,
/// for a rule whose left side is an antiderivative, in rate: the
/// derivative of the right side is the integrand (the constant of
/// integration is free).
pub open spec fn sides_agree(l: Expr, r: Expr, i: Interp) -> bool {
    match (denote(l, i), denote(r, i)) {
        (Some(a), Some(b)) => if is_int_head(l) {
            match (a.d, b.d) {
                (Some(x), Some(y)) => qeq(x, y),
                _ => true,
            }
        } else {
            qeq(a.v, b.v)
        },
        _ => true,
    }
}

/// What a side condition says of the meaning of its variable: `IsConst`
/// holds of a constant integer, `IsNotNeg1` of anything but the constant
/// -1.
pub open spec fn cond_means(c: Condition, i: Interp) -> bool {
    match c {
        Condition::IsConst(v) => (i.var)(v).1 == 0,
        Condition::IsNotNeg1(v) => !((i.var)(v).1 == 0 && (i.var)(v).0 == -1),
    }
}

/// A rule is sound for real-valued calculus: under every interpretation
/// that meets its side conditions, its two sides agree wherever both have
/// a meaning (see `sides_agree`).
pub open spec fn real_sound_rule(r: RuleView) -> bool {
    forall|i: Interp|
        #![trigger denote(r.1, i)]
        (forall|k: int| 0 <= k < r.3.len() ==> cond_means(#[trigger] r.3[k], i))
            ==> sides_agree(r.1, r.2, i)
}

/// The one rule that forgets a sign: `(sqrt (pow ?a 2)) => ?a`, which
/// holds only where `a` is not negative (the square root of `a^2` is
/// `|a|`).
pub open spec fn loses_sign(r: RuleView) -> bool {
    r.1 == Expr::Unary(
        UnaryOp::Sqrt,
        Box::new(Expr::Binary(BinaryOp::Pow, Box::new(Expr::Var('a')), Box::new(Expr::Num(2)))),
    )
}

#[verifier::allow_in_spec]
pub fn pvar(c: char) -> Expr
    returns
        Expr::Var(c),
{
    Expr::Var(c)
}

#[verifier::allow_in_spec]
pub fn pnum(n: i32) -> Expr
    returns
        Expr::Num(n),
{
    Expr::Num(n)
}

#[verifier::allow_in_spec]
pub fn pbin(op: BinaryOp, a: Expr, b: Expr) -> Expr
    returns
        Expr::Binary(op, Box::new(a), Box::new(b)),
{
    Expr::Binary(op, Box::new(a), Box::new(b))
}

#[verifier::allow_in_spec]
pub fn pun(op: UnaryOp, a: Expr) -> Expr
    returns
        Expr::Unary(op, Box::new(a)),
{
    Expr::Unary(op, Box::new(a))
}

/// Rules: (a+b)^2 expansion.
pub open spec fn table_expansion() -> Seq<RuleView> {
    seq![
        // (pow ?a 2) => (* ?a ?a)
        (
            "pow2",
            pbin(BinaryOp::Pow, pvar('a'), pnum(2i32)),
            pbin(BinaryOp::Mul, pvar('a'), pvar('a')),
            seq![],
        ),
        // (* ?a ?a) => (pow ?a 2)
        (
            "i-pow2",
            pbin(BinaryOp::Mul, pvar('a'), pvar('a')),
            pbin(BinaryOp::Pow, pvar('a'), pnum(2i32)),
            seq![],
        ),
        // (pow (+ ?a ?b) 2) => (+ (+ (pow ?a 2) (* 2 (* ?a ?b))) (pow ?b 2))
        (
            "binom2",
            pbin(BinaryOp::Pow, pbin(BinaryOp::Add, pvar('a'), pvar('b')), pnum(2i32)),
            pbin(
                BinaryOp::Add,
                pbin(
                    BinaryOp::Add,
                    pbin(BinaryOp::Pow, pvar('a'), pnum(2i32)),
                    pbin(BinaryOp::Mul, pnum(2i32), pbin(BinaryOp::Mul, pvar('a'), pvar('b'))),
                ),
                pbin(BinaryOp::Pow, pvar('b'), pnum(2i32)),
            ),
            seq![],
        ),
        // (+ (+ (pow ?a 2) (* 2 (* ?a ?b))) (pow ?b 2)) => (pow (+ ?a ?b) 2)
        (
            "i-binom2",
            pbin(
                BinaryOp::Add,
                pbin(
                    BinaryOp::Add,
                    pbin(BinaryOp::Pow, pvar('a'), pnum(2i32)),
                    pbin(BinaryOp::Mul, pnum(2i32), pbin(BinaryOp::Mul, pvar('a'), pvar('b'))),
                ),
                pbin(BinaryOp::Pow, pvar('b'), pnum(2i32)),
            ),
            pbin(BinaryOp::Pow, pbin(BinaryOp::Add, pvar('a'), pvar('b')), pnum(2i32)),
            seq![],
        ),
    ]
}

fn group_expansion() -> (v: Vec<Rule>)
    ensures
        v@.map_values(|r: Rule| r@) == table_expansion(),
{
    let mut v: Vec<Rule> = Vec::new();
    let conditions: Vec<Condition> = Vec::new();
    v.push(Rule {
        name: "pow2",
        searcher: pbin(BinaryOp::Pow, pvar('a'), pnum(2i32)),
        applier: pbin(BinaryOp::Mul, pvar('a'), pvar('a')),
        conditions,
    });
    let conditions: Vec<Condition> = Vec::new();
    v.push(Rule {
        name: "i-pow2",
        searcher: pbin(BinaryOp::Mul, pvar('a'), pvar('a')),
        applier: pbin(BinaryOp::Pow, pvar('a'), pnum(2i32)),
        conditions,
    });
    let conditions: Vec<Condition> = Vec::new();
    v.push(Rule {
        name: "binom2",
        searcher: pbin(BinaryOp::Pow, pbin(BinaryOp::Add, pvar('a'), pvar('b')), pnum(2i32)),
        applier: pbin(
            BinaryOp::Add,
            pbin(
                BinaryOp::Add,
                pbin(BinaryOp::Pow, pvar('a'), pnum(2i32)),
                pbin(BinaryOp::Mul, pnum(2i32), pbin(BinaryOp::Mul, pvar('a'), pvar('b'))),
            ),
            pbin(BinaryOp::Pow, pvar('b'), pnum(2i32)),
        ),
        conditions,
    });
    let conditions: Vec<Condition> = Vec::new();
    v.push(Rule {
        name: "i-binom2",
        searcher: pbin(
            BinaryOp::Add,
            pbin(
                BinaryOp::Add,
                pbin(BinaryOp::Pow, pvar('a'), pnum(2i32)),
                pbin(BinaryOp::Mul, pnum(2i32), pbin(BinaryOp::Mul, pvar('a'), pvar('b'))),
            ),
            pbin(BinaryOp::Pow, pvar('b'), pnum(2i32)),
        ),
        applier: pbin(BinaryOp::Pow, pbin(BinaryOp::Add, pvar('a'), pvar('b')), pnum(2i32)),
        conditions,
    });
    assert(v@.map_values(|r: Rule| r@) =~= table_expansion());
    v
}

proof fn table_expansion_well_formed()
    ensures
        forall|i: int|
            0 <= i < table_expansion().len() ==> well_formed_rule(#[trigger] table_expansion()[i]),
{
    reveal_with_fuel(Expr::mentions_var, 8);
    reveal_with_fuel(Expr::symbol_free, 8);
    let t = table_expansion();
    assert(well_formed_rule(t[0]));
    assert(well_formed_rule(t[1]));
    assert(well_formed_rule(t[2]));
    assert(well_formed_rule(t[3]));
}

proof fn table_expansion_sound()
    ensures
        forall|i: int|
            0 <= i < table_expansion().len() ==> sound_rule(#[trigger] table_expansion()[i]),
{
    let t = table_expansion();
    // pow2
    assert(sound_rule(t[0])) by {
        let r = t[0];
        assert forall|env: spec_fn(char) -> int|
            (#[trigger] eval_with(r.1, env) is Some && eval_with(r.2, env) is Some) implies
            eval_with(r.1, env) == eval_with(r.2, env) by {
            reveal_with_fuel(eval_with, 6);
            let a = env('a');
            lemma_power_small(a);
        }
    }
    // i-pow2
    assert(sound_rule(t[1])) by {
        let r = t[1];
        assert forall|env: spec_fn(char) -> int|
            (#[trigger] eval_with(r.1, env) is Some && eval_with(r.2, env) is Some) implies
            eval_with(r.1, env) == eval_with(r.2, env) by {
            reveal_with_fuel(eval_with, 6);
            let a = env('a');
            lemma_power_small(a);
        }
    }
    // binom2
    assert(sound_rule(t[2])) by {
        let r = t[2];
        assert forall|env: spec_fn(char) -> int|
            (#[trigger] eval_with(r.1, env) is Some && eval_with(r.2, env) is Some) implies
            eval_with(r.1, env) == eval_with(r.2, env) by {
            reveal_with_fuel(eval_with, 6);
            let a = env('a');
            let b = env('b');
            lemma_power_small(a);
            lemma_power_small(b);
            lemma_power_small(a + b);
            assert((a + b) * (a + b) == a * a + 2 * (a * b) + b * b) by (nonlinear_arith);
        }
    }
    // i-binom2
    assert(sound_rule(t[3])) by {
        let r = t[3];
        assert forall|env: spec_fn(char) -> int|
            (#[trigger] eval_with(r.1, env) is Some && eval_with(r.2, env) is Some) implies
            eval_with(r.1, env) == eval_with(r.2, env) by {
            reveal_with_fuel(eval_with, 6);
            let a = env('a');
            let b = env('b');
            lemma_power_small(a);
            lemma_power_small(b);
            lemma_power_small(a + b);
            assert((a + b) * (a + b) == a * a + 2 * (a * b) + b * b) by (nonlinear_arith);
        }
    }
}

/// Rules: Integration — linearity.
pub open spec fn table_integration_linearity() -> Seq<RuleView> {
    seq![
        // (int (+ ?f ?g) ?x) => (+ (int ?f ?x) (int ?g ?x))
        (
            "int-add",
            pbin(BinaryOp::Int, pbin(BinaryOp::Add, pvar('f'), pvar('g')), pvar('x')),
            pbin(
                BinaryOp::Add,
                pbin(BinaryOp::Int, pvar('f'), pvar('x')),
                pbin(BinaryOp::Int, pvar('g'), pvar('x')),
            ),
            seq![],
        ),
        // (int (- ?f ?g) ?x) => (- (int ?f ?x) (int ?g ?x))
        (
            "int-sub",
            pbin(BinaryOp::Int, pbin(BinaryOp::Sub, pvar('f'), pvar('g')), pvar('x')),
            pbin(
                BinaryOp::Sub,
                pbin(BinaryOp::Int, pvar('f'), pvar('x')),
                pbin(BinaryOp::Int, pvar('g'), pvar('x')),
            ),
            seq![],
        ),
        // (int (* ?c ?f) ?x) => (* ?c (int ?f ?x))
        (
            "int-const-mul",
            pbin(BinaryOp::Int, pbin(BinaryOp::Mul, pvar('c'), pvar('f')), pvar('x')),
            pbin(BinaryOp::Mul, pvar('c'), pbin(BinaryOp::Int, pvar('f'), pvar('x'))),
            seq![Condition::IsConst('c')],
        ),
        // (int ?c ?x) => (* ?c ?x)
        (
            "int-const",
            pbin(BinaryOp::Int, pvar('c'), pvar('x')),
            pbin(BinaryOp::Mul, pvar('c'), pvar('x')),
            seq![Condition::IsConst('c')],
        ),
    ]
}

fn group_integration_linearity() -> (v: Vec<Rule>)
    ensures
        v@.map_values(|r: Rule| r@) == table_integration_linearity(),
{
    let mut v: Vec<Rule> = Vec::new();
    let conditions: Vec<Condition> = Vec::new();
    v.push(Rule {
        name: "int-add",
        searcher: pbin(BinaryOp::Int, pbin(BinaryOp::Add, pvar('f'), pvar('g')), pvar('x')),
        applier: pbin(
            BinaryOp::Add,
            pbin(BinaryOp::Int, pvar('f'), pvar('x')),
            pbin(BinaryOp::Int, pvar('g'), pvar('x')),
        ),
        conditions,
    });
    let conditions: Vec<Condition> = Vec::new();
    v.push(Rule {
        name: "int-sub",
        searcher: pbin(BinaryOp::Int, pbin(BinaryOp::Sub, pvar('f'), pvar('g')), pvar('x')),
        applier: pbin(
            BinaryOp::Sub,
            pbin(BinaryOp::Int, pvar('f'), pvar('x')),
            pbin(BinaryOp::Int, pvar('g'), pvar('x')),
        ),
        conditions,
    });
    let mut conditions: Vec<Condition> = Vec::new();
    conditions.push(Condition::IsConst('c'));
    assert(conditions@ =~= seq![Condition::IsConst('c')]);
    v.push(Rule {
        name: "int-const-mul",
        searcher: pbin(BinaryOp::Int, pbin(BinaryOp::Mul, pvar('c'), pvar('f')), pvar('x')),
        applier: pbin(BinaryOp::Mul, pvar('c'), pbin(BinaryOp::Int, pvar('f'), pvar('x'))),
        conditions,
    });
    let mut conditions: Vec<Condition> = Vec::new();
    conditions.push(Condition::IsConst('c'));
    assert(conditions@ =~= seq![Condition::IsConst('c')]);
    v.push(Rule {
        name: "int-const",
        searcher: pbin(BinaryOp::Int, pvar('c'), pvar('x')),
        applier: pbin(BinaryOp::Mul, pvar('c'), pvar('x')),
        conditions,
    });
    assert(v@.map_values(|r: Rule| r@) =~= table_integration_linearity());
    v
}

proof fn table_integration_linearity_well_formed()
    ensures
        forall|i: int|
            0 <= i < table_integration_linearity().len() ==> well_formed_rule(#[trigger] table_integration_linearity()[i]),
{
    reveal_with_fuel(Expr::mentions_var, 8);
    reveal_with_fuel(Expr::symbol_free, 8);
    let t = table_integration_linearity();
    assert(well_formed_rule(t[0]));
    assert(well_formed_rule(t[1]));
    assert(well_formed_rule(t[2]));
    assert(well_formed_rule(t[3]));
}

proof fn table_integration_linearity_sound()
    ensures
        forall|i: int|
            0 <= i < table_integration_linearity().len() ==> sound_rule(#[trigger] table_integration_linearity()[i]),
{
    let t = table_integration_linearity();
    // int-add
    assert(sound_rule(t[0])) by {
        let r = t[0];
        assert forall|env: spec_fn(char) -> int|
            (#[trigger] eval_with(r.1, env) is Some && eval_with(r.2, env) is Some) implies
            eval_with(r.1, env) == eval_with(r.2, env) by {
            reveal_with_fuel(eval_with, 6);
        }
    }
    // int-sub
    assert(sound_rule(t[1])) by {
        let r = t[1];
        assert forall|env: spec_fn(char) -> int|
            (#[trigger] eval_with(r.1, env) is Some && eval_with(r.2, env) is Some) implies
            eval_with(r.1, env) == eval_with(r.2, env) by {
            reveal_with_fuel(eval_with, 6);
        }
    }
    // int-const-mul
    assert(sound_rule(t[2])) by {
        let r = t[2];
        assert forall|env: spec_fn(char) -> int|
            (#[trigger] eval_with(r.1, env) is Some && eval_with(r.2, env) is Some) implies
            eval_with(r.1, env) == eval_with(r.2, env) by {
            reveal_with_fuel(eval_with, 6);
        }
    }
    // int-const
    assert(sound_rule(t[3])) by {
        let r = t[3];
        assert forall|env: spec_fn(char) -> int|
            (#[trigger] eval_with(r.1, env) is Some && eval_with(r.2, env) is Some) implies
            eval_with(r.1, env) == eval_with(r.2, env) by {
            reveal_with_fuel(eval_with, 6);
        }
    }
}

/// Rules: Sqrt.
pub open spec fn table_sqrt() -> Seq<RuleView> {
    seq![
        // (pow (sqrt ?a) 2) => ?a
        (
            "sqrt-sq",
            pbin(BinaryOp::Pow, pun(UnaryOp::Sqrt, pvar('a')), pnum(2i32)),
            pvar('a'),
            seq![],
        ),
        // (sqrt (pow ?a 2)) => ?a
        (
            "sq-sqrt",
            pun(UnaryOp::Sqrt, pbin(BinaryOp::Pow, pvar('a'), pnum(2i32))),
            pvar('a'),
            seq![],
        ),
    ]
}

fn group_sqrt() -> (v: Vec<Rule>)
    ensures
        v@.map_values(|r: Rule| r@) == table_sqrt(),
{
    let mut v: Vec<Rule> = Vec::new();
    let conditions: Vec<Condition> = Vec::new();
    v.push(Rule {
        name: "sqrt-sq",
        searcher: pbin(BinaryOp::Pow, pun(UnaryOp::Sqrt, pvar('a')), pnum(2i32)),
        applier: pvar('a'),
        conditions,
    });
    let conditions: Vec<Condition> = Vec::new();
    v.push(Rule {
        name: "sq-sqrt",
        searcher: pun(UnaryOp::Sqrt, pbin(BinaryOp::Pow, pvar('a'), pnum(2i32))),
        applier: pvar('a'),
        conditions,
    });
    assert(v@.map_values(|r: Rule| r@) =~= table_sqrt());
    v
}

proof fn table_sqrt_well_formed()
    ensures
        forall|i: int|
            0 <= i < table_sqrt().len() ==> well_formed_rule(#[trigger] table_sqrt()[i]),
{
    reveal_with_fuel(Expr::mentions_var, 8);
    reveal_with_fuel(Expr::symbol_free, 8);
    let t = table_sqrt();
    assert(well_formed_rule(t[0]));
    assert(well_formed_rule(t[1]));
}

proof fn table_sqrt_sound()
    ensures
        forall|i: int|
            0 <= i < table_sqrt().len() ==> sound_rule(#[trigger] table_sqrt()[i]),
{
    let t = table_sqrt();
    // sqrt-sq
    assert(sound_rule(t[0])) by {
        let r = t[0];
        assert forall|env: spec_fn(char) -> int|
            (#[trigger] eval_with(r.1, env) is Some && eval_with(r.2, env) is Some) implies
            eval_with(r.1, env) == eval_with(r.2, env) by {
            reveal_with_fuel(eval_with, 6);
        }
    }
    // sq-sqrt
    assert(sound_rule(t[1])) by {
        let r = t[1];
        assert forall|env: spec_fn(char) -> int|
            (#[trigger] eval_with(r.1, env) is Some && eval_with(r.2, env) is Some) implies
            eval_with(r.1, env) == eval_with(r.2, env) by {
            reveal_with_fuel(eval_with, 6);
        }
    }
}

/// Rules: Integration — power rule.
pub open spec fn table_power_rule() -> Seq<RuleView> {
    seq![
        // (int ?x ?x) => (/ (pow ?x 2) 2)
        (
            "int-var",
            pbin(BinaryOp::Int, pvar('x'), pvar('x')),
            pbin(BinaryOp::Div, pbin(BinaryOp::Pow, pvar('x'), pnum(2i32)), pnum(2i32)),
            seq![],
        ),
        // (int (pow ?x ?n) ?x) => (/ (pow ?x (+ ?n 1)) (+ ?n 1))
        (
            "int-pow",
            pbin(BinaryOp::Int, pbin(BinaryOp::Pow, pvar('x'), pvar('n')), pvar('x')),
            pbin(
                BinaryOp::Div,
                pbin(BinaryOp::Pow, pvar('x'), pbin(BinaryOp::Add, pvar('n'), pnum(1i32))),
                pbin(BinaryOp::Add, pvar('n'), pnum(1i32)),
            ),
            seq![Condition::IsConst('n'), Condition::IsNotNeg1('n')],
        ),
        // (int (/ 1 ?x) ?x) => (ln ?x)
        (
            "int-recip",
            pbin(BinaryOp::Int, pbin(BinaryOp::Div, pnum(1i32), pvar('x')), pvar('x')),
            pun(UnaryOp::Ln, pvar('x')),
            seq![],
        ),
        // (int (pow ?x -1) ?x) => (ln ?x)
        (
            "int-pow-neg1",
            pbin(BinaryOp::Int, pbin(BinaryOp::Pow, pvar('x'), pnum(-1i32)), pvar('x')),
            pun(UnaryOp::Ln, pvar('x')),
            seq![],
        ),
    ]
}

fn group_power_rule() -> (v: Vec<Rule>)
    ensures
        v@.map_values(|r: Rule| r@) == table_power_rule(),
{
    let mut v: Vec<Rule> = Vec::new();
    let conditions: Vec<Condition> = Vec::new();
    v.push(Rule {
        name: "int-var",
        searcher: pbin(BinaryOp::Int, pvar('x'), pvar('x')),
        applier: pbin(BinaryOp::Div, pbin(BinaryOp::Pow, pvar('x'), pnum(2i32)), pnum(2i32)),
        conditions,
    });
    let mut conditions: Vec<Condition> = Vec::new();
    conditions.push(Condition::IsConst('n'));
    conditions.push(Condition::IsNotNeg1('n'));
    assert(conditions@ =~= seq![Condition::IsConst('n'), Condition::IsNotNeg1('n')]);
    v.push(Rule {
        name: "int-pow",
        searcher: pbin(BinaryOp::Int, pbin(BinaryOp::Pow, pvar('x'), pvar('n')), pvar('x')),
        applier: pbin(
            BinaryOp::Div,
            pbin(BinaryOp::Pow, pvar('x'), pbin(BinaryOp::Add, pvar('n'), pnum(1i32))),
            pbin(BinaryOp::Add, pvar('n'), pnum(1i32)),
        ),
        conditions,
    });
    let conditions: Vec<Condition> = Vec::new();
    v.push(Rule {
        name: "int-recip",
        searcher: pbin(BinaryOp::Int, pbin(BinaryOp::Div, pnum(1i32), pvar('x')), pvar('x')),
        applier: pun(UnaryOp::Ln, pvar('x')),
        conditions,
    });
    let conditions: Vec<Condition> = Vec::new();
    v.push(Rule {
        name: "int-pow-neg1",
        searcher: pbin(BinaryOp::Int, pbin(BinaryOp::Pow, pvar('x'), pnum(-1i32)), pvar('x')),
        applier: pun(UnaryOp::Ln, pvar('x')),
        conditions,
    });
    assert(v@.map_values(|r: Rule| r@) =~= table_power_rule());
    v
}

proof fn table_power_rule_well_formed()
    ensures
        forall|i: int|
            0 <= i < table_power_rule().len() ==> well_formed_rule(#[trigger] table_power_rule()[i]),
{
    reveal_with_fuel(Expr::mentions_var, 8);
    reveal_with_fuel(Expr::symbol_free, 8);
    let t = table_power_rule();
    assert(well_formed_rule(t[0]));
    assert(well_formed_rule(t[1]));
    assert(well_formed_rule(t[2]));
    assert(well_formed_rule(t[3]));
}

proof fn table_power_rule_sound()
    ensures
        forall|i: int|
            0 <= i < table_power_rule().len() ==> sound_rule(#[trigger] table_power_rule()[i]),
{
    let t = table_power_rule();
    // int-var
    assert(sound_rule(t[0])) by {
        let r = t[0];
        assert forall|env: spec_fn(char) -> int|
            (#[trigger] eval_with(r.1, env) is Some && eval_with(r.2, env) is Some) implies
            eval_with(r.1, env) == eval_with(r.2, env) by {
            reveal_with_fuel(eval_with, 6);
        }
    }
    // int-pow
    assert(sound_rule(t[1])) by {
        let r = t[1];
        assert forall|env: spec_fn(char) -> int|
            (#[trigger] eval_with(r.1, env) is Some && eval_with(r.2, env) is Some) implies
            eval_with(r.1, env) == eval_with(r.2, env) by {
            reveal_with_fuel(eval_with, 6);
        }
    }
    // int-recip
    assert(sound_rule(t[2])) by {
        let r = t[2];
        assert forall|env: spec_fn(char) -> int|
            (#[trigger] eval_with(r.1, env) is Some && eval_with(r.2, env) is Some) implies
            eval_with(r.1, env) == eval_with(r.2, env) by {
            reveal_with_fuel(eval_with, 6);
        }
    }
    // int-pow-neg1
    assert(sound_rule(t[3])) by {
        let r = t[3];
        assert forall|env: spec_fn(char) -> int|
            (#[trigger] eval_with(r.1, env) is Some && eval_with(r.2, env) is Some) implies
            eval_with(r.1, env) == eval_with(r.2, env) by {
            reveal_with_fuel(eval_with, 6);
        }
    }
}

/// Rules: Commutativity and associativity.
pub open spec fn table_comm_assoc() -> Seq<RuleView> {
    seq![
        // (+ ?a ?b) => (+ ?b ?a)
        (
            "comm-add",
            pbin(BinaryOp::Add, pvar('a'), pvar('b')),
            pbin(BinaryOp::Add, pvar('b'), pvar('a')),
            seq![],
        ),
        // (* ?a ?b) => (* ?b ?a)
        (
            "comm-mul",
            pbin(BinaryOp::Mul, pvar('a'), pvar('b')),
            pbin(BinaryOp::Mul, pvar('b'), pvar('a')),
            seq![],
        ),
        // (+ (+ ?a ?b) ?c) => (+ ?a (+ ?b ?c))
        (
            "assoc-add",
            pbin(BinaryOp::Add, pbin(BinaryOp::Add, pvar('a'), pvar('b')), pvar('c')),
            pbin(BinaryOp::Add, pvar('a'), pbin(BinaryOp::Add, pvar('b'), pvar('c'))),
            seq![],
        ),
        // (+ ?a (+ ?b ?c)) => (+ (+ ?a ?b) ?c)
        (
            "i-assoc-add",
            pbin(BinaryOp::Add, pvar('a'), pbin(BinaryOp::Add, pvar('b'), pvar('c'))),
            pbin(BinaryOp::Add, pbin(BinaryOp::Add, pvar('a'), pvar('b')), pvar('c')),
            seq![],
        ),
        // (* (* ?a ?b) ?c) => (* ?a (* ?b ?c))
        (
            "assoc-mul",
            pbin(BinaryOp::Mul, pbin(BinaryOp::Mul, pvar('a'), pvar('b')), pvar('c')),
            pbin(BinaryOp::Mul, pvar('a'), pbin(BinaryOp::Mul, pvar('b'), pvar('c'))),
            seq![],
        ),
        // (* ?a (* ?b ?c)) => (* (* ?a ?b) ?c)
        (
            "i-assoc-mul",
            pbin(BinaryOp::Mul, pvar('a'), pbin(BinaryOp::Mul, pvar('b'), pvar('c'))),
            pbin(BinaryOp::Mul, pbin(BinaryOp::Mul, pvar('a'), pvar('b')), pvar('c')),
            seq![],
        ),
    ]
}

fn group_comm_assoc() -> (v: Vec<Rule>)
    ensures
        v@.map_values(|r: Rule| r@) == table_comm_assoc(),
{
    let mut v: Vec<Rule> = Vec::new();
    let conditions: Vec<Condition> = Vec::new();
    v.push(Rule {
        name: "comm-add",
        searcher: pbin(BinaryOp::Add, pvar('a'), pvar('b')),
        applier: pbin(BinaryOp::Add, pvar('b'), pvar('a')),
        conditions,
    });
    let conditions: Vec<Condition> = Vec::new();
    v.push(Rule {
        name: "comm-mul",
        searcher: pbin(BinaryOp::Mul, pvar('a'), pvar('b')),
        applier: pbin(BinaryOp::Mul, pvar('b'), pvar('a')),
        conditions,
    });
    let conditions: Vec<Condition> = Vec::new();
    v.push(Rule {
        name: "assoc-add",
        searcher: pbin(BinaryOp::Add, pbin(BinaryOp::Add, pvar('a'), pvar('b')), pvar('c')),
        applier: pbin(BinaryOp::Add, pvar('a'), pbin(BinaryOp::Add, pvar('b'), pvar('c'))),
        conditions,
    });
    let conditions: Vec<Condition> = Vec::new();
    v.push(Rule {
        name: "i-assoc-add",
        searcher: pbin(BinaryOp::Add, pvar('a'), pbin(BinaryOp::Add, pvar('b'), pvar('c'))),
        applier: pbin(BinaryOp::Add, pbin(BinaryOp::Add, pvar('a'), pvar('b')), pvar('c')),
        conditions,
    });
    let conditions: Vec<Condition> = Vec::new();
    v.push(Rule {
        name: "assoc-mul",
        searcher: pbin(BinaryOp::Mul, pbin(BinaryOp::Mul, pvar('a'), pvar('b')), pvar('c')),
        applier: pbin(BinaryOp::Mul, pvar('a'), pbin(BinaryOp::Mul, pvar('b'), pvar('c'))),
        conditions,
    });
    let conditions: Vec<Condition> = Vec::new();
    v.push(Rule {
        name: "i-assoc-mul",
        searcher: pbin(BinaryOp::Mul, pvar('a'), pbin(BinaryOp::Mul, pvar('b'), pvar('c'))),
        applier: pbin(BinaryOp::Mul, pbin(BinaryOp::Mul, pvar('a'), pvar('b')), pvar('c')),
        conditions,
    });
    assert(v@.map_values(|r: Rule| r@) =~= table_comm_assoc());
    v
}

proof fn table_comm_assoc_well_formed()
    ensures
        forall|i: int|
            0 <= i < table_comm_assoc().len() ==> well_formed_rule(#[trigger] table_comm_assoc()[i]),
{
    reveal_with_fuel(Expr::mentions_var, 8);
    reveal_with_fuel(Expr::symbol_free, 8);
    let t = table_comm_assoc();
    assert(well_formed_rule(t[0]));
    assert(well_formed_rule(t[1]));
    assert(well_formed_rule(t[2]));
    assert(well_formed_rule(t[3]));
    assert(well_formed_rule(t[4]));
    assert(well_formed_rule(t[5]));
}

proof fn table_comm_assoc_sound()
    ensures
        forall|i: int|
            0 <= i < table_comm_assoc().len() ==> sound_rule(#[trigger] table_comm_assoc()[i]),
{
    let t = table_comm_assoc();
    // comm-add
    assert(sound_rule(t[0])) by {
        let r = t[0];
        assert forall|env: spec_fn(char) -> int|
            (#[trigger] eval_with(r.1, env) is Some && eval_with(r.2, env) is Some) implies
            eval_with(r.1, env) == eval_with(r.2, env) by {
            reveal_with_fuel(eval_with, 6);
        }
    }
    // comm-mul
    assert(sound_rule(t[1])) by {
        let r = t[1];
        assert forall|env: spec_fn(char) -> int|
            (#[trigger] eval_with(r.1, env) is Some && eval_with(r.2, env) is Some) implies
            eval_with(r.1, env) == eval_with(r.2, env) by {
            reveal_with_fuel(eval_with, 6);
            let a = env('a');
            let b = env('b');
            assert(a * b == b * a) by (nonlinear_arith);
        }
    }
    // assoc-add
    assert(sound_rule(t[2])) by {
        let r = t[2];
        assert forall|env: spec_fn(char) -> int|
            (#[trigger] eval_with(r.1, env) is Some && eval_with(r.2, env) is Some) implies
            eval_with(r.1, env) == eval_with(r.2, env) by {
            reveal_with_fuel(eval_with, 6);
        }
    }
    // i-assoc-add
    assert(sound_rule(t[3])) by {
        let r = t[3];
        assert forall|env: spec_fn(char) -> int|
            (#[trigger] eval_with(r.1, env) is Some && eval_with(r.2, env) is Some) implies
            eval_with(r.1, env) == eval_with(r.2, env) by {
            reveal_with_fuel(eval_with, 6);
        }
    }
    // assoc-mul
    assert(sound_rule(t[4])) by {
        let r = t[4];
        assert forall|env: spec_fn(char) -> int|
            (#[trigger] eval_with(r.1, env) is Some && eval_with(r.2, env) is Some) implies
            eval_with(r.1, env) == eval_with(r.2, env) by {
            reveal_with_fuel(eval_with, 6);
            let a = env('a');
            let b = env('b');
            let c = env('c');
            assert((a * b) * c == a * (b * c)) by (nonlinear_arith);
        }
    }
    // i-assoc-mul
    assert(sound_rule(t[5])) by {
        let r = t[5];
        assert forall|env: spec_fn(char) -> int|
            (#[trigger] eval_with(r.1, env) is Some && eval_with(r.2, env) is Some) implies
            eval_with(r.1, env) == eval_with(r.2, env) by {
            reveal_with_fuel(eval_with, 6);
            let a = env('a');
            let b = env('b');
            let c = env('c');
            assert((a * b) * c == a * (b * c)) by (nonlinear_arith);
        }
    }
}

/// Rules: Distributivity.
pub open spec fn table_distributivity() -> Seq<RuleView> {
    seq![
        // (* ?a (+ ?b ?c)) => (+ (* ?a ?b) (* ?a ?c))
        (
            "distribute",
            pbin(BinaryOp::Mul, pvar('a'), pbin(BinaryOp::Add, pvar('b'), pvar('c'))),
            pbin(
                BinaryOp::Add,
                pbin(BinaryOp::Mul, pvar('a'), pvar('b')),
                pbin(BinaryOp::Mul, pvar('a'), pvar('c')),
            ),
            seq![],
        ),
        // (+ (* ?a ?b) (* ?a ?c)) => (* ?a (+ ?b ?c))
        (
            "factor",
            pbin(
                BinaryOp::Add,
                pbin(BinaryOp::Mul, pvar('a'), pvar('b')),
                pbin(BinaryOp::Mul, pvar('a'), pvar('c')),
            ),
            pbin(BinaryOp::Mul, pvar('a'), pbin(BinaryOp::Add, pvar('b'), pvar('c'))),
            seq![],
        ),
        // (- (* ?a ?b) (* ?a ?c)) => (* ?a (- ?b ?c))
        (
            "factor-sub",
            pbin(
                BinaryOp::Sub,
                pbin(BinaryOp::Mul, pvar('a'), pvar('b')),
                pbin(BinaryOp::Mul, pvar('a'), pvar('c')),
            ),
            pbin(BinaryOp::Mul, pvar('a'), pbin(BinaryOp::Sub, pvar('b'), pvar('c'))),
            seq![],
        ),
    ]
}

fn group_distributivity() -> (v: Vec<Rule>)
    ensures
        v@.map_values(|r: Rule| r@) == table_distributivity(),
{
    let mut v: Vec<Rule> = Vec::new();
    let conditions: Vec<Condition> = Vec::new();
    v.push(Rule {
        name: "distribute",
        searcher: pbin(BinaryOp::Mul, pvar('a'), pbin(BinaryOp::Add, pvar('b'), pvar('c'))),
        applier: pbin(
            BinaryOp::Add,
            pbin(BinaryOp::Mul, pvar('a'), pvar('b')),
            pbin(BinaryOp::Mul, pvar('a'), pvar('c')),
        ),
        conditions,
    });
    let conditions: Vec<Condition> = Vec::new();
    v.push(Rule {
        name: "factor",
        searcher: pbin(
            BinaryOp::Add,
            pbin(BinaryOp::Mul, pvar('a'), pvar('b')),
            pbin(BinaryOp::Mul, pvar('a'), pvar('c')),
        ),
        applier: pbin(BinaryOp::Mul, pvar('a'), pbin(BinaryOp::Add, pvar('b'), pvar('c'))),
        conditions,
    });
    let conditions: Vec<Condition> = Vec::new();
    v.push(Rule {
        name: "factor-sub",
        searcher: pbin(
            BinaryOp::Sub,
            pbin(BinaryOp::Mul, pvar('a'), pvar('b')),
            pbin(BinaryOp::Mul, pvar('a'), pvar('c')),
        ),
        applier: pbin(BinaryOp::Mul, pvar('a'), pbin(BinaryOp::Sub, pvar('b'), pvar('c'))),
        conditions,
    });
    assert(v@.map_values(|r: Rule| r@) =~= table_distributivity());
    v
}

proof fn table_distributivity_well_formed()
    ensures
        forall|i: int|
            0 <= i < table_distributivity().len() ==> well_formed_rule(#[trigger] table_distributivity()[i]),
{
    reveal_with_fuel(Expr::mentions_var, 8);
    reveal_with_fuel(Expr::symbol_free, 8);
    let t = table_distributivity();
    assert(well_formed_rule(t[0]));
    assert(well_formed_rule(t[1]));
    assert(well_formed_rule(t[2]));
}

proof fn table_distributivity_sound()
    ensures
        forall|i: int|
            0 <= i < table_distributivity().len() ==> sound_rule(#[trigger] table_distributivity()[i]),
{
    let t = table_distributivity();
    // distribute
    assert(sound_rule(t[0])) by {
        let r = t[0];
        assert forall|env: spec_fn(char) -> int|
            (#[trigger] eval_with(r.1, env) is Some && eval_with(r.2, env) is Some) implies
            eval_with(r.1, env) == eval_with(r.2, env) by {
            reveal_with_fuel(eval_with, 6);
            let a = env('a');
            let b = env('b');
            let c = env('c');
            assert(a * (b + c) == a * b + a * c) by (nonlinear_arith);
        }
    }
    // factor
    assert(sound_rule(t[1])) by {
        let r = t[1];
        assert forall|env: spec_fn(char) -> int|
            (#[trigger] eval_with(r.1, env) is Some && eval_with(r.2, env) is Some) implies
            eval_with(r.1, env) == eval_with(r.2, env) by {
            reveal_with_fuel(eval_with, 6);
            let a = env('a');
            let b = env('b');
            let c = env('c');
            assert(a * (b + c) == a * b + a * c) by (nonlinear_arith);
        }
    }
    // factor-sub
    assert(sound_rule(t[2])) by {
        let r = t[2];
        assert forall|env: spec_fn(char) -> int|
            (#[trigger] eval_with(r.1, env) is Some && eval_with(r.2, env) is Some) implies
            eval_with(r.1, env) == eval_with(r.2, env) by {
            reveal_with_fuel(eval_with, 6);
            let a = env('a');
            let b = env('b');
            let c = env('c');
            assert(a * (b - c) == a * b - a * c) by (nonlinear_arith);
        }
    }
}

/// Rules: Algebraic identities.
pub open spec fn table_identities() -> Seq<RuleView> {
    seq![
        // (+ ?a 0) => ?a
        (
            "zero-add",
            pbin(BinaryOp::Add, pvar('a'), pnum(0i32)),
            pvar('a'),
            seq![],
        ),
        // (* ?a 1) => ?a
        (
            "one-mul",
            pbin(BinaryOp::Mul, pvar('a'), pnum(1i32)),
            pvar('a'),
            seq![],
        ),
        // (* ?a 0) => 0
        (
            "zero-mul",
            pbin(BinaryOp::Mul, pvar('a'), pnum(0i32)),
            pnum(0i32),
            seq![],
        ),
        // (- ?a ?a) => 0
        (
            "cancel-sub",
            pbin(BinaryOp::Sub, pvar('a'), pvar('a')),
            pnum(0i32),
            seq![],
        ),
        // (/ ?a ?a) => 1
        (
            "cancel-div",
            pbin(BinaryOp::Div, pvar('a'), pvar('a')),
            pnum(1i32),
            seq![],
        ),
    ]
}

fn group_identities() -> (v: Vec<Rule>)
    ensures
        v@.map_values(|r: Rule| r@) == table_identities(),
{
    let mut v: Vec<Rule> = Vec::new();
    let conditions: Vec<Condition> = Vec::new();
    v.push(Rule {
        name: "zero-add",
        searcher: pbin(BinaryOp::Add, pvar('a'), pnum(0i32)),
        applier: pvar('a'),
        conditions,
    });
    let conditions: Vec<Condition> = Vec::new();
    v.push(Rule {
        name: "one-mul",
        searcher: pbin(BinaryOp::Mul, pvar('a'), pnum(1i32)),
        applier: pvar('a'),
        conditions,
    });
    let conditions: Vec<Condition> = Vec::new();
    v.push(Rule {
        name: "zero-mul",
        searcher: pbin(BinaryOp::Mul, pvar('a'), pnum(0i32)),
        applier: pnum(0i32),
        conditions,
    });
    let conditions: Vec<Condition> = Vec::new();
    v.push(Rule {
        name: "cancel-sub",
        searcher: pbin(BinaryOp::Sub, pvar('a'), pvar('a')),
        applier: pnum(0i32),
        conditions,
    });
    let conditions: Vec<Condition> = Vec::new();
    v.push(Rule {
        name: "cancel-div",
        searcher: pbin(BinaryOp::Div, pvar('a'), pvar('a')),
        applier: pnum(1i32),
        conditions,
    });
    assert(v@.map_values(|r: Rule| r@) =~= table_identities());
    v
}

proof fn table_identities_well_formed()
    ensures
        forall|i: int|
            0 <= i < table_identities().len() ==> well_formed_rule(#[trigger] table_identities()[i]),
{
    reveal_with_fuel(Expr::mentions_var, 8);
    reveal_with_fuel(Expr::symbol_free, 8);
    let t = table_identities();
    assert(well_formed_rule(t[0]));
    assert(well_formed_rule(t[1]));
    assert(well_formed_rule(t[2]));
    assert(well_formed_rule(t[3]));
    assert(well_formed_rule(t[4]));
}

proof fn table_identities_sound()
    ensures
        forall|i: int|
            0 <= i < table_identities().len() ==> sound_rule(#[trigger] table_identities()[i]),
{
    let t = table_identities();
    // zero-add
    assert(sound_rule(t[0])) by {
        let r = t[0];
        assert forall|env: spec_fn(char) -> int|
            (#[trigger] eval_with(r.1, env) is Some && eval_with(r.2, env) is Some) implies
            eval_with(r.1, env) == eval_with(r.2, env) by {
            reveal_with_fuel(eval_with, 6);
        }
    }
    // one-mul
    assert(sound_rule(t[1])) by {
        let r = t[1];
        assert forall|env: spec_fn(char) -> int|
            (#[trigger] eval_with(r.1, env) is Some && eval_with(r.2, env) is Some) implies
            eval_with(r.1, env) == eval_with(r.2, env) by {
            reveal_with_fuel(eval_with, 6);
            let a = env('a');
            assert(a * 1 == a) by (nonlinear_arith);
        }
    }
    // zero-mul
    assert(sound_rule(t[2])) by {
        let r = t[2];
        assert forall|env: spec_fn(char) -> int|
            (#[trigger] eval_with(r.1, env) is Some && eval_with(r.2, env) is Some) implies
            eval_with(r.1, env) == eval_with(r.2, env) by {
            reveal_with_fuel(eval_with, 6);
            let a = env('a');
            assert(a * 0 == 0) by (nonlinear_arith);
        }
    }
    // cancel-sub
    assert(sound_rule(t[3])) by {
        let r = t[3];
        assert forall|env: spec_fn(char) -> int|
            (#[trigger] eval_with(r.1, env) is Some && eval_with(r.2, env) is Some) implies
            eval_with(r.1, env) == eval_with(r.2, env) by {
            reveal_with_fuel(eval_with, 6);
        }
    }
    // cancel-div
    assert(sound_rule(t[4])) by {
        let r = t[4];
        assert forall|env: spec_fn(char) -> int|
            (#[trigger] eval_with(r.1, env) is Some && eval_with(r.2, env) is Some) implies
            eval_with(r.1, env) == eval_with(r.2, env) by {
            reveal_with_fuel(eval_with, 6);
        }
    }
}

/// Rules: Subtraction and division sugar.
pub open spec fn table_sugar() -> Seq<RuleView> {
    seq![
        // (- ?a ?b) => (+ ?a (* -1 ?b))
        (
            "sub-canon",
            pbin(BinaryOp::Sub, pvar('a'), pvar('b')),
            pbin(BinaryOp::Add, pvar('a'), pbin(BinaryOp::Mul, pnum(-1i32), pvar('b'))),
            seq![],
        ),
        // (+ ?a (* -1 ?b)) => (- ?a ?b)
        (
            "i-sub-canon",
            pbin(BinaryOp::Add, pvar('a'), pbin(BinaryOp::Mul, pnum(-1i32), pvar('b'))),
            pbin(BinaryOp::Sub, pvar('a'), pvar('b')),
            seq![],
        ),
        // (/ ?a ?b) => (* ?a (/ 1 ?b))
        (
            "div-canon",
            pbin(BinaryOp::Div, pvar('a'), pvar('b')),
            pbin(BinaryOp::Mul, pvar('a'), pbin(BinaryOp::Div, pnum(1i32), pvar('b'))),
            seq![],
        ),
        // (* ?a (/ 1 ?b)) => (/ ?a ?b)
        (
            "i-div-canon",
            pbin(BinaryOp::Mul, pvar('a'), pbin(BinaryOp::Div, pnum(1i32), pvar('b'))),
            pbin(BinaryOp::Div, pvar('a'), pvar('b')),
            seq![],
        ),
    ]
}

fn group_sugar() -> (v: Vec<Rule>)
    ensures
        v@.map_values(|r: Rule| r@) == table_sugar(),
{
    let mut v: Vec<Rule> = Vec::new();
    let conditions: Vec<Condition> = Vec::new();
    v.push(Rule {
        name: "sub-canon",
        searcher: pbin(BinaryOp::Sub, pvar('a'), pvar('b')),
        applier: pbin(BinaryOp::Add, pvar('a'), pbin(BinaryOp::Mul, pnum(-1i32), pvar('b'))),
        conditions,
    });
    let conditions: Vec<Condition> = Vec::new();
    v.push(Rule {
        name: "i-sub-canon",
        searcher: pbin(BinaryOp::Add, pvar('a'), pbin(BinaryOp::Mul, pnum(-1i32), pvar('b'))),
        applier: pbin(BinaryOp::Sub, pvar('a'), pvar('b')),
        conditions,
    });
    let conditions: Vec<Condition> = Vec::new();
    v.push(Rule {
        name: "div-canon",
        searcher: pbin(BinaryOp::Div, pvar('a'), pvar('b')),
        applier: pbin(BinaryOp::Mul, pvar('a'), pbin(BinaryOp::Div, pnum(1i32), pvar('b'))),
        conditions,
    });
    let conditions: Vec<Condition> = Vec::new();
    v.push(Rule {
        name: "i-div-canon",
        searcher: pbin(BinaryOp::Mul, pvar('a'), pbin(BinaryOp::Div, pnum(1i32), pvar('b'))),
        applier: pbin(BinaryOp::Div, pvar('a'), pvar('b')),
        conditions,
    });
    assert(v@.map_values(|r: Rule| r@) =~= table_sugar());
    v
}

proof fn table_sugar_well_formed()
    ensures
        forall|i: int|
            0 <= i < table_sugar().len() ==> well_formed_rule(#[trigger] table_sugar()[i]),
{
    reveal_with_fuel(Expr::mentions_var, 8);
    reveal_with_fuel(Expr::symbol_free, 8);
    let t = table_sugar();
    assert(well_formed_rule(t[0]));
    assert(well_formed_rule(t[1]));
    assert(well_formed_rule(t[2]));
    assert(well_formed_rule(t[3]));
}

proof fn table_sugar_sound()
    ensures
        forall|i: int|
            0 <= i < table_sugar().len() ==> sound_rule(#[trigger] table_sugar()[i]),
{
    let t = table_sugar();
    // sub-canon
    assert(sound_rule(t[0])) by {
        let r = t[0];
        assert forall|env: spec_fn(char) -> int|
            (#[trigger] eval_with(r.1, env) is Some && eval_with(r.2, env) is Some) implies
            eval_with(r.1, env) == eval_with(r.2, env) by {
            reveal_with_fuel(eval_with, 6);
            let b = env('b');
            assert(-1 * b == -b) by (nonlinear_arith);
        }
    }
    // i-sub-canon
    assert(sound_rule(t[1])) by {
        let r = t[1];
        assert forall|env: spec_fn(char) -> int|
            (#[trigger] eval_with(r.1, env) is Some && eval_with(r.2, env) is Some) implies
            eval_with(r.1, env) == eval_with(r.2, env) by {
            reveal_with_fuel(eval_with, 6);
            let b = env('b');
            assert(-1 * b == -b) by (nonlinear_arith);
        }
    }
    // div-canon
    assert(sound_rule(t[2])) by {
        let r = t[2];
        assert forall|env: spec_fn(char) -> int|
            (#[trigger] eval_with(r.1, env) is Some && eval_with(r.2, env) is Some) implies
            eval_with(r.1, env) == eval_with(r.2, env) by {
            reveal_with_fuel(eval_with, 6);
        }
    }
    // i-div-canon
    assert(sound_rule(t[3])) by {
        let r = t[3];
        assert forall|env: spec_fn(char) -> int|
            (#[trigger] eval_with(r.1, env) is Some && eval_with(r.2, env) is Some) implies
            eval_with(r.1, env) == eval_with(r.2, env) by {
            reveal_with_fuel(eval_with, 6);
        }
    }
}

/// Rules: Fractions.
pub open spec fn table_fractions() -> Seq<RuleView> {
    seq![
        // (/ (* ?a ?c) (* ?b ?c)) => (/ ?a ?b)
        (
            "cancel-frac",
            pbin(
                BinaryOp::Div,
                pbin(BinaryOp::Mul, pvar('a'), pvar('c')),
                pbin(BinaryOp::Mul, pvar('b'), pvar('c')),
            ),
            pbin(BinaryOp::Div, pvar('a'), pvar('b')),
            seq![],
        ),
        // (/ (* ?a ?b) ?a) => ?b
        (
            "cancel-frac-simple",
            pbin(BinaryOp::Div, pbin(BinaryOp::Mul, pvar('a'), pvar('b')), pvar('a')),
            pvar('b'),
            seq![],
        ),
        // (+ (/ ?a ?b) (/ ?c ?b)) => (/ (+ ?a ?c) ?b)
        (
            "frac-add-same-denom",
            pbin(
                BinaryOp::Add,
                pbin(BinaryOp::Div, pvar('a'), pvar('b')),
                pbin(BinaryOp::Div, pvar('c'), pvar('b')),
            ),
            pbin(BinaryOp::Div, pbin(BinaryOp::Add, pvar('a'), pvar('c')), pvar('b')),
            seq![],
        ),
    ]
}

fn group_fractions() -> (v: Vec<Rule>)
    ensures
        v@.map_values(|r: Rule| r@) == table_fractions(),
{
    let mut v: Vec<Rule> = Vec::new();
    let conditions: Vec<Condition> = Vec::new();
    v.push(Rule {
        name: "cancel-frac",
        searcher: pbin(
            BinaryOp::Div,
            pbin(BinaryOp::Mul, pvar('a'), pvar('c')),
            pbin(BinaryOp::Mul, pvar('b'), pvar('c')),
        ),
        applier: pbin(BinaryOp::Div, pvar('a'), pvar('b')),
        conditions,
    });
    let conditions: Vec<Condition> = Vec::new();
    v.push(Rule {
        name: "cancel-frac-simple",
        searcher: pbin(BinaryOp::Div, pbin(BinaryOp::Mul, pvar('a'), pvar('b')), pvar('a')),
        applier: pvar('b'),
        conditions,
    });
    let conditions: Vec<Condition> = Vec::new();
    v.push(Rule {
        name: "frac-add-same-denom",
        searcher: pbin(
            BinaryOp::Add,
            pbin(BinaryOp::Div, pvar('a'), pvar('b')),
            pbin(BinaryOp::Div, pvar('c'), pvar('b')),
        ),
        applier: pbin(BinaryOp::Div, pbin(BinaryOp::Add, pvar('a'), pvar('c')), pvar('b')),
        conditions,
    });
    assert(v@.map_values(|r: Rule| r@) =~= table_fractions());
    v
}

proof fn table_fractions_well_formed()
    ensures
        forall|i: int|
            0 <= i < table_fractions().len() ==> well_formed_rule(#[trigger] table_fractions()[i]),
{
    reveal_with_fuel(Expr::mentions_var, 8);
    reveal_with_fuel(Expr::symbol_free, 8);
    let t = table_fractions();
    assert(well_formed_rule(t[0]));
    assert(well_formed_rule(t[1]));
    assert(well_formed_rule(t[2]));
}

proof fn table_fractions_sound()
    ensures
        forall|i: int|
            0 <= i < table_fractions().len() ==> sound_rule(#[trigger] table_fractions()[i]),
{
    let t = table_fractions();
    // cancel-frac
    assert(sound_rule(t[0])) by {
        let r = t[0];
        assert forall|env: spec_fn(char) -> int|
            (#[trigger] eval_with(r.1, env) is Some && eval_with(r.2, env) is Some) implies
            eval_with(r.1, env) == eval_with(r.2, env) by {
            reveal_with_fuel(eval_with, 6);
        }
    }
    // cancel-frac-simple
    assert(sound_rule(t[1])) by {
        let r = t[1];
        assert forall|env: spec_fn(char) -> int|
            (#[trigger] eval_with(r.1, env) is Some && eval_with(r.2, env) is Some) implies
            eval_with(r.1, env) == eval_with(r.2, env) by {
            reveal_with_fuel(eval_with, 6);
        }
    }
    // frac-add-same-denom
    assert(sound_rule(t[2])) by {
        let r = t[2];
        assert forall|env: spec_fn(char) -> int|
            (#[trigger] eval_with(r.1, env) is Some && eval_with(r.2, env) is Some) implies
            eval_with(r.1, env) == eval_with(r.2, env) by {
            reveal_with_fuel(eval_with, 6);
        }
    }
}

/// Rules: Powers.
pub open spec fn table_powers() -> Seq<RuleView> {
    seq![
        // (pow ?a 0) => 1
        (
            "pow0",
            pbin(BinaryOp::Pow, pvar('a'), pnum(0i32)),
            pnum(1i32),
            seq![],
        ),
        // (pow ?a 1) => ?a
        (
            "pow1",
            pbin(BinaryOp::Pow, pvar('a'), pnum(1i32)),
            pvar('a'),
            seq![],
        ),
        // (pow (* ?a ?b) ?n) => (* (pow ?a ?n) (pow ?b ?n))
        (
            "pow-mul",
            pbin(BinaryOp::Pow, pbin(BinaryOp::Mul, pvar('a'), pvar('b')), pvar('n')),
            pbin(
                BinaryOp::Mul,
                pbin(BinaryOp::Pow, pvar('a'), pvar('n')),
                pbin(BinaryOp::Pow, pvar('b'), pvar('n')),
            ),
            seq![],
        ),
        // (* (pow ?a ?n) (pow ?b ?n)) => (pow (* ?a ?b) ?n)
        (
            "i-pow-mul",
            pbin(
                BinaryOp::Mul,
                pbin(BinaryOp::Pow, pvar('a'), pvar('n')),
                pbin(BinaryOp::Pow, pvar('b'), pvar('n')),
            ),
            pbin(BinaryOp::Pow, pbin(BinaryOp::Mul, pvar('a'), pvar('b')), pvar('n')),
            seq![],
        ),
        // (pow (/ ?a ?b) ?n) => (/ (pow ?a ?n) (pow ?b ?n))
        (
            "pow-div",
            pbin(BinaryOp::Pow, pbin(BinaryOp::Div, pvar('a'), pvar('b')), pvar('n')),
            pbin(
                BinaryOp::Div,
                pbin(BinaryOp::Pow, pvar('a'), pvar('n')),
                pbin(BinaryOp::Pow, pvar('b'), pvar('n')),
            ),
            seq![],
        ),
        // (/ (pow ?a ?n) (pow ?b ?n)) => (pow (/ ?a ?b) ?n)
        (
            "i-pow-div",
            pbin(
                BinaryOp::Div,
                pbin(BinaryOp::Pow, pvar('a'), pvar('n')),
                pbin(BinaryOp::Pow, pvar('b'), pvar('n')),
            ),
            pbin(BinaryOp::Pow, pbin(BinaryOp::Div, pvar('a'), pvar('b')), pvar('n')),
            seq![],
        ),
        // (* (pow ?a ?m) (pow ?a ?n)) => (pow ?a (+ ?m ?n))
        (
            "pow-add",
            pbin(
                BinaryOp::Mul,
                pbin(BinaryOp::Pow, pvar('a'), pvar('m')),
                pbin(BinaryOp::Pow, pvar('a'), pvar('n')),
            ),
            pbin(BinaryOp::Pow, pvar('a'), pbin(BinaryOp::Add, pvar('m'), pvar('n'))),
            seq![],
        ),
        // (pow ?a 4) => (* (pow ?a 2) (pow ?a 2))
        (
            "pow4-split",
            pbin(BinaryOp::Pow, pvar('a'), pnum(4i32)),
            pbin(
                BinaryOp::Mul,
                pbin(BinaryOp::Pow, pvar('a'), pnum(2i32)),
                pbin(BinaryOp::Pow, pvar('a'), pnum(2i32)),
            ),
            seq![],
        ),
        // (pow ?a -1) => (/ 1 ?a)
        (
            "pow-neg",
            pbin(BinaryOp::Pow, pvar('a'), pnum(-1i32)),
            pbin(BinaryOp::Div, pnum(1i32), pvar('a')),
            seq![],
        ),
        // (/ 1 ?a) => (pow ?a -1)
        (
            "i-pow-neg",
            pbin(BinaryOp::Div, pnum(1i32), pvar('a')),
            pbin(BinaryOp::Pow, pvar('a'), pnum(-1i32)),
            seq![],
        ),
    ]
}

fn group_powers() -> (v: Vec<Rule>)
    ensures
        v@.map_values(|r: Rule| r@) == table_powers(),
{
    let mut v: Vec<Rule> = Vec::new();
    let conditions: Vec<Condition> = Vec::new();
    v.push(Rule {
        name: "pow0",
        searcher: pbin(BinaryOp::Pow, pvar('a'), pnum(0i32)),
        applier: pnum(1i32),
        conditions,
    });
    let conditions: Vec<Condition> = Vec::new();
    v.push(Rule {
        name: "pow1",
        searcher: pbin(BinaryOp::Pow, pvar('a'), pnum(1i32)),
        applier: pvar('a'),
        conditions,
    });
    let conditions: Vec<Condition> = Vec::new();
    v.push(Rule {
        name: "pow-mul",
        searcher: pbin(BinaryOp::Pow, pbin(BinaryOp::Mul, pvar('a'), pvar('b')), pvar('n')),
        applier: pbin(
            BinaryOp::Mul,
            pbin(BinaryOp::Pow, pvar('a'), pvar('n')),
            pbin(BinaryOp::Pow, pvar('b'), pvar('n')),
        ),
        conditions,
    });
    let conditions: Vec<Condition> = Vec::new();
    v.push(Rule {
        name: "i-pow-mul",
        searcher: pbin(
            BinaryOp::Mul,
            pbin(BinaryOp::Pow, pvar('a'), pvar('n')),
            pbin(BinaryOp::Pow, pvar('b'), pvar('n')),
        ),
        applier: pbin(BinaryOp::Pow, pbin(BinaryOp::Mul, pvar('a'), pvar('b')), pvar('n')),
        conditions,
    });
    let conditions: Vec<Condition> = Vec::new();
    v.push(Rule {
        name: "pow-div",
        searcher: pbin(BinaryOp::Pow, pbin(BinaryOp::Div, pvar('a'), pvar('b')), pvar('n')),
        applier: pbin(
            BinaryOp::Div,
            pbin(BinaryOp::Pow, pvar('a'), pvar('n')),
            pbin(BinaryOp::Pow, pvar('b'), pvar('n')),
        ),
        conditions,
    });
    let conditions: Vec<Condition> = Vec::new();
    v.push(Rule {
        name: "i-pow-div",
        searcher: pbin(
            BinaryOp::Div,
            pbin(BinaryOp::Pow, pvar('a'), pvar('n')),
            pbin(BinaryOp::Pow, pvar('b'), pvar('n')),
        ),
        applier: pbin(BinaryOp::Pow, pbin(BinaryOp::Div, pvar('a'), pvar('b')), pvar('n')),
        conditions,
    });
    let conditions: Vec<Condition> = Vec::new();
    v.push(Rule {
        name: "pow-add",
        searcher: pbin(
            BinaryOp::Mul,
            pbin(BinaryOp::Pow, pvar('a'), pvar('m')),
            pbin(BinaryOp::Pow, pvar('a'), pvar('n')),
        ),
        applier: pbin(BinaryOp::Pow, pvar('a'), pbin(BinaryOp::Add, pvar('m'), pvar('n'))),
        conditions,
    });
    let conditions: Vec<Condition> = Vec::new();
    v.push(Rule {
        name: "pow4-split",
        searcher: pbin(BinaryOp::Pow, pvar('a'), pnum(4i32)),
        applier: pbin(
            BinaryOp::Mul,
            pbin(BinaryOp::Pow, pvar('a'), pnum(2i32)),
            pbin(BinaryOp::Pow, pvar('a'), pnum(2i32)),
        ),
        conditions,
    });
    let conditions: Vec<Condition> = Vec::new();
    v.push(Rule {
        name: "pow-neg",
        searcher: pbin(BinaryOp::Pow, pvar('a'), pnum(-1i32)),
        applier: pbin(BinaryOp::Div, pnum(1i32), pvar('a')),
        conditions,
    });
    let conditions: Vec<Condition> = Vec::new();
    v.push(Rule {
        name: "i-pow-neg",
        searcher: pbin(BinaryOp::Div, pnum(1i32), pvar('a')),
        applier: pbin(BinaryOp::Pow, pvar('a'), pnum(-1i32)),
        conditions,
    });
    assert(v@.map_values(|r: Rule| r@) =~= table_powers());
    v
}

proof fn table_powers_well_formed()
    ensures
        forall|i: int|
            0 <= i < table_powers().len() ==> well_formed_rule(#[trigger] table_powers()[i]),
{
    reveal_with_fuel(Expr::mentions_var, 8);
    reveal_with_fuel(Expr::symbol_free, 8);
    let t = table_powers();
    assert(well_formed_rule(t[0]));
    assert(well_formed_rule(t[1]));
    assert(well_formed_rule(t[2]));
    assert(well_formed_rule(t[3]));
    assert(well_formed_rule(t[4]));
    assert(well_formed_rule(t[5]));
    assert(well_formed_rule(t[6]));
    assert(well_formed_rule(t[7]));
    assert(well_formed_rule(t[8]));
    assert(well_formed_rule(t[9]));
}

proof fn table_powers_sound()
    ensures
        forall|i: int|
            0 <= i < table_powers().len() ==> sound_rule(#[trigger] table_powers()[i]),
{
    let t = table_powers();
    // pow0
    assert(sound_rule(t[0])) by {
        let r = t[0];
        assert forall|env: spec_fn(char) -> int|
            (#[trigger] eval_with(r.1, env) is Some && eval_with(r.2, env) is Some) implies
            eval_with(r.1, env) == eval_with(r.2, env) by {
            reveal_with_fuel(eval_with, 6);
            let a = env('a');
            lemma_power_small(a);
        }
    }
    // pow1
    assert(sound_rule(t[1])) by {
        let r = t[1];
        assert forall|env: spec_fn(char) -> int|
            (#[trigger] eval_with(r.1, env) is Some && eval_with(r.2, env) is Some) implies
            eval_with(r.1, env) == eval_with(r.2, env) by {
            reveal_with_fuel(eval_with, 6);
            let a = env('a');
            lemma_power_small(a);
        }
    }
    // pow-mul
    assert(sound_rule(t[2])) by {
        let r = t[2];
        assert forall|env: spec_fn(char) -> int|
            (#[trigger] eval_with(r.1, env) is Some && eval_with(r.2, env) is Some) implies
            eval_with(r.1, env) == eval_with(r.2, env) by {
            reveal_with_fuel(eval_with, 6);
            let a = env('a');
            let b = env('b');
            let n = env('n');
            if eval_with(r.1, env) is Some && eval_with(r.2, env) is Some { lemma_pow_value_mul(a, b, n); }
        }
    }
    // i-pow-mul
    assert(sound_rule(t[3])) by {
        let r = t[3];
        assert forall|env: spec_fn(char) -> int|
            (#[trigger] eval_with(r.1, env) is Some && eval_with(r.2, env) is Some) implies
            eval_with(r.1, env) == eval_with(r.2, env) by {
            reveal_with_fuel(eval_with, 6);
            let a = env('a');
            let b = env('b');
            let n = env('n');
            if eval_with(r.1, env) is Some && eval_with(r.2, env) is Some { lemma_pow_value_mul(a, b, n); }
        }
    }
    // pow-div
    assert(sound_rule(t[4])) by {
        let r = t[4];
        assert forall|env: spec_fn(char) -> int|
            (#[trigger] eval_with(r.1, env) is Some && eval_with(r.2, env) is Some) implies
            eval_with(r.1, env) == eval_with(r.2, env) by {
            reveal_with_fuel(eval_with, 6);
        }
    }
    // i-pow-div
    assert(sound_rule(t[5])) by {
        let r = t[5];
        assert forall|env: spec_fn(char) -> int|
            (#[trigger] eval_with(r.1, env) is Some && eval_with(r.2, env) is Some) implies
            eval_with(r.1, env) == eval_with(r.2, env) by {
            reveal_with_fuel(eval_with, 6);
        }
    }
    // pow-add
    assert(sound_rule(t[6])) by {
        let r = t[6];
        assert forall|env: spec_fn(char) -> int|
            (#[trigger] eval_with(r.1, env) is Some && eval_with(r.2, env) is Some) implies
            eval_with(r.1, env) == eval_with(r.2, env) by {
            reveal_with_fuel(eval_with, 6);
            let a = env('a');
            let m = env('m');
            let n = env('n');
            if eval_with(r.1, env) is Some && eval_with(r.2, env) is Some { lemma_pow_value_add(a, m, n); }
        }
    }
    // pow4-split
    assert(sound_rule(t[7])) by {
        let r = t[7];
        assert forall|env: spec_fn(char) -> int|
            (#[trigger] eval_with(r.1, env) is Some && eval_with(r.2, env) is Some) implies
            eval_with(r.1, env) == eval_with(r.2, env) by {
            reveal_with_fuel(eval_with, 6);
            let a = env('a');
            lemma_power_small(a);
            assert(a * (a * (a * a)) == (a * a) * (a * a)) by (nonlinear_arith);
        }
    }
    // pow-neg
    assert(sound_rule(t[8])) by {
        let r = t[8];
        assert forall|env: spec_fn(char) -> int|
            (#[trigger] eval_with(r.1, env) is Some && eval_with(r.2, env) is Some) implies
            eval_with(r.1, env) == eval_with(r.2, env) by {
            reveal_with_fuel(eval_with, 6);
        }
    }
    // i-pow-neg
    assert(sound_rule(t[9])) by {
        let r = t[9];
        assert forall|env: spec_fn(char) -> int|
            (#[trigger] eval_with(r.1, env) is Some && eval_with(r.2, env) is Some) implies
            eval_with(r.1, env) == eval_with(r.2, env) by {
            reveal_with_fuel(eval_with, 6);
        }
    }
}

/// Rules: Differentiation.
pub open spec fn table_differentiation() -> Seq<RuleView> {
    seq![
        // (d ?c ?x) => 0
        (
            "d-const",
            pbin(BinaryOp::D, pvar('c'), pvar('x')),
            pnum(0i32),
            seq![Condition::IsConst('c')],
        ),
        // (d ?x ?x) => 1
        (
            "d-var",
            pbin(BinaryOp::D, pvar('x'), pvar('x')),
            pnum(1i32),
            seq![],
        ),
        // (d (pow ?x ?n) ?x) => (* ?n (pow ?x (- ?n 1)))
        (
            "d-pow",
            pbin(BinaryOp::D, pbin(BinaryOp::Pow, pvar('x'), pvar('n')), pvar('x')),
            pbin(
                BinaryOp::Mul,
                pvar('n'),
                pbin(BinaryOp::Pow, pvar('x'), pbin(BinaryOp::Sub, pvar('n'), pnum(1i32))),
            ),
            seq![Condition::IsConst('n')],
        ),
        // (d (* ?c ?f) ?x) => (* ?c (d ?f ?x))
        (
            "d-const-mul",
            pbin(BinaryOp::D, pbin(BinaryOp::Mul, pvar('c'), pvar('f')), pvar('x')),
            pbin(BinaryOp::Mul, pvar('c'), pbin(BinaryOp::D, pvar('f'), pvar('x'))),
            seq![Condition::IsConst('c')],
        ),
        // (d (sin ?x) ?x) => (cos ?x)
        (
            "d-sin",
            pbin(BinaryOp::D, pun(UnaryOp::Sin, pvar('x')), pvar('x')),
            pun(UnaryOp::Cos, pvar('x')),
            seq![],
        ),
        // (d (cos ?x) ?x) => (* -1 (sin ?x))
        (
            "d-cos",
            pbin(BinaryOp::D, pun(UnaryOp::Cos, pvar('x')), pvar('x')),
            pbin(BinaryOp::Mul, pnum(-1i32), pun(UnaryOp::Sin, pvar('x'))),
            seq![],
        ),
        // (d (exp ?x) ?x) => (exp ?x)
        (
            "d-exp",
            pbin(BinaryOp::D, pun(UnaryOp::Exp, pvar('x')), pvar('x')),
            pun(UnaryOp::Exp, pvar('x')),
            seq![],
        ),
        // (d (ln ?x) ?x) => (/ 1 ?x)
        (
            "d-ln",
            pbin(BinaryOp::D, pun(UnaryOp::Ln, pvar('x')), pvar('x')),
            pbin(BinaryOp::Div, pnum(1i32), pvar('x')),
            seq![],
        ),
    ]
}

fn group_differentiation() -> (v: Vec<Rule>)
    ensures
        v@.map_values(|r: Rule| r@) == table_differentiation(),
{
    let mut v: Vec<Rule> = Vec::new();
    let mut conditions: Vec<Condition> = Vec::new();
    conditions.push(Condition::IsConst('c'));
    assert(conditions@ =~= seq![Condition::IsConst('c')]);
    v.push(Rule {
        name: "d-const",
        searcher: pbin(BinaryOp::D, pvar('c'), pvar('x')),
        applier: pnum(0i32),
        conditions,
    });
    let conditions: Vec<Condition> = Vec::new();
    v.push(Rule {
        name: "d-var",
        searcher: pbin(BinaryOp::D, pvar('x'), pvar('x')),
        applier: pnum(1i32),
        conditions,
    });
    let mut conditions: Vec<Condition> = Vec::new();
    conditions.push(Condition::IsConst('n'));
    assert(conditions@ =~= seq![Condition::IsConst('n')]);
    v.push(Rule {
        name: "d-pow",
        searcher: pbin(BinaryOp::D, pbin(BinaryOp::Pow, pvar('x'), pvar('n')), pvar('x')),
        applier: pbin(
            BinaryOp::Mul,
            pvar('n'),
            pbin(BinaryOp::Pow, pvar('x'), pbin(BinaryOp::Sub, pvar('n'), pnum(1i32))),
        ),
        conditions,
    });
    let mut conditions: Vec<Condition> = Vec::new();
    conditions.push(Condition::IsConst('c'));
    assert(conditions@ =~= seq![Condition::IsConst('c')]);
    v.push(Rule {
        name: "d-const-mul",
        searcher: pbin(BinaryOp::D, pbin(BinaryOp::Mul, pvar('c'), pvar('f')), pvar('x')),
        applier: pbin(BinaryOp::Mul, pvar('c'), pbin(BinaryOp::D, pvar('f'), pvar('x'))),
        conditions,
    });
    let conditions: Vec<Condition> = Vec::new();
    v.push(Rule {
        name: "d-sin",
        searcher: pbin(BinaryOp::D, pun(UnaryOp::Sin, pvar('x')), pvar('x')),
        applier: pun(UnaryOp::Cos, pvar('x')),
        conditions,
    });
    let conditions: Vec<Condition> = Vec::new();
    v.push(Rule {
        name: "d-cos",
        searcher: pbin(BinaryOp::D, pun(UnaryOp::Cos, pvar('x')), pvar('x')),
        applier: pbin(BinaryOp::Mul, pnum(-1i32), pun(UnaryOp::Sin, pvar('x'))),
        conditions,
    });
    let conditions: Vec<Condition> = Vec::new();
    v.push(Rule {
        name: "d-exp",
        searcher: pbin(BinaryOp::D, pun(UnaryOp::Exp, pvar('x')), pvar('x')),
        applier: pun(UnaryOp::Exp, pvar('x')),
        conditions,
    });
    let conditions: Vec<Condition> = Vec::new();
    v.push(Rule {
        name: "d-ln",
        searcher: pbin(BinaryOp::D, pun(UnaryOp::Ln, pvar('x')), pvar('x')),
        applier: pbin(BinaryOp::Div, pnum(1i32), pvar('x')),
        conditions,
    });
    assert(v@.map_values(|r: Rule| r@) =~= table_differentiation());
    v
}

proof fn table_differentiation_well_formed()
    ensures
        forall|i: int|
            0 <= i < table_differentiation().len() ==> well_formed_rule(#[trigger] table_differentiation()[i]),
{
    reveal_with_fuel(Expr::mentions_var, 8);
    reveal_with_fuel(Expr::symbol_free, 8);
    let t = table_differentiation();
    assert(well_formed_rule(t[0]));
    assert(well_formed_rule(t[1]));
    assert(well_formed_rule(t[2]));
    assert(well_formed_rule(t[3]));
    assert(well_formed_rule(t[4]));
    assert(well_formed_rule(t[5]));
    assert(well_formed_rule(t[6]));
    assert(well_formed_rule(t[7]));
}

proof fn table_differentiation_sound()
    ensures
        forall|i: int|
            0 <= i < table_differentiation().len() ==> sound_rule(#[trigger] table_differentiation()[i]),
{
    let t = table_differentiation();
    // d-const
    assert(sound_rule(t[0])) by {
        let r = t[0];
        assert forall|env: spec_fn(char) -> int|
            (#[trigger] eval_with(r.1, env) is Some && eval_with(r.2, env) is Some) implies
            eval_with(r.1, env) == eval_with(r.2, env) by {
            reveal_with_fuel(eval_with, 6);
        }
    }
    // d-var
    assert(sound_rule(t[1])) by {
        let r = t[1];
        assert forall|env: spec_fn(char) -> int|
            (#[trigger] eval_with(r.1, env) is Some && eval_with(r.2, env) is Some) implies
            eval_with(r.1, env) == eval_with(r.2, env) by {
            reveal_with_fuel(eval_with, 6);
        }
    }
    // d-pow
    assert(sound_rule(t[2])) by {
        let r = t[2];
        assert forall|env: spec_fn(char) -> int|
            (#[trigger] eval_with(r.1, env) is Some && eval_with(r.2, env) is Some) implies
            eval_with(r.1, env) == eval_with(r.2, env) by {
            reveal_with_fuel(eval_with, 6);
        }
    }
    // d-const-mul
    assert(sound_rule(t[3])) by {
        let r = t[3];
        assert forall|env: spec_fn(char) -> int|
            (#[trigger] eval_with(r.1, env) is Some && eval_with(r.2, env) is Some) implies
            eval_with(r.1, env) == eval_with(r.2, env) by {
            reveal_with_fuel(eval_with, 6);
        }
    }
    // d-sin
    assert(sound_rule(t[4])) by {
        let r = t[4];
        assert forall|env: spec_fn(char) -> int|
            (#[trigger] eval_with(r.1, env) is Some && eval_with(r.2, env) is Some) implies
            eval_with(r.1, env) == eval_with(r.2, env) by {
            reveal_with_fuel(eval_with, 6);
        }
    }
    // d-cos
    assert(sound_rule(t[5])) by {
        let r = t[5];
        assert forall|env: spec_fn(char) -> int|
            (#[trigger] eval_with(r.1, env) is Some && eval_with(r.2, env) is Some) implies
            eval_with(r.1, env) == eval_with(r.2, env) by {
            reveal_with_fuel(eval_with, 6);
        }
    }
    // d-exp
    assert(sound_rule(t[6])) by {
        let r = t[6];
        assert forall|env: spec_fn(char) -> int|
            (#[trigger] eval_with(r.1, env) is Some && eval_with(r.2, env) is Some) implies
            eval_with(r.1, env) == eval_with(r.2, env) by {
            reveal_with_fuel(eval_with, 6);
        }
    }
    // d-ln
    assert(sound_rule(t[7])) by {
        let r = t[7];
        assert forall|env: spec_fn(char) -> int|
            (#[trigger] eval_with(r.1, env) is Some && eval_with(r.2, env) is Some) implies
            eval_with(r.1, env) == eval_with(r.2, env) by {
            reveal_with_fuel(eval_with, 6);
        }
    }
}

/// Rules: Integration — trigonometric / exponential / logarithmic.
pub open spec fn table_transcendental() -> Seq<RuleView> {
    seq![
        // (int (sin ?x) ?x) => (* -1 (cos ?x))
        (
            "int-sin",
            pbin(BinaryOp::Int, pun(UnaryOp::Sin, pvar('x')), pvar('x')),
            pbin(BinaryOp::Mul, pnum(-1i32), pun(UnaryOp::Cos, pvar('x'))),
            seq![],
        ),
        // (int (cos ?x) ?x) => (sin ?x)
        (
            "int-cos",
            pbin(BinaryOp::Int, pun(UnaryOp::Cos, pvar('x')), pvar('x')),
            pun(UnaryOp::Sin, pvar('x')),
            seq![],
        ),
        // (int (exp ?x) ?x) => (exp ?x)
        (
            "int-exp",
            pbin(BinaryOp::Int, pun(UnaryOp::Exp, pvar('x')), pvar('x')),
            pun(UnaryOp::Exp, pvar('x')),
            seq![],
        ),
        // (int (ln ?x) ?x) => (- (* ?x (ln ?x)) ?x)
        (
            "int-ln",
            pbin(BinaryOp::Int, pun(UnaryOp::Ln, pvar('x')), pvar('x')),
            pbin(
                BinaryOp::Sub,
                pbin(BinaryOp::Mul, pvar('x'), pun(UnaryOp::Ln, pvar('x'))),
                pvar('x'),
            ),
            seq![],
        ),
    ]
}

fn group_transcendental() -> (v: Vec<Rule>)
    ensures
        v@.map_values(|r: Rule| r@) == table_transcendental(),
{
    let mut v: Vec<Rule> = Vec::new();
    let conditions: Vec<Condition> = Vec::new();
    v.push(Rule {
        name: "int-sin",
        searcher: pbin(BinaryOp::Int, pun(UnaryOp::Sin, pvar('x')), pvar('x')),
        applier: pbin(BinaryOp::Mul, pnum(-1i32), pun(UnaryOp::Cos, pvar('x'))),
        conditions,
    });
    let conditions: Vec<Condition> = Vec::new();
    v.push(Rule {
        name: "int-cos",
        searcher: pbin(BinaryOp::Int, pun(UnaryOp::Cos, pvar('x')), pvar('x')),
        applier: pun(UnaryOp::Sin, pvar('x')),
        conditions,
    });
    let conditions: Vec<Condition> = Vec::new();
    v.push(Rule {
        name: "int-exp",
        searcher: pbin(BinaryOp::Int, pun(UnaryOp::Exp, pvar('x')), pvar('x')),
        applier: pun(UnaryOp::Exp, pvar('x')),
        conditions,
    });
    let conditions: Vec<Condition> = Vec::new();
    v.push(Rule {
        name: "int-ln",
        searcher: pbin(BinaryOp::Int, pun(UnaryOp::Ln, pvar('x')), pvar('x')),
        applier: pbin(
            BinaryOp::Sub,
            pbin(BinaryOp::Mul, pvar('x'), pun(UnaryOp::Ln, pvar('x'))),
            pvar('x'),
        ),
        conditions,
    });
    assert(v@.map_values(|r: Rule| r@) =~= table_transcendental());
    v
}

proof fn table_transcendental_well_formed()
    ensures
        forall|i: int|
            0 <= i < table_transcendental().len() ==> well_formed_rule(#[trigger] table_transcendental()[i]),
{
    reveal_with_fuel(Expr::mentions_var, 8);
    reveal_with_fuel(Expr::symbol_free, 8);
    let t = table_transcendental();
    assert(well_formed_rule(t[0]));
    assert(well_formed_rule(t[1]));
    assert(well_formed_rule(t[2]));
    assert(well_formed_rule(t[3]));
}

proof fn table_transcendental_sound()
    ensures
        forall|i: int|
            0 <= i < table_transcendental().len() ==> sound_rule(#[trigger] table_transcendental()[i]),
{
    let t = table_transcendental();
    // int-sin
    assert(sound_rule(t[0])) by {
        let r = t[0];
        assert forall|env: spec_fn(char) -> int|
            (#[trigger] eval_with(r.1, env) is Some && eval_with(r.2, env) is Some) implies
            eval_with(r.1, env) == eval_with(r.2, env) by {
            reveal_with_fuel(eval_with, 6);
        }
    }
    // int-cos
    assert(sound_rule(t[1])) by {
        let r = t[1];
        assert forall|env: spec_fn(char) -> int|
            (#[trigger] eval_with(r.1, env) is Some && eval_with(r.2, env) is Some) implies
            eval_with(r.1, env) == eval_with(r.2, env) by {
            reveal_with_fuel(eval_with, 6);
        }
    }
    // int-exp
    assert(sound_rule(t[2])) by {
        let r = t[2];
        assert forall|env: spec_fn(char) -> int|
            (#[trigger] eval_with(r.1, env) is Some && eval_with(r.2, env) is Some) implies
            eval_with(r.1, env) == eval_with(r.2, env) by {
            reveal_with_fuel(eval_with, 6);
        }
    }
    // int-ln
    assert(sound_rule(t[3])) by {
        let r = t[3];
        assert forall|env: spec_fn(char) -> int|
            (#[trigger] eval_with(r.1, env) is Some && eval_with(r.2, env) is Some) implies
            eval_with(r.1, env) == eval_with(r.2, env) by {
            reveal_with_fuel(eval_with, 6);
        }
    }
}

/// Rules: Integration by parts.
pub open spec fn table_by_parts() -> Seq<RuleView> {
    seq![
        // (int (* ?u ?v) ?x) => (- (* ?u (int ?v ?x)) (int (* (d ?u ?x) (int ?v ?x)) ?x))
        (
            "ibp",
            pbin(BinaryOp::Int, pbin(BinaryOp::Mul, pvar('u'), pvar('v')), pvar('x')),
            pbin(
                BinaryOp::Sub,
                pbin(BinaryOp::Mul, pvar('u'), pbin(BinaryOp::Int, pvar('v'), pvar('x'))),
                pbin(
                    BinaryOp::Int,
                    pbin(
                        BinaryOp::Mul,
                        pbin(BinaryOp::D, pvar('u'), pvar('x')),
                        pbin(BinaryOp::Int, pvar('v'), pvar('x')),
                    ),
                    pvar('x'),
                ),
            ),
            seq![],
        ),
    ]
}

fn group_by_parts() -> (v: Vec<Rule>)
    ensures
        v@.map_values(|r: Rule| r@) == table_by_parts(),
{
    let mut v: Vec<Rule> = Vec::new();
    let conditions: Vec<Condition> = Vec::new();
    v.push(Rule {
        name: "ibp",
        searcher: pbin(BinaryOp::Int, pbin(BinaryOp::Mul, pvar('u'), pvar('v')), pvar('x')),
        applier: pbin(
            BinaryOp::Sub,
            pbin(BinaryOp::Mul, pvar('u'), pbin(BinaryOp::Int, pvar('v'), pvar('x'))),
            pbin(
                BinaryOp::Int,
                pbin(
                    BinaryOp::Mul,
                    pbin(BinaryOp::D, pvar('u'), pvar('x')),
                    pbin(BinaryOp::Int, pvar('v'), pvar('x')),
                ),
                pvar('x'),
            ),
        ),
        conditions,
    });
    assert(v@.map_values(|r: Rule| r@) =~= table_by_parts());
    v
}

proof fn table_by_parts_well_formed()
    ensures
        forall|i: int|
            0 <= i < table_by_parts().len() ==> well_formed_rule(#[trigger] table_by_parts()[i]),
{
    reveal_with_fuel(Expr::mentions_var, 8);
    reveal_with_fuel(Expr::symbol_free, 8);
    let t = table_by_parts();
    assert(well_formed_rule(t[0]));
}

proof fn table_by_parts_sound()
    ensures
        forall|i: int|
            0 <= i < table_by_parts().len() ==> sound_rule(#[trigger] table_by_parts()[i]),
{
    let t = table_by_parts();
    // ibp
    assert(sound_rule(t[0])) by {
        let r = t[0];
        assert forall|env: spec_fn(char) -> int|
            (#[trigger] eval_with(r.1, env) is Some && eval_with(r.2, env) is Some) implies
            eval_with(r.1, env) == eval_with(r.2, env) by {
            reveal_with_fuel(eval_with, 6);
        }
    }
}

/// Rules: Factoring.
pub open spec fn table_factoring() -> Seq<RuleView> {
    seq![
        // (- (pow ?a 2) (pow ?b 2)) => (* (+ ?a ?b) (- ?a ?b))
        (
            "diff-sq",
            pbin(
                BinaryOp::Sub,
                pbin(BinaryOp::Pow, pvar('a'), pnum(2i32)),
                pbin(BinaryOp::Pow, pvar('b'), pnum(2i32)),
            ),
            pbin(
                BinaryOp::Mul,
                pbin(BinaryOp::Add, pvar('a'), pvar('b')),
                pbin(BinaryOp::Sub, pvar('a'), pvar('b')),
            ),
            seq![],
        ),
        // (* (+ ?a ?b) (- ?a ?b)) => (- (pow ?a 2) (pow ?b 2))
        (
            "i-diff-sq",
            pbin(
                BinaryOp::Mul,
                pbin(BinaryOp::Add, pvar('a'), pvar('b')),
                pbin(BinaryOp::Sub, pvar('a'), pvar('b')),
            ),
            pbin(
                BinaryOp::Sub,
                pbin(BinaryOp::Pow, pvar('a'), pnum(2i32)),
                pbin(BinaryOp::Pow, pvar('b'), pnum(2i32)),
            ),
            seq![],
        ),
        // (- (pow ?a 2) 1) => (* (+ ?a 1) (- ?a 1))
        (
            "diff-sq-1",
            pbin(BinaryOp::Sub, pbin(BinaryOp::Pow, pvar('a'), pnum(2i32)), pnum(1i32)),
            pbin(
                BinaryOp::Mul,
                pbin(BinaryOp::Add, pvar('a'), pnum(1i32)),
                pbin(BinaryOp::Sub, pvar('a'), pnum(1i32)),
            ),
            seq![],
        ),
        // (* (+ ?a 1) (- ?a 1)) => (- (pow ?a 2) 1)
        (
            "i-diff-sq-1",
            pbin(
                BinaryOp::Mul,
                pbin(BinaryOp::Add, pvar('a'), pnum(1i32)),
                pbin(BinaryOp::Sub, pvar('a'), pnum(1i32)),
            ),
            pbin(BinaryOp::Sub, pbin(BinaryOp::Pow, pvar('a'), pnum(2i32)), pnum(1i32)),
            seq![],
        ),
        // (- (pow ?a 3) (pow ?b 3)) => (* (- ?a ?b) (+ (+ (pow ?a 2) (* ?a ?b)) (pow ?b 2)))
        (
            "diff-cubes",
            pbin(
                BinaryOp::Sub,
                pbin(BinaryOp::Pow, pvar('a'), pnum(3i32)),
                pbin(BinaryOp::Pow, pvar('b'), pnum(3i32)),
            ),
            pbin(
                BinaryOp::Mul,
                pbin(BinaryOp::Sub, pvar('a'), pvar('b')),
                pbin(
                    BinaryOp::Add,
                    pbin(
                        BinaryOp::Add,
                        pbin(BinaryOp::Pow, pvar('a'), pnum(2i32)),
                        pbin(BinaryOp::Mul, pvar('a'), pvar('b')),
                    ),
                    pbin(BinaryOp::Pow, pvar('b'), pnum(2i32)),
                ),
            ),
            seq![],
        ),
        // (* (- ?a ?b) (+ (+ (pow ?a 2) (* ?a ?b)) (pow ?b 2))) => (- (pow ?a 3) (pow ?b 3))
        (
            "i-diff-cubes",
            pbin(
                BinaryOp::Mul,
                pbin(BinaryOp::Sub, pvar('a'), pvar('b')),
                pbin(
                    BinaryOp::Add,
                    pbin(
                        BinaryOp::Add,
                        pbin(BinaryOp::Pow, pvar('a'), pnum(2i32)),
                        pbin(BinaryOp::Mul, pvar('a'), pvar('b')),
                    ),
                    pbin(BinaryOp::Pow, pvar('b'), pnum(2i32)),
                ),
            ),
            pbin(
                BinaryOp::Sub,
                pbin(BinaryOp::Pow, pvar('a'), pnum(3i32)),
                pbin(BinaryOp::Pow, pvar('b'), pnum(3i32)),
            ),
            seq![],
        ),
        // (- (pow ?a 3) 1) => (* (- ?a 1) (+ (+ (pow ?a 2) ?a) 1))
        (
            "diff-cubes-1",
            pbin(BinaryOp::Sub, pbin(BinaryOp::Pow, pvar('a'), pnum(3i32)), pnum(1i32)),
            pbin(
                BinaryOp::Mul,
                pbin(BinaryOp::Sub, pvar('a'), pnum(1i32)),
                pbin(
                    BinaryOp::Add,
                    pbin(BinaryOp::Add, pbin(BinaryOp::Pow, pvar('a'), pnum(2i32)), pvar('a')),
                    pnum(1i32),
                ),
            ),
            seq![],
        ),
        // (* (- ?a 1) (+ (+ (pow ?a 2) ?a) 1)) => (- (pow ?a 3) 1)
        (
            "i-diff-cubes-1",
            pbin(
                BinaryOp::Mul,
                pbin(BinaryOp::Sub, pvar('a'), pnum(1i32)),
                pbin(
                    BinaryOp::Add,
                    pbin(BinaryOp::Add, pbin(BinaryOp::Pow, pvar('a'), pnum(2i32)), pvar('a')),
                    pnum(1i32),
                ),
            ),
            pbin(BinaryOp::Sub, pbin(BinaryOp::Pow, pvar('a'), pnum(3i32)), pnum(1i32)),
            seq![],
        ),
    ]
}

fn group_factoring() -> (v: Vec<Rule>)
    ensures
        v@.map_values(|r: Rule| r@) == table_factoring(),
{
    let mut v: Vec<Rule> = Vec::new();
    let conditions: Vec<Condition> = Vec::new();
    v.push(Rule {
        name: "diff-sq",
        searcher: pbin(
            BinaryOp::Sub,
            pbin(BinaryOp::Pow, pvar('a'), pnum(2i32)),
            pbin(BinaryOp::Pow, pvar('b'), pnum(2i32)),
        ),
        applier: pbin(
            BinaryOp::Mul,
            pbin(BinaryOp::Add, pvar('a'), pvar('b')),
            pbin(BinaryOp::Sub, pvar('a'), pvar('b')),
        ),
        conditions,
    });
    let conditions: Vec<Condition> = Vec::new();
    v.push(Rule {
        name: "i-diff-sq",
        searcher: pbin(
            BinaryOp::Mul,
            pbin(BinaryOp::Add, pvar('a'), pvar('b')),
            pbin(BinaryOp::Sub, pvar('a'), pvar('b')),
        ),
        applier: pbin(
            BinaryOp::Sub,
            pbin(BinaryOp::Pow, pvar('a'), pnum(2i32)),
            pbin(BinaryOp::Pow, pvar('b'), pnum(2i32)),
        ),
        conditions,
    });
    let conditions: Vec<Condition> = Vec::new();
    v.push(Rule {
        name: "diff-sq-1",
        searcher: pbin(BinaryOp::Sub, pbin(BinaryOp::Pow, pvar('a'), pnum(2i32)), pnum(1i32)),
        applier: pbin(
            BinaryOp::Mul,
            pbin(BinaryOp::Add, pvar('a'), pnum(1i32)),
            pbin(BinaryOp::Sub, pvar('a'), pnum(1i32)),
        ),
        conditions,
    });
    let conditions: Vec<Condition> = Vec::new();
    v.push(Rule {
        name: "i-diff-sq-1",
        searcher: pbin(
            BinaryOp::Mul,
            pbin(BinaryOp::Add, pvar('a'), pnum(1i32)),
            pbin(BinaryOp::Sub, pvar('a'), pnum(1i32)),
        ),
        applier: pbin(BinaryOp::Sub, pbin(BinaryOp::Pow, pvar('a'), pnum(2i32)), pnum(1i32)),
        conditions,
    });
    let conditions: Vec<Condition> = Vec::new();
    v.push(Rule {
        name: "diff-cubes",
        searcher: pbin(
            BinaryOp::Sub,
            pbin(BinaryOp::Pow, pvar('a'), pnum(3i32)),
            pbin(BinaryOp::Pow, pvar('b'), pnum(3i32)),
        ),
        applier: pbin(
            BinaryOp::Mul,
            pbin(BinaryOp::Sub, pvar('a'), pvar('b')),
            pbin(
                BinaryOp::Add,
                pbin(
                    BinaryOp::Add,
                    pbin(BinaryOp::Pow, pvar('a'), pnum(2i32)),
                    pbin(BinaryOp::Mul, pvar('a'), pvar('b')),
                ),
                pbin(BinaryOp::Pow, pvar('b'), pnum(2i32)),
            ),
        ),
        conditions,
    });
    let conditions: Vec<Condition> = Vec::new();
    v.push(Rule {
        name: "i-diff-cubes",
        searcher: pbin(
            BinaryOp::Mul,
            pbin(BinaryOp::Sub, pvar('a'), pvar('b')),
            pbin(
                BinaryOp::Add,
                pbin(
                    BinaryOp::Add,
                    pbin(BinaryOp::Pow, pvar('a'), pnum(2i32)),
                    pbin(BinaryOp::Mul, pvar('a'), pvar('b')),
                ),
                pbin(BinaryOp::Pow, pvar('b'), pnum(2i32)),
            ),
        ),
        applier: pbin(
            BinaryOp::Sub,
            pbin(BinaryOp::Pow, pvar('a'), pnum(3i32)),
            pbin(BinaryOp::Pow, pvar('b'), pnum(3i32)),
        ),
        conditions,
    });
    let conditions: Vec<Condition> = Vec::new();
    v.push(Rule {
        name: "diff-cubes-1",
        searcher: pbin(BinaryOp::Sub, pbin(BinaryOp::Pow, pvar('a'), pnum(3i32)), pnum(1i32)),
        applier: pbin(
            BinaryOp::Mul,
            pbin(BinaryOp::Sub, pvar('a'), pnum(1i32)),
            pbin(
                BinaryOp::Add,
                pbin(BinaryOp::Add, pbin(BinaryOp::Pow, pvar('a'), pnum(2i32)), pvar('a')),
                pnum(1i32),
            ),
        ),
        conditions,
    });
    let conditions: Vec<Condition> = Vec::new();
    v.push(Rule {
        name: "i-diff-cubes-1",
        searcher: pbin(
            BinaryOp::Mul,
            pbin(BinaryOp::Sub, pvar('a'), pnum(1i32)),
            pbin(
                BinaryOp::Add,
                pbin(BinaryOp::Add, pbin(BinaryOp::Pow, pvar('a'), pnum(2i32)), pvar('a')),
                pnum(1i32),
            ),
        ),
        applier: pbin(BinaryOp::Sub, pbin(BinaryOp::Pow, pvar('a'), pnum(3i32)), pnum(1i32)),
        conditions,
    });
    assert(v@.map_values(|r: Rule| r@) =~= table_factoring());
    v
}

proof fn table_factoring_well_formed()
    ensures
        forall|i: int|
            0 <= i < table_factoring().len() ==> well_formed_rule(#[trigger] table_factoring()[i]),
{
    reveal_with_fuel(Expr::mentions_var, 8);
    reveal_with_fuel(Expr::symbol_free, 8);
    let t = table_factoring();
    assert(well_formed_rule(t[0]));
    assert(well_formed_rule(t[1]));
    assert(well_formed_rule(t[2]));
    assert(well_formed_rule(t[3]));
    assert(well_formed_rule(t[4]));
    assert(well_formed_rule(t[5]));
    assert(well_formed_rule(t[6]));
    assert(well_formed_rule(t[7]));
}

proof fn table_factoring_sound()
    ensures
        forall|i: int|
            0 <= i < table_factoring().len() ==> sound_rule(#[trigger] table_factoring()[i]),
{
    let t = table_factoring();
    // diff-sq
    assert(sound_rule(t[0])) by {
        let r = t[0];
        assert forall|env: spec_fn(char) -> int|
            (#[trigger] eval_with(r.1, env) is Some && eval_with(r.2, env) is Some) implies
            eval_with(r.1, env) == eval_with(r.2, env) by {
            reveal_with_fuel(eval_with, 6);
            let a = env('a');
            let b = env('b');
            lemma_power_small(a);
            lemma_power_small(b);
            assert((a + b) * (a - b) == a * a - b * b) by (nonlinear_arith);
        }
    }
    // i-diff-sq
    assert(sound_rule(t[1])) by {
        let r = t[1];
        assert forall|env: spec_fn(char) -> int|
            (#[trigger] eval_with(r.1, env) is Some && eval_with(r.2, env) is Some) implies
            eval_with(r.1, env) == eval_with(r.2, env) by {
            reveal_with_fuel(eval_with, 6);
            let a = env('a');
            let b = env('b');
            lemma_power_small(a);
            lemma_power_small(b);
            assert((a + b) * (a - b) == a * a - b * b) by (nonlinear_arith);
        }
    }
    // diff-sq-1
    assert(sound_rule(t[2])) by {
        let r = t[2];
        assert forall|env: spec_fn(char) -> int|
            (#[trigger] eval_with(r.1, env) is Some && eval_with(r.2, env) is Some) implies
            eval_with(r.1, env) == eval_with(r.2, env) by {
            reveal_with_fuel(eval_with, 6);
            let a = env('a');
            lemma_power_small(a);
            assert((a + 1) * (a - 1) == a * a - 1) by (nonlinear_arith);
        }
    }
    // i-diff-sq-1
    assert(sound_rule(t[3])) by {
        let r = t[3];
        assert forall|env: spec_fn(char) -> int|
            (#[trigger] eval_with(r.1, env) is Some && eval_with(r.2, env) is Some) implies
            eval_with(r.1, env) == eval_with(r.2, env) by {
            reveal_with_fuel(eval_with, 6);
            let a = env('a');
            lemma_power_small(a);
            assert((a + 1) * (a - 1) == a * a - 1) by (nonlinear_arith);
        }
    }
    // diff-cubes
    assert(sound_rule(t[4])) by {
        let r = t[4];
        assert forall|env: spec_fn(char) -> int|
            (#[trigger] eval_with(r.1, env) is Some && eval_with(r.2, env) is Some) implies
            eval_with(r.1, env) == eval_with(r.2, env) by {
            reveal_with_fuel(eval_with, 6);
            let a = env('a');
            let b = env('b');
            lemma_power_small(a);
            lemma_power_small(b);
            assert((a - b) * ((a * a + a * b) + b * b) == a * (a * a) - b * (b * b)) by (nonlinear_arith);
        }
    }
    // i-diff-cubes
    assert(sound_rule(t[5])) by {
        let r = t[5];
        assert forall|env: spec_fn(char) -> int|
            (#[trigger] eval_with(r.1, env) is Some && eval_with(r.2, env) is Some) implies
            eval_with(r.1, env) == eval_with(r.2, env) by {
            reveal_with_fuel(eval_with, 6);
            let a = env('a');
            let b = env('b');
            lemma_power_small(a);
            lemma_power_small(b);
            assert((a - b) * ((a * a + a * b) + b * b) == a * (a * a) - b * (b * b)) by (nonlinear_arith);
        }
    }
    // diff-cubes-1
    assert(sound_rule(t[6])) by {
        let r = t[6];
        assert forall|env: spec_fn(char) -> int|
            (#[trigger] eval_with(r.1, env) is Some && eval_with(r.2, env) is Some) implies
            eval_with(r.1, env) == eval_with(r.2, env) by {
            reveal_with_fuel(eval_with, 6);
            let a = env('a');
            lemma_power_small(a);
            assert((a - 1) * ((a * a + a) + 1) == a * (a * a) - 1) by (nonlinear_arith);
        }
    }
    // i-diff-cubes-1
    assert(sound_rule(t[7])) by {
        let r = t[7];
        assert forall|env: spec_fn(char) -> int|
            (#[trigger] eval_with(r.1, env) is Some && eval_with(r.2, env) is Some) implies
            eval_with(r.1, env) == eval_with(r.2, env) by {
            reveal_with_fuel(eval_with, 6);
            let a = env('a');
            lemma_power_small(a);
            assert((a - 1) * ((a * a + a) + 1) == a * (a * a) - 1) by (nonlinear_arith);
        }
    }
}

/// The full rule set, in the order in which it is handed to the runner.
pub open spec fn rule_table() -> Seq<RuleView> {
    table_expansion()
        + table_integration_linearity()
        + table_sqrt()
        + table_power_rule()
        + table_comm_assoc()
        + table_distributivity()
        + table_identities()
        + table_sugar()
        + table_fractions()
        + table_powers()
        + table_differentiation()
        + table_transcendental()
        + table_by_parts()
        + table_factoring()
}

pub(crate) proof fn concat_holds(a: Seq<RuleView>, b: Seq<RuleView>, p: spec_fn(RuleView) -> bool)
    requires
        forall|i: int| 0 <= i < a.len() ==> p(#[trigger] a[i]),
        forall|i: int| 0 <= i < b.len() ==> p(#[trigger] b[i]),
    ensures
        forall|i: int| 0 <= i < (a + b).len() ==> p(#[trigger] (a + b)[i]),
{
    assert forall|i: int| 0 <= i < (a + b).len() implies p(#[trigger] (a + b)[i]) by {
        if i < a.len() {
            assert((a + b)[i] == a[i]);
        } else {
            assert((a + b)[i] == b[i - a.len()]);
        }
    }
}

proof fn lemma_append_views(a: Seq<Rule>, b: Seq<Rule>)
    ensures
        (a + b).map_values(|x: Rule| x@) == a.map_values(|x: Rule| x@) + b.map_values(
            |x: Rule| x@,
        ),
{
    assert((a + b).map_values(|x: Rule| x@) =~= a.map_values(|x: Rule| x@) + b.map_values(
        |x: Rule| x@,
    ));
}

/// Law: every rule of the table is well formed, so building the rewrites
/// cannot fail and no condition looks up an unbound variable.
pub proof fn rule_table_well_formed()
    ensures
        rule_table().len() == 66,
        forall|i: int| 0 <= i < rule_table().len() ==> well_formed_rule(#[trigger] rule_table()[i]),
{
    table_expansion_well_formed();
    table_integration_linearity_well_formed();
    table_sqrt_well_formed();
    table_power_rule_well_formed();
    table_comm_assoc_well_formed();
    table_distributivity_well_formed();
    table_identities_well_formed();
    table_sugar_well_formed();
    table_fractions_well_formed();
    table_powers_well_formed();
    table_differentiation_well_formed();
    table_transcendental_well_formed();
    table_by_parts_well_formed();
    table_factoring_well_formed();
    let ghost mut acc = table_expansion();
    concat_holds(acc, table_integration_linearity(), |r: RuleView| well_formed_rule(r));
    acc = acc + table_integration_linearity();
    concat_holds(acc, table_sqrt(), |r: RuleView| well_formed_rule(r));
    acc = acc + table_sqrt();
    concat_holds(acc, table_power_rule(), |r: RuleView| well_formed_rule(r));
    acc = acc + table_power_rule();
    concat_holds(acc, table_comm_assoc(), |r: RuleView| well_formed_rule(r));
    acc = acc + table_comm_assoc();
    concat_holds(acc, table_distributivity(), |r: RuleView| well_formed_rule(r));
    acc = acc + table_distributivity();
    concat_holds(acc, table_identities(), |r: RuleView| well_formed_rule(r));
    acc = acc + table_identities();
    concat_holds(acc, table_sugar(), |r: RuleView| well_formed_rule(r));
    acc = acc + table_sugar();
    concat_holds(acc, table_fractions(), |r: RuleView| well_formed_rule(r));
    acc = acc + table_fractions();
    concat_holds(acc, table_powers(), |r: RuleView| well_formed_rule(r));
    acc = acc + table_powers();
    concat_holds(acc, table_differentiation(), |r: RuleView| well_formed_rule(r));
    acc = acc + table_differentiation();
    concat_holds(acc, table_transcendental(), |r: RuleView| well_formed_rule(r));
    acc = acc + table_transcendental();
    concat_holds(acc, table_by_parts(), |r: RuleView| well_formed_rule(r));
    acc = acc + table_by_parts();
    concat_holds(acc, table_factoring(), |r: RuleView| well_formed_rule(r));
    acc = acc + table_factoring();
    assert(acc == rule_table());
}

/// Law: every rule of the table is sound for integer arithmetic, so the
/// rules and constant folding never disagree on the value of an integer
/// term.
pub proof fn rule_table_sound()
    ensures
        forall|i: int| 0 <= i < rule_table().len() ==> sound_rule(#[trigger] rule_table()[i]),
{
    table_expansion_sound();
    table_integration_linearity_sound();
    table_sqrt_sound();
    table_power_rule_sound();
    table_comm_assoc_sound();
    table_distributivity_sound();
    table_identities_sound();
    table_sugar_sound();
    table_fractions_sound();
    table_powers_sound();
    table_differentiation_sound();
    table_transcendental_sound();
    table_by_parts_sound();
    table_factoring_sound();
    let ghost mut acc = table_expansion();
    concat_holds(acc, table_integration_linearity(), |r: RuleView| sound_rule(r));
    acc = acc + table_integration_linearity();
    concat_holds(acc, table_sqrt(), |r: RuleView| sound_rule(r));
    acc = acc + table_sqrt();
    concat_holds(acc, table_power_rule(), |r: RuleView| sound_rule(r));
    acc = acc + table_power_rule();
    concat_holds(acc, table_comm_assoc(), |r: RuleView| sound_rule(r));
    acc = acc + table_comm_assoc();
    concat_holds(acc, table_distributivity(), |r: RuleView| sound_rule(r));
    acc = acc + table_distributivity();
    concat_holds(acc, table_identities(), |r: RuleView| sound_rule(r));
    acc = acc + table_identities();
    concat_holds(acc, table_sugar(), |r: RuleView| sound_rule(r));
    acc = acc + table_sugar();
    concat_holds(acc, table_fractions(), |r: RuleView| sound_rule(r));
    acc = acc + table_fractions();
    concat_holds(acc, table_powers(), |r: RuleView| sound_rule(r));
    acc = acc + table_powers();
    concat_holds(acc, table_differentiation(), |r: RuleView| sound_rule(r));
    acc = acc + table_differentiation();
    concat_holds(acc, table_transcendental(), |r: RuleView| sound_rule(r));
    acc = acc + table_transcendental();
    concat_holds(acc, table_by_parts(), |r: RuleView| sound_rule(r));
    acc = acc + table_by_parts();
    concat_holds(acc, table_factoring(), |r: RuleView| sound_rule(r));
    acc = acc + table_factoring();
    assert(acc == rule_table());
}

/// The rewrite rules of the integration benchmark.
pub fn rules() -> (r: Vec<Rule>)
    ensures
        r@.map_values(|x: Rule| x@) == rule_table(),
        r.len() == 66,
        forall|i: int| 0 <= i < r.len() ==> well_formed_rule(#[trigger] r@[i]@),
        forall|i: int| 0 <= i < r.len() ==> sound_rule(#[trigger] r@[i]@),
        forall|i: int|
            0 <= i < r.len() && !loses_sign(r@[i]@) ==> real_sound_rule(#[trigger] r@[i]@),
{
    proof {
        rule_table_well_formed();
        rule_table_sound();
        crate::calculus::rule_table_sound_for_calculus();
    }
    let mut r: Vec<Rule> = Vec::new();
    let ghost mut acc = Seq::<RuleView>::empty();
    assert(r@.map_values(|x: Rule| x@) =~= acc);
    let mut g = group_expansion();
    proof {
        lemma_append_views(r@, g@);
        acc = acc + table_expansion();
    }
    r.append(&mut g);
    let mut g = group_integration_linearity();
    proof {
        lemma_append_views(r@, g@);
        acc = acc + table_integration_linearity();
    }
    r.append(&mut g);
    let mut g = group_sqrt();
    proof {
        lemma_append_views(r@, g@);
        acc = acc + table_sqrt();
    }
    r.append(&mut g);
    let mut g = group_power_rule();
    proof {
        lemma_append_views(r@, g@);
        acc = acc + table_power_rule();
    }
    r.append(&mut g);
    let mut g = group_comm_assoc();
    proof {
        lemma_append_views(r@, g@);
        acc = acc + table_comm_assoc();
    }
    r.append(&mut g);
    let mut g = group_distributivity();
    proof {
        lemma_append_views(r@, g@);
        acc = acc + table_distributivity();
    }
    r.append(&mut g);
    let mut g = group_identities();
    proof {
        lemma_append_views(r@, g@);
        acc = acc + table_identities();
    }
    r.append(&mut g);
    let mut g = group_sugar();
    proof {
        lemma_append_views(r@, g@);
        acc = acc + table_sugar();
    }
    r.append(&mut g);
    let mut g = group_fractions();
    proof {
        lemma_append_views(r@, g@);
        acc = acc + table_fractions();
    }
    r.append(&mut g);
    let mut g = group_powers();
    proof {
        lemma_append_views(r@, g@);
        acc = acc + table_powers();
    }
    r.append(&mut g);
    let mut g = group_differentiation();
    proof {
        lemma_append_views(r@, g@);
        acc = acc + table_differentiation();
    }
    r.append(&mut g);
    let mut g = group_transcendental();
    proof {
        lemma_append_views(r@, g@);
        acc = acc + table_transcendental();
    }
    r.append(&mut g);
    let mut g = group_by_parts();
    proof {
        lemma_append_views(r@, g@);
        acc = acc + table_by_parts();
    }
    r.append(&mut g);
    let mut g = group_factoring();
    proof {
        lemma_append_views(r@, g@);
        acc = acc + table_factoring();
    }
    r.append(&mut g);
    assert(acc == rule_table());
    assert forall|i: int| 0 <= i < r.len() implies well_formed_rule(#[trigger] r@[i]@)
        && sound_rule(r@[i]@) && (!loses_sign(r@[i]@) ==> real_sound_rule(r@[i]@)) by {
        assert(r@.map_values(|x: Rule| x@)[i] == r@[i]@);
    }
    r
}

} // verus!
