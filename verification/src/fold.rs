use vstd::prelude::*;
use crate::language::{BinaryOp, ENode, Expr};

verus! {

/// `v` is representable as an `i32`.
pub open spec fn fits_i32(v: int) -> bool {
    i32::MIN <= v <= i32::MAX
}

pub open spec fn abs(v: int) -> int {
    if v < 0 { -v } else { v }
}

/// `base` raised to the natural power `exp`.
pub open spec fn power(base: int, exp: nat) -> int
    decreases exp,
{
    if exp == 0 { 1 } else { base * power(base, (exp - 1) as nat) }
}

pub(crate) proof fn lemma_power_of_small_base(base: int, exp: nat)
    requires
        -1 <= base <= 1,
    ensures
        base == 0 ==> power(base, exp) == (if exp == 0 { 1int } else { 0int }),
        base == 1 ==> power(base, exp) == 1,
        base == -1 ==> power(base, exp) == (if exp % 2 == 0 { 1int } else { -1int }),
    decreases exp,
{
    if exp > 0 {
        lemma_power_of_small_base(base, (exp - 1) as nat);
    }
}

/// For a base of magnitude at least two, each further factor at least
/// doubles the magnitude of the power.
proof fn lemma_power_doubles(base: int, exp: nat)
    requires
        abs(base) >= 2,
    ensures
        abs(power(base, exp + 1)) >= 2 * abs(power(base, exp)),
        abs(power(base, exp)) >= 1,
    decreases exp,
{
    if exp > 0 {
        lemma_power_doubles(base, (exp - 1) as nat);
    }
    let p = power(base, exp);
    assert(power(base, exp + 1) == base * p);
    assert(abs(base * p) == abs(base) * abs(p)) by (nonlinear_arith);
    assert(abs(base) * abs(p) >= 2 * abs(p)) by (nonlinear_arith)
        requires
            abs(base) >= 2,
            abs(p) >= 0,
    ;
}

/// Once a power of a base of magnitude at least two leaves the `i32`
/// range, every higher power stays outside it.
proof fn lemma_power_stays_out(base: int, from: nat, exp: nat)
    requires
        abs(base) >= 2,
        from <= exp,
        !fits_i32(power(base, from)),
    ensures
        !fits_i32(power(base, exp)),
        from < exp ==> abs(power(base, exp)) >= 0x1_0000_0000,
    decreases exp - from,
{
    if from < exp {
        lemma_power_doubles(base, (exp - 1) as nat);
        if from < exp - 1 {
            lemma_power_stays_out(base, from, (exp - 1) as nat);
        } else {
            assert(abs(power(base, from)) >= 0x8000_0000);
        }
    }
}

/// The first few powers, spelled out.
pub(crate) proof fn lemma_power_small(x: int)
    ensures
        power(x, 0) == 1,
        power(x, 1) == x,
        power(x, 2) == x * x,
        power(x, 3) == x * (x * x),
        power(x, 4) == x * (x * (x * x)),
{
    reveal_with_fuel(power, 5);
}

/// Powers distribute over products.
pub(crate) proof fn lemma_power_mul(a: int, b: int, n: nat)
    ensures
        power(a * b, n) == power(a, n) * power(b, n),
    decreases n,
{
    if n > 0 {
        lemma_power_mul(a, b, (n - 1) as nat);
        let pa = power(a, (n - 1) as nat);
        let pb = power(b, (n - 1) as nat);
        assert((a * b) * (pa * pb) == (a * pa) * (b * pb)) by (nonlinear_arith);
    }
}

/// Exponents add when powers of one base are multiplied.
pub(crate) proof fn lemma_power_add(a: int, m: nat, n: nat)
    ensures
        power(a, m + n) == power(a, m) * power(a, n),
    decreases m,
{
    if m > 0 {
        lemma_power_add(a, (m - 1) as nat, n);
        let pm = power(a, (m - 1) as nat);
        let pn = power(a, n);
        assert(power(a, m + n) == a * power(a, ((m - 1) + n) as nat));
        assert(a * (pm * pn) == (a * pm) * pn) by (nonlinear_arith);
    }
}

/// `pow_value` of a product is the product of the `pow_value`s, whenever
/// all three are defined.
pub(crate) proof fn lemma_pow_value_mul(a: int, b: int, y: int)
    requires
        pow_value(a * b, y) is Some,
        pow_value(a, y) is Some,
        pow_value(b, y) is Some,
    ensures
        pow_value(a * b, y)->0 == pow_value(a, y)->0 * pow_value(b, y)->0,
{
    if y >= 0 {
        lemma_power_mul(a, b, y as nat);
    } else {
        assert(a == 1 || a == -1);
        assert(b == 1 || b == -1);
    }
}

/// `pow_value` turns a sum of exponents into a product, whenever all three
/// are defined.
pub(crate) proof fn lemma_pow_value_add(a: int, m: int, n: int)
    requires
        pow_value(a, m + n) is Some,
        pow_value(a, m) is Some,
        pow_value(a, n) is Some,
    ensures
        pow_value(a, m + n)->0 == pow_value(a, m)->0 * pow_value(a, n)->0,
{
    if m >= 0 && n >= 0 {
        lemma_power_add(a, m as nat, n as nat);
    } else {
        assert(a == 1 || a == -1);
        if m >= 0 {
            lemma_power_of_small_base(a, m as nat);
        }
        if n >= 0 {
            lemma_power_of_small_base(a, n as nat);
        }
        if m + n >= 0 {
            lemma_power_of_small_base(a, (m + n) as nat);
        }
        if a == -1 {
            let sm = if m % 2 == 0 { 1int } else { -1int };
            let sn = if n % 2 == 0 { 1int } else { -1int };
            let smn = if (m + n) % 2 == 0 { 1int } else { -1int };
            assert(pow_value(a, m) == Some(sm));
            assert(pow_value(a, n) == Some(sn));
            assert(pow_value(a, m + n) == Some(smn));
            assert(((m + n) % 2 == 0) == (m % 2 == n % 2));
            assert(smn == sm * sn);
        }
    }
}

/// `base` to the power `exp`, or `None` when the result does not fit in
/// an `i32`.
pub fn checked_pow(base: i32, exp: u32) -> (r: Option<i32>)
    ensures
        r == (if fits_i32(power(base as int, exp as nat)) {
            Some(power(base as int, exp as nat) as i32)
        } else {
            None
        }),
{
    if -1 <= base && base <= 1 {
        proof {
            lemma_power_of_small_base(base as int, exp as nat);
        }
        if base == 0 {
            if exp == 0 { Some(1) } else { Some(0) }
        } else if base == 1 {
            Some(1)
        } else {
            if exp % 2 == 0 { Some(1) } else { Some(-1) }
        }
    } else {
        let mut acc: i32 = 1;
        let mut i: u32 = 0;
        while i < exp
            invariant
                i <= exp,
                abs(base as int) >= 2,
                acc as int == power(base as int, i as nat),
            decreases exp - i,
        {
            match acc.checked_mul(base) {
                Some(v) => {
                    acc = v;
                },
                None => {
                    proof {
                        assert(power(base as int, (i + 1) as nat) == base * power(
                            base as int,
                            i as nat,
                        ));
                        lemma_power_stays_out(base as int, (i + 1) as nat, exp as nat);
                    }
                    return None;
                },
            }
            i = i + 1;
        }
        Some(acc)
    }
}

/// The constant that the fold assigns to a binary node whose children are
/// the constants `a` and `b`, together with the term that justifies it.
pub open spec fn spec_fold_binary(op: BinaryOp, a: i32, b: i32) -> Option<(i32, Expr)> {
    let justify = Expr::Binary(op, Box::new(Expr::Num(a)), Box::new(Expr::Num(b)));
    match op {
        BinaryOp::Add => if fits_i32(a + b) { Some(((a + b) as i32, justify)) } else { None },
        BinaryOp::Sub => if fits_i32(a - b) { Some(((a - b) as i32, justify)) } else { None },
        BinaryOp::Mul => if fits_i32(a * b) { Some(((a * b) as i32, justify)) } else { None },
        BinaryOp::Pow => if b < 0 {
            if a == 1 || a == -1 {
                let s: i32 = if a == 1 { 1i32 } else if b % 2 == 0 { 1i32 } else { -1i32 };
                Some((s, Expr::Num(s)))
            } else {
                None
            }
        } else if fits_i32(power(a as int, b as nat)) {
            Some((power(a as int, b as nat) as i32, justify))
        } else {
            None
        },
        _ => None,
    }
}

/// The constant-folding data of a new e-node: `lhs` and `rhs` are the
/// data constants of its first and second child classes (ignored for
/// nodes that have fewer children).
pub open spec fn spec_make(node: ENode, lhs: Option<i32>, rhs: Option<i32>) -> Option<(i32, Expr)> {
    match node {
        ENode::Num(n) => Some((n, Expr::Num(n))),
        ENode::Binary(op, _, _) => match (lhs, rhs) {
            (Some(a), Some(b)) => spec_fold_binary(op, a, b),
            _ => None,
        },
        _ => None,
    }
}

/// `x` raised to the integer power `y`, where the result is an integer:
/// any base for `y >= 0`, only the bases 1 and -1 for `y < 0`.
pub open spec fn pow_value(x: int, y: int) -> Option<int> {
    if y >= 0 {
        Some(power(x, y as nat))
    } else if x == 1 {
        Some(1)
    } else if x == -1 {
        Some(if y % 2 == 0 { 1int } else { -1int })
    } else {
        None
    }
}

/// The integer value of a term of integer arithmetic (numbers, `+`, `-`,
/// `*`, `pow`), with pattern variables read from `env`; `None` when the
/// term is not such a term or has no integer value.
pub open spec fn eval_with(e: Expr, env: spec_fn(char) -> int) -> Option<int>
    decreases e,
{
    match e {
        Expr::Num(n) => Some(n as int),
        Expr::Var(c) => Some(env(c)),
        Expr::Binary(op, a, b) => match (eval_with(*a, env), eval_with(*b, env)) {
            (Some(x), Some(y)) => match op {
                BinaryOp::Add => Some(x + y),
                BinaryOp::Sub => Some(x - y),
                BinaryOp::Mul => Some(x * y),
                BinaryOp::Pow => pow_value(x, y),
                _ => None,
            },
            _ => None,
        },
        _ => None,
    }
}

/// Analysis state of the constant folder: set once two e-classes with
/// different constants have been merged.
#[derive(Clone, Copy, Debug)]
pub struct ConstantFold {
    pub unsound: bool,
}

impl Default for ConstantFold {
    fn default() -> (r: Self)
        ensures
            !r.unsound,
    {
        ConstantFold { unsound: false }
    }
}

/// What the `modify` hook does to an e-class once its data is known.
#[derive(Debug, PartialEq, Eq)]
pub enum ModifyPlan<P> {
    /// The class has no constant: leave it alone.
    Keep,
    /// Explanations are on: union the justifying term with the constant.
    Explain { from: P, to: i32 },
    /// Add the constant as a node and union it with the class.
    AddConstant(i32),
}

impl<P> ModifyPlan<P> {
    /// After adding the constant, the class keeps only its leaf nodes.
    pub open spec fn spec_prunes(&self) -> bool {
        !(self is Keep)
    }
}

impl ConstantFold {
    /// Folds a new e-node, given the constants (if any) of its children.
    pub fn make(node: &ENode, lhs: Option<i32>, rhs: Option<i32>) -> (r: Option<(i32, Expr)>)
        ensures
            r == spec_make(*node, lhs, rhs),
    {
        match node {
            ENode::Num(n) => Some((*n, Expr::Num(*n))),
            ENode::Binary(op, _, _) => {
                let (a, b) = match (lhs, rhs) {
                    (Some(a), Some(b)) => (a, b),
                    _ => {
                        return None;
                    },
                };
                let justify = Expr::Binary(*op, Box::new(Expr::Num(a)), Box::new(Expr::Num(b)));
                match op {
                    BinaryOp::Add => match a.checked_add(b) {
                        Some(s) => Some((s, justify)),
                        None => None,
                    },
                    BinaryOp::Sub => match a.checked_sub(b) {
                        Some(s) => Some((s, justify)),
                        None => None,
                    },
                    BinaryOp::Mul => match a.checked_mul(b) {
                        Some(s) => Some((s, justify)),
                        None => None,
                    },
                    BinaryOp::Pow => {
                        if b < 0 {
                            if a != 1 && a != -1 {
                                return None;
                            }
                            let s: i32 = if a == 1 { 1 } else if b % 2 == 0 { 1 } else { -1 };
                            Some((s, Expr::Num(s)))
                        } else {
                            match checked_pow(a, b as u32) {
                                Some(s) => Some((s, justify)),
                                None => None,
                            }
                        }
                    },
                    _ => None,
                }
            },
            _ => None,
        }
    }

    /// Merges the data `from` of one e-class into the data `to` of another.
    /// A constant always wins over no constant; two constants keep `to` and
    /// record unsoundness when they differ.  The result says whether `to`
    /// changed and whether `to` holds something `from` lacked.
    pub fn merge<P>(&mut self, to: &mut Option<(i32, P)>, from: Option<(i32, P)>) -> (r: (
        bool,
        bool,
    ))
        ensures
            final(self).unsound == (old(self).unsound || (match (*old(to), from) {
                (Some(a), Some(b)) => a.0 != b.0,
                _ => false,
            })),
            *final(to) == (if *old(to) is None { from } else { *old(to) }),
            r == (match (*old(to), from) {
                (None, None) => (false, false),
                (None, Some(_)) => (true, false),
                (Some(_), None) => (false, true),
                (Some(_), Some(_)) => (false, false),
            }),
            // a recorded unsoundness is never cleared
            old(self).unsound ==> final(self).unsound,
            // an existing constant is never replaced or lost
            *old(to) is Some ==> *final(to) == *old(to),
            // the first flag says exactly whether `to` changed
            r.0 == (*final(to) != *old(to)),
    {
        let existing: Option<i32> = match to {
            Some(a) => Some(a.0),
            None => None,
        };
        match existing {
            None => match from {
                None => (false, false),
                Some(b) => {
                    *to = Some(b);
                    (true, false)
                },
            },
            Some(a) => match from {
                None => (false, true),
                Some(b) => {
                    if a != b.0 {
                        self.unsound = true;
                    }
                    (false, false)
                },
            },
        }
    }

    /// Decides what the `modify` hook does with the (cloned) data of an
    /// e-class.
    pub fn modify_plan<P>(data: Option<(i32, P)>, explanations_enabled: bool) -> (r: ModifyPlan<P>)
        ensures
            r == (match data {
                None => ModifyPlan::Keep,
                Some((c, pat)) => if explanations_enabled {
                    ModifyPlan::Explain { from: pat, to: c }
                } else {
                    ModifyPlan::AddConstant(c)
                },
            }),
            r.spec_prunes() == (data is Some),
    {
        match data {
            None => ModifyPlan::Keep,
            Some((c, pat)) => {
                if explanations_enabled {
                    ModifyPlan::Explain { from: pat, to: c }
                } else {
                    ModifyPlan::AddConstant(c)
                }
            },
        }
    }
}

/// An e-class node list pruned to its leaves, in the order they had.
pub open spec fn spec_leaves(nodes: Seq<ENode>) -> Seq<ENode> {
    nodes.filter(|n: ENode| n.spec_is_leaf())
}

/// After a class is found to be constant, only its leaf nodes are kept
/// (the constant node itself among them).
pub fn prune_to_leaves(nodes: &mut Vec<ENode>)
    ensures
        final(nodes)@ == spec_leaves(old(nodes)@),
        forall|i: int| 0 <= i < final(nodes)@.len() ==> (#[trigger] final(nodes)@[i]).spec_is_leaf(),
{
    let ghost orig = nodes@;
    let mut rest: Vec<ENode> = Vec::new();
    std::mem::swap(&mut rest, nodes);
    let mut kept: Vec<ENode> = Vec::new();
    let ghost mut k: int = 0;
    assert(orig.subrange(0, 0) =~= Seq::<ENode>::empty());
    assert(orig.subrange(0, orig.len() as int) =~= orig);
    while rest.len() > 0
        invariant
            0 <= k <= orig.len(),
            rest@ == orig.subrange(k, orig.len() as int),
            kept@ == spec_leaves(orig.subrange(0, k)),
        decreases rest.len(),
    {
        let n = rest.remove(0);
        proof {
            let pre = orig.subrange(0, k + 1);
            assert(pre.drop_last() =~= orig.subrange(0, k));
            assert(pre.last() == n);
            assert(pre.len() > 0);
            reveal_with_fuel(Seq::<_>::filter, 1);
            assert(spec_leaves(pre) == (if n.spec_is_leaf() {
                spec_leaves(orig.subrange(0, k)).push(n)
            } else {
                spec_leaves(orig.subrange(0, k))
            }));
        }
        if n.is_leaf() {
            kept.push(n);
        }
        proof {
            k = k + 1;
        }
        assert(rest@ =~= orig.subrange(k, orig.len() as int));
    }
    *nodes = kept;
    proof {
        leaves_are_leaves(orig);
    }
}

/// Every node that survives pruning is a leaf.
proof fn leaves_are_leaves(nodes: Seq<ENode>)
    ensures
        forall|i: int| 0 <= i < spec_leaves(nodes).len() ==> (#[trigger] spec_leaves(nodes)[i]).spec_is_leaf(),
{
    assert forall|i: int| 0 <= i < spec_leaves(nodes).len() implies (#[trigger] spec_leaves(
        nodes,
    )[i]).spec_is_leaf() by {
        nodes.lemma_filter_pred(|n: ENode| n.spec_is_leaf(), i);
    }
}

/// Law: pruning a class twice leaves it as pruning it once.
pub proof fn prune_is_idempotent(nodes: Seq<ENode>)
    ensures
        spec_leaves(spec_leaves(nodes)) == spec_leaves(nodes),
    decreases nodes.len(),
{
    reveal_with_fuel(Seq::<_>::filter, 1);
    if nodes.len() > 0 {
        prune_is_idempotent(nodes.drop_last());
        let rest = spec_leaves(nodes.drop_last());
        if nodes.last().spec_is_leaf() {
            let l = rest.push(nodes.last());
            assert(l.drop_last() =~= rest);
            assert(spec_leaves(l) == spec_leaves(rest).push(nodes.last()));
        }
    }
}

/// A rule condition: the class bound to the variable has a constant.
pub fn is_const<P>(data: &Option<(i32, P)>) -> (r: bool)
    ensures
        r == data is Some,
{
    data.is_some()
}

/// A rule condition: the class bound to the variable is not the constant -1
/// (a class without a constant passes).
pub fn is_not_neg1<P>(data: &Option<(i32, P)>) -> (r: bool)
    ensures
        r == (match data {
            Some(d) => d.0 != -1,
            None => true,
        }),
{
    match data {
        Some(d) => d.0 != -1,
        None => true,
    }
}

/// Law: folding a binary node computes exactly its integer value: it
/// gives a constant precisely when the node applied to the child
/// constants has an integer value that fits in an `i32`, that constant is
/// the value, and the recorded justification evaluates to it too.
pub proof fn fold_is_evaluation(op: BinaryOp, a: i32, b: i32, env: spec_fn(char) -> int)
    ensures
        ({
            let value = eval_with(Expr::Binary(op, Box::new(Expr::Num(a)), Box::new(Expr::Num(b))), env);
            &&& (spec_fold_binary(op, a, b) is Some) == (value matches Some(v) && fits_i32(v))
            &&& spec_fold_binary(op, a, b) matches Some((c, pat)) ==> value == Some(c as int)
                && eval_with(pat, env) == Some(c as int)
        }),
{
    let na = Expr::Num(a);
    let nb = Expr::Num(b);
    assert(eval_with(na, env) == Some(a as int));
    assert(eval_with(nb, env) == Some(b as int));
    if op == BinaryOp::Pow && b < 0 && (a == 1 || a == -1) {
        let s: i32 = if a == 1 { 1i32 } else if b % 2 == 0 { 1i32 } else { -1i32 };
        assert(eval_with(Expr::Num(s), env) == Some(s as int));
    }
}

/// Law: the term recorded with a new node's constant evaluates to that
/// constant, so unioning the two is justified.
pub proof fn fold_justification_evaluates_to_constant(
    node: ENode,
    lhs: Option<i32>,
    rhs: Option<i32>,
    env: spec_fn(char) -> int,
)
    ensures
        spec_make(node, lhs, rhs) matches Some((c, pat)) ==> eval_with(pat, env) == Some(c as int),
{
    match node {
        ENode::Num(n) => {
            assert(eval_with(Expr::Num(n), env) == Some(n as int));
        },
        ENode::Binary(op, _, _) => {
            if let (Some(a), Some(b)) = (lhs, rhs) {
                fold_is_evaluation(op, a, b, env);
            }
        },
        _ => {},
    }
}

/// Law: for a negative exponent, the fold only handles the bases 1 and -1,
/// where `base^(-k)` equals `base^k`, and gives exactly that value.
pub proof fn fold_negative_power_is_reciprocal(a: i32, b: i32)
    requires
        b < 0,
    ensures
        (spec_fold_binary(BinaryOp::Pow, a, b) is Some) == (a == 1 || a == -1),
        spec_fold_binary(BinaryOp::Pow, a, b) matches Some((c, _)) ==> c as int == power(
            a as int,
            (-b) as nat,
        ),
{
    if a == 1 || a == -1 {
        lemma_power_of_small_base(a as int, (-b) as nat);
        assert((-b) % 2 == 0 <==> b % 2 == 0) by (nonlinear_arith)
            requires
                b < 0,
        ;
    }
}

/// Law: a number node is its own constant, whatever its sign and whatever
/// the (absent) children report: the class of a literal always carries
/// that literal's value, justified by the literal itself.
pub proof fn number_node_is_its_own_constant(
    n: i32,
    lhs: Option<i32>,
    rhs: Option<i32>,
    env: spec_fn(char) -> int,
)
    ensures
        spec_make(ENode::Num(n), lhs, rhs) is Some,
        spec_make(ENode::Num(n), lhs, rhs) matches Some((c, pat)) ==> c == n && pat == Expr::Num(n)
            && eval_with(pat, env) == Some(n as int),
{
}

} // verus!
