use vstd::prelude::*;
use crate::fold::power;
use crate::language::{BinaryOp, Expr, UnaryOp};

verus! {

/// A rational number `num / den` (meaningful when `den != 0`).
pub struct Q {
    pub num: int,
    pub den: int,
}

pub open spec fn qint(n: int) -> Q {
    Q { num: n, den: 1 }
}

/// Equality of rationals.
pub open spec fn qeq(a: Q, b: Q) -> bool {
    a.num * b.den == b.num * a.den
}

pub open spec fn qadd(a: Q, b: Q) -> Q {
    Q { num: a.num * b.den + b.num * a.den, den: a.den * b.den }
}

pub open spec fn qsub(a: Q, b: Q) -> Q {
    Q { num: a.num * b.den - b.num * a.den, den: a.den * b.den }
}

pub open spec fn qmul(a: Q, b: Q) -> Q {
    Q { num: a.num * b.num, den: a.den * b.den }
}

/// `a / b`, meaningful when `b` is not zero.
pub open spec fn qdiv(a: Q, b: Q) -> Q {
    Q { num: a.num * b.den, den: a.den * b.num }
}

pub open spec fn qzero(a: Q) -> bool {
    a.num == 0
}

pub open spec fn qpos(a: Q) -> bool {
    a.num * a.den > 0
}

pub open spec fn qnonneg(a: Q) -> bool {
    a.num * a.den >= 0
}

/// The rational is an integer.
pub open spec fn qis_int(a: Q) -> bool {
    a.num % a.den == 0
}

/// Its integer value, when it is one.
pub open spec fn qto_int(a: Q) -> int {
    a.num / a.den
}

/// `a` raised to the integer power `k` (meaningful for `k < 0` only when
/// `a` is not zero).
pub open spec fn qpow(a: Q, k: int) -> Q {
    if k >= 0 {
        Q { num: power(a.num, k as nat), den: power(a.den, k as nat) }
    } else {
        Q { num: power(a.den, (-k) as nat), den: power(a.num, (-k) as nat) }
    }
}

/// The value and the rate of change of a quantity that depends on one
/// real parameter: the first-order jet of a function at a point.  The rate
/// is `None` when the semantics does not determine it.
pub struct Jet {
    pub v: Q,
    pub d: Option<Q>,
}

/// An interpretation of the free parts of a term: the value and rate of
/// every pattern variable and symbol, the values of the unary functions,
/// and the value of each antiderivative term (which the derivative alone
/// does not fix).  The values it supplies are integers; every identity
/// between rational functions that holds at all integer points holds
/// everywhere, so this loses nothing, while quotients make the values of
/// terms rational.
pub struct Interp {
    pub var: spec_fn(char) -> (int, int),
    pub sym: spec_fn(Seq<char>) -> (int, int),
    pub unary: spec_fn(UnaryOp, Q) -> int,
    pub antider: spec_fn(Expr) -> int,
}

/// The lemma-facing name of "a constant integer is an integer".
pub proof fn lemma_qint_is_int(k: int)
    ensures
        qis_int(qint(k)),
        qto_int(qint(k)) == k,
{
    assert(k % 1 == 0 && k / 1 == k) by (nonlinear_arith);
}

pub open spec fn opt_map2(a: Option<Q>, b: Option<Q>, f: spec_fn(Q, Q) -> Q) -> Option<Q> {
    match (a, b) {
        (Some(x), Some(y)) => Some(f(x, y)),
        _ => None,
    }
}

/// The jet of a unary function applied to the jet `f`: sine, cosine and
/// the exponential carry their derivative rules (sin' = cos, cos' = -sin,
/// exp' = exp), the logarithm needs a positive argument (ln' x = 1/x) and
/// the square root a non-negative root of the argument (sqrt' x =
/// 1/(2 sqrt x)); the other functions have a value only.
pub open spec fn unary_jet(op: UnaryOp, f: Jet, i: Interp) -> Option<Jet> {
    let val = qint((i.unary)(op, f.v));
    match op {
        UnaryOp::Sin => Some(Jet { v: val, d: match f.d {
            Some(fd) => Some(qmul(qint((i.unary)(UnaryOp::Cos, f.v)), fd)),
            None => None,
        } }),
        UnaryOp::Cos => Some(Jet { v: val, d: match f.d {
            Some(fd) => Some(qmul(qsub(qint(0), qint((i.unary)(UnaryOp::Sin, f.v))), fd)),
            None => None,
        } }),
        UnaryOp::Exp => Some(Jet { v: val, d: match f.d {
            Some(fd) => Some(qmul(val, fd)),
            None => None,
        } }),
        UnaryOp::Ln => if qpos(f.v) {
            Some(Jet { v: val, d: match f.d {
                Some(fd) => Some(qdiv(fd, f.v)),
                None => None,
            } })
        } else {
            None
        },
        UnaryOp::Sqrt => if qeq(qmul(val, val), f.v) && qnonneg(val) {
            Some(Jet { v: val, d: match f.d {
                Some(fd) => if qzero(val) { None } else { Some(qdiv(fd, qmul(qint(2), val))) },
                None => None,
            } })
        } else {
            None
        },
        _ => Some(Jet { v: val, d: None }),
    }
}

/// The jet of `a^b`: defined when `b` has an integer value `k` (and `a`
/// is not zero if `k < 0`); its rate is known when `b` is constant.
pub open spec fn pow_jet(a: Jet, b: Jet) -> Option<Jet> {
    if !qis_int(b.v) {
        None
    } else {
        let k = qto_int(b.v);
        if k < 0 && qzero(a.v) {
            None
        } else {
            Some(Jet {
                v: qpow(a.v, k),
                d: match (a.d, b.d) {
                    (Some(ad), Some(bd)) => if !qzero(bd) {
                        None
                    } else if k == 0 {
                        Some(qint(0))
                    } else {
                        Some(qmul(qmul(qint(k), qpow(a.v, k - 1)), ad))
                    },
                    _ => None,
                },
            })
        }
    }
}

/// The jet of a binary node from the jets of its children; `whole` is the
/// node itself (an antiderivative's value is read from the
/// interpretation).  `(d f x)` is df/dx, `(int f x)` an antiderivative of
/// f with respect to x.
pub open spec fn binary_jet(op: BinaryOp, a: Jet, b: Jet, whole: Expr, i: Interp) -> Option<Jet> {
    match op {
        BinaryOp::Add => Some(Jet { v: qadd(a.v, b.v), d: opt_map2(a.d, b.d, |x: Q, y: Q| qadd(x, y)) }),
        BinaryOp::Sub => Some(Jet { v: qsub(a.v, b.v), d: opt_map2(a.d, b.d, |x: Q, y: Q| qsub(x, y)) }),
        BinaryOp::Mul => Some(Jet {
            v: qmul(a.v, b.v),
            d: opt_map2(a.d, b.d, |x: Q, y: Q| qadd(qmul(x, b.v), qmul(a.v, y))),
        }),
        BinaryOp::Div => if qzero(b.v) {
            None
        } else {
            Some(Jet {
                v: qdiv(a.v, b.v),
                d: opt_map2(
                    a.d,
                    b.d,
                    |x: Q, y: Q| qdiv(qsub(qmul(x, b.v), qmul(a.v, y)), qmul(b.v, b.v)),
                ),
            })
        },
        BinaryOp::Pow => pow_jet(a, b),
        BinaryOp::D => match (a.d, b.d) {
            (Some(ad), Some(bd)) => if qzero(bd) { None } else { Some(Jet { v: qdiv(ad, bd), d: None }) },
            _ => None,
        },
        BinaryOp::Int => Some(Jet {
            v: qint((i.antider)(whole)),
            d: match b.d {
                Some(bd) => Some(qmul(a.v, bd)),
                None => None,
            },
        }),
    }
}

/// The real-valued meaning of a term under an interpretation, as a jet;
/// `None` where the term has no value (division by zero, logarithm of a
/// non-positive number, a non-integer exponent, ...).
pub open spec fn denote(e: Expr, i: Interp) -> Option<Jet>
    decreases e,
{
    match e {
        Expr::Num(n) => Some(Jet { v: qint(n as int), d: Some(qint(0)) }),
        Expr::Var(c) => Some(Jet { v: qint((i.var)(c).0), d: Some(qint((i.var)(c).1)) }),
        Expr::Symbol(s) => Some(Jet { v: qint((i.sym)(s@).0), d: Some(qint((i.sym)(s@).1)) }),
        Expr::Unary(op, a) => match denote(*a, i) {
            Some(ja) => unary_jet(op, ja, i),
            None => None,
        },
        Expr::Binary(op, a, b) => match (denote(*a, i), denote(*b, i)) {
            (Some(ja), Some(jb)) => binary_jet(op, ja, jb, e, i),
            _ => None,
        },
    }
}

} // verus!

verus! {

/// Small powers of a rational, spelled out.
pub proof fn lemma_qpow_small(a: Q)
    ensures
        qpow(a, 0) == qint(1),
        qpow(a, 1) == a,
        qpow(a, 2) == qmul(a, a),
        qpow(a, 3) == qmul(a, qmul(a, a)),
        qpow(a, 4) == qmul(a, qmul(a, qmul(a, a))),
        qpow(a, -1) == (Q { num: a.den, den: a.num }),
{
    crate::fold::lemma_power_small(a.num);
    crate::fold::lemma_power_small(a.den);
}

} // verus!

verus! {

/// Sums, differences and products of integers stay integers.
pub proof fn lemma_qint_arith(a: int, b: int)
    ensures
        qadd(qint(a), qint(b)) == qint(a + b),
        qsub(qint(a), qint(b)) == qint(a - b),
        qmul(qint(a), qint(b)) == qint(a * b),
{
    assert(a * 1 + b * 1 == a + b && a * 1 - b * 1 == a - b && 1 * 1 == 1int) by (nonlinear_arith);
}

/// The rate of `p / c` where `p` is `x^c` with rate `c * x^(c-1) * dx`:
/// the rate of the quotient is `x^(c-1) * dx`.
pub proof fn lemma_rate_of_power_over_exponent(x: Q, p: Q, dx: int, c: int)
    requires
        c != 0,
    ensures
        qeq(
            qmul(x, qint(dx)),
            qdiv(
                qsub(qmul(qmul(qmul(qint(c), x), qint(dx)), qint(c)), qmul(p, qint(0))),
                qmul(qint(c), qint(c)),
            ),
        ),
{
    let xn: int = x.num;
    let xe: int = x.den;
    let pn: int = p.num;
    let pe: int = p.den;
    assert((xn * dx) * (((1 * xe * 1) * 1) * (pe * 1) * (c * c)) == ((((c * xn) * dx) * c)
        * (pe * 1) - (pn * 0) * (((1 * xe) * 1) * 1)) * 1 * (xe * 1)) by (nonlinear_arith);
}

} // verus!

verus! {

/// An integer raised to an integer power: an integer for a non-negative
/// exponent, the reciprocal of one otherwise.
pub proof fn lemma_qpow_int(a: int, k: int)
    ensures
        k >= 0 ==> qpow(qint(a), k) == qint(power(a, k as nat)),
        k < 0 ==> qpow(qint(a), k) == (Q { num: 1, den: power(a, (-k) as nat) }),
{
    if k >= 0 {
        crate::fold::lemma_power_of_small_base(1, k as nat);
    } else {
        crate::fold::lemma_power_of_small_base(1, (-k) as nat);
    }
}

/// `(a b)^k` and `a^k b^k` agree.
pub proof fn lemma_qpow_int_mul(a: int, b: int, k: int)
    ensures
        qeq(qpow(qint(a * b), k), qmul(qpow(qint(a), k), qpow(qint(b), k))),
{
    lemma_qpow_int(a * b, k);
    lemma_qpow_int(a, k);
    lemma_qpow_int(b, k);
    let m: nat = if k >= 0 { k as nat } else { (-k) as nat };
    crate::fold::lemma_power_mul(a, b, m);
    let pa: int = power(a, m);
    let pb: int = power(b, m);
    assert(pa * pb * 1 == pa * pb * (1 * 1) && 1 * (pa * pb) == (1 * 1) * (pa * pb)) by (nonlinear_arith);
}

/// `(a / b)^k` and `a^k / b^k` agree.
pub proof fn lemma_qpow_int_div(a: int, b: int, k: int)
    ensures
        qeq(qpow(qdiv(qint(a), qint(b)), k), qdiv(qpow(qint(a), k), qpow(qint(b), k))),
{
    lemma_qpow_int(a, k);
    lemma_qpow_int(b, k);
    assert(qdiv(qint(a), qint(b)) == (Q { num: a, den: b })) by (nonlinear_arith);
    let m: nat = if k >= 0 { k as nat } else { (-k) as nat };
    let pa: int = power(a, m);
    let pb: int = power(b, m);
    assert(pa * (1 * pb) == (pa * 1) * pb && pb * (pa * 1) == (1 * pb) * pa) by (nonlinear_arith);
}

} // verus!

verus! {

/// `a^m a^n` and `a^(m+n)` agree, for integer exponents of any sign.
pub proof fn lemma_qpow_int_add(a: int, m: int, n: int)
    ensures
        qeq(qmul(qpow(qint(a), m), qpow(qint(a), n)), qpow(qint(a), m + n)),
{
    lemma_qpow_int(a, m);
    lemma_qpow_int(a, n);
    lemma_qpow_int(a, m + n);
    if m >= 0 && n >= 0 {
        crate::fold::lemma_power_add(a, m as nat, n as nat);
        lemma_qint_arith(power(a, m as nat), power(a, n as nat));
    } else if m < 0 && n < 0 {
        crate::fold::lemma_power_add(a, (-m) as nat, (-n) as nat);
        let p: int = power(a, (-m) as nat);
        let q: int = power(a, (-n) as nat);
        assert((1 * 1) * (p * q) == 1 * (p * q)) by (nonlinear_arith);
    } else {
        // the non-negative exponent and the negative one
        let u: int = if m >= 0 { m } else { n };
        let w: int = if m >= 0 { n } else { m };
        if u + w >= 0 {
            crate::fold::lemma_power_add(a, (u + w) as nat, (-w) as nat);
            let s: int = power(a, (u + w) as nat);
            let t: int = power(a, (-w) as nat);
            assert((s * t) * 1 * 1 == s * (1 * t) && (1 * (s * t)) * 1 == s * (t * 1))
                by (nonlinear_arith);
        } else {
            crate::fold::lemma_power_add(a, (-(u + w)) as nat, u as nat);
            let s: int = power(a, (-(u + w)) as nat);
            let t: int = power(a, u as nat);
            assert(t * 1 * s == 1 * (1 * (s * t)) && 1 * t * s == 1 * (s * t * 1))
                by (nonlinear_arith);
        }
    }
}

} // verus!
