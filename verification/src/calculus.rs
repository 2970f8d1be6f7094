use vstd::prelude::*;
use crate::rules::{
    concat_holds, cond_means, loses_sign, real_sound_rule, rule_table, RuleView, sides_agree, table_by_parts, table_comm_assoc,
    table_differentiation, table_distributivity, table_expansion, table_factoring,
    table_fractions, table_identities, table_integration_linearity, table_power_rule, table_powers,
    table_sqrt, table_sugar, table_transcendental,
};
use crate::language::{BinaryOp, UnaryOp};
use crate::rules::{pbin, pnum, pun, pvar};
use crate::semantics::{
    denote, lemma_qint_arith, lemma_qint_is_int, lemma_qpow_small, lemma_rate_of_power_over_exponent, lemma_qpow_int_mul, lemma_qpow_int_div, lemma_qpow_int_add, qadd, qdiv, qeq, qint, qmul, qpow, qsub,
    Interp, Q,
};

verus! {

/// `pow2`: (pow ?a 2) => (* ?a ?a)
#[verifier::spinoff_prover]
pub proof fn pow2_is_sound()
    ensures
        real_sound_rule(table_expansion()[0]),
{
    let r = table_expansion()[0];
    assert forall|i: Interp|
        #![trigger denote(r.1, i)]
        (forall|k: int| 0 <= k < r.3.len() ==> cond_means(#[trigger] r.3[k], i))
            implies sides_agree(r.1, r.2, i) by {
        reveal_with_fuel(denote, 6);
        let av: int = (i.var)('a').0;
        let ad: int = (i.var)('a').1;
        lemma_qpow_small(qint(av));
        lemma_qint_is_int(2);
        if true {
            assert(qeq(qmul(qint(av), qint(av)), qmul(qint(av), qint(av)))) by (nonlinear_arith);
        }
    }
}

/// `i-pow2`: (* ?a ?a) => (pow ?a 2)
#[verifier::spinoff_prover]
pub proof fn i_pow2_is_sound()
    ensures
        real_sound_rule(table_expansion()[1]),
{
    let r = table_expansion()[1];
    assert forall|i: Interp|
        #![trigger denote(r.1, i)]
        (forall|k: int| 0 <= k < r.3.len() ==> cond_means(#[trigger] r.3[k], i))
            implies sides_agree(r.1, r.2, i) by {
        reveal_with_fuel(denote, 6);
        let av: int = (i.var)('a').0;
        let ad: int = (i.var)('a').1;
        lemma_qpow_small(qint(av));
        lemma_qint_is_int(2);
        if true {
            assert(qeq(qmul(qint(av), qint(av)), qmul(qint(av), qint(av)))) by (nonlinear_arith);
        }
    }
}

/// `binom2`: (pow (+ ?a ?b) 2) => (+ (+ (pow ?a 2) (* 2 (* ?a ?b))) (pow ?b 2))
#[verifier::spinoff_prover]
pub proof fn binom2_is_sound()
    ensures
        real_sound_rule(table_expansion()[2]),
{
    let r = table_expansion()[2];
    assert forall|i: Interp|
        #![trigger denote(r.1, i)]
        (forall|k: int| 0 <= k < r.3.len() ==> cond_means(#[trigger] r.3[k], i))
            implies sides_agree(r.1, r.2, i) by {
        reveal_with_fuel(denote, 6);
        let av: int = (i.var)('a').0;
        let ad: int = (i.var)('a').1;
        let bv: int = (i.var)('b').0;
        let bd: int = (i.var)('b').1;
        lemma_qpow_small(qadd(qint(av), qint(bv)));
        lemma_qint_is_int(2);
        lemma_qpow_small(qint(av));
        lemma_qpow_small(qint(bv));
        if true {
            assert(qeq(qmul(qadd(qint(av), qint(bv)), qadd(qint(av), qint(bv))), qadd(qadd(qmul(qint(av), qint(av)), qmul(qint(2), qmul(qint(av), qint(bv)))), qmul(qint(bv), qint(bv))))) by (nonlinear_arith);
        }
    }
}

/// `i-binom2`: (+ (+ (pow ?a 2) (* 2 (* ?a ?b))) (pow ?b 2)) => (pow (+ ?a ?b) 2)
#[verifier::spinoff_prover]
pub proof fn i_binom2_is_sound()
    ensures
        real_sound_rule(table_expansion()[3]),
{
    let r = table_expansion()[3];
    assert forall|i: Interp|
        #![trigger denote(r.1, i)]
        (forall|k: int| 0 <= k < r.3.len() ==> cond_means(#[trigger] r.3[k], i))
            implies sides_agree(r.1, r.2, i) by {
        reveal_with_fuel(denote, 6);
        let av: int = (i.var)('a').0;
        let ad: int = (i.var)('a').1;
        let bv: int = (i.var)('b').0;
        let bd: int = (i.var)('b').1;
        lemma_qpow_small(qint(av));
        lemma_qint_is_int(2);
        lemma_qpow_small(qint(bv));
        lemma_qpow_small(qadd(qint(av), qint(bv)));
        if true {
            assert(qeq(qadd(qadd(qmul(qint(av), qint(av)), qmul(qint(2), qmul(qint(av), qint(bv)))), qmul(qint(bv), qint(bv))), qmul(qadd(qint(av), qint(bv)), qadd(qint(av), qint(bv))))) by (nonlinear_arith);
        }
    }
}

/// `int-add`: (int (+ ?f ?g) ?x) => (+ (int ?f ?x) (int ?g ?x))
#[verifier::spinoff_prover]
pub proof fn int_add_is_sound()
    ensures
        real_sound_rule(table_integration_linearity()[0]),
{
    let r = table_integration_linearity()[0];
    assert forall|i: Interp|
        #![trigger denote(r.1, i)]
        (forall|k: int| 0 <= k < r.3.len() ==> cond_means(#[trigger] r.3[k], i))
            implies sides_agree(r.1, r.2, i) by {
        reveal_with_fuel(denote, 6);
        let fv: int = (i.var)('f').0;
        let fd: int = (i.var)('f').1;
        let gv: int = (i.var)('g').0;
        let gd: int = (i.var)('g').1;
        let xv: int = (i.var)('x').0;
        let xd: int = (i.var)('x').1;
        let k1: int = (i.antider)(pbin(BinaryOp::Int, pbin(BinaryOp::Add, pvar('f'), pvar('g')), pvar('x')));
        let k2: int = (i.antider)(pbin(BinaryOp::Int, pvar('f'), pvar('x')));
        let k3: int = (i.antider)(pbin(BinaryOp::Int, pvar('g'), pvar('x')));
        if true {
            assert(qeq(qmul(qadd(qint(fv), qint(gv)), qint(xd)), qadd(qmul(qint(fv), qint(xd)), qmul(qint(gv), qint(xd))))) by (nonlinear_arith);
        }
    }
}

/// `int-sub`: (int (- ?f ?g) ?x) => (- (int ?f ?x) (int ?g ?x))
#[verifier::spinoff_prover]
pub proof fn int_sub_is_sound()
    ensures
        real_sound_rule(table_integration_linearity()[1]),
{
    let r = table_integration_linearity()[1];
    assert forall|i: Interp|
        #![trigger denote(r.1, i)]
        (forall|k: int| 0 <= k < r.3.len() ==> cond_means(#[trigger] r.3[k], i))
            implies sides_agree(r.1, r.2, i) by {
        reveal_with_fuel(denote, 6);
        let fv: int = (i.var)('f').0;
        let fd: int = (i.var)('f').1;
        let gv: int = (i.var)('g').0;
        let gd: int = (i.var)('g').1;
        let xv: int = (i.var)('x').0;
        let xd: int = (i.var)('x').1;
        let k1: int = (i.antider)(pbin(BinaryOp::Int, pbin(BinaryOp::Sub, pvar('f'), pvar('g')), pvar('x')));
        let k2: int = (i.antider)(pbin(BinaryOp::Int, pvar('f'), pvar('x')));
        let k3: int = (i.antider)(pbin(BinaryOp::Int, pvar('g'), pvar('x')));
        if true {
            assert(qeq(qmul(qsub(qint(fv), qint(gv)), qint(xd)), qsub(qmul(qint(fv), qint(xd)), qmul(qint(gv), qint(xd))))) by (nonlinear_arith);
        }
    }
}

/// `int-const-mul`: (int (* ?c ?f) ?x) => (* ?c (int ?f ?x))
#[verifier::spinoff_prover]
pub proof fn int_const_mul_is_sound()
    ensures
        real_sound_rule(table_integration_linearity()[2]),
{
    let r = table_integration_linearity()[2];
    assert forall|i: Interp|
        #![trigger denote(r.1, i)]
        (forall|k: int| 0 <= k < r.3.len() ==> cond_means(#[trigger] r.3[k], i))
            implies sides_agree(r.1, r.2, i) by {
        reveal_with_fuel(denote, 6);
        assert(cond_means(r.3[0], i));
        let cv: int = (i.var)('c').0;
        let cd: int = (i.var)('c').1;
        let fv: int = (i.var)('f').0;
        let fd: int = (i.var)('f').1;
        let xv: int = (i.var)('x').0;
        let xd: int = (i.var)('x').1;
        let k1: int = (i.antider)(pbin(BinaryOp::Int, pbin(BinaryOp::Mul, pvar('c'), pvar('f')), pvar('x')));
        let k2: int = (i.antider)(pbin(BinaryOp::Int, pvar('f'), pvar('x')));
        if true {
            assert(qeq(qmul(qmul(qint(cv), qint(fv)), qint(xd)), qadd(qmul(qint(cd), qint(k2)), qmul(qint(cv), qmul(qint(fv), qint(xd)))))) by (nonlinear_arith)
                requires
                    cd == 0,
            ;
        }
    }
}

/// `int-const`: (int ?c ?x) => (* ?c ?x)
#[verifier::spinoff_prover]
pub proof fn int_const_is_sound()
    ensures
        real_sound_rule(table_integration_linearity()[3]),
{
    let r = table_integration_linearity()[3];
    assert forall|i: Interp|
        #![trigger denote(r.1, i)]
        (forall|k: int| 0 <= k < r.3.len() ==> cond_means(#[trigger] r.3[k], i))
            implies sides_agree(r.1, r.2, i) by {
        reveal_with_fuel(denote, 6);
        assert(cond_means(r.3[0], i));
        let cv: int = (i.var)('c').0;
        let cd: int = (i.var)('c').1;
        let xv: int = (i.var)('x').0;
        let xd: int = (i.var)('x').1;
        let k1: int = (i.antider)(pbin(BinaryOp::Int, pvar('c'), pvar('x')));
        if true {
            assert(qeq(qmul(qint(cv), qint(xd)), qadd(qmul(qint(cd), qint(xv)), qmul(qint(cv), qint(xd))))) by (nonlinear_arith)
                requires
                    cd == 0,
            ;
        }
    }
}

/// `sqrt-sq`: (pow (sqrt ?a) 2) => ?a
#[verifier::spinoff_prover]
pub proof fn sqrt_sq_is_sound()
    ensures
        real_sound_rule(table_sqrt()[0]),
{
    let r = table_sqrt()[0];
    assert forall|i: Interp|
        #![trigger denote(r.1, i)]
        (forall|k: int| 0 <= k < r.3.len() ==> cond_means(#[trigger] r.3[k], i))
            implies sides_agree(r.1, r.2, i) by {
        reveal_with_fuel(denote, 6);
        let av: int = (i.var)('a').0;
        let ad: int = (i.var)('a').1;
        let f1: int = (i.unary)(UnaryOp::Sqrt, qint(av));
        lemma_qpow_small(qint(f1));
        lemma_qint_is_int(2);
        if (qeq(qmul(qint(f1), qint(f1)), qint(av))) {
            assert(qeq(qmul(qint(f1), qint(f1)), qint(av))) by (nonlinear_arith)
                requires
                    qeq(qmul(qint(f1), qint(f1)), qint(av)),
            ;
        }
    }
}

/// `int-var`: (int ?x ?x) => (/ (pow ?x 2) 2)
#[verifier::spinoff_prover]
pub proof fn int_var_is_sound()
    ensures
        real_sound_rule(table_power_rule()[0]),
{
    let r = table_power_rule()[0];
    assert forall|i: Interp|
        #![trigger denote(r.1, i)]
        (forall|k: int| 0 <= k < r.3.len() ==> cond_means(#[trigger] r.3[k], i))
            implies sides_agree(r.1, r.2, i) by {
        reveal_with_fuel(denote, 6);
        let xv: int = (i.var)('x').0;
        let xd: int = (i.var)('x').1;
        let k1: int = (i.antider)(pbin(BinaryOp::Int, pvar('x'), pvar('x')));
        lemma_qpow_small(qint(xv));
        lemma_qint_is_int(2);
        if (qint(2).num != 0) {
            assert(qeq(qmul(qint(xv), qint(xd)), qdiv(qsub(qmul(qmul(qmul(qint(2), qint(xv)), qint(xd)), qint(2)), qmul(qmul(qint(xv), qint(xv)), qint(0))), qmul(qint(2), qint(2))))) by (nonlinear_arith)
                requires
                    qint(2).num != 0,
            ;
        }
    }
}

/// `int-pow`: (int (pow ?x ?n) ?x) => (/ (pow ?x (+ ?n 1)) (+ ?n 1))
#[verifier::spinoff_prover]
pub proof fn int_pow_is_sound()
    ensures
        real_sound_rule(table_power_rule()[1]),
{
    let r = table_power_rule()[1];
    assert forall|i: Interp|
        #![trigger denote(r.1, i)]
        (forall|k: int| 0 <= k < r.3.len() ==> cond_means(#[trigger] r.3[k], i))
            implies sides_agree(r.1, r.2, i) by {
        reveal_with_fuel(denote, 6);
        assert(cond_means(r.3[0], i));
        assert(cond_means(r.3[1], i));
        let nv: int = (i.var)('n').0;
        let nd: int = (i.var)('n').1;
        let xv: int = (i.var)('x').0;
        let xd: int = (i.var)('x').1;
        lemma_qint_is_int(nv);
        lemma_qint_is_int(nv + 1);
        lemma_qint_arith(nv, 1);
        lemma_qint_arith(nd, 0);
        let c: int = nv + 1;
        assert(c - 1 == nv && c != 0);
        lemma_rate_of_power_over_exponent(qpow(qint(xv), nv), qpow(qint(xv), c), xd, c);
    }
}

/// `int-recip`: (int (/ 1 ?x) ?x) => (ln ?x)
#[verifier::spinoff_prover]
pub proof fn int_recip_is_sound()
    ensures
        real_sound_rule(table_power_rule()[2]),
{
    let r = table_power_rule()[2];
    assert forall|i: Interp|
        #![trigger denote(r.1, i)]
        (forall|k: int| 0 <= k < r.3.len() ==> cond_means(#[trigger] r.3[k], i))
            implies sides_agree(r.1, r.2, i) by {
        reveal_with_fuel(denote, 6);
        let xv: int = (i.var)('x').0;
        let xd: int = (i.var)('x').1;
        let k1: int = (i.antider)(pbin(BinaryOp::Int, pbin(BinaryOp::Div, pnum(1i32), pvar('x')), pvar('x')));
        let f2: int = (i.unary)(UnaryOp::Ln, qint(xv));
        if (qint(xv).num != 0) && (qint(xv).num * qint(xv).den > 0) {
            assert(qeq(qmul(qdiv(qint(1), qint(xv)), qint(xd)), qdiv(qint(xd), qint(xv)))) by (nonlinear_arith)
                requires
                    qint(xv).num != 0,
                    qint(xv).num * qint(xv).den > 0,
            ;
        }
    }
}

/// `int-pow-neg1`: (int (pow ?x -1) ?x) => (ln ?x)
#[verifier::spinoff_prover]
pub proof fn int_pow_neg1_is_sound()
    ensures
        real_sound_rule(table_power_rule()[3]),
{
    let r = table_power_rule()[3];
    assert forall|i: Interp|
        #![trigger denote(r.1, i)]
        (forall|k: int| 0 <= k < r.3.len() ==> cond_means(#[trigger] r.3[k], i))
            implies sides_agree(r.1, r.2, i) by {
        reveal_with_fuel(denote, 6);
        let xv: int = (i.var)('x').0;
        let xd: int = (i.var)('x').1;
        let k1: int = (i.antider)(pbin(BinaryOp::Int, pbin(BinaryOp::Pow, pvar('x'), pnum(-1i32)), pvar('x')));
        let f2: int = (i.unary)(UnaryOp::Ln, qint(xv));
        lemma_qpow_small(qint(xv));
        lemma_qint_is_int(-1);
        if (qint(xv).num != 0) && (qint(xv).num * qint(xv).den > 0) {
            assert(qeq(qmul(Q { num: qint(xv).den, den: qint(xv).num }, qint(xd)), qdiv(qint(xd), qint(xv)))) by (nonlinear_arith)
                requires
                    qint(xv).num != 0,
                    qint(xv).num * qint(xv).den > 0,
            ;
        }
    }
}

/// `comm-add`: (+ ?a ?b) => (+ ?b ?a)
#[verifier::spinoff_prover]
pub proof fn comm_add_is_sound()
    ensures
        real_sound_rule(table_comm_assoc()[0]),
{
    let r = table_comm_assoc()[0];
    assert forall|i: Interp|
        #![trigger denote(r.1, i)]
        (forall|k: int| 0 <= k < r.3.len() ==> cond_means(#[trigger] r.3[k], i))
            implies sides_agree(r.1, r.2, i) by {
        reveal_with_fuel(denote, 6);
        let av: int = (i.var)('a').0;
        let ad: int = (i.var)('a').1;
        let bv: int = (i.var)('b').0;
        let bd: int = (i.var)('b').1;
        if true {
            assert(qeq(qadd(qint(av), qint(bv)), qadd(qint(bv), qint(av)))) by (nonlinear_arith);
        }
    }
}

/// `comm-mul`: (* ?a ?b) => (* ?b ?a)
#[verifier::spinoff_prover]
pub proof fn comm_mul_is_sound()
    ensures
        real_sound_rule(table_comm_assoc()[1]),
{
    let r = table_comm_assoc()[1];
    assert forall|i: Interp|
        #![trigger denote(r.1, i)]
        (forall|k: int| 0 <= k < r.3.len() ==> cond_means(#[trigger] r.3[k], i))
            implies sides_agree(r.1, r.2, i) by {
        reveal_with_fuel(denote, 6);
        let av: int = (i.var)('a').0;
        let ad: int = (i.var)('a').1;
        let bv: int = (i.var)('b').0;
        let bd: int = (i.var)('b').1;
        if true {
            assert(qeq(qmul(qint(av), qint(bv)), qmul(qint(bv), qint(av)))) by (nonlinear_arith);
        }
    }
}

/// `assoc-add`: (+ (+ ?a ?b) ?c) => (+ ?a (+ ?b ?c))
#[verifier::spinoff_prover]
pub proof fn assoc_add_is_sound()
    ensures
        real_sound_rule(table_comm_assoc()[2]),
{
    let r = table_comm_assoc()[2];
    assert forall|i: Interp|
        #![trigger denote(r.1, i)]
        (forall|k: int| 0 <= k < r.3.len() ==> cond_means(#[trigger] r.3[k], i))
            implies sides_agree(r.1, r.2, i) by {
        reveal_with_fuel(denote, 6);
        let av: int = (i.var)('a').0;
        let ad: int = (i.var)('a').1;
        let bv: int = (i.var)('b').0;
        let bd: int = (i.var)('b').1;
        let cv: int = (i.var)('c').0;
        let cd: int = (i.var)('c').1;
        if true {
            assert(qeq(qadd(qadd(qint(av), qint(bv)), qint(cv)), qadd(qint(av), qadd(qint(bv), qint(cv))))) by (nonlinear_arith);
        }
    }
}

/// `i-assoc-add`: (+ ?a (+ ?b ?c)) => (+ (+ ?a ?b) ?c)
#[verifier::spinoff_prover]
pub proof fn i_assoc_add_is_sound()
    ensures
        real_sound_rule(table_comm_assoc()[3]),
{
    let r = table_comm_assoc()[3];
    assert forall|i: Interp|
        #![trigger denote(r.1, i)]
        (forall|k: int| 0 <= k < r.3.len() ==> cond_means(#[trigger] r.3[k], i))
            implies sides_agree(r.1, r.2, i) by {
        reveal_with_fuel(denote, 6);
        let av: int = (i.var)('a').0;
        let ad: int = (i.var)('a').1;
        let bv: int = (i.var)('b').0;
        let bd: int = (i.var)('b').1;
        let cv: int = (i.var)('c').0;
        let cd: int = (i.var)('c').1;
        if true {
            assert(qeq(qadd(qint(av), qadd(qint(bv), qint(cv))), qadd(qadd(qint(av), qint(bv)), qint(cv)))) by (nonlinear_arith);
        }
    }
}

/// `assoc-mul`: (* (* ?a ?b) ?c) => (* ?a (* ?b ?c))
#[verifier::spinoff_prover]
pub proof fn assoc_mul_is_sound()
    ensures
        real_sound_rule(table_comm_assoc()[4]),
{
    let r = table_comm_assoc()[4];
    assert forall|i: Interp|
        #![trigger denote(r.1, i)]
        (forall|k: int| 0 <= k < r.3.len() ==> cond_means(#[trigger] r.3[k], i))
            implies sides_agree(r.1, r.2, i) by {
        reveal_with_fuel(denote, 6);
        let av: int = (i.var)('a').0;
        let ad: int = (i.var)('a').1;
        let bv: int = (i.var)('b').0;
        let bd: int = (i.var)('b').1;
        let cv: int = (i.var)('c').0;
        let cd: int = (i.var)('c').1;
        if true {
            assert(qeq(qmul(qmul(qint(av), qint(bv)), qint(cv)), qmul(qint(av), qmul(qint(bv), qint(cv))))) by (nonlinear_arith);
        }
    }
}

/// `i-assoc-mul`: (* ?a (* ?b ?c)) => (* (* ?a ?b) ?c)
#[verifier::spinoff_prover]
pub proof fn i_assoc_mul_is_sound()
    ensures
        real_sound_rule(table_comm_assoc()[5]),
{
    let r = table_comm_assoc()[5];
    assert forall|i: Interp|
        #![trigger denote(r.1, i)]
        (forall|k: int| 0 <= k < r.3.len() ==> cond_means(#[trigger] r.3[k], i))
            implies sides_agree(r.1, r.2, i) by {
        reveal_with_fuel(denote, 6);
        let av: int = (i.var)('a').0;
        let ad: int = (i.var)('a').1;
        let bv: int = (i.var)('b').0;
        let bd: int = (i.var)('b').1;
        let cv: int = (i.var)('c').0;
        let cd: int = (i.var)('c').1;
        if true {
            assert(qeq(qmul(qint(av), qmul(qint(bv), qint(cv))), qmul(qmul(qint(av), qint(bv)), qint(cv)))) by (nonlinear_arith);
        }
    }
}

/// `distribute`: (* ?a (+ ?b ?c)) => (+ (* ?a ?b) (* ?a ?c))
#[verifier::spinoff_prover]
pub proof fn distribute_is_sound()
    ensures
        real_sound_rule(table_distributivity()[0]),
{
    let r = table_distributivity()[0];
    assert forall|i: Interp|
        #![trigger denote(r.1, i)]
        (forall|k: int| 0 <= k < r.3.len() ==> cond_means(#[trigger] r.3[k], i))
            implies sides_agree(r.1, r.2, i) by {
        reveal_with_fuel(denote, 6);
        let av: int = (i.var)('a').0;
        let ad: int = (i.var)('a').1;
        let bv: int = (i.var)('b').0;
        let bd: int = (i.var)('b').1;
        let cv: int = (i.var)('c').0;
        let cd: int = (i.var)('c').1;
        if true {
            assert(qeq(qmul(qint(av), qadd(qint(bv), qint(cv))), qadd(qmul(qint(av), qint(bv)), qmul(qint(av), qint(cv))))) by (nonlinear_arith);
        }
    }
}

/// `factor`: (+ (* ?a ?b) (* ?a ?c)) => (* ?a (+ ?b ?c))
#[verifier::spinoff_prover]
pub proof fn factor_is_sound()
    ensures
        real_sound_rule(table_distributivity()[1]),
{
    let r = table_distributivity()[1];
    assert forall|i: Interp|
        #![trigger denote(r.1, i)]
        (forall|k: int| 0 <= k < r.3.len() ==> cond_means(#[trigger] r.3[k], i))
            implies sides_agree(r.1, r.2, i) by {
        reveal_with_fuel(denote, 6);
        let av: int = (i.var)('a').0;
        let ad: int = (i.var)('a').1;
        let bv: int = (i.var)('b').0;
        let bd: int = (i.var)('b').1;
        let cv: int = (i.var)('c').0;
        let cd: int = (i.var)('c').1;
        if true {
            assert(qeq(qadd(qmul(qint(av), qint(bv)), qmul(qint(av), qint(cv))), qmul(qint(av), qadd(qint(bv), qint(cv))))) by (nonlinear_arith);
        }
    }
}

/// `factor-sub`: (- (* ?a ?b) (* ?a ?c)) => (* ?a (- ?b ?c))
#[verifier::spinoff_prover]
pub proof fn factor_sub_is_sound()
    ensures
        real_sound_rule(table_distributivity()[2]),
{
    let r = table_distributivity()[2];
    assert forall|i: Interp|
        #![trigger denote(r.1, i)]
        (forall|k: int| 0 <= k < r.3.len() ==> cond_means(#[trigger] r.3[k], i))
            implies sides_agree(r.1, r.2, i) by {
        reveal_with_fuel(denote, 6);
        let av: int = (i.var)('a').0;
        let ad: int = (i.var)('a').1;
        let bv: int = (i.var)('b').0;
        let bd: int = (i.var)('b').1;
        let cv: int = (i.var)('c').0;
        let cd: int = (i.var)('c').1;
        if true {
            assert(qeq(qsub(qmul(qint(av), qint(bv)), qmul(qint(av), qint(cv))), qmul(qint(av), qsub(qint(bv), qint(cv))))) by (nonlinear_arith);
        }
    }
}

/// `zero-add`: (+ ?a 0) => ?a
#[verifier::spinoff_prover]
pub proof fn zero_add_is_sound()
    ensures
        real_sound_rule(table_identities()[0]),
{
    let r = table_identities()[0];
    assert forall|i: Interp|
        #![trigger denote(r.1, i)]
        (forall|k: int| 0 <= k < r.3.len() ==> cond_means(#[trigger] r.3[k], i))
            implies sides_agree(r.1, r.2, i) by {
        reveal_with_fuel(denote, 6);
        let av: int = (i.var)('a').0;
        let ad: int = (i.var)('a').1;
        if true {
            assert(qeq(qadd(qint(av), qint(0)), qint(av))) by (nonlinear_arith);
        }
    }
}

/// `one-mul`: (* ?a 1) => ?a
#[verifier::spinoff_prover]
pub proof fn one_mul_is_sound()
    ensures
        real_sound_rule(table_identities()[1]),
{
    let r = table_identities()[1];
    assert forall|i: Interp|
        #![trigger denote(r.1, i)]
        (forall|k: int| 0 <= k < r.3.len() ==> cond_means(#[trigger] r.3[k], i))
            implies sides_agree(r.1, r.2, i) by {
        reveal_with_fuel(denote, 6);
        let av: int = (i.var)('a').0;
        let ad: int = (i.var)('a').1;
        if true {
            assert(qeq(qmul(qint(av), qint(1)), qint(av))) by (nonlinear_arith);
        }
    }
}

/// `zero-mul`: (* ?a 0) => 0
#[verifier::spinoff_prover]
pub proof fn zero_mul_is_sound()
    ensures
        real_sound_rule(table_identities()[2]),
{
    let r = table_identities()[2];
    assert forall|i: Interp|
        #![trigger denote(r.1, i)]
        (forall|k: int| 0 <= k < r.3.len() ==> cond_means(#[trigger] r.3[k], i))
            implies sides_agree(r.1, r.2, i) by {
        reveal_with_fuel(denote, 6);
        let av: int = (i.var)('a').0;
        let ad: int = (i.var)('a').1;
        if true {
            assert(qeq(qmul(qint(av), qint(0)), qint(0))) by (nonlinear_arith);
        }
    }
}

/// `cancel-sub`: (- ?a ?a) => 0
#[verifier::spinoff_prover]
pub proof fn cancel_sub_is_sound()
    ensures
        real_sound_rule(table_identities()[3]),
{
    let r = table_identities()[3];
    assert forall|i: Interp|
        #![trigger denote(r.1, i)]
        (forall|k: int| 0 <= k < r.3.len() ==> cond_means(#[trigger] r.3[k], i))
            implies sides_agree(r.1, r.2, i) by {
        reveal_with_fuel(denote, 6);
        let av: int = (i.var)('a').0;
        let ad: int = (i.var)('a').1;
        if true {
            assert(qeq(qsub(qint(av), qint(av)), qint(0))) by (nonlinear_arith);
        }
    }
}

/// `cancel-div`: (/ ?a ?a) => 1
#[verifier::spinoff_prover]
pub proof fn cancel_div_is_sound()
    ensures
        real_sound_rule(table_identities()[4]),
{
    let r = table_identities()[4];
    assert forall|i: Interp|
        #![trigger denote(r.1, i)]
        (forall|k: int| 0 <= k < r.3.len() ==> cond_means(#[trigger] r.3[k], i))
            implies sides_agree(r.1, r.2, i) by {
        reveal_with_fuel(denote, 6);
        let av: int = (i.var)('a').0;
        let ad: int = (i.var)('a').1;
        if (qint(av).num != 0) {
            assert(qeq(qdiv(qint(av), qint(av)), qint(1))) by (nonlinear_arith)
                requires
                    qint(av).num != 0,
            ;
        }
    }
}

/// `sub-canon`: (- ?a ?b) => (+ ?a (* -1 ?b))
#[verifier::spinoff_prover]
pub proof fn sub_canon_is_sound()
    ensures
        real_sound_rule(table_sugar()[0]),
{
    let r = table_sugar()[0];
    assert forall|i: Interp|
        #![trigger denote(r.1, i)]
        (forall|k: int| 0 <= k < r.3.len() ==> cond_means(#[trigger] r.3[k], i))
            implies sides_agree(r.1, r.2, i) by {
        reveal_with_fuel(denote, 6);
        let av: int = (i.var)('a').0;
        let ad: int = (i.var)('a').1;
        let bv: int = (i.var)('b').0;
        let bd: int = (i.var)('b').1;
        if true {
            assert(qeq(qsub(qint(av), qint(bv)), qadd(qint(av), qmul(qint(-1), qint(bv))))) by (nonlinear_arith);
        }
    }
}

/// `i-sub-canon`: (+ ?a (* -1 ?b)) => (- ?a ?b)
#[verifier::spinoff_prover]
pub proof fn i_sub_canon_is_sound()
    ensures
        real_sound_rule(table_sugar()[1]),
{
    let r = table_sugar()[1];
    assert forall|i: Interp|
        #![trigger denote(r.1, i)]
        (forall|k: int| 0 <= k < r.3.len() ==> cond_means(#[trigger] r.3[k], i))
            implies sides_agree(r.1, r.2, i) by {
        reveal_with_fuel(denote, 6);
        let av: int = (i.var)('a').0;
        let ad: int = (i.var)('a').1;
        let bv: int = (i.var)('b').0;
        let bd: int = (i.var)('b').1;
        if true {
            assert(qeq(qadd(qint(av), qmul(qint(-1), qint(bv))), qsub(qint(av), qint(bv)))) by (nonlinear_arith);
        }
    }
}

/// `div-canon`: (/ ?a ?b) => (* ?a (/ 1 ?b))
#[verifier::spinoff_prover]
pub proof fn div_canon_is_sound()
    ensures
        real_sound_rule(table_sugar()[2]),
{
    let r = table_sugar()[2];
    assert forall|i: Interp|
        #![trigger denote(r.1, i)]
        (forall|k: int| 0 <= k < r.3.len() ==> cond_means(#[trigger] r.3[k], i))
            implies sides_agree(r.1, r.2, i) by {
        reveal_with_fuel(denote, 6);
        let av: int = (i.var)('a').0;
        let ad: int = (i.var)('a').1;
        let bv: int = (i.var)('b').0;
        let bd: int = (i.var)('b').1;
        if (qint(bv).num != 0) {
            assert(qeq(qdiv(qint(av), qint(bv)), qmul(qint(av), qdiv(qint(1), qint(bv))))) by (nonlinear_arith)
                requires
                    qint(bv).num != 0,
            ;
        }
    }
}

/// `i-div-canon`: (* ?a (/ 1 ?b)) => (/ ?a ?b)
#[verifier::spinoff_prover]
pub proof fn i_div_canon_is_sound()
    ensures
        real_sound_rule(table_sugar()[3]),
{
    let r = table_sugar()[3];
    assert forall|i: Interp|
        #![trigger denote(r.1, i)]
        (forall|k: int| 0 <= k < r.3.len() ==> cond_means(#[trigger] r.3[k], i))
            implies sides_agree(r.1, r.2, i) by {
        reveal_with_fuel(denote, 6);
        let av: int = (i.var)('a').0;
        let ad: int = (i.var)('a').1;
        let bv: int = (i.var)('b').0;
        let bd: int = (i.var)('b').1;
        if (qint(bv).num != 0) {
            assert(qeq(qmul(qint(av), qdiv(qint(1), qint(bv))), qdiv(qint(av), qint(bv)))) by (nonlinear_arith)
                requires
                    qint(bv).num != 0,
            ;
        }
    }
}

/// `cancel-frac`: (/ (* ?a ?c) (* ?b ?c)) => (/ ?a ?b)
#[verifier::spinoff_prover]
pub proof fn cancel_frac_is_sound()
    ensures
        real_sound_rule(table_fractions()[0]),
{
    let r = table_fractions()[0];
    assert forall|i: Interp|
        #![trigger denote(r.1, i)]
        (forall|k: int| 0 <= k < r.3.len() ==> cond_means(#[trigger] r.3[k], i))
            implies sides_agree(r.1, r.2, i) by {
        reveal_with_fuel(denote, 6);
        let av: int = (i.var)('a').0;
        let ad: int = (i.var)('a').1;
        let bv: int = (i.var)('b').0;
        let bd: int = (i.var)('b').1;
        let cv: int = (i.var)('c').0;
        let cd: int = (i.var)('c').1;
        if (qmul(qint(bv), qint(cv)).num != 0) && (qint(bv).num != 0) {
            assert(qeq(qdiv(qmul(qint(av), qint(cv)), qmul(qint(bv), qint(cv))), qdiv(qint(av), qint(bv)))) by (nonlinear_arith)
                requires
                    qmul(qint(bv), qint(cv)).num != 0,
                    qint(bv).num != 0,
            ;
        }
    }
}

/// `cancel-frac-simple`: (/ (* ?a ?b) ?a) => ?b
#[verifier::spinoff_prover]
pub proof fn cancel_frac_simple_is_sound()
    ensures
        real_sound_rule(table_fractions()[1]),
{
    let r = table_fractions()[1];
    assert forall|i: Interp|
        #![trigger denote(r.1, i)]
        (forall|k: int| 0 <= k < r.3.len() ==> cond_means(#[trigger] r.3[k], i))
            implies sides_agree(r.1, r.2, i) by {
        reveal_with_fuel(denote, 6);
        let av: int = (i.var)('a').0;
        let ad: int = (i.var)('a').1;
        let bv: int = (i.var)('b').0;
        let bd: int = (i.var)('b').1;
        if (qint(av).num != 0) {
            assert(qeq(qdiv(qmul(qint(av), qint(bv)), qint(av)), qint(bv))) by (nonlinear_arith)
                requires
                    qint(av).num != 0,
            ;
        }
    }
}

/// `frac-add-same-denom`: (+ (/ ?a ?b) (/ ?c ?b)) => (/ (+ ?a ?c) ?b)
#[verifier::spinoff_prover]
pub proof fn frac_add_same_denom_is_sound()
    ensures
        real_sound_rule(table_fractions()[2]),
{
    let r = table_fractions()[2];
    assert forall|i: Interp|
        #![trigger denote(r.1, i)]
        (forall|k: int| 0 <= k < r.3.len() ==> cond_means(#[trigger] r.3[k], i))
            implies sides_agree(r.1, r.2, i) by {
        reveal_with_fuel(denote, 6);
        let av: int = (i.var)('a').0;
        let ad: int = (i.var)('a').1;
        let bv: int = (i.var)('b').0;
        let bd: int = (i.var)('b').1;
        let cv: int = (i.var)('c').0;
        let cd: int = (i.var)('c').1;
        if (qint(bv).num != 0) {
            assert(qeq(qadd(qdiv(qint(av), qint(bv)), qdiv(qint(cv), qint(bv))), qdiv(qadd(qint(av), qint(cv)), qint(bv)))) by (nonlinear_arith)
                requires
                    qint(bv).num != 0,
            ;
        }
    }
}

/// `pow0`: (pow ?a 0) => 1
#[verifier::spinoff_prover]
pub proof fn pow0_is_sound()
    ensures
        real_sound_rule(table_powers()[0]),
{
    let r = table_powers()[0];
    assert forall|i: Interp|
        #![trigger denote(r.1, i)]
        (forall|k: int| 0 <= k < r.3.len() ==> cond_means(#[trigger] r.3[k], i))
            implies sides_agree(r.1, r.2, i) by {
        reveal_with_fuel(denote, 6);
        let av: int = (i.var)('a').0;
        let ad: int = (i.var)('a').1;
        lemma_qpow_small(qint(av));
        lemma_qint_is_int(0);
        if true {
            assert(qeq(qint(1), qint(1))) by (nonlinear_arith);
        }
    }
}

/// `pow1`: (pow ?a 1) => ?a
#[verifier::spinoff_prover]
pub proof fn pow1_is_sound()
    ensures
        real_sound_rule(table_powers()[1]),
{
    let r = table_powers()[1];
    assert forall|i: Interp|
        #![trigger denote(r.1, i)]
        (forall|k: int| 0 <= k < r.3.len() ==> cond_means(#[trigger] r.3[k], i))
            implies sides_agree(r.1, r.2, i) by {
        reveal_with_fuel(denote, 6);
        let av: int = (i.var)('a').0;
        let ad: int = (i.var)('a').1;
        lemma_qpow_small(qint(av));
        lemma_qint_is_int(1);
        if true {
            assert(qeq(qint(av), qint(av))) by (nonlinear_arith);
        }
    }
}

/// `pow-mul`: (pow (* ?a ?b) ?n) => (* (pow ?a ?n) (pow ?b ?n))
#[verifier::spinoff_prover]
pub proof fn pow_mul_is_sound()
    ensures
        real_sound_rule(table_powers()[2]),
{
    let r = table_powers()[2];
    assert forall|i: Interp|
        #![trigger denote(r.1, i)]
        (forall|k: int| 0 <= k < r.3.len() ==> cond_means(#[trigger] r.3[k], i))
            implies sides_agree(r.1, r.2, i) by {
        reveal_with_fuel(denote, 6);
        let av: int = (i.var)('a').0;
        let ad: int = (i.var)('a').1;
        let bv: int = (i.var)('b').0;
        let bd: int = (i.var)('b').1;
        let nv: int = (i.var)('n').0;
        let nd: int = (i.var)('n').1;
        lemma_qint_is_int(nv);
        lemma_qint_arith(av, bv);
        lemma_qpow_int_mul(av, bv, nv);
    }
}

/// `i-pow-mul`: (* (pow ?a ?n) (pow ?b ?n)) => (pow (* ?a ?b) ?n)
#[verifier::spinoff_prover]
pub proof fn i_pow_mul_is_sound()
    ensures
        real_sound_rule(table_powers()[3]),
{
    let r = table_powers()[3];
    assert forall|i: Interp|
        #![trigger denote(r.1, i)]
        (forall|k: int| 0 <= k < r.3.len() ==> cond_means(#[trigger] r.3[k], i))
            implies sides_agree(r.1, r.2, i) by {
        reveal_with_fuel(denote, 6);
        let av: int = (i.var)('a').0;
        let ad: int = (i.var)('a').1;
        let bv: int = (i.var)('b').0;
        let bd: int = (i.var)('b').1;
        let nv: int = (i.var)('n').0;
        let nd: int = (i.var)('n').1;
        lemma_qint_is_int(nv);
        lemma_qint_arith(av, bv);
        lemma_qpow_int_mul(av, bv, nv);
    }
}

/// `pow-div`: (pow (/ ?a ?b) ?n) => (/ (pow ?a ?n) (pow ?b ?n))
#[verifier::spinoff_prover]
pub proof fn pow_div_is_sound()
    ensures
        real_sound_rule(table_powers()[4]),
{
    let r = table_powers()[4];
    assert forall|i: Interp|
        #![trigger denote(r.1, i)]
        (forall|k: int| 0 <= k < r.3.len() ==> cond_means(#[trigger] r.3[k], i))
            implies sides_agree(r.1, r.2, i) by {
        reveal_with_fuel(denote, 6);
        let av: int = (i.var)('a').0;
        let ad: int = (i.var)('a').1;
        let bv: int = (i.var)('b').0;
        let bd: int = (i.var)('b').1;
        let nv: int = (i.var)('n').0;
        let nd: int = (i.var)('n').1;
        lemma_qint_is_int(nv);
        lemma_qpow_int_div(av, bv, nv);
    }
}

/// `i-pow-div`: (/ (pow ?a ?n) (pow ?b ?n)) => (pow (/ ?a ?b) ?n)
#[verifier::spinoff_prover]
pub proof fn i_pow_div_is_sound()
    ensures
        real_sound_rule(table_powers()[5]),
{
    let r = table_powers()[5];
    assert forall|i: Interp|
        #![trigger denote(r.1, i)]
        (forall|k: int| 0 <= k < r.3.len() ==> cond_means(#[trigger] r.3[k], i))
            implies sides_agree(r.1, r.2, i) by {
        reveal_with_fuel(denote, 6);
        let av: int = (i.var)('a').0;
        let ad: int = (i.var)('a').1;
        let bv: int = (i.var)('b').0;
        let bd: int = (i.var)('b').1;
        let nv: int = (i.var)('n').0;
        let nd: int = (i.var)('n').1;
        lemma_qint_is_int(nv);
        lemma_qpow_int_div(av, bv, nv);
    }
}

/// `pow-add`: (* (pow ?a ?m) (pow ?a ?n)) => (pow ?a (+ ?m ?n))
#[verifier::spinoff_prover]
pub proof fn pow_add_is_sound()
    ensures
        real_sound_rule(table_powers()[6]),
{
    let r = table_powers()[6];
    assert forall|i: Interp|
        #![trigger denote(r.1, i)]
        (forall|k: int| 0 <= k < r.3.len() ==> cond_means(#[trigger] r.3[k], i))
            implies sides_agree(r.1, r.2, i) by {
        reveal_with_fuel(denote, 6);
        let av: int = (i.var)('a').0;
        let ad: int = (i.var)('a').1;
        let mv: int = (i.var)('m').0;
        let md: int = (i.var)('m').1;
        let nv: int = (i.var)('n').0;
        let nd: int = (i.var)('n').1;
        lemma_qint_is_int(mv);
        lemma_qint_is_int(nv);
        lemma_qint_arith(mv, nv);
        lemma_qint_is_int(mv + nv);
        lemma_qpow_int_add(av, mv, nv);
    }
}

/// `pow4-split`: (pow ?a 4) => (* (pow ?a 2) (pow ?a 2))
#[verifier::spinoff_prover]
pub proof fn pow4_split_is_sound()
    ensures
        real_sound_rule(table_powers()[7]),
{
    let r = table_powers()[7];
    assert forall|i: Interp|
        #![trigger denote(r.1, i)]
        (forall|k: int| 0 <= k < r.3.len() ==> cond_means(#[trigger] r.3[k], i))
            implies sides_agree(r.1, r.2, i) by {
        reveal_with_fuel(denote, 6);
        let av: int = (i.var)('a').0;
        let ad: int = (i.var)('a').1;
        lemma_qpow_small(qint(av));
        lemma_qint_is_int(4);
        lemma_qint_is_int(2);
        if true {
            assert(qeq(qmul(qint(av), qmul(qint(av), qmul(qint(av), qint(av)))), qmul(qmul(qint(av), qint(av)), qmul(qint(av), qint(av))))) by (nonlinear_arith);
        }
    }
}

/// `pow-neg`: (pow ?a -1) => (/ 1 ?a)
#[verifier::spinoff_prover]
pub proof fn pow_neg_is_sound()
    ensures
        real_sound_rule(table_powers()[8]),
{
    let r = table_powers()[8];
    assert forall|i: Interp|
        #![trigger denote(r.1, i)]
        (forall|k: int| 0 <= k < r.3.len() ==> cond_means(#[trigger] r.3[k], i))
            implies sides_agree(r.1, r.2, i) by {
        reveal_with_fuel(denote, 6);
        let av: int = (i.var)('a').0;
        let ad: int = (i.var)('a').1;
        lemma_qpow_small(qint(av));
        lemma_qint_is_int(-1);
        if (qint(av).num != 0) {
            assert(qeq(Q { num: qint(av).den, den: qint(av).num }, qdiv(qint(1), qint(av)))) by (nonlinear_arith)
                requires
                    qint(av).num != 0,
            ;
        }
    }
}

/// `i-pow-neg`: (/ 1 ?a) => (pow ?a -1)
#[verifier::spinoff_prover]
pub proof fn i_pow_neg_is_sound()
    ensures
        real_sound_rule(table_powers()[9]),
{
    let r = table_powers()[9];
    assert forall|i: Interp|
        #![trigger denote(r.1, i)]
        (forall|k: int| 0 <= k < r.3.len() ==> cond_means(#[trigger] r.3[k], i))
            implies sides_agree(r.1, r.2, i) by {
        reveal_with_fuel(denote, 6);
        let av: int = (i.var)('a').0;
        let ad: int = (i.var)('a').1;
        lemma_qpow_small(qint(av));
        lemma_qint_is_int(-1);
        if (qint(av).num != 0) {
            assert(qeq(qdiv(qint(1), qint(av)), Q { num: qint(av).den, den: qint(av).num })) by (nonlinear_arith)
                requires
                    qint(av).num != 0,
            ;
        }
    }
}

/// `d-const`: (d ?c ?x) => 0
#[verifier::spinoff_prover]
pub proof fn d_const_is_sound()
    ensures
        real_sound_rule(table_differentiation()[0]),
{
    let r = table_differentiation()[0];
    assert forall|i: Interp|
        #![trigger denote(r.1, i)]
        (forall|k: int| 0 <= k < r.3.len() ==> cond_means(#[trigger] r.3[k], i))
            implies sides_agree(r.1, r.2, i) by {
        reveal_with_fuel(denote, 6);
        assert(cond_means(r.3[0], i));
        let cv: int = (i.var)('c').0;
        let cd: int = (i.var)('c').1;
        let xv: int = (i.var)('x').0;
        let xd: int = (i.var)('x').1;
        if (qint(xd).num != 0) {
            assert(qeq(qdiv(qint(cd), qint(xd)), qint(0))) by (nonlinear_arith)
                requires
                    cd == 0,
                    qint(xd).num != 0,
            ;
        }
    }
}

/// `d-var`: (d ?x ?x) => 1
#[verifier::spinoff_prover]
pub proof fn d_var_is_sound()
    ensures
        real_sound_rule(table_differentiation()[1]),
{
    let r = table_differentiation()[1];
    assert forall|i: Interp|
        #![trigger denote(r.1, i)]
        (forall|k: int| 0 <= k < r.3.len() ==> cond_means(#[trigger] r.3[k], i))
            implies sides_agree(r.1, r.2, i) by {
        reveal_with_fuel(denote, 6);
        let xv: int = (i.var)('x').0;
        let xd: int = (i.var)('x').1;
        if (qint(xd).num != 0) {
            assert(qeq(qdiv(qint(xd), qint(xd)), qint(1))) by (nonlinear_arith)
                requires
                    qint(xd).num != 0,
            ;
        }
    }
}

/// `d-pow`: (d (pow ?x ?n) ?x) => (* ?n (pow ?x (- ?n 1)))
#[verifier::spinoff_prover]
pub proof fn d_pow_is_sound()
    ensures
        real_sound_rule(table_differentiation()[2]),
{
    let r = table_differentiation()[2];
    assert forall|i: Interp|
        #![trigger denote(r.1, i)]
        (forall|k: int| 0 <= k < r.3.len() ==> cond_means(#[trigger] r.3[k], i))
            implies sides_agree(r.1, r.2, i) by {
        reveal_with_fuel(denote, 6);
        assert(cond_means(r.3[0], i));
        let nv: int = (i.var)('n').0;
        let nd: int = (i.var)('n').1;
        let xv: int = (i.var)('x').0;
        let xd: int = (i.var)('x').1;
        lemma_qint_is_int(nv);
        lemma_qint_is_int(nv - 1);
        lemma_qint_arith(nv, 1);
        let yq = qpow(qint(xv), nv - 1);
        if xd != 0 {
            if nv == 0 {
                assert(qeq(qdiv(qint(0), qint(xd)), qmul(qint(nv), yq))) by (nonlinear_arith)
                    requires
                        nv == 0,
                        xd != 0,
                ;
            } else {
                assert(qeq(qdiv(qmul(qmul(qint(nv), yq), qint(xd)), qint(xd)), qmul(qint(nv), yq)))
                    by (nonlinear_arith)
                    requires
                        xd != 0,
                ;
            }
        }
    }
}

/// `d-const-mul`: (d (* ?c ?f) ?x) => (* ?c (d ?f ?x))
#[verifier::spinoff_prover]
pub proof fn d_const_mul_is_sound()
    ensures
        real_sound_rule(table_differentiation()[3]),
{
    let r = table_differentiation()[3];
    assert forall|i: Interp|
        #![trigger denote(r.1, i)]
        (forall|k: int| 0 <= k < r.3.len() ==> cond_means(#[trigger] r.3[k], i))
            implies sides_agree(r.1, r.2, i) by {
        reveal_with_fuel(denote, 6);
        assert(cond_means(r.3[0], i));
        let cv: int = (i.var)('c').0;
        let cd: int = (i.var)('c').1;
        let fv: int = (i.var)('f').0;
        let fd: int = (i.var)('f').1;
        let xv: int = (i.var)('x').0;
        let xd: int = (i.var)('x').1;
        if (qint(xd).num != 0) {
            assert(qeq(qdiv(qadd(qmul(qint(cd), qint(fv)), qmul(qint(cv), qint(fd))), qint(xd)), qmul(qint(cv), qdiv(qint(fd), qint(xd))))) by (nonlinear_arith)
                requires
                    cd == 0,
                    qint(xd).num != 0,
            ;
        }
    }
}

/// `d-sin`: (d (sin ?x) ?x) => (cos ?x)
#[verifier::spinoff_prover]
pub proof fn d_sin_is_sound()
    ensures
        real_sound_rule(table_differentiation()[4]),
{
    let r = table_differentiation()[4];
    assert forall|i: Interp|
        #![trigger denote(r.1, i)]
        (forall|k: int| 0 <= k < r.3.len() ==> cond_means(#[trigger] r.3[k], i))
            implies sides_agree(r.1, r.2, i) by {
        reveal_with_fuel(denote, 6);
        let xv: int = (i.var)('x').0;
        let xd: int = (i.var)('x').1;
        let f1: int = (i.unary)(UnaryOp::Sin, qint(xv));
        let f2: int = (i.unary)(UnaryOp::Cos, qint(xv));
        if (qint(xd).num != 0) {
            assert(qeq(qdiv(qmul(qint(f2), qint(xd)), qint(xd)), qint(f2))) by (nonlinear_arith)
                requires
                    qint(xd).num != 0,
            ;
        }
    }
}

/// `d-cos`: (d (cos ?x) ?x) => (* -1 (sin ?x))
#[verifier::spinoff_prover]
pub proof fn d_cos_is_sound()
    ensures
        real_sound_rule(table_differentiation()[5]),
{
    let r = table_differentiation()[5];
    assert forall|i: Interp|
        #![trigger denote(r.1, i)]
        (forall|k: int| 0 <= k < r.3.len() ==> cond_means(#[trigger] r.3[k], i))
            implies sides_agree(r.1, r.2, i) by {
        reveal_with_fuel(denote, 6);
        let xv: int = (i.var)('x').0;
        let xd: int = (i.var)('x').1;
        let f1: int = (i.unary)(UnaryOp::Cos, qint(xv));
        let f2: int = (i.unary)(UnaryOp::Sin, qint(xv));
        if (qint(xd).num != 0) {
            assert(qeq(qdiv(qmul(qsub(qint(0), qint(f2)), qint(xd)), qint(xd)), qmul(qint(-1), qint(f2)))) by (nonlinear_arith)
                requires
                    qint(xd).num != 0,
            ;
        }
    }
}

/// `d-exp`: (d (exp ?x) ?x) => (exp ?x)
#[verifier::spinoff_prover]
pub proof fn d_exp_is_sound()
    ensures
        real_sound_rule(table_differentiation()[6]),
{
    let r = table_differentiation()[6];
    assert forall|i: Interp|
        #![trigger denote(r.1, i)]
        (forall|k: int| 0 <= k < r.3.len() ==> cond_means(#[trigger] r.3[k], i))
            implies sides_agree(r.1, r.2, i) by {
        reveal_with_fuel(denote, 6);
        let xv: int = (i.var)('x').0;
        let xd: int = (i.var)('x').1;
        let f1: int = (i.unary)(UnaryOp::Exp, qint(xv));
        if (qint(xd).num != 0) {
            assert(qeq(qdiv(qmul(qint(f1), qint(xd)), qint(xd)), qint(f1))) by (nonlinear_arith)
                requires
                    qint(xd).num != 0,
            ;
        }
    }
}

/// `d-ln`: (d (ln ?x) ?x) => (/ 1 ?x)
#[verifier::spinoff_prover]
pub proof fn d_ln_is_sound()
    ensures
        real_sound_rule(table_differentiation()[7]),
{
    let r = table_differentiation()[7];
    assert forall|i: Interp|
        #![trigger denote(r.1, i)]
        (forall|k: int| 0 <= k < r.3.len() ==> cond_means(#[trigger] r.3[k], i))
            implies sides_agree(r.1, r.2, i) by {
        reveal_with_fuel(denote, 6);
        let xv: int = (i.var)('x').0;
        let xd: int = (i.var)('x').1;
        let f1: int = (i.unary)(UnaryOp::Ln, qint(xv));
        if (qint(xv).num * qint(xv).den > 0) && (qint(xd).num != 0) && (qint(xv).num != 0) {
            assert(qeq(qdiv(qdiv(qint(xd), qint(xv)), qint(xd)), qdiv(qint(1), qint(xv)))) by (nonlinear_arith)
                requires
                    qint(xv).num * qint(xv).den > 0,
                    qint(xd).num != 0,
                    qint(xv).num != 0,
            ;
        }
    }
}

/// `int-sin`: (int (sin ?x) ?x) => (* -1 (cos ?x))
#[verifier::spinoff_prover]
pub proof fn int_sin_is_sound()
    ensures
        real_sound_rule(table_transcendental()[0]),
{
    let r = table_transcendental()[0];
    assert forall|i: Interp|
        #![trigger denote(r.1, i)]
        (forall|k: int| 0 <= k < r.3.len() ==> cond_means(#[trigger] r.3[k], i))
            implies sides_agree(r.1, r.2, i) by {
        reveal_with_fuel(denote, 6);
        let xv: int = (i.var)('x').0;
        let xd: int = (i.var)('x').1;
        let f1: int = (i.unary)(UnaryOp::Sin, qint(xv));
        let f2: int = (i.unary)(UnaryOp::Cos, qint(xv));
        let k3: int = (i.antider)(pbin(BinaryOp::Int, pun(UnaryOp::Sin, pvar('x')), pvar('x')));
        if true {
            assert(qeq(qmul(qint(f1), qint(xd)), qadd(qmul(qint(0), qint(f2)), qmul(qint(-1), qmul(qsub(qint(0), qint(f1)), qint(xd)))))) by (nonlinear_arith);
        }
    }
}

/// `int-cos`: (int (cos ?x) ?x) => (sin ?x)
#[verifier::spinoff_prover]
pub proof fn int_cos_is_sound()
    ensures
        real_sound_rule(table_transcendental()[1]),
{
    let r = table_transcendental()[1];
    assert forall|i: Interp|
        #![trigger denote(r.1, i)]
        (forall|k: int| 0 <= k < r.3.len() ==> cond_means(#[trigger] r.3[k], i))
            implies sides_agree(r.1, r.2, i) by {
        reveal_with_fuel(denote, 6);
        let xv: int = (i.var)('x').0;
        let xd: int = (i.var)('x').1;
        let f1: int = (i.unary)(UnaryOp::Cos, qint(xv));
        let f2: int = (i.unary)(UnaryOp::Sin, qint(xv));
        let k3: int = (i.antider)(pbin(BinaryOp::Int, pun(UnaryOp::Cos, pvar('x')), pvar('x')));
        if true {
            assert(qeq(qmul(qint(f1), qint(xd)), qmul(qint(f1), qint(xd)))) by (nonlinear_arith);
        }
    }
}

/// `int-exp`: (int (exp ?x) ?x) => (exp ?x)
#[verifier::spinoff_prover]
pub proof fn int_exp_is_sound()
    ensures
        real_sound_rule(table_transcendental()[2]),
{
    let r = table_transcendental()[2];
    assert forall|i: Interp|
        #![trigger denote(r.1, i)]
        (forall|k: int| 0 <= k < r.3.len() ==> cond_means(#[trigger] r.3[k], i))
            implies sides_agree(r.1, r.2, i) by {
        reveal_with_fuel(denote, 6);
        let xv: int = (i.var)('x').0;
        let xd: int = (i.var)('x').1;
        let f1: int = (i.unary)(UnaryOp::Exp, qint(xv));
        let k2: int = (i.antider)(pbin(BinaryOp::Int, pun(UnaryOp::Exp, pvar('x')), pvar('x')));
        if true {
            assert(qeq(qmul(qint(f1), qint(xd)), qmul(qint(f1), qint(xd)))) by (nonlinear_arith);
        }
    }
}

/// `int-ln`: (int (ln ?x) ?x) => (- (* ?x (ln ?x)) ?x)
#[verifier::spinoff_prover]
pub proof fn int_ln_is_sound()
    ensures
        real_sound_rule(table_transcendental()[3]),
{
    let r = table_transcendental()[3];
    assert forall|i: Interp|
        #![trigger denote(r.1, i)]
        (forall|k: int| 0 <= k < r.3.len() ==> cond_means(#[trigger] r.3[k], i))
            implies sides_agree(r.1, r.2, i) by {
        reveal_with_fuel(denote, 6);
        let xv: int = (i.var)('x').0;
        let xd: int = (i.var)('x').1;
        let f1: int = (i.unary)(UnaryOp::Ln, qint(xv));
        let k2: int = (i.antider)(pbin(BinaryOp::Int, pun(UnaryOp::Ln, pvar('x')), pvar('x')));
        if (qint(xv).num * qint(xv).den > 0) {
            assert(qeq(qmul(qint(f1), qint(xd)), qsub(qadd(qmul(qint(xd), qint(f1)), qmul(qint(xv), qdiv(qint(xd), qint(xv)))), qint(xd)))) by (nonlinear_arith)
                requires
                    qint(xv).num * qint(xv).den > 0,
            ;
        }
    }
}

/// `ibp`: (int (* ?u ?v) ?x) => (- (* ?u (int ?v ?x)) (int (* (d ?u ?x) (int ?v ?x)) ?x))
#[verifier::spinoff_prover]
pub proof fn ibp_is_sound()
    ensures
        real_sound_rule(table_by_parts()[0]),
{
    let r = table_by_parts()[0];
    assert forall|i: Interp|
        #![trigger denote(r.1, i)]
        (forall|k: int| 0 <= k < r.3.len() ==> cond_means(#[trigger] r.3[k], i))
            implies sides_agree(r.1, r.2, i) by {
        reveal_with_fuel(denote, 6);
        let uv: int = (i.var)('u').0;
        let ud: int = (i.var)('u').1;
        let vv: int = (i.var)('v').0;
        let vd: int = (i.var)('v').1;
        let xv: int = (i.var)('x').0;
        let xd: int = (i.var)('x').1;
        let k1: int = (i.antider)(pbin(BinaryOp::Int, pbin(BinaryOp::Mul, pvar('u'), pvar('v')), pvar('x')));
        let k2: int = (i.antider)(pbin(BinaryOp::Int, pvar('v'), pvar('x')));
        let k3: int = (i.antider)(pbin(BinaryOp::Int, pbin(BinaryOp::Mul, pbin(BinaryOp::D, pvar('u'), pvar('x')), pbin(BinaryOp::Int, pvar('v'), pvar('x'))), pvar('x')));
        if (qint(xd).num != 0) {
            assert(qeq(qmul(qmul(qint(uv), qint(vv)), qint(xd)), qsub(qadd(qmul(qint(ud), qint(k2)), qmul(qint(uv), qmul(qint(vv), qint(xd)))), qmul(qmul(qdiv(qint(ud), qint(xd)), qint(k2)), qint(xd))))) by (nonlinear_arith)
                requires
                    qint(xd).num != 0,
            ;
        }
    }
}

/// `diff-sq`: (- (pow ?a 2) (pow ?b 2)) => (* (+ ?a ?b) (- ?a ?b))
#[verifier::spinoff_prover]
pub proof fn diff_sq_is_sound()
    ensures
        real_sound_rule(table_factoring()[0]),
{
    let r = table_factoring()[0];
    assert forall|i: Interp|
        #![trigger denote(r.1, i)]
        (forall|k: int| 0 <= k < r.3.len() ==> cond_means(#[trigger] r.3[k], i))
            implies sides_agree(r.1, r.2, i) by {
        reveal_with_fuel(denote, 6);
        let av: int = (i.var)('a').0;
        let ad: int = (i.var)('a').1;
        let bv: int = (i.var)('b').0;
        let bd: int = (i.var)('b').1;
        lemma_qpow_small(qint(av));
        lemma_qint_is_int(2);
        lemma_qpow_small(qint(bv));
        if true {
            assert(qeq(qsub(qmul(qint(av), qint(av)), qmul(qint(bv), qint(bv))), qmul(qadd(qint(av), qint(bv)), qsub(qint(av), qint(bv))))) by (nonlinear_arith);
        }
    }
}

/// `i-diff-sq`: (* (+ ?a ?b) (- ?a ?b)) => (- (pow ?a 2) (pow ?b 2))
#[verifier::spinoff_prover]
pub proof fn i_diff_sq_is_sound()
    ensures
        real_sound_rule(table_factoring()[1]),
{
    let r = table_factoring()[1];
    assert forall|i: Interp|
        #![trigger denote(r.1, i)]
        (forall|k: int| 0 <= k < r.3.len() ==> cond_means(#[trigger] r.3[k], i))
            implies sides_agree(r.1, r.2, i) by {
        reveal_with_fuel(denote, 6);
        let av: int = (i.var)('a').0;
        let ad: int = (i.var)('a').1;
        let bv: int = (i.var)('b').0;
        let bd: int = (i.var)('b').1;
        lemma_qpow_small(qint(av));
        lemma_qint_is_int(2);
        lemma_qpow_small(qint(bv));
        if true {
            assert(qeq(qmul(qadd(qint(av), qint(bv)), qsub(qint(av), qint(bv))), qsub(qmul(qint(av), qint(av)), qmul(qint(bv), qint(bv))))) by (nonlinear_arith);
        }
    }
}

/// `diff-sq-1`: (- (pow ?a 2) 1) => (* (+ ?a 1) (- ?a 1))
#[verifier::spinoff_prover]
pub proof fn diff_sq_1_is_sound()
    ensures
        real_sound_rule(table_factoring()[2]),
{
    let r = table_factoring()[2];
    assert forall|i: Interp|
        #![trigger denote(r.1, i)]
        (forall|k: int| 0 <= k < r.3.len() ==> cond_means(#[trigger] r.3[k], i))
            implies sides_agree(r.1, r.2, i) by {
        reveal_with_fuel(denote, 6);
        let av: int = (i.var)('a').0;
        let ad: int = (i.var)('a').1;
        lemma_qpow_small(qint(av));
        lemma_qint_is_int(2);
        if true {
            assert(qeq(qsub(qmul(qint(av), qint(av)), qint(1)), qmul(qadd(qint(av), qint(1)), qsub(qint(av), qint(1))))) by (nonlinear_arith);
        }
    }
}

/// `i-diff-sq-1`: (* (+ ?a 1) (- ?a 1)) => (- (pow ?a 2) 1)
#[verifier::spinoff_prover]
pub proof fn i_diff_sq_1_is_sound()
    ensures
        real_sound_rule(table_factoring()[3]),
{
    let r = table_factoring()[3];
    assert forall|i: Interp|
        #![trigger denote(r.1, i)]
        (forall|k: int| 0 <= k < r.3.len() ==> cond_means(#[trigger] r.3[k], i))
            implies sides_agree(r.1, r.2, i) by {
        reveal_with_fuel(denote, 6);
        let av: int = (i.var)('a').0;
        let ad: int = (i.var)('a').1;
        lemma_qpow_small(qint(av));
        lemma_qint_is_int(2);
        if true {
            assert(qeq(qmul(qadd(qint(av), qint(1)), qsub(qint(av), qint(1))), qsub(qmul(qint(av), qint(av)), qint(1)))) by (nonlinear_arith);
        }
    }
}

/// `diff-cubes`: (- (pow ?a 3) (pow ?b 3)) => (* (- ?a ?b) (+ (+ (pow ?a 2) (* ?a ?b)) (pow ?b 2)))
#[verifier::spinoff_prover]
pub proof fn diff_cubes_is_sound()
    ensures
        real_sound_rule(table_factoring()[4]),
{
    let r = table_factoring()[4];
    assert forall|i: Interp|
        #![trigger denote(r.1, i)]
        (forall|k: int| 0 <= k < r.3.len() ==> cond_means(#[trigger] r.3[k], i))
            implies sides_agree(r.1, r.2, i) by {
        reveal_with_fuel(denote, 6);
        let av: int = (i.var)('a').0;
        let ad: int = (i.var)('a').1;
        let bv: int = (i.var)('b').0;
        let bd: int = (i.var)('b').1;
        lemma_qpow_small(qint(av));
        lemma_qint_is_int(3);
        lemma_qpow_small(qint(bv));
        lemma_qint_is_int(2);
        if true {
            assert(qeq(qsub(qmul(qint(av), qmul(qint(av), qint(av))), qmul(qint(bv), qmul(qint(bv), qint(bv)))), qmul(qsub(qint(av), qint(bv)), qadd(qadd(qmul(qint(av), qint(av)), qmul(qint(av), qint(bv))), qmul(qint(bv), qint(bv)))))) by (nonlinear_arith);
        }
    }
}

/// `i-diff-cubes`: (* (- ?a ?b) (+ (+ (pow ?a 2) (* ?a ?b)) (pow ?b 2))) => (- (pow ?a 3) (pow ?b 3))
#[verifier::spinoff_prover]
pub proof fn i_diff_cubes_is_sound()
    ensures
        real_sound_rule(table_factoring()[5]),
{
    let r = table_factoring()[5];
    assert forall|i: Interp|
        #![trigger denote(r.1, i)]
        (forall|k: int| 0 <= k < r.3.len() ==> cond_means(#[trigger] r.3[k], i))
            implies sides_agree(r.1, r.2, i) by {
        reveal_with_fuel(denote, 6);
        let av: int = (i.var)('a').0;
        let ad: int = (i.var)('a').1;
        let bv: int = (i.var)('b').0;
        let bd: int = (i.var)('b').1;
        lemma_qpow_small(qint(av));
        lemma_qint_is_int(2);
        lemma_qpow_small(qint(bv));
        lemma_qint_is_int(3);
        if true {
            assert(qeq(qmul(qsub(qint(av), qint(bv)), qadd(qadd(qmul(qint(av), qint(av)), qmul(qint(av), qint(bv))), qmul(qint(bv), qint(bv)))), qsub(qmul(qint(av), qmul(qint(av), qint(av))), qmul(qint(bv), qmul(qint(bv), qint(bv)))))) by (nonlinear_arith);
        }
    }
}

/// `diff-cubes-1`: (- (pow ?a 3) 1) => (* (- ?a 1) (+ (+ (pow ?a 2) ?a) 1))
#[verifier::spinoff_prover]
pub proof fn diff_cubes_1_is_sound()
    ensures
        real_sound_rule(table_factoring()[6]),
{
    let r = table_factoring()[6];
    assert forall|i: Interp|
        #![trigger denote(r.1, i)]
        (forall|k: int| 0 <= k < r.3.len() ==> cond_means(#[trigger] r.3[k], i))
            implies sides_agree(r.1, r.2, i) by {
        reveal_with_fuel(denote, 6);
        let av: int = (i.var)('a').0;
        let ad: int = (i.var)('a').1;
        lemma_qpow_small(qint(av));
        lemma_qint_is_int(3);
        lemma_qint_is_int(2);
        if true {
            assert(qeq(qsub(qmul(qint(av), qmul(qint(av), qint(av))), qint(1)), qmul(qsub(qint(av), qint(1)), qadd(qadd(qmul(qint(av), qint(av)), qint(av)), qint(1))))) by (nonlinear_arith);
        }
    }
}

/// `i-diff-cubes-1`: (* (- ?a 1) (+ (+ (pow ?a 2) ?a) 1)) => (- (pow ?a 3) 1)
#[verifier::spinoff_prover]
pub proof fn i_diff_cubes_1_is_sound()
    ensures
        real_sound_rule(table_factoring()[7]),
{
    let r = table_factoring()[7];
    assert forall|i: Interp|
        #![trigger denote(r.1, i)]
        (forall|k: int| 0 <= k < r.3.len() ==> cond_means(#[trigger] r.3[k], i))
            implies sides_agree(r.1, r.2, i) by {
        reveal_with_fuel(denote, 6);
        let av: int = (i.var)('a').0;
        let ad: int = (i.var)('a').1;
        lemma_qpow_small(qint(av));
        lemma_qint_is_int(2);
        lemma_qint_is_int(3);
        if true {
            assert(qeq(qmul(qsub(qint(av), qint(1)), qadd(qadd(qmul(qint(av), qint(av)), qint(av)), qint(1))), qsub(qmul(qint(av), qmul(qint(av), qint(av))), qint(1)))) by (nonlinear_arith);
        }
    }
}

/// Law: `(sqrt (pow ?a 2)) => ?a` holds wherever the value of `a` is not
/// negative (in general the square root of `a^2` is `|a|`).
pub proof fn sq_sqrt_is_sound_for_nonnegative()
    ensures
        forall|i: Interp|
            #![trigger denote(table_sqrt()[1].1, i)]
            (i.var)('a').0 >= 0 ==> sides_agree(table_sqrt()[1].1, table_sqrt()[1].2, i),
{
    let r = table_sqrt()[1];
    assert forall|i: Interp| #![trigger denote(r.1, i)] (i.var)('a').0 >= 0 implies sides_agree(
        r.1,
        r.2,
        i,
    ) by {
        reveal_with_fuel(denote, 6);
        let av: int = (i.var)('a').0;
        lemma_qint_is_int(2);
        lemma_qpow_small(qint(av));
        lemma_qint_arith(av, av);
        let f: int = (i.unary)(UnaryOp::Sqrt, qpow(qint(av), 2));
        lemma_qint_arith(f, f);
        if qeq(qint(f * f), qint(av * av)) && f * 1 >= 0 {
            assert(f * 1 == av * 1) by (nonlinear_arith)
                requires
                    (f * f) * 1 == (av * av) * 1,
                    f * 1 >= 0,
                    av >= 0,
            ;
        }
    }
}

/// A rule is sound for real calculus, unless it is the one rule that
/// forgets a sign.
pub open spec fn calculus_sound(r: RuleView) -> bool {
    !loses_sign(r) ==> real_sound_rule(r)
}

proof fn table_expansion_sound_for_calculus()
    ensures
        forall|i: int|
            0 <= i < table_expansion().len() ==> calculus_sound(#[trigger] table_expansion()[i]),
{
    pow2_is_sound();
    i_pow2_is_sound();
    binom2_is_sound();
    i_binom2_is_sound();
}

proof fn table_integration_linearity_sound_for_calculus()
    ensures
        forall|i: int|
            0 <= i < table_integration_linearity().len() ==> calculus_sound(#[trigger] table_integration_linearity()[i]),
{
    int_add_is_sound();
    int_sub_is_sound();
    int_const_mul_is_sound();
    int_const_is_sound();
}

proof fn table_sqrt_sound_for_calculus()
    ensures
        forall|i: int|
            0 <= i < table_sqrt().len() ==> calculus_sound(#[trigger] table_sqrt()[i]),
{
    sqrt_sq_is_sound();
    assert(loses_sign(table_sqrt()[1]));
}

proof fn table_power_rule_sound_for_calculus()
    ensures
        forall|i: int|
            0 <= i < table_power_rule().len() ==> calculus_sound(#[trigger] table_power_rule()[i]),
{
    int_var_is_sound();
    int_pow_is_sound();
    int_recip_is_sound();
    int_pow_neg1_is_sound();
}

proof fn table_comm_assoc_sound_for_calculus()
    ensures
        forall|i: int|
            0 <= i < table_comm_assoc().len() ==> calculus_sound(#[trigger] table_comm_assoc()[i]),
{
    comm_add_is_sound();
    comm_mul_is_sound();
    assoc_add_is_sound();
    i_assoc_add_is_sound();
    assoc_mul_is_sound();
    i_assoc_mul_is_sound();
}

proof fn table_distributivity_sound_for_calculus()
    ensures
        forall|i: int|
            0 <= i < table_distributivity().len() ==> calculus_sound(#[trigger] table_distributivity()[i]),
{
    distribute_is_sound();
    factor_is_sound();
    factor_sub_is_sound();
}

proof fn table_identities_sound_for_calculus()
    ensures
        forall|i: int|
            0 <= i < table_identities().len() ==> calculus_sound(#[trigger] table_identities()[i]),
{
    zero_add_is_sound();
    one_mul_is_sound();
    zero_mul_is_sound();
    cancel_sub_is_sound();
    cancel_div_is_sound();
}

proof fn table_sugar_sound_for_calculus()
    ensures
        forall|i: int|
            0 <= i < table_sugar().len() ==> calculus_sound(#[trigger] table_sugar()[i]),
{
    sub_canon_is_sound();
    i_sub_canon_is_sound();
    div_canon_is_sound();
    i_div_canon_is_sound();
}

proof fn table_fractions_sound_for_calculus()
    ensures
        forall|i: int|
            0 <= i < table_fractions().len() ==> calculus_sound(#[trigger] table_fractions()[i]),
{
    cancel_frac_is_sound();
    cancel_frac_simple_is_sound();
    frac_add_same_denom_is_sound();
}

proof fn table_powers_sound_for_calculus()
    ensures
        forall|i: int|
            0 <= i < table_powers().len() ==> calculus_sound(#[trigger] table_powers()[i]),
{
    pow0_is_sound();
    pow1_is_sound();
    pow_mul_is_sound();
    i_pow_mul_is_sound();
    pow_div_is_sound();
    i_pow_div_is_sound();
    pow_add_is_sound();
    pow4_split_is_sound();
    pow_neg_is_sound();
    i_pow_neg_is_sound();
}

proof fn table_differentiation_sound_for_calculus()
    ensures
        forall|i: int|
            0 <= i < table_differentiation().len() ==> calculus_sound(#[trigger] table_differentiation()[i]),
{
    d_const_is_sound();
    d_var_is_sound();
    d_pow_is_sound();
    d_const_mul_is_sound();
    d_sin_is_sound();
    d_cos_is_sound();
    d_exp_is_sound();
    d_ln_is_sound();
}

proof fn table_transcendental_sound_for_calculus()
    ensures
        forall|i: int|
            0 <= i < table_transcendental().len() ==> calculus_sound(#[trigger] table_transcendental()[i]),
{
    int_sin_is_sound();
    int_cos_is_sound();
    int_exp_is_sound();
    int_ln_is_sound();
}

proof fn table_by_parts_sound_for_calculus()
    ensures
        forall|i: int|
            0 <= i < table_by_parts().len() ==> calculus_sound(#[trigger] table_by_parts()[i]),
{
    ibp_is_sound();
}

proof fn table_factoring_sound_for_calculus()
    ensures
        forall|i: int|
            0 <= i < table_factoring().len() ==> calculus_sound(#[trigger] table_factoring()[i]),
{
    diff_sq_is_sound();
    i_diff_sq_is_sound();
    diff_sq_1_is_sound();
    i_diff_sq_1_is_sound();
    diff_cubes_is_sound();
    i_diff_cubes_is_sound();
    diff_cubes_1_is_sound();
    i_diff_cubes_1_is_sound();
}

/// Law: every rewrite rule of the benchmark but one is sound for real
/// calculus (see `real_sound_rule`): its two sides have the same value
/// wherever both are defined, and for an integration rule the right side
/// differentiates back to the integrand.  The exception is
/// `(sqrt (pow ?a 2)) => ?a`, which holds only for non-negative `a`.
pub proof fn rule_table_sound_for_calculus()
    ensures
        forall|i: int|
            0 <= i < rule_table().len() && !loses_sign(rule_table()[i]) ==> real_sound_rule(
                #[trigger] rule_table()[i],
            ),
{
    table_expansion_sound_for_calculus();
    table_integration_linearity_sound_for_calculus();
    table_sqrt_sound_for_calculus();
    table_power_rule_sound_for_calculus();
    table_comm_assoc_sound_for_calculus();
    table_distributivity_sound_for_calculus();
    table_identities_sound_for_calculus();
    table_sugar_sound_for_calculus();
    table_fractions_sound_for_calculus();
    table_powers_sound_for_calculus();
    table_differentiation_sound_for_calculus();
    table_transcendental_sound_for_calculus();
    table_by_parts_sound_for_calculus();
    table_factoring_sound_for_calculus();
    let mut acc = table_expansion();
    concat_holds(acc, table_integration_linearity(), |r: RuleView| calculus_sound(r));
    acc = acc + table_integration_linearity();
    concat_holds(acc, table_sqrt(), |r: RuleView| calculus_sound(r));
    acc = acc + table_sqrt();
    concat_holds(acc, table_power_rule(), |r: RuleView| calculus_sound(r));
    acc = acc + table_power_rule();
    concat_holds(acc, table_comm_assoc(), |r: RuleView| calculus_sound(r));
    acc = acc + table_comm_assoc();
    concat_holds(acc, table_distributivity(), |r: RuleView| calculus_sound(r));
    acc = acc + table_distributivity();
    concat_holds(acc, table_identities(), |r: RuleView| calculus_sound(r));
    acc = acc + table_identities();
    concat_holds(acc, table_sugar(), |r: RuleView| calculus_sound(r));
    acc = acc + table_sugar();
    concat_holds(acc, table_fractions(), |r: RuleView| calculus_sound(r));
    acc = acc + table_fractions();
    concat_holds(acc, table_powers(), |r: RuleView| calculus_sound(r));
    acc = acc + table_powers();
    concat_holds(acc, table_differentiation(), |r: RuleView| calculus_sound(r));
    acc = acc + table_differentiation();
    concat_holds(acc, table_transcendental(), |r: RuleView| calculus_sound(r));
    acc = acc + table_transcendental();
    concat_holds(acc, table_by_parts(), |r: RuleView| calculus_sound(r));
    acc = acc + table_by_parts();
    concat_holds(acc, table_factoring(), |r: RuleView| calculus_sound(r));
    acc = acc + table_factoring();
    assert(acc == rule_table());
    assert forall|i: int| 0 <= i < rule_table().len() && !loses_sign(rule_table()[i]) implies
        real_sound_rule(#[trigger] rule_table()[i]) by {
        assert(calculus_sound(rule_table()[i]));
    }
}

} // verus!