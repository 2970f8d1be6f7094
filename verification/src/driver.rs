use vstd::prelude::*;

verus! {

/// The benchmark cases: an integral to simplify and the closed form that
/// the result is measured against.
pub open spec fn spec_benchmark_cases() -> Seq<(&'static str, &'static str)> {
    seq![
        // ∫(x²+1)²/x² dx
        ("(int (/ (pow (+ (pow x 2) 1) 2) (pow x 2)) x)", "(+ (/ (pow x 3) 3) (- (* 2 x) (/ 1 x)))"),
        // ∫(√x + 1/√x)² dx
        ("(int (pow (+ (sqrt x) (/ 1 (sqrt x))) 2) x)", "(+ (/ (pow x 2) 2) (+ (* 2 x) (ln x)))"),
        // ∫(x⁴−1)/(x²+1) dx
        ("(int (/ (- (pow x 4) 1) (+ (pow x 2) 1)) x)", "(- (/ (pow x 3) 3) x)"),
        // ∫(x³−1)/(x−1) dx
        ("(int (/ (- (pow x 3) 1) (- x 1)) x)", "(+ (/ (pow x 3) 3) (+ (/ (pow x 2) 2) x))"),
        // ∫(x²+1)/(x−1)² dx
        ("(int (/ (+ (pow x 2) 1) (pow (- x 1) 2)) x)", "(+ x (+ (* 2 (ln (- x 1))) (/ -2 (- x 1))))"),
        // ∫x²·sin(x) dx
        ("(int (* (pow x 2) (sin x)) x)", "(+ (* -1 (* (pow x 2) (cos x))) (- (* 2 (* x (sin x))) (* -2 (cos x))))"),
        // ∫x²·eˣ dx
        ("(int (* (pow x 2) (exp x)) x)", "(* (exp x) (+ (- (pow x 2) (* 2 x)) 2))"),
        // ∫x·cos(x) dx
        ("(int (* x (cos x)) x)", "(+ (* x (sin x)) (cos x))"),
        // ∫x³·ln(x) dx
        ("(int (* (pow x 3) (ln x)) x)", "(- (/ (* (pow x 4) (ln x)) 4) (/ (pow x 4) 16))"),
        // ∫(ln(x))² dx
        ("(int (pow (ln x) 2) x)", "(+ (- (* x (pow (ln x) 2)) (* 2 (* x (ln x)))) (* 2 x))"),
    ]
}

/// The benchmark cases, in order.
pub fn benchmark_cases() -> (r: Vec<(&'static str, &'static str)>)
    ensures
        r@ == spec_benchmark_cases(),
{
    let mut v: Vec<(&'static str, &'static str)> = Vec::new();
    v.push(("(int (/ (pow (+ (pow x 2) 1) 2) (pow x 2)) x)", "(+ (/ (pow x 3) 3) (- (* 2 x) (/ 1 x)))"));
    v.push(("(int (pow (+ (sqrt x) (/ 1 (sqrt x))) 2) x)", "(+ (/ (pow x 2) 2) (+ (* 2 x) (ln x)))"));
    v.push(("(int (/ (- (pow x 4) 1) (+ (pow x 2) 1)) x)", "(- (/ (pow x 3) 3) x)"));
    v.push(("(int (/ (- (pow x 3) 1) (- x 1)) x)", "(+ (/ (pow x 3) 3) (+ (/ (pow x 2) 2) x))"));
    v.push(("(int (/ (+ (pow x 2) 1) (pow (- x 1) 2)) x)", "(+ x (+ (* 2 (ln (- x 1))) (/ -2 (- x 1))))"));
    v.push(("(int (* (pow x 2) (sin x)) x)", "(+ (* -1 (* (pow x 2) (cos x))) (- (* 2 (* x (sin x))) (* -2 (cos x))))"));
    v.push(("(int (* (pow x 2) (exp x)) x)", "(* (exp x) (+ (- (pow x 2) (* 2 x)) 2))"));
    v.push(("(int (* x (cos x)) x)", "(+ (* x (sin x)) (cos x))"));
    v.push(("(int (* (pow x 3) (ln x)) x)", "(- (/ (* (pow x 4) (ln x)) 4) (/ (pow x 4) 16))"));
    v.push(("(int (pow (ln x) 2) x)", "(+ (- (* x (pow (ln x) 2)) (* 2 (* x (ln x)))) (* 2 x))"));
    assert(v@ =~= spec_benchmark_cases());
    v
}

/// The cases to run: all of them, in order, when none was requested;
/// otherwise the requested ones, in the order given.  A requested index
/// that is out of range is an error and the first such index is returned.
pub fn select_cases(requested: &Vec<usize>, total: usize) -> (r: Result<Vec<usize>, usize>)
    ensures
        requested@.len() == 0 ==> (r matches Ok(v) && v@ == Seq::new(total as nat, |i: int| i as usize)),
        r matches Ok(v) ==> forall|k: int| 0 <= k < v@.len() ==> #[trigger] v@[k] < total,
        requested@.len() > 0 ==> match r {
            Ok(v) => v@ == requested@ && forall|k: int| 0 <= k < requested@.len() ==> #[trigger] requested@[k] < total,
            Err(bad) => exists|k: int| 0 <= k < requested@.len() && requested@[k] == bad && bad >= total
                && forall|j: int| 0 <= j < k ==> #[trigger] requested@[j] < total,
        },
{
    let mut v: Vec<usize> = Vec::new();
    if requested.len() == 0 {
        let mut i: usize = 0;
        while i < total
            invariant
                i <= total,
                v@ == Seq::new(i as nat, |j: int| j as usize),
            decreases total - i,
        {
            v.push(i);
            i = i + 1;
            assert(v@ =~= Seq::new(i as nat, |j: int| j as usize));
        }
        return Ok(v);
    }
    let mut k: usize = 0;
    while k < requested.len()
        invariant
            k <= requested@.len(),
            v@ == requested@.take(k as int),
            forall|j: int| 0 <= j < k ==> #[trigger] requested@[j] < total,
        decreases requested@.len() - k,
    {
        let idx = requested[k];
        if idx >= total {
            return Err(idx);
        }
        v.push(idx);
        k = k + 1;
        assert(v@ =~= requested@.take(k as int));
    }
    assert(requested@.take(k as int) =~= requested@);
    Ok(v)
}

/// The number of worker threads: the requested number, or by default all
/// available threads but two (at least one).  A request beyond the
/// available parallelism is an error carrying the number asked for.
pub fn thread_count(requested: Option<usize>, available: usize) -> (r: Result<usize, usize>)
    ensures
        ({
            let n = match requested {
                Some(t) => t as int,
                None => if available >= 3 { available - 2 } else { 1 },
            };
            r == (if n <= available { Ok::<usize, usize>(n as usize) } else { Err(n as usize) })
        }),
        r matches Ok(n) ==> n <= available,
{
    let n = match requested {
        Some(t) => t,
        None => {
            let spare = available.saturating_sub(2);
            if spare >= 1 { spare } else { 1 }
        },
    };
    if n <= available {
        Ok(n)
    } else {
        Err(n)
    }
}

} // verus!
