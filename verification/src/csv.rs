use vstd::prelude::*;

verus! {

/// Appends one character: std's `String::push`, which its documentation
/// says appends the given char to the end of the string.
#[verifier::external_body]
fn push_char(s: &mut String, c: char)
    ensures
        final(s)@ == old(s)@.push(c),
{
    s.push(c);
}

/// `s` with every double quote doubled, as CSV requires inside a quoted
/// field.
pub open spec fn spec_csv_escape(s: Seq<char>) -> Seq<char>
    decreases s.len(),
{
    if s.len() == 0 {
        s
    } else if s.last() == '"' {
        spec_csv_escape(s.drop_last()) + seq!['"', '"']
    } else {
        spec_csv_escape(s.drop_last()).push(s.last())
    }
}

/// Escapes text for a quoted CSV field.
pub fn csv_escape(s: &str) -> (r: String)
    ensures
        r@ == spec_csv_escape(s@),
{
    broadcast use vstd::string::group_string_axioms;

    let mut r = String::new();
    for c in it: s.chars()
        invariant
            it.seq() == s@,
            r@ == spec_csv_escape(s@.take(it.index() as int)),
    {
        proof {
            let k = it.index() as int;
            assert(s@.take(k + 1).drop_last() =~= s@.take(k));
            assert(s@.take(k + 1).last() == c);
        }
        if c == '"' {
            push_char(&mut r, '"');
            push_char(&mut r, '"');
        } else {
            push_char(&mut r, c);
        }
    }
    assert(s@.take(s@.len() as int) =~= s@);
    r
}

/// The digit character of `d` (0 to 9).
pub open spec fn digit_char(d: nat) -> char {
    if d == 0 { '0' }
    else if d == 1 { '1' }
    else if d == 2 { '2' }
    else if d == 3 { '3' }
    else if d == 4 { '4' }
    else if d == 5 { '5' }
    else if d == 6 { '6' }
    else if d == 7 { '7' }
    else if d == 8 { '8' }
    else { '9' }
}

/// The decimal representation of `n`, without leading zeros.
pub open spec fn decimal(n: nat) -> Seq<char>
    decreases n,
{
    if n < 10 {
        seq![digit_char(n)]
    } else {
        decimal(n / 10).push(digit_char(n % 10))
    }
}

fn digit(d: usize) -> (c: char)
    requires
        d < 10,
    ensures
        c == digit_char(d as nat),
{
    if d == 0 { '0' }
    else if d == 1 { '1' }
    else if d == 2 { '2' }
    else if d == 3 { '3' }
    else if d == 4 { '4' }
    else if d == 5 { '5' }
    else if d == 6 { '6' }
    else if d == 7 { '7' }
    else if d == 8 { '8' }
    else { '9' }
}

fn push_decimal(s: &mut String, n: usize)
    ensures
        final(s)@ == old(s)@ + decimal(n as nat),
    decreases n,
{
    if n >= 10 {
        push_decimal(s, n / 10);
    }
    push_char(s, digit(n % 10));
    proof {
        if n < 10 {
            assert(decimal(n as nat) =~= seq![digit_char(n as nat)]);
        }
    }
}

/// The decimal text of `n`.
pub fn usize_to_text(n: usize) -> (r: String)
    ensures
        r@ == decimal(n as nat),
{
    let mut r = String::new();
    push_decimal(&mut r, n);
    assert(r@ =~= decimal(n as nat));
    r
}

/// `true` or `false`.
pub open spec fn bool_text(b: bool) -> Seq<char> {
    if b { "true"@ } else { "false"@ }
}

/// The three CSV fields of one result: its cost, its expression as a
/// quoted field, and whether it was optimal.
pub open spec fn result_fields(cost: Seq<char>, expr: Seq<char>, optimal: bool) -> Seq<char> {
    cost + seq![',', '"'] + spec_csv_escape(expr) + seq!['"', ','] + bool_text(optimal)
}

/// The outcome of equality saturation on one benchmark case.
#[derive(Clone, Debug, PartialEq, Eq)]
pub struct EqResult {
    pub cost: usize,
    pub expr: String,
    pub optimal: bool,
}

/// The outcome of stochastic search on one benchmark case; its cost is a
/// real number and comes already rendered as text.
#[derive(Clone, Debug, PartialEq, Eq)]
pub struct StoResult {
    pub cost_text: String,
    pub expr: String,
    pub optimal: bool,
}

impl View for EqResult {
    type V = (nat, Seq<char>, bool);

    open spec fn view(&self) -> (nat, Seq<char>, bool) {
        (self.cost as nat, self.expr@, self.optimal)
    }
}

impl View for StoResult {
    type V = (Seq<char>, Seq<char>, bool);

    open spec fn view(&self) -> (Seq<char>, Seq<char>, bool) {
        (self.cost_text@, self.expr@, self.optimal)
    }
}

/// The CSV row of benchmark case `idx`; no row when neither mode ran.
pub open spec fn spec_csv_row(
    idx: nat,
    eq: Option<(nat, Seq<char>, bool)>,
    sto: Option<(Seq<char>, Seq<char>, bool)>,
) -> Option<Seq<char>> {
    match (eq, sto) {
        (Some(e), Some(s)) => Some(
            decimal(idx) + seq![','] + result_fields(decimal(e.0), e.1, e.2) + seq![',']
                + result_fields(s.0, s.1, s.2),
        ),
        (Some(e), None) => Some(decimal(idx) + seq![','] + result_fields(decimal(e.0), e.1, e.2)),
        (None, Some(s)) => Some(decimal(idx) + seq![','] + result_fields(s.0, s.1, s.2)),
        (None, None) => None,
    }
}

fn push_str(s: &mut String, t: &str)
    ensures
        final(s)@ == old(s)@ + t@,
{
    s.append(t);
}

/// Appends `,"<escaped expr>",<optimal>`.
fn push_fields_tail(r: &mut String, expr: &str, optimal: bool)
    ensures
        final(r)@ == old(r)@ + seq![',', '"'] + spec_csv_escape(expr@) + seq!['"', ','] + bool_text(
            optimal,
        ),
{
    let ghost start = r@;
    push_char(r, ',');
    push_char(r, '"');
    let esc = csv_escape(expr);
    push_str(r, esc.as_str());
    push_char(r, '"');
    push_char(r, ',');
    if optimal {
        push_str(r, "true");
    } else {
        push_str(r, "false");
    }
    assert(r@ =~= start + seq![',', '"'] + spec_csv_escape(expr@) + seq!['"', ','] + bool_text(
        optimal,
    ));
}

/// Appends `,` and the fields of an equality-saturation result.
fn push_eq_result(r: &mut String, e: &EqResult)
    ensures
        final(r)@ == old(r)@ + seq![','] + result_fields(decimal(e.cost as nat), e.expr@, e.optimal),
{
    let ghost start = r@;
    push_char(r, ',');
    push_decimal(r, e.cost);
    push_fields_tail(r, e.expr.as_str(), e.optimal);
    assert(r@ =~= start + seq![','] + result_fields(decimal(e.cost as nat), e.expr@, e.optimal));
}

/// Appends `,` and the fields of a stochastic-search result.
fn push_sto_result(r: &mut String, s: &StoResult)
    ensures
        final(r)@ == old(r)@ + seq![','] + result_fields(s.cost_text@, s.expr@, s.optimal),
{
    let ghost start = r@;
    push_char(r, ',');
    push_str(r, s.cost_text.as_str());
    push_fields_tail(r, s.expr.as_str(), s.optimal);
    assert(r@ =~= start + seq![','] + result_fields(s.cost_text@, s.expr@, s.optimal));
}

/// The CSV row of benchmark case `idx`, or `None` when neither mode ran.
pub fn csv_row(idx: usize, eq: &Option<EqResult>, sto: &Option<StoResult>) -> (r: Option<String>)
    ensures
        r matches Some(s) ==> Some(s@) == spec_csv_row(
            idx as nat,
            match eq { Some(e) => Some(e@), None => None },
            match sto { Some(s) => Some(s@), None => None },
        ),
        r is None <==> (eq is None && sto is None),
{
    match (eq, sto) {
        (None, None) => None,
        (Some(e), None) => {
            let mut r = usize_to_text(idx);
            push_eq_result(&mut r, e);
            Some(r)
        },
        (None, Some(s)) => {
            let mut r = usize_to_text(idx);
            push_sto_result(&mut r, s);
            Some(r)
        },
        (Some(e), Some(s)) => {
            let mut r = usize_to_text(idx);
            push_eq_result(&mut r, e);
            push_sto_result(&mut r, s);
            assert(r@ =~= decimal(idx as nat) + seq![','] + result_fields(
                decimal(e.cost as nat),
                e.expr@,
                e.optimal,
            ) + seq![','] + result_fields(s.cost_text@, s.expr@, s.optimal));
            Some(r)
        },
    }
}

/// The header line of the results file for the modes that ran.
#[verifier::allow_in_spec]
pub fn csv_header(run_eq: bool, run_sto: bool) -> &'static str
    returns
        (if run_eq && run_sto {
            "index,eqsat_cost,eqsat_expr,eqsat_optimal,sto_cost,sto_expr,sto_optimal"
        } else if run_eq {
            "index,eqsat_cost,eqsat_expr,eqsat_optimal"
        } else {
            "index,sto_cost,sto_expr,sto_optimal"
        }),
{
    if run_eq && run_sto {
        "index,eqsat_cost,eqsat_expr,eqsat_optimal,sto_cost,sto_expr,sto_optimal"
    } else if run_eq {
        "index,eqsat_cost,eqsat_expr,eqsat_optimal"
    } else {
        "index,sto_cost,sto_expr,sto_optimal"
    }
}

/// The lines joined with a newline between consecutive lines.
pub open spec fn spec_join_lines(lines: Seq<Seq<char>>) -> Seq<char>
    decreases lines.len(),
{
    if lines.len() == 0 {
        Seq::empty()
    } else if lines.len() == 1 {
        lines[0]
    } else {
        spec_join_lines(lines.drop_last()) + seq!['\n'] + lines.last()
    }
}

/// The text of the results file: its lines joined by newlines.
pub fn join_lines(lines: &Vec<String>) -> (r: String)
    ensures
        r@ == spec_join_lines(lines@.map_values(|l: String| l@)),
{
    let ghost views = lines@.map_values(|l: String| l@);
    let mut r = String::new();
    let mut i: usize = 0;
    while i < lines.len()
        invariant
            i <= lines.len(),
            views == lines@.map_values(|l: String| l@),
            r@ == spec_join_lines(views.take(i as int)),
        decreases lines.len() - i,
    {
        proof {
            assert(views.take(i + 1).drop_last() =~= views.take(i as int));
            assert(views.take(i + 1).last() == lines@[i as int]@);
        }
        if i > 0 {
            push_char(&mut r, '\n');
        } else {
            assert(views.take(1) =~= seq![lines@[0]@]);
        }
        push_str(&mut r, lines[i].as_str());
        i = i + 1;
    }
    assert(views.take(lines.len() as int) =~= views);
    r
}

/// The view of an optional equality-saturation result.
pub open spec fn eq_view(o: Option<EqResult>) -> Option<(nat, Seq<char>, bool)> {
    match o {
        Some(e) => Some(e@),
        None => None,
    }
}

/// The view of an optional stochastic-search result.
pub open spec fn sto_view(o: Option<StoResult>) -> Option<(Seq<char>, Seq<char>, bool)> {
    match o {
        Some(s) => Some(s@),
        None => None,
    }
}

/// The data rows of the results file, one per case that produced a row,
/// in the order of the cases.
pub open spec fn spec_rows(
    idx: Seq<usize>,
    eq: Seq<Option<EqResult>>,
    sto: Seq<Option<StoResult>>,
) -> Seq<Seq<char>>
    decreases idx.len(),
{
    if idx.len() == 0 {
        Seq::empty()
    } else {
        let prev = spec_rows(idx.drop_last(), eq.drop_last(), sto.drop_last());
        match spec_csv_row(idx.last() as nat, eq_view(eq.last()), sto_view(sto.last())) {
            Some(row) => prev.push(row),
            None => prev,
        }
    }
}

/// The whole results file: the header for the modes that ran, then the row
/// of each case (`eq[k]` and `sto[k]` are the results of case `idx[k]`),
/// one per line.
pub fn results_document(
    run_eq: bool,
    run_sto: bool,
    idx: &Vec<usize>,
    eq: &Vec<Option<EqResult>>,
    sto: &Vec<Option<StoResult>>,
) -> (r: String)
    requires
        eq@.len() == idx@.len(),
        sto@.len() == idx@.len(),
    ensures
        r@ == spec_join_lines(seq![csv_header(run_eq, run_sto)@] + spec_rows(idx@, eq@, sto@)),
{
    let header = csv_header(run_eq, run_sto);
    let mut lines: Vec<String> = Vec::new();
    lines.push(String::from_str(header));
    let mut k: usize = 0;
    while k < idx.len()
        invariant
            k <= idx@.len(),
            eq@.len() == idx@.len(),
            sto@.len() == idx@.len(),
            lines@.map_values(|l: String| l@) == seq![header@] + spec_rows(
                idx@.take(k as int),
                eq@.take(k as int),
                sto@.take(k as int),
            ),
        decreases idx@.len() - k,
    {
        let ghost before = lines@;
        proof {
            assert(idx@.take(k + 1).drop_last() =~= idx@.take(k as int));
            assert(eq@.take(k + 1).drop_last() =~= eq@.take(k as int));
            assert(sto@.take(k + 1).drop_last() =~= sto@.take(k as int));
        }
        match csv_row(idx[k], &eq[k], &sto[k]) {
            Some(row) => {
                lines.push(row);
                assert(lines@.map_values(|l: String| l@) =~= before.map_values(|l: String| l@).push(
                    lines@[lines@.len() - 1]@,
                ));
            },
            None => {},
        }
        k = k + 1;
    }
    proof {
        assert(idx@.take(k as int) =~= idx@);
        assert(eq@.take(k as int) =~= eq@);
        assert(sto@.take(k as int) =~= sto@);
    }
    join_lines(&lines)
}

} // verus!
