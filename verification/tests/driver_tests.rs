use integ::csv::{
    csv_escape, csv_header, csv_row, join_lines, results_document, usize_to_text, EqResult,
    StoResult,
};
use integ::driver::{benchmark_cases, select_cases, thread_count};

#[test]
fn escaping_doubles_quotes() {
    assert_eq!(csv_escape("(+ x 1)").as_str(), "(+ x 1)");
    assert_eq!(csv_escape("a\"b").as_str(), "a\"\"b");
    assert_eq!(csv_escape("\"\"").as_str(), "\"\"\"\"");
    assert_eq!(csv_escape("").as_str(), "");
    assert_eq!(csv_escape("√\"é").as_str(), "√\"\"é");
}

#[test]
fn decimal_text() {
    assert_eq!(usize_to_text(0), "0");
    assert_eq!(usize_to_text(7), "7");
    assert_eq!(usize_to_text(10), "10");
    assert_eq!(usize_to_text(12345), "12345");
    assert_eq!(usize_to_text(usize::MAX), usize::MAX.to_string());
}

fn eq(cost: usize, expr: &str, optimal: bool) -> Option<EqResult> {
    Some(EqResult { cost, expr: expr.to_string(), optimal })
}

fn sto(cost: &str, expr: &str, optimal: bool) -> Option<StoResult> {
    Some(StoResult { cost_text: cost.to_string(), expr: expr.to_string(), optimal })
}

#[test]
fn csv_rows() {
    assert_eq!(csv_row(3, &eq(13, "(+ x \"y\")", true), &None).unwrap(), "3,13,\"(+ x \"\"y\"\")\",true");
    assert_eq!(csv_row(0, &None, &sto("2.5", "x", false)).unwrap(), "0,2.5,\"x\",false");
    assert_eq!(
        csv_row(12, &eq(5, "a", false), &sto("1", "b", true)).unwrap(),
        "12,5,\"a\",false,1,\"b\",true"
    );
    assert_eq!(csv_row(1, &None, &None), None);
}

#[test]
fn headers() {
    assert_eq!(
        csv_header(true, true),
        "index,eqsat_cost,eqsat_expr,eqsat_optimal,sto_cost,sto_expr,sto_optimal"
    );
    assert_eq!(csv_header(true, false), "index,eqsat_cost,eqsat_expr,eqsat_optimal");
    assert_eq!(csv_header(false, true), "index,sto_cost,sto_expr,sto_optimal");
}

#[test]
fn joining_lines() {
    assert_eq!(join_lines(&vec![]), "");
    assert_eq!(join_lines(&vec!["a".to_string()]), "a");
    assert_eq!(join_lines(&vec!["a".to_string(), "".to_string(), "c".to_string()]), "a\n\nc");
}

#[test]
fn the_benchmark_cases() {
    let cases = benchmark_cases();
    assert_eq!(cases.len(), 10);
    assert_eq!(
        cases[0],
        (
            "(int (/ (pow (+ (pow x 2) 1) 2) (pow x 2)) x)",
            "(+ (/ (pow x 3) 3) (- (* 2 x) (/ 1 x)))"
        )
    );
    assert_eq!(cases[9].0, "(int (pow (ln x) 2) x)");
}

#[test]
fn case_selection() {
    assert_eq!(select_cases(&vec![], 4), Ok(vec![0, 1, 2, 3]));
    assert_eq!(select_cases(&vec![], 0), Ok(vec![]));
    assert_eq!(select_cases(&vec![3, 1, 3], 4), Ok(vec![3, 1, 3]));
    assert_eq!(select_cases(&vec![2, 10, 11], 10), Err(10));
    assert_eq!(select_cases(&vec![0, 12, 10], 10), Err(12));
}

#[test]
fn thread_counts() {
    assert_eq!(thread_count(None, 8), Ok(6));
    assert_eq!(thread_count(None, 3), Ok(1));
    assert_eq!(thread_count(None, 2), Ok(1));
    assert_eq!(thread_count(None, 1), Ok(1));
    assert_eq!(thread_count(Some(4), 4), Ok(4));
    assert_eq!(thread_count(Some(0), 4), Ok(0));
    assert_eq!(thread_count(Some(5), 4), Err(5));
}

#[test]
fn whole_results_file() {
    let doc = results_document(
        true,
        false,
        &vec![4, 0],
        &vec![eq(13, "(* 2 x)", true), eq(250, "(int x x)", false)],
        &vec![None, None],
    );
    assert_eq!(
        doc,
        "index,eqsat_cost,eqsat_expr,eqsat_optimal\n4,13,\"(* 2 x)\",true\n0,250,\"(int x x)\",false"
    );
    let empty = results_document(false, true, &vec![1], &vec![None], &vec![None]);
    assert_eq!(empty, "index,sto_cost,sto_expr,sto_optimal");
}
