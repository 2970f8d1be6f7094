# integ

An equality-saturation benchmark for symbolic integration, built on the
`egg` e-graph library, with its own logic verified in Verus.

* `src/` — the verified library:
  * `language.rs` — the expression language (numbers, symbols, pattern
    variables, unary and binary operators) and its e-nodes;
  * `fold.rs` — the constant-folding analysis (`make`, `merge`, the
    `modify` plan, leaf pruning, rule conditions) and the integer
    semantics it is proved against;
  * `cost.rs` — the extraction cost model that penalises unevaluated
    `d`/`int` nodes;
  * `rules.rs` — the rewrite-rule table, proved well formed and sound for
    integer arithmetic;
  * `saturation.rs` — the run's snapshot and extraction decisions and the
    verdict on an extracted result;
  * `csv.rs`, `driver.rs` — the benchmark cases, case selection, thread
    count and the results file.
* `app/main.rs` — the program: it defines the language for `egg`, runs
  saturation and extraction, and handles the command line and files.
* `tests/` — tests of the library on concrete values.
