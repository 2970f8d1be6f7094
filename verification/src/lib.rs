//! Building blocks of an equality-saturation benchmark for symbolic
//! integration: the expression language, the constant-folding analysis,
//! the extraction cost model, the rewrite-rule table and the bookkeeping
//! of the benchmark driver.

pub mod language;
pub mod fold;
pub mod cost;
pub mod rules;
pub mod csv;
pub mod driver;
pub mod saturation;
pub mod semantics;
pub mod calculus;
