use vstd::prelude::*;
use crate::cost::{spec_expr_cost, IntegCost};
use crate::language::Expr;

verus! {

/// What the runner's per-iteration hook does.
#[derive(Clone, Copy, Debug, PartialEq, Eq, Structural)]
pub enum HookAction {
    /// Two classes with different constants were merged: stop the run.
    Stop,
    /// The graph is still sound: keep a copy of it and go on.
    Snapshot,
}

/// The last copy of the e-graph (with its root) taken while the run was
/// still sound.
#[derive(Debug)]
pub struct SnapshotLog<T> {
    pub last: Option<T>,
}

impl<T> SnapshotLog<T> {
    pub fn new() -> (r: Self)
        ensures
            r.last is None,
    {
        SnapshotLog { last: None }
    }

    /// The hook's decision, given whether the analysis has seen an unsound
    /// merge.
    pub fn on_iteration(unsound: bool) -> (r: HookAction)
        ensures
            r == (if unsound { HookAction::Stop } else { HookAction::Snapshot }),
    {
        if unsound {
            HookAction::Stop
        } else {
            HookAction::Snapshot
        }
    }

    /// Keeps `snapshot` as the latest sound copy.
    pub fn record(&mut self, snapshot: T)
        ensures
            final(self).last == Some(snapshot),
    {
        self.last = Some(snapshot);
    }

    /// Where the best expression is extracted from once the run is over:
    /// the final graph of a sound run, else the last sound snapshot.
    pub fn extract_from(&self, unsound: bool) -> (r: ExtractFrom)
        ensures
            r == (if !unsound {
                ExtractFrom::FinalGraph
            } else if self.last is Some {
                ExtractFrom::LastSnapshot
            } else {
                ExtractFrom::NoSnapshot
            }),
    {
        if !unsound {
            ExtractFrom::FinalGraph
        } else if self.last.is_some() {
            ExtractFrom::LastSnapshot
        } else {
            ExtractFrom::NoSnapshot
        }
    }
}

/// The graph that extraction reads.
#[derive(Clone, Copy, Debug, PartialEq, Eq, Structural)]
pub enum ExtractFrom {
    /// The run stayed sound: its final graph.
    FinalGraph,
    /// The run turned unsound: the last snapshot taken while sound.
    LastSnapshot,
    /// The run turned unsound before any snapshot was taken.
    NoSnapshot,
}

/// The verdict on an extracted result: it must be free of unevaluated
/// `d`/`int` nodes and cost no more than the expected closed form.
pub fn eqsat_verdict(cost: usize, best: &Expr, expected: &Expr) -> (r: bool)
    ensures
        r == (!best.spec_has_int_or_d() && cost as int <= spec_expr_cost(*expected)),
{
    let expected_cost = IntegCost.cost_rec(expected);
    !best.has_int_or_d() && cost <= expected_cost
}

} // verus!
