//! The engine's entry point: one pure analysis run over a program graph.

use vstd::prelude::*;
use crate::graph::{ProgramGraph, Stmt};
use crate::diag::VerificationReport;
use crate::model;
use crate::model::ViolationModel;
use crate::checks;
use crate::checks::{acc_views, val_views, vio_views};
use crate::order;
use crate::tracker::{abs_match, Tracker};

verus! {

/// Every violation one run finds, in discovery order: the sweep's own
/// violations, then the exclusivity conflicts, then the validity
/// (dangling-on-drop) violations.
pub open spec fn raw_violations(stmts: Seq<Stmt>) -> Seq<ViolationModel> {
    let end = model::run_to(stmts, stmts.len() as int);
    end.violations + checks::excl_violations(end.accesses)
        + checks::dangle_violations(end.values, end.accesses)
}

/// The violation list of the report: the raw violations sorted by
/// statement, kind and related location, with exact duplicates removed.
pub open spec fn report_violations(stmts: Seq<Stmt>) -> Seq<ViolationModel> {
    order::ordered_violations(raw_violations(stmts))
}

/// Analyses one program graph and reports every rule violation found.
/// Pure: no state persists between calls.
pub fn verify(graph: &ProgramGraph) -> (r: VerificationReport)
    ensures
        vio_views(r.violations@) == report_violations(graph@),
        r.success <==> r.violations@.len() == 0,
        r.success <==> raw_violations(graph@).len() == 0,
{
    let ghost stmts = graph@;
    let ghost end = model::run_to(stmts, stmts.len() as int);
    let t = Tracker::run(graph.stmts());
    let mut raw = t.violations;
    proof {
        assert(vio_views(raw@) =~= end.violations);
        assert(acc_views(t.accesses@) =~= end.accesses);
        assert(val_views(t.values@) =~= end.values);
    }
    checks::exclusivity_pass(&t.accesses, &mut raw);
    checks::dangling_pass(&t.values, &t.accesses, &mut raw);
    proof {
        assert(vio_views(raw@) == raw_violations(stmts));
    }
    let out = order::order_violations(&raw);
    let success = out.len() == 0;
    proof {
        order::lemma_ordered_character(raw_violations(stmts));
        assert(vio_views(out@).len() == out@.len());
    }
    VerificationReport { success, violations: out }
}

} // verus!
