//! The safety laws of the engine, proved once and for all over the model
//! in [`crate::model`] — and therefore, through the step-for-step
//! correspondence, over the executable engine itself.

use vstd::prelude::*;
use crate::graph::{AccessKind, Stmt, ValueExpr};
use crate::diag::ErrorKind;
use crate::model::{
    binding_index, depth_of, eval_consume, eval_expr, left_at, lemma_binding_index,
    lemma_run_wf, lookup_value, run_to, state_wf, step, use_args, use_one, wf_value,
    StateModel, ValueLife, ViolationModel,
};
use crate::model;
use crate::checks::{conflict, dangle_one, dangle_to, dangle_violations, excl_row, excl_to,
    excl_violations};
use crate::order::{appears, count_of, lemma_count_add, lemma_count_nonneg, lemma_count_push,
    lemma_ordered_character, ordered_violations};
use crate::engine::{raw_violations, report_violations};

verus! {

/// The violation kinds the sweep itself can record; the two whole-run
/// passes record the other two kinds.
pub open spec fn sweep_kind(k: ErrorKind) -> bool {
    match k {
        ErrorKind::UseAfterMove => true,
        ErrorKind::PartialMove => true,
        ErrorKind::SliceOutOfBounds => true,
        ErrorKind::DanglingReturn => true,
        ErrorKind::UnknownBinding => true,
        ErrorKind::DanglingOnDrop => false,
        ErrorKind::ExclusivityViolation => false,
    }
}

/// What one statement adds to the violation list: only entries located at
/// that statement, of the sweep's own kinds.
pub open spec fn extends_violations(pre: Seq<ViolationModel>, post: Seq<ViolationModel>,
    i: int) -> bool {
    &&& pre.len() <= post.len()
    &&& forall|k: int| 0 <= k < pre.len() ==> post[k] == pre[k]
    &&& forall|k: int| pre.len() <= k < post.len()
        ==> (#[trigger] post[k]).stmt == i && sweep_kind(post[k].kind)
}

pub proof fn lemma_eval_violations(s: StateModel, e: ValueExpr, i: int, d: int)
    ensures
        extends_violations(s.violations, eval_expr(s, e, i, d).0.violations, i),
{
}

pub proof fn lemma_use_one_violations(s: StateModel, name: u64, access: AccessKind, i: int)
    ensures
        extends_violations(s.violations, use_one(s, name, access, i).violations, i),
{
}

pub proof fn lemma_use_args_violations(s: StateModel, args: Seq<crate::graph::Arg>, i: int)
    ensures
        extends_violations(s.violations, use_args(s, args, i).violations, i),
    decreases args.len(),
{
    if args.len() > 0 {
        lemma_use_args_violations(s, args.drop_last(), i);
        lemma_use_one_violations(use_args(s, args.drop_last(), i), args.last().name,
            args.last().access, i);
    }
}

/// One statement only appends violations, all located at that statement
/// and of the sweep's own kinds.
pub proof fn lemma_step_violations(s: StateModel, stmt: Stmt, i: int)
    ensures
        extends_violations(s.violations, step(s, stmt, i).violations, i),
{
    match stmt {
        Stmt::Bind { name, expr } => {
            lemma_eval_violations(s, expr, i, depth_of(s));
        },
        Stmt::Reassign { name, expr } => {
            match binding_index(s.env, name) {
                None => {
                    lemma_eval_violations(s, expr, i, depth_of(s));
                },
                Some(j) => {
                    lemma_eval_violations(s, expr, i, s.values[s.env[j].value].depth);
                },
            }
        },
        Stmt::Use { name, access } => {
            lemma_use_one_violations(s, name, access, i);
        },
        Stmt::Call { args } => {
            lemma_use_args_violations(s, args@, i);
        },
        Stmt::SliceOf { .. } => {},
        Stmt::EnterScope => {},
        Stmt::ExitScope => {},
        Stmt::Return { name } => {
            match name {
                Some(n) => {
                    lemma_use_one_violations(s, n, AccessKind::Shared, i);
                },
                None => {},
            }
        },
    }
}

/// Every violation the sweep records lies at a statement already walked,
/// and is of the sweep's own kinds.
pub proof fn lemma_run_violations(stmts: Seq<Stmt>, n: int)
    ensures
        forall|k: int| 0 <= k < run_to(stmts, n).violations.len()
            ==> 0 <= (#[trigger] run_to(stmts, n).violations[k]).stmt < n
                && sweep_kind(run_to(stmts, n).violations[k].kind),
    decreases n,
{
    if n > 0 {
        lemma_run_violations(stmts, n - 1);
        lemma_step_violations(run_to(stmts, n - 1), stmts[n - 1], n - 1);
    }
}

/// A sequence without `x` counts no `x`.
pub proof fn lemma_count_zero(s: Seq<ViolationModel>, x: ViolationModel)
    requires
        forall|j: int| 0 <= j < s.len() ==> s[j] != x,
    ensures
        count_of(s, x) == 0,
    decreases s.len(),
{
    if s.len() > 0 {
        assert forall|j: int| 0 <= j < s.drop_first().len()
            implies s.drop_first()[j] != x by {
            assert(s.drop_first()[j] == s[j + 1]);
        }
        lemma_count_zero(s.drop_first(), x);
    }
}

/// A step changes the multiplicity only of violations located at it.
pub proof fn lemma_step_count(s: StateModel, stmt: Stmt, i: int, x: ViolationModel)
    requires
        x.stmt != i,
    ensures
        count_of(step(s, stmt, i).violations, x) == count_of(s.violations, x),
{
    lemma_step_violations(s, stmt, i);
    let post = step(s, stmt, i).violations;
    assert(post =~= s.violations + post.skip(s.violations.len() as int));
    lemma_count_add(s.violations, post.skip(s.violations.len() as int), x);
    assert forall|j: int| 0 <= j < post.skip(s.violations.len() as int).len()
        implies post.skip(s.violations.len() as int)[j] != x by {
        assert(post.skip(s.violations.len() as int)[j]
            == post[j + s.violations.len()]);
    }
    lemma_count_zero(post.skip(s.violations.len() as int), x);
}

/// After the statement a violation is located at, its multiplicity in the
/// sweep's list never changes again.
pub proof fn lemma_run_count_after(stmts: Seq<Stmt>, n: int, i: int, x: ViolationModel)
    requires
        x.stmt == i,
        i + 1 <= n,
    ensures
        count_of(run_to(stmts, n).violations, x)
            == count_of(run_to(stmts, i + 1).violations, x),
    decreases n - i,
{
    if n > i + 1 {
        lemma_run_count_after(stmts, n - 1, i, x);
        lemma_step_count(run_to(stmts, n - 1), stmts[n - 1], n - 1, x);
    }
}

/// Exclusivity rows hold only `ExclusivityViolation` entries.
pub proof fn lemma_excl_row_kinds(accs: Seq<crate::model::AccessModel>, j: int, k: int)
    ensures
        forall|t: int| 0 <= t < excl_row(accs, j, k).len()
            ==> (#[trigger] excl_row(accs, j, k)[t]).kind is ExclusivityViolation,
    decreases k,
{
    if k > 0 {
        lemma_excl_row_kinds(accs, j, k - 1);
    }
}

/// The exclusivity pass records only `ExclusivityViolation` entries.
pub proof fn lemma_excl_kinds(accs: Seq<crate::model::AccessModel>, n: int)
    ensures
        forall|t: int| 0 <= t < excl_to(accs, n).len()
            ==> (#[trigger] excl_to(accs, n)[t]).kind is ExclusivityViolation,
    decreases n,
{
    if n > 0 {
        lemma_excl_kinds(accs, n - 1);
        lemma_excl_row_kinds(accs, n - 1, n - 1);
        assert forall|t: int| 0 <= t < excl_to(accs, n).len()
            implies (#[trigger] excl_to(accs, n)[t]).kind is ExclusivityViolation by {
            if t < excl_to(accs, n - 1).len() {
                assert(excl_to(accs, n)[t] == excl_to(accs, n - 1)[t]);
            } else {
                assert(excl_to(accs, n)[t]
                    == excl_row(accs, n - 1, n - 1)[t - excl_to(accs, n - 1).len()]);
            }
        }
    }
}

/// The validity pass records only `DanglingOnDrop` entries.
pub proof fn lemma_dangle_kinds(values: Seq<crate::model::ValueModel>,
    accs: Seq<crate::model::AccessModel>, n: int)
    ensures
        forall|t: int| 0 <= t < dangle_to(values, accs, n).len()
            ==> (#[trigger] dangle_to(values, accs, n)[t]).kind is DanglingOnDrop,
    decreases n,
{
    if n > 0 {
        lemma_dangle_kinds(values, accs, n - 1);
    }
}

/// The report holds a violation exactly when the raw list does, and holds
/// it at most once.
pub proof fn lemma_raw_to_report(stmts: Seq<Stmt>, x: ViolationModel)
    ensures
        appears(report_violations(stmts), x) <==> appears(raw_violations(stmts), x),
        count_of(report_violations(stmts), x) <= 1,
{
    lemma_ordered_character(raw_violations(stmts));
    assert(report_violations(stmts) == ordered_violations(raw_violations(stmts)));
    assert(appears(ordered_violations(raw_violations(stmts)), x)
        <==> appears(raw_violations(stmts), x));
    assert(count_of(ordered_violations(raw_violations(stmts)), x) <= 1);
}

/// The report is an ordered, deduplicated list: sorted by statement, kind
/// and related location, holding each violation at most once, and empty
/// exactly when the run found nothing.
pub proof fn lemma_report_ordered(stmts: Seq<Stmt>)
    ensures
        crate::order::sorted(report_violations(stmts)),
        forall|x: ViolationModel| count_of(report_violations(stmts), x) <= 1,
        report_violations(stmts).len() == 0 <==> raw_violations(stmts).len() == 0,
{
    lemma_ordered_character(raw_violations(stmts));
    assert(report_violations(stmts) == ordered_violations(raw_violations(stmts)));
    assert forall|x: ViolationModel| count_of(report_violations(stmts), x) <= 1 by {
        assert(count_of(ordered_violations(raw_violations(stmts)), x) <= 1);
    }
}

/// Single ownership: at every analysis point, no two bindings name the
/// same value.
pub proof fn lemma_single_owner(stmts: Seq<Stmt>, n: int, j: int, k: int)
    requires
        0 <= j < k < run_to(stmts, n).env.len(),
    ensures
        run_to(stmts, n).env[j].value != run_to(stmts, n).env[k].value,
{
    lemma_run_wf(stmts, n);
}

/// Copy transparency, as a global invariant: a `Primitive` value is never
/// in the `Moved` state, at any analysis point.
pub proof fn lemma_copy_transparency(stmts: Seq<Stmt>, n: int, vid: int)
    requires
        0 <= vid < run_to(stmts, n).values.len(),
        run_to(stmts, n).values[vid].kind is Primitive,
    ensures
        !(run_to(stmts, n).values[vid].life is Moved),
{
    lemma_run_wf(stmts, n);
    assert(wf_value(run_to(stmts, n), run_to(stmts, n).values[vid]));
}

/// Copy transparency, per consumption: consuming a binding whose value is
/// `Primitive` and owned leaves the source value untouched — it is copied,
/// not moved, and stays usable.
pub proof fn lemma_primitive_consume_copies(s: StateModel, source: u64, i: int, d: int)
    requires
        state_wf(s),
        lookup_value(s.env, source) is Some,
        s.values[lookup_value(s.env, source)->0].kind is Primitive,
        s.values[lookup_value(s.env, source)->0].life is Owned,
    ensures
        eval_consume(s, source, i, d).0.values[lookup_value(s.env, source)->0]
            == s.values[lookup_value(s.env, source)->0],
        eval_consume(s, source, i, d).0.values[lookup_value(s.env, source)->0].life
            is Owned,
{
    lemma_binding_index(s.env, source);
}

/// Move invalidation: a `Use` of a binding whose value has been moved
/// yields exactly one `UseAfterMove` entry in the report, located at the
/// use and pointing back at the move.
pub proof fn lemma_move_invalidation(stmts: Seq<Stmt>, i: int, name: u64, access: AccessKind)
    requires
        0 <= i < stmts.len(),
        stmts[i] == (Stmt::Use { name, access }),
        lookup_value(run_to(stmts, i).env, name) is Some,
        run_to(stmts, i).values[lookup_value(run_to(stmts, i).env, name)->0].life is Moved,
    ensures
        ({
            let s = run_to(stmts, i);
            let vid = lookup_value(s.env, name)->0;
            let t = ViolationModel {
                kind: ErrorKind::UseAfterMove,
                stmt: i,
                related: Some(left_at(s.values[vid].life)),
            };
            &&& count_of(report_violations(stmts), t) == 1
            &&& forall|x: ViolationModel| appears(report_violations(stmts), x)
                && x.kind is UseAfterMove && x.stmt == i ==> x == t
        }),
{
    let s = run_to(stmts, i);
    let vid = lookup_value(s.env, name)->0;
    let m = left_at(s.values[vid].life);
    let t = ViolationModel { kind: ErrorKind::UseAfterMove, stmt: i, related: Some(m) };
    let n = stmts.len() as int;
    let end = run_to(stmts, n);
    assert(run_to(stmts, i + 1).violations == s.violations.push(t));
    lemma_run_violations(stmts, i);
    lemma_count_zero(s.violations, t);
    lemma_count_push(s.violations, t, t);
    lemma_run_count_after(stmts, n, i, t);
    assert(count_of(end.violations, t) == 1);
    lemma_excl_kinds(end.accesses, end.accesses.len() as int);
    lemma_dangle_kinds(end.values, end.accesses, end.accesses.len() as int);
    lemma_count_zero(excl_violations(end.accesses), t);
    lemma_count_zero(dangle_violations(end.values, end.accesses), t);
    lemma_count_add(end.violations, excl_violations(end.accesses), t);
    lemma_count_add(end.violations + excl_violations(end.accesses),
        dangle_violations(end.values, end.accesses), t);
    assert(count_of(raw_violations(stmts), t) == 1);
    lemma_raw_to_report(stmts, t);
    assert(appears(raw_violations(stmts), t));
    assert(count_of(report_violations(stmts), t) == 1);
    assert forall|x: ViolationModel| appears(report_violations(stmts), x)
        && x.kind is UseAfterMove && x.stmt == i implies x == t by {
        if x != t {
            lemma_raw_to_report(stmts, x);
            lemma_run_count_after(stmts, n, i, x);
            lemma_count_push(s.violations, t, x);
            lemma_count_zero(s.violations, x);
            lemma_count_zero(excl_violations(end.accesses), x);
            lemma_count_zero(dangle_violations(end.values, end.accesses), x);
            lemma_count_add(end.violations, excl_violations(end.accesses), x);
            lemma_count_add(end.violations + excl_violations(end.accesses),
                dangle_violations(end.values, end.accesses), x);
            assert(count_of(raw_violations(stmts), x) == 0);
        }
    }
}

/// Slice bounds: an out-of-range `SliceOf` yields a `SliceOutOfBounds`
/// entry at that statement, and the name is bound to a fresh plain value
/// that is not a view into the buffer — no slice is produced.
pub proof fn lemma_slice_bounds(stmts: Seq<Stmt>, i: int, name: u64, buffer: u64, lo: u64,
    hi: u64)
    requires
        0 <= i < stmts.len(),
        stmts[i] == (Stmt::SliceOf { name, buffer, lo, hi }),
        lookup_value(run_to(stmts, i).env, buffer) is Some,
        run_to(stmts, i).values[lookup_value(run_to(stmts, i).env, buffer)->0].life
            is Owned,
        lo > hi || hi > run_to(stmts, i).values[
            lookup_value(run_to(stmts, i).env, buffer)->0].length,
    ensures
        ({
            let s = run_to(stmts, i);
            let t = ViolationModel {
                kind: ErrorKind::SliceOutOfBounds,
                stmt: i,
                related: None,
            };
            &&& appears(report_violations(stmts), t)
            &&& lookup_value(run_to(stmts, i + 1).env, name)
                == Some(s.values.len() as int)
            &&& run_to(stmts, i + 1).values[s.values.len() as int].backing is None
            &&& run_to(stmts, i + 1).values[s.values.len() as int].handle is None
        }),
{
    let s = run_to(stmts, i);
    let t = ViolationModel { kind: ErrorKind::SliceOutOfBounds, stmt: i, related: None };
    let n = stmts.len() as int;
    let end = run_to(stmts, n);
    let s2 = run_to(stmts, i + 1);
    assert(s2.violations == s.violations.push(t));
    lemma_count_nonneg(s.violations, t);
    lemma_count_push(s.violations, t, t);
    lemma_run_count_after(stmts, n, i, t);
    assert(count_of(end.violations, t) >= 1);
    lemma_count_nonneg(excl_violations(end.accesses), t);
    lemma_count_nonneg(dangle_violations(end.values, end.accesses), t);
    lemma_count_add(end.violations, excl_violations(end.accesses), t);
    lemma_count_add(end.violations + excl_violations(end.accesses),
        dangle_violations(end.values, end.accesses), t);
    assert(count_of(raw_violations(stmts), t) >= 1);
    lemma_raw_to_report(stmts, t);
    assert(appears(raw_violations(stmts), t));
    assert(s2.env.last() == (model::BindingModel { name, value: s.values.len() as int }));
    assert(binding_index(s2.env, name) == Some(s2.env.len() - 1));
}

/// No access on a dropped value slips through: when the report is clean,
/// every access on every value ends no later than the value's drop.
pub proof fn lemma_no_dangling(stmts: Seq<Stmt>, k: int)
    requires
        report_violations(stmts).len() == 0,
        0 <= k < run_to(stmts, stmts.len() as int).accesses.len(),
    ensures
        ({
            let end = run_to(stmts, stmts.len() as int);
            let a = end.accesses[k];
            match end.values[a.value].life {
                ValueLife::Dropped(d) => a.end <= d,
                _ => true,
            }
        }),
{
    let n = stmts.len() as int;
    let end = run_to(stmts, n);
    let a = end.accesses[k];
    lemma_ordered_character(raw_violations(stmts));
    assert(raw_violations(stmts).len() == 0);
    assert(dangle_violations(end.values, end.accesses).len() == 0);
    lemma_dangle_none(end.values, end.accesses, end.accesses.len() as int, k);
    lemma_run_wf(stmts, n);
    assert(0 <= a.value < end.values.len());
}

/// When the validity pass finds nothing, each access raises nothing.
pub proof fn lemma_dangle_none(values: Seq<crate::model::ValueModel>,
    accs: Seq<crate::model::AccessModel>, n: int, k: int)
    requires
        0 <= k < n,
        dangle_to(values, accs, n).len() == 0,
    ensures
        dangle_one(values, accs[k]) is None,
    decreases n,
{
    if k < n - 1 {
        lemma_dangle_none(values, accs, n - 1, k);
    }
}

/// A dangling return is always reported: a `Return` of a reference or
/// slice whose backing value was created in the returning scope (or
/// deeper) puts a `DanglingReturn` at the `Return` statement into the
/// report.
pub proof fn lemma_dangling_return(stmts: Seq<Stmt>, i: int, name: u64)
    requires
        0 <= i < stmts.len(),
        stmts[i] == (Stmt::Return { name: Some(name) }),
        lookup_value(run_to(stmts, i).env, name) is Some,
        run_to(stmts, i).values[lookup_value(run_to(stmts, i).env, name)->0].life is Owned,
        run_to(stmts, i).values[lookup_value(run_to(stmts, i).env, name)->0].backing
            is Some,
        run_to(stmts, i).values[run_to(stmts, i).values[
            lookup_value(run_to(stmts, i).env, name)->0].backing->0].depth
            >= depth_of(run_to(stmts, i)),
    ensures
        appears(report_violations(stmts), ViolationModel {
            kind: ErrorKind::DanglingReturn,
            stmt: i,
            related: None,
        }),
{
    let s = run_to(stmts, i);
    let vid = lookup_value(s.env, name)->0;
    let v = s.values[vid];
    let t = ViolationModel { kind: ErrorKind::DanglingReturn, stmt: i, related: None };
    let n = stmts.len() as int;
    let end = run_to(stmts, n);
    lemma_run_wf(stmts, i);
    lemma_binding_index(s.env, name);
    assert(wf_value(s, v));
    let s1 = use_one(s, name, AccessKind::Shared, i);
    match model::partial_move_of(s.values, v) {
        Some(mm) => {
            assert(s1.violations == s.violations.push(ViolationModel {
                kind: ErrorKind::PartialMove,
                stmt: i,
                related: Some(mm),
            }));
            lemma_count_nonneg(s.violations, t);
            lemma_count_push(s.violations, ViolationModel {
                kind: ErrorKind::PartialMove,
                stmt: i,
                related: Some(mm),
            }, t);
        },
        None => {
            assert(s1.violations == s.violations);
        },
    }
    assert(run_to(stmts, i + 1).violations == s1.violations.push(t));
    lemma_count_nonneg(s1.violations, t);
    lemma_count_push(s1.violations, t, t);
    assert(count_of(run_to(stmts, i + 1).violations, t) >= 1);
    lemma_run_count_after(stmts, n, i, t);
    lemma_count_nonneg(excl_violations(end.accesses), t);
    lemma_count_nonneg(dangle_violations(end.values, end.accesses), t);
    lemma_count_add(end.violations, excl_violations(end.accesses), t);
    lemma_count_add(end.violations + excl_violations(end.accesses),
        dangle_violations(end.values, end.accesses), t);
    assert(count_of(raw_violations(stmts), t) >= 1);
    lemma_raw_to_report(stmts, t);
    assert(appears(raw_violations(stmts), t));
}

/// Exclusivity, reporting direction: every pair of conflicting accesses —
/// overlapping intervals on one value, not both shared — is reported,
/// naming both locations.
pub proof fn lemma_exclusivity_reported(stmts: Seq<Stmt>, k: int, j: int)
    requires
        0 <= k < j < run_to(stmts, stmts.len() as int).accesses.len(),
        conflict(run_to(stmts, stmts.len() as int).accesses[k],
            run_to(stmts, stmts.len() as int).accesses[j]),
    ensures
        ({
            let accs = run_to(stmts, stmts.len() as int).accesses;
            appears(report_violations(stmts), ViolationModel {
                kind: ErrorKind::ExclusivityViolation,
                stmt: accs[j].start,
                related: Some(accs[k].start),
            })
        }),
{
    let n = stmts.len() as int;
    let end = run_to(stmts, n);
    let accs = end.accesses;
    let t = ViolationModel {
        kind: ErrorKind::ExclusivityViolation,
        stmt: accs[j].start,
        related: Some(accs[k].start),
    };
    lemma_excl_row_counts(accs, j, k, j);
    lemma_excl_to_counts(accs, j, k, accs.len() as int);
    lemma_count_nonneg(end.violations, t);
    lemma_count_nonneg(dangle_violations(end.values, end.accesses), t);
    lemma_count_add(end.violations, excl_violations(accs), t);
    lemma_count_add(end.violations + excl_violations(accs),
        dangle_violations(end.values, end.accesses), t);
    assert(count_of(raw_violations(stmts), t) >= 1);
    lemma_raw_to_report(stmts, t);
    assert(appears(raw_violations(stmts), t));
}

/// The row of access `j` counts its conflict with access `k` at least once.
pub proof fn lemma_excl_row_counts(accs: Seq<crate::model::AccessModel>, j: int, k: int,
    kk: int)
    requires
        0 <= k < kk <= j,
        conflict(accs[k], accs[j]),
    ensures
        count_of(excl_row(accs, j, kk), ViolationModel {
            kind: ErrorKind::ExclusivityViolation,
            stmt: accs[j].start,
            related: Some(accs[k].start),
        }) >= 1,
    decreases kk,
{
    let t = ViolationModel {
        kind: ErrorKind::ExclusivityViolation,
        stmt: accs[j].start,
        related: Some(accs[k].start),
    };
    if kk == k + 1 {
        lemma_count_nonneg(excl_row(accs, j, kk - 1), t);
        lemma_count_push(excl_row(accs, j, kk - 1), t, t);
    } else {
        lemma_excl_row_counts(accs, j, k, kk - 1);
        if conflict(accs[kk - 1], accs[j]) {
            lemma_count_push(excl_row(accs, j, kk - 1), ViolationModel {
                kind: ErrorKind::ExclusivityViolation,
                stmt: accs[j].start,
                related: Some(accs[kk - 1].start),
            }, t);
        }
    }
}

/// The whole exclusivity pass keeps that count.
pub proof fn lemma_excl_to_counts(accs: Seq<crate::model::AccessModel>, j: int, k: int,
    nn: int)
    requires
        0 <= k < j < nn,
        conflict(accs[k], accs[j]),
    ensures
        count_of(excl_to(accs, nn), ViolationModel {
            kind: ErrorKind::ExclusivityViolation,
            stmt: accs[j].start,
            related: Some(accs[k].start),
        }) >= 1,
    decreases nn,
{
    let t = ViolationModel {
        kind: ErrorKind::ExclusivityViolation,
        stmt: accs[j].start,
        related: Some(accs[k].start),
    };
    if nn == j + 1 {
        lemma_excl_row_counts(accs, j, k, j);
        lemma_count_nonneg(excl_to(accs, nn - 1), t);
        lemma_count_add(excl_to(accs, nn - 1), excl_row(accs, nn - 1, nn - 1), t);
    } else {
        lemma_excl_to_counts(accs, j, k, nn - 1);
        lemma_count_nonneg(excl_row(accs, nn - 1, nn - 1), t);
        lemma_count_add(excl_to(accs, nn - 1), excl_row(accs, nn - 1, nn - 1), t);
    }
}

/// Exclusivity, soundness direction: every `ExclusivityViolation` in the
/// report names a genuinely conflicting pair of accesses. In particular,
/// two overlapping `Shared` accesses never yield one.
pub proof fn lemma_exclusivity_genuine(stmts: Seq<Stmt>, x: ViolationModel)
    requires
        appears(report_violations(stmts), x),
        x.kind is ExclusivityViolation,
    ensures
        ({
            let accs = run_to(stmts, stmts.len() as int).accesses;
            exists|k: int, j: int| 0 <= k < j < accs.len()
                && #[trigger] conflict(accs[k], accs[j])
                && x.stmt == accs[j].start && x.related == Some(accs[k].start)
        }),
{
    let n = stmts.len() as int;
    let end = run_to(stmts, n);
    let accs = end.accesses;
    lemma_raw_to_report(stmts, x);
    assert(appears(raw_violations(stmts), x));
    lemma_run_violations(stmts, n);
    lemma_count_zero(end.violations, x);
    lemma_dangle_kinds(end.values, end.accesses, end.accesses.len() as int);
    lemma_count_zero(dangle_violations(end.values, end.accesses), x);
    lemma_count_add(end.violations, excl_violations(accs), x);
    lemma_count_add(end.violations + excl_violations(accs),
        dangle_violations(end.values, end.accesses), x);
    assert(count_of(excl_violations(accs), x) > 0);
    lemma_excl_to_inv(accs, accs.len() as int, x);
}

/// Only genuine conflicts enter the exclusivity pass's list.
pub proof fn lemma_excl_to_inv(accs: Seq<crate::model::AccessModel>, nn: int,
    x: ViolationModel)
    requires
        count_of(excl_to(accs, nn), x) > 0,
    ensures
        exists|k: int, j: int| 0 <= k < j < nn && #[trigger] conflict(accs[k], accs[j])
            && x.stmt == accs[j].start && x.related == Some(accs[k].start),
    decreases nn,
{
    if nn <= 0 {
        assert(count_of(excl_to(accs, nn), x) == 0);
    } else {
        lemma_count_add(excl_to(accs, nn - 1), excl_row(accs, nn - 1, nn - 1), x);
        lemma_count_nonneg(excl_to(accs, nn - 1), x);
        lemma_count_nonneg(excl_row(accs, nn - 1, nn - 1), x);
        if count_of(excl_to(accs, nn - 1), x) > 0 {
            lemma_excl_to_inv(accs, nn - 1, x);
        } else {
            lemma_excl_row_inv(accs, nn - 1, nn - 1, x);
        }
    }
}

/// Only genuine conflicts enter one row.
pub proof fn lemma_excl_row_inv(accs: Seq<crate::model::AccessModel>, j: int, kk: int,
    x: ViolationModel)
    requires
        count_of(excl_row(accs, j, kk), x) > 0,
        0 <= j,
        kk <= j,
    ensures
        exists|k: int| 0 <= k < kk && #[trigger] conflict(accs[k], accs[j])
            && x.stmt == accs[j].start && x.related == Some(accs[k].start),
    decreases kk,
{
    if kk <= 0 {
        assert(count_of(excl_row(accs, j, kk), x) == 0);
    } else {
        if conflict(accs[kk - 1], accs[j]) {
            let t = ViolationModel {
                kind: ErrorKind::ExclusivityViolation,
                stmt: accs[j].start,
                related: Some(accs[kk - 1].start),
            };
            lemma_count_push(excl_row(accs, j, kk - 1), t, x);
            lemma_count_nonneg(excl_row(accs, j, kk - 1), x);
            if x == t {
                assert(0 <= kk - 1 < kk && conflict(accs[kk - 1], accs[j])
                    && x.stmt == accs[j].start && x.related == Some(accs[kk - 1].start));
            } else {
                lemma_excl_row_inv(accs, j, kk - 1, x);
            }
        } else {
            lemma_excl_row_inv(accs, j, kk - 1, x);
        }
    }
}

} // verus!
