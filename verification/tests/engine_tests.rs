use borrowck::diag::ErrorKind;
use borrowck::engine::verify;
use borrowck::graph::{AccessKind, Arg, GraphError, ProgramGraph, Stmt, ValueExpr, ValueKind};

fn graph(stmts: Vec<Stmt>) -> ProgramGraph {
    ProgramGraph::new(stmts).expect("graph should be well formed")
}

#[test]
fn empty_program_is_clean() {
    let report = verify(&graph(vec![]));
    assert!(report.success);
    assert_eq!(report.violations.len(), 0);
}

#[test]
fn move_then_use_reports_one_use_after_move() {
    // s bound to an owned value, moved into t, then used again.
    let g = graph(vec![
        Stmt::Bind { name: 0, expr: ValueExpr::Fresh { kind: ValueKind::Owned, length: 0 } },
        Stmt::Reassign { name: 1, expr: ValueExpr::Consume { source: 0 } },
        Stmt::Use { name: 0, access: AccessKind::Shared },
    ]);
    let report = verify(&g);
    assert!(!report.success);
    assert_eq!(report.violations.len(), 1);
    let v = &report.violations[0];
    assert_eq!(v.kind, ErrorKind::UseAfterMove);
    assert_eq!(v.stmt, 2);
    assert_eq!(v.related, Some(1));
}

#[test]
fn primitive_copy_keeps_source_usable() {
    // x is primitive: consuming it copies, the source stays usable.
    let g = graph(vec![
        Stmt::Bind {
            name: 0,
            expr: ValueExpr::Fresh { kind: ValueKind::Primitive, length: 0 },
        },
        Stmt::Reassign { name: 1, expr: ValueExpr::Consume { source: 0 } },
        Stmt::Use { name: 0, access: AccessKind::Shared },
    ]);
    let report = verify(&g);
    assert!(report.success);
    assert_eq!(report.violations.len(), 0);
}

#[test]
fn exclusive_overlapping_shared_reports_both_pairs() {
    // Two shared handles r1 and r2 on s, live through their last uses,
    // and an exclusive handle r3 opened while both are still live.
    let g = graph(vec![
        Stmt::Bind { name: 0, expr: ValueExpr::Fresh { kind: ValueKind::Owned, length: 10 } },
        Stmt::Use { name: 0, access: AccessKind::Shared },
        Stmt::Bind { name: 1, expr: ValueExpr::Ref { target: 0, access: AccessKind::Shared } },
        Stmt::Bind { name: 2, expr: ValueExpr::Ref { target: 0, access: AccessKind::Shared } },
        Stmt::Bind {
            name: 3,
            expr: ValueExpr::Ref { target: 0, access: AccessKind::Exclusive },
        },
        Stmt::Use { name: 1, access: AccessKind::Shared },
        Stmt::Use { name: 2, access: AccessKind::Shared },
    ]);
    let report = verify(&g);
    assert!(!report.success);
    assert_eq!(report.violations.len(), 2);
    assert_eq!(report.violations[0].kind, ErrorKind::ExclusivityViolation);
    assert_eq!(report.violations[0].stmt, 4);
    assert_eq!(report.violations[0].related, Some(2));
    assert_eq!(report.violations[1].kind, ErrorKind::ExclusivityViolation);
    assert_eq!(report.violations[1].stmt, 4);
    assert_eq!(report.violations[1].related, Some(3));
}

#[test]
fn shared_accesses_coexist() {
    // Only the two shared handles: no violation.
    let g = graph(vec![
        Stmt::Bind { name: 0, expr: ValueExpr::Fresh { kind: ValueKind::Owned, length: 10 } },
        Stmt::Bind { name: 1, expr: ValueExpr::Ref { target: 0, access: AccessKind::Shared } },
        Stmt::Bind { name: 2, expr: ValueExpr::Ref { target: 0, access: AccessKind::Shared } },
        Stmt::Use { name: 1, access: AccessKind::Shared },
        Stmt::Use { name: 2, access: AccessKind::Shared },
    ]);
    let report = verify(&g);
    assert!(report.success);
    assert_eq!(report.violations.len(), 0);
}

#[test]
fn full_range_slice_succeeds() {
    let g = graph(vec![
        Stmt::Bind { name: 0, expr: ValueExpr::Fresh { kind: ValueKind::Owned, length: 5 } },
        Stmt::SliceOf { name: 1, buffer: 0, lo: 0, hi: 5 },
        Stmt::Use { name: 1, access: AccessKind::Shared },
    ]);
    let report = verify(&g);
    assert!(report.success);
    assert_eq!(report.violations.len(), 0);
}

#[test]
fn slice_validity_is_tied_to_the_buffer() {
    // Replacing the buffer drops its old value while the slice is still in
    // use: the engine reports the access as dangling.
    let g = graph(vec![
        Stmt::Bind { name: 0, expr: ValueExpr::Fresh { kind: ValueKind::Owned, length: 5 } },
        Stmt::SliceOf { name: 1, buffer: 0, lo: 0, hi: 5 },
        Stmt::Reassign { name: 0, expr: ValueExpr::Fresh { kind: ValueKind::Owned, length: 5 } },
        Stmt::Use { name: 1, access: AccessKind::Shared },
    ]);
    let report = verify(&g);
    assert!(!report.success);
    assert_eq!(report.violations.len(), 1);
    assert_eq!(report.violations[0].kind, ErrorKind::DanglingOnDrop);
    assert_eq!(report.violations[0].stmt, 2);
    assert_eq!(report.violations[0].related, Some(1));
}

#[test]
fn reversed_slice_bounds_are_rejected() {
    let g = graph(vec![
        Stmt::Bind { name: 0, expr: ValueExpr::Fresh { kind: ValueKind::Owned, length: 5 } },
        Stmt::SliceOf { name: 1, buffer: 0, lo: 3, hi: 2 },
    ]);
    let report = verify(&g);
    assert!(!report.success);
    assert_eq!(report.violations.len(), 1);
    assert_eq!(report.violations[0].kind, ErrorKind::SliceOutOfBounds);
    assert_eq!(report.violations[0].stmt, 1);
    assert_eq!(report.violations[0].related, None);
}

#[test]
fn slice_past_the_end_is_rejected() {
    let g = graph(vec![
        Stmt::Bind { name: 0, expr: ValueExpr::Fresh { kind: ValueKind::Owned, length: 5 } },
        Stmt::SliceOf { name: 1, buffer: 0, lo: 0, hi: 6 },
    ]);
    let report = verify(&g);
    assert!(!report.success);
    assert_eq!(report.violations.len(), 1);
    assert_eq!(report.violations[0].kind, ErrorKind::SliceOutOfBounds);
}

#[test]
fn returning_a_local_slice_dangles() {
    // A function-local buffer is sliced and the slice returned to the
    // caller: the backing value dies with the scope.
    let g = graph(vec![
        Stmt::EnterScope,
        Stmt::Bind { name: 0, expr: ValueExpr::Fresh { kind: ValueKind::Owned, length: 5 } },
        Stmt::SliceOf { name: 1, buffer: 0, lo: 0, hi: 5 },
        Stmt::Return { name: Some(1) },
        Stmt::ExitScope,
    ]);
    let report = verify(&g);
    assert!(!report.success);
    assert_eq!(report.violations.len(), 1);
    assert_eq!(report.violations[0].kind, ErrorKind::DanglingReturn);
    assert_eq!(report.violations[0].stmt, 3);
}

#[test]
fn returning_an_outer_slice_is_fine() {
    // The buffer lives in the outer scope; returning a view into it out of
    // the inner scope is sound.
    let g = graph(vec![
        Stmt::Bind { name: 0, expr: ValueExpr::Fresh { kind: ValueKind::Owned, length: 5 } },
        Stmt::EnterScope,
        Stmt::SliceOf { name: 1, buffer: 0, lo: 1, hi: 3 },
        Stmt::Return { name: Some(1) },
        Stmt::ExitScope,
    ]);
    let report = verify(&g);
    assert!(report.success, "violations: {:?}", report.violations);
}

#[test]
fn moving_a_field_partially_invalidates_the_aggregate() {
    let g = graph(vec![
        Stmt::Bind {
            name: 0,
            expr: ValueExpr::Aggregate {
                field_kinds: vec![ValueKind::Owned, ValueKind::Primitive],
            },
        },
        Stmt::Bind { name: 1, expr: ValueExpr::FieldOf { source: 0, field: 0 } },
        Stmt::Bind { name: 2, expr: ValueExpr::FieldOf { source: 0, field: 1 } },
        Stmt::Use { name: 0, access: AccessKind::Shared },
    ]);
    let report = verify(&g);
    assert!(!report.success);
    assert_eq!(report.violations.len(), 1);
    assert_eq!(report.violations[0].kind, ErrorKind::PartialMove);
    assert_eq!(report.violations[0].stmt, 3);
    assert_eq!(report.violations[0].related, Some(1));
}

#[test]
fn moved_field_cannot_be_taken_twice() {
    let g = graph(vec![
        Stmt::Bind {
            name: 0,
            expr: ValueExpr::Aggregate { field_kinds: vec![ValueKind::Owned] },
        },
        Stmt::Bind { name: 1, expr: ValueExpr::FieldOf { source: 0, field: 0 } },
        Stmt::Bind { name: 2, expr: ValueExpr::FieldOf { source: 0, field: 0 } },
    ]);
    let report = verify(&g);
    assert!(!report.success);
    assert_eq!(report.violations.len(), 1);
    assert_eq!(report.violations[0].kind, ErrorKind::UseAfterMove);
    assert_eq!(report.violations[0].stmt, 2);
    assert_eq!(report.violations[0].related, Some(1));
}

#[test]
fn all_primitive_aggregate_is_copied() {
    let g = graph(vec![
        Stmt::Bind {
            name: 0,
            expr: ValueExpr::Aggregate {
                field_kinds: vec![ValueKind::Primitive, ValueKind::Primitive],
            },
        },
        Stmt::Reassign { name: 1, expr: ValueExpr::Consume { source: 0 } },
        Stmt::Use { name: 0, access: AccessKind::Shared },
    ]);
    let report = verify(&g);
    assert!(report.success, "violations: {:?}", report.violations);
}

#[test]
fn call_with_shared_and_exclusive_argument_conflicts() {
    let g = graph(vec![
        Stmt::Bind { name: 0, expr: ValueExpr::Fresh { kind: ValueKind::Owned, length: 0 } },
        Stmt::Call {
            args: vec![
                Arg { name: 0, access: AccessKind::Shared },
                Arg { name: 0, access: AccessKind::Exclusive },
            ],
        },
    ]);
    let report = verify(&g);
    assert!(!report.success);
    assert_eq!(report.violations.len(), 1);
    assert_eq!(report.violations[0].kind, ErrorKind::ExclusivityViolation);
    assert_eq!(report.violations[0].stmt, 1);
    assert_eq!(report.violations[0].related, Some(1));
}

#[test]
fn moving_while_borrowed_conflicts() {
    let g = graph(vec![
        Stmt::Bind { name: 0, expr: ValueExpr::Fresh { kind: ValueKind::Owned, length: 0 } },
        Stmt::Bind { name: 1, expr: ValueExpr::Ref { target: 0, access: AccessKind::Shared } },
        Stmt::Reassign { name: 2, expr: ValueExpr::Consume { source: 0 } },
        Stmt::Use { name: 1, access: AccessKind::Shared },
    ]);
    let report = verify(&g);
    assert!(!report.success);
    assert_eq!(report.violations.len(), 1);
    assert_eq!(report.violations[0].kind, ErrorKind::ExclusivityViolation);
    assert_eq!(report.violations[0].stmt, 2);
    assert_eq!(report.violations[0].related, Some(1));
}

#[test]
fn shadowing_keeps_the_outer_value_alive() {
    let g = graph(vec![
        Stmt::Bind { name: 0, expr: ValueExpr::Fresh { kind: ValueKind::Owned, length: 0 } },
        Stmt::EnterScope,
        Stmt::Bind {
            name: 0,
            expr: ValueExpr::Fresh { kind: ValueKind::Primitive, length: 0 },
        },
        Stmt::Use { name: 0, access: AccessKind::Shared },
        Stmt::ExitScope,
        Stmt::Use { name: 0, access: AccessKind::Shared },
    ]);
    let report = verify(&g);
    assert!(report.success, "violations: {:?}", report.violations);
}

#[test]
fn use_of_unbound_name_fails_construction() {
    let r = ProgramGraph::new(vec![Stmt::Use { name: 9, access: AccessKind::Shared }]);
    assert_eq!(r.err(), Some(GraphError::UnknownBinding { stmt: 0 }));
}

#[test]
fn inner_binding_is_invisible_after_its_scope() {
    let r = ProgramGraph::new(vec![
        Stmt::EnterScope,
        Stmt::Bind { name: 0, expr: ValueExpr::Fresh { kind: ValueKind::Owned, length: 0 } },
        Stmt::ExitScope,
        Stmt::Use { name: 0, access: AccessKind::Shared },
    ]);
    assert_eq!(r.err(), Some(GraphError::UnknownBinding { stmt: 3 }));
}

#[test]
fn stray_scope_exit_fails_construction() {
    let r = ProgramGraph::new(vec![Stmt::ExitScope]);
    assert_eq!(r.err(), Some(GraphError::UnbalancedScope { stmt: 0 }));
}

#[test]
fn violations_are_ordered_and_deduplicated() {
    // Two arguments use the same moved binding at one statement: the two
    // identical entries collapse to one, before the later violation.
    let g = graph(vec![
        Stmt::Bind { name: 0, expr: ValueExpr::Fresh { kind: ValueKind::Owned, length: 0 } },
        Stmt::Reassign { name: 1, expr: ValueExpr::Consume { source: 0 } },
        Stmt::Call {
            args: vec![
                Arg { name: 0, access: AccessKind::Shared },
                Arg { name: 0, access: AccessKind::Shared },
            ],
        },
        Stmt::Use { name: 0, access: AccessKind::Shared },
    ]);
    let report = verify(&g);
    assert!(!report.success);
    assert_eq!(report.violations.len(), 2);
    assert_eq!(report.violations[0].kind, ErrorKind::UseAfterMove);
    assert_eq!(report.violations[0].stmt, 2);
    assert_eq!(report.violations[1].kind, ErrorKind::UseAfterMove);
    assert_eq!(report.violations[1].stmt, 3);
}

#[test]
fn messages_name_every_kind() {
    let g = graph(vec![
        Stmt::Bind { name: 0, expr: ValueExpr::Fresh { kind: ValueKind::Owned, length: 0 } },
        Stmt::Reassign { name: 1, expr: ValueExpr::Consume { source: 0 } },
        Stmt::Use { name: 0, access: AccessKind::Shared },
    ]);
    let report = verify(&g);
    assert_eq!(
        report.violations[0].message(),
        "binding used after its value was moved"
    );
}

#[test]
fn two_exclusive_accesses_conflict() {
    let g = graph(vec![
        Stmt::Bind { name: 0, expr: ValueExpr::Fresh { kind: ValueKind::Owned, length: 0 } },
        Stmt::Bind {
            name: 1,
            expr: ValueExpr::Ref { target: 0, access: AccessKind::Exclusive },
        },
        Stmt::Bind {
            name: 2,
            expr: ValueExpr::Ref { target: 0, access: AccessKind::Exclusive },
        },
        Stmt::Use { name: 1, access: AccessKind::Shared },
    ]);
    let report = verify(&g);
    assert!(!report.success);
    assert_eq!(report.violations.len(), 1);
    assert_eq!(report.violations[0].kind, ErrorKind::ExclusivityViolation);
    assert_eq!(report.violations[0].stmt, 2);
    assert_eq!(report.violations[0].related, Some(1));
}

#[test]
fn borrowing_a_moved_value_is_use_after_move() {
    let g = graph(vec![
        Stmt::Bind { name: 0, expr: ValueExpr::Fresh { kind: ValueKind::Owned, length: 0 } },
        Stmt::Reassign { name: 1, expr: ValueExpr::Consume { source: 0 } },
        Stmt::Bind { name: 2, expr: ValueExpr::Ref { target: 0, access: AccessKind::Shared } },
    ]);
    let report = verify(&g);
    assert!(!report.success);
    assert_eq!(report.violations.len(), 1);
    assert_eq!(report.violations[0].kind, ErrorKind::UseAfterMove);
    assert_eq!(report.violations[0].stmt, 2);
    assert_eq!(report.violations[0].related, Some(1));
}

#[test]
fn taking_a_field_of_a_moved_aggregate_is_use_after_move() {
    let g = graph(vec![
        Stmt::Bind {
            name: 0,
            expr: ValueExpr::Aggregate { field_kinds: vec![ValueKind::Owned] },
        },
        Stmt::Reassign { name: 1, expr: ValueExpr::Consume { source: 0 } },
        Stmt::Bind { name: 2, expr: ValueExpr::FieldOf { source: 0, field: 0 } },
    ]);
    let report = verify(&g);
    assert!(!report.success);
    assert_eq!(report.violations.len(), 1);
    assert_eq!(report.violations[0].kind, ErrorKind::UseAfterMove);
    assert_eq!(report.violations[0].stmt, 2);
}

#[test]
fn empty_slice_at_the_end_is_in_bounds() {
    let g = graph(vec![
        Stmt::Bind { name: 0, expr: ValueExpr::Fresh { kind: ValueKind::Owned, length: 5 } },
        Stmt::SliceOf { name: 1, buffer: 0, lo: 5, hi: 5 },
    ]);
    let report = verify(&g);
    assert!(report.success, "violations: {:?}", report.violations);
}

#[test]
fn analysis_is_pure_across_calls() {
    let stmts = vec![
        Stmt::Bind { name: 0, expr: ValueExpr::Fresh { kind: ValueKind::Owned, length: 0 } },
        Stmt::Reassign { name: 1, expr: ValueExpr::Consume { source: 0 } },
        Stmt::Use { name: 0, access: AccessKind::Shared },
    ];
    let g = graph(stmts);
    let first = verify(&g);
    let second = verify(&g);
    assert_eq!(first.success, second.success);
    assert_eq!(first.violations, second.violations);
}

#[test]
fn reassigning_an_outer_binding_survives_the_scope() {
    // let mut x = A; { x = B; } read x;
    // The value assigned inside belongs to the outer binding and must not
    // be dropped when the inner scope closes.
    let g = graph(vec![
        Stmt::Bind { name: 0, expr: ValueExpr::Fresh { kind: ValueKind::Owned, length: 0 } },
        Stmt::EnterScope,
        Stmt::Reassign { name: 0, expr: ValueExpr::Fresh { kind: ValueKind::Owned, length: 0 } },
        Stmt::ExitScope,
        Stmt::Use { name: 0, access: AccessKind::Shared },
    ]);
    let report = verify(&g);
    assert!(report.success, "violations: {:?}", report.violations);
}

#[test]
fn moving_an_inner_value_into_an_outer_binding_survives() {
    // let mut x = A; { let y = B; x = y; } read x;
    // y's value is explicitly moved out of the scope into x.
    let g = graph(vec![
        Stmt::Bind { name: 0, expr: ValueExpr::Fresh { kind: ValueKind::Owned, length: 0 } },
        Stmt::EnterScope,
        Stmt::Bind { name: 1, expr: ValueExpr::Fresh { kind: ValueKind::Owned, length: 0 } },
        Stmt::Reassign { name: 0, expr: ValueExpr::Consume { source: 1 } },
        Stmt::ExitScope,
        Stmt::Use { name: 0, access: AccessKind::Shared },
    ]);
    let report = verify(&g);
    assert!(report.success, "violations: {:?}", report.violations);
}

#[test]
fn a_slice_of_a_reassigned_outer_buffer_stays_valid() {
    // The buffer value assigned to the outer binding inside the scope
    // survives the exit, so a slice of it taken afterwards is sound.
    let g = graph(vec![
        Stmt::Bind { name: 0, expr: ValueExpr::Fresh { kind: ValueKind::Owned, length: 2 } },
        Stmt::EnterScope,
        Stmt::Reassign { name: 0, expr: ValueExpr::Fresh { kind: ValueKind::Owned, length: 8 } },
        Stmt::SliceOf { name: 1, buffer: 0, lo: 0, hi: 8 },
        Stmt::ExitScope,
        Stmt::Use { name: 0, access: AccessKind::Shared },
    ]);
    let report = verify(&g);
    assert!(report.success, "violations: {:?}", report.violations);
}

#[test]
fn a_binding_made_inside_the_scope_is_still_dropped() {
    // Shadowing the outer name inside the scope creates a value that the
    // scope owns; its drop still invalidates an open view into it.
    let g = graph(vec![
        Stmt::Bind { name: 0, expr: ValueExpr::Fresh { kind: ValueKind::Owned, length: 4 } },
        Stmt::EnterScope,
        Stmt::Bind { name: 1, expr: ValueExpr::Fresh { kind: ValueKind::Owned, length: 4 } },
        Stmt::SliceOf { name: 2, buffer: 1, lo: 0, hi: 4 },
        Stmt::Reassign { name: 0, expr: ValueExpr::Consume { source: 2 } },
        Stmt::ExitScope,
        Stmt::Use { name: 0, access: AccessKind::Shared },
    ]);
    let report = verify(&g);
    // The slice copied into x keeps the access on the inner buffer open
    // through statement 6, past the buffer's drop at the scope exit.
    assert!(!report.success);
    assert!(report
        .violations
        .iter()
        .any(|v| v.kind == ErrorKind::DanglingOnDrop && v.stmt == 5));
}
