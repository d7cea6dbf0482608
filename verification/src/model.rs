//! The mathematical model of one analysis run.
//!
//! Every rule of the engine is defined here as a fold over the statement
//! sequence: [`step`] gives the exact effect of one statement on the
//! analysis state, and [`run_to`] folds it over a prefix of the program.
//! The executable tracker is proved to follow this model step for step, so
//! the safety laws proved about the model hold of the engine itself.

use vstd::prelude::*;
use crate::graph::{AccessKind, Stmt, ValueExpr, ValueKind, Arg};
use crate::diag::ErrorKind;

verus! {

/// The lifecycle position of a value: owned, moved away (at the given
/// statement), or dropped (at the given statement).
pub ghost enum ValueLife {
    Owned,
    Moved(int),
    Dropped(int),
}

/// The positions of an aggregate's field values inside the value table:
/// the fields are the `count` values starting at index `first`.
pub ghost struct FieldSpan {
    pub first: int,
    pub count: int,
}

/// One tracked value.
pub ghost struct ValueModel {
    /// Copy-classification: consumption of a `Primitive` value copies it.
    pub kind: ValueKind,
    /// Element count when the value is a buffer or slice; zero otherwise.
    pub length: u64,
    /// Nesting depth of the scope the value was created in.
    pub depth: int,
    /// Where the value stands in its lifecycle.
    pub life: ValueLife,
    /// For references and slices: the value they point into.
    pub backing: Option<int>,
    /// For references and slices: the access they keep open, extended to
    /// each use of the handle.
    pub handle: Option<int>,
    /// For aggregates: where the field values sit.
    pub fields: Option<FieldSpan>,
}

/// A name bound to a value.
pub ghost struct BindingModel {
    pub name: u64,
    pub value: int,
}

/// One open scope: how long the binding list and the value table were when
/// it was entered.
pub ghost struct FrameModel {
    pub env_mark: int,
    pub val_mark: int,
}

/// One access to a value, spanning statements `[start, end)`; `end` is one
/// past the last statement that used the access.
pub ghost struct AccessModel {
    pub value: int,
    pub kind: AccessKind,
    pub start: int,
    pub end: int,
}

/// One recorded violation.
pub ghost struct ViolationModel {
    pub kind: ErrorKind,
    pub stmt: int,
    pub related: Option<int>,
}

/// The whole analysis state after some prefix of the program.
pub ghost struct StateModel {
    pub values: Seq<ValueModel>,
    pub env: Seq<BindingModel>,
    pub frames: Seq<FrameModel>,
    pub accesses: Seq<AccessModel>,
    pub violations: Seq<ViolationModel>,
}

pub open spec fn state_init() -> StateModel {
    StateModel {
        values: Seq::empty(),
        env: Seq::empty(),
        frames: Seq::empty(),
        accesses: Seq::empty(),
        violations: Seq::empty(),
    }
}

/// The current scope depth.
pub open spec fn depth_of(s: StateModel) -> int {
    s.frames.len() as int
}

/// The index of the visible (most recent) binding for `name`.
pub open spec fn binding_index(env: Seq<BindingModel>, name: u64) -> Option<int>
    decreases env.len(),
{
    if env.len() == 0 {
        None
    } else if env.last().name == name {
        Some(env.len() - 1)
    } else {
        binding_index(env.drop_last(), name)
    }
}

/// The value the visible binding for `name` holds.
pub open spec fn lookup_value(env: Seq<BindingModel>, name: u64) -> Option<int> {
    match binding_index(env, name) {
        Some(j) => Some(env[j].value),
        None => None,
    }
}

/// Records one violation.
pub open spec fn emit(s: StateModel, kind: ErrorKind, stmt: int, related: Option<int>)
    -> StateModel {
    StateModel {
        violations: s.violations.push(ViolationModel { kind, stmt, related }),
        ..s
    }
}

pub open spec fn push_value(s: StateModel, v: ValueModel) -> StateModel {
    StateModel { values: s.values.push(v), ..s }
}

pub open spec fn push_access(s: StateModel, a: AccessModel) -> StateModel {
    StateModel { accesses: s.accesses.push(a), ..s }
}

/// Marks the value at `vid` as moved at statement `i`.
pub open spec fn mark_moved(s: StateModel, vid: int, i: int) -> StateModel {
    StateModel {
        values: s.values.update(vid, ValueModel { life: ValueLife::Moved(i), ..s.values[vid] }),
        ..s
    }
}

/// A scalar value freshly created at depth `d`.
pub open spec fn fresh_scalar(kind: ValueKind, length: u64, d: int) -> ValueModel {
    ValueModel {
        kind,
        length,
        depth: d,
        life: ValueLife::Owned,
        backing: None,
        handle: None,
        fields: None,
    }
}

/// The placeholder a malformed or rejected expression binds: a plain
/// primitive that is not a view into anything.
pub open spec fn poison_value(d: int) -> ValueModel {
    fresh_scalar(ValueKind::Primitive, 0, d)
}

/// An aggregate is copied implicitly exactly when every field is.
pub open spec fn all_primitive(kinds: Seq<ValueKind>) -> bool {
    forall|j: int| 0 <= j < kinds.len() ==> (#[trigger] kinds[j]) is Primitive
}

pub open spec fn aggregate_kind(kinds: Seq<ValueKind>) -> ValueKind {
    if all_primitive(kinds) {
        ValueKind::Primitive
    } else {
        ValueKind::Owned
    }
}

/// Fresh field values of the given kinds, created at depth `d`.
pub open spec fn fresh_children(kinds: Seq<ValueKind>, d: int) -> Seq<ValueModel> {
    Seq::new(kinds.len(), |j: int| fresh_scalar(kinds[j], 0, d))
}

/// The kinds of the fields spanned by `span` in the value table.
pub open spec fn span_kinds(values: Seq<ValueModel>, span: FieldSpan) -> Seq<ValueKind> {
    Seq::new(span.count as nat, |j: int| values[span.first + j].kind)
}

/// The first field in `span` whose value has been moved out, if any.
pub open spec fn moved_field_in(values: Seq<ValueModel>, first: int, count: int) -> Option<int>
    decreases count,
{
    if count <= 0 {
        None
    } else if values[first].life is Moved {
        Some(first)
    } else {
        moved_field_in(values, first + 1, count - 1)
    }
}

/// The statement at which a moved or dropped value left its owner.
pub open spec fn left_at(life: ValueLife) -> int {
    match life {
        ValueLife::Owned => 0,
        ValueLife::Moved(m) => m,
        ValueLife::Dropped(d) => d,
    }
}

/// Whether the value is an aggregate with a moved-out field, and where
/// that field was moved.
pub open spec fn partial_move_of(values: Seq<ValueModel>, v: ValueModel) -> Option<int> {
    match v.fields {
        Some(span) => match moved_field_in(values, span.first, span.count) {
            Some(c) => Some(left_at(values[c].life)),
            None => None,
        },
        None => None,
    }
}

/// Records a `PartialMove` violation when the aggregate has a moved-out
/// field; the identity otherwise.
pub open spec fn check_partial_move(s: StateModel, v: ValueModel, i: int) -> StateModel {
    match partial_move_of(s.values, v) {
        Some(m) => emit(s, ErrorKind::PartialMove, i, Some(m)),
        None => s,
    }
}

/// The value that consuming `v` hands to the new owner: same kind, length
/// and view structure, owned, created at depth `d`; an aggregate gets
/// fresh field values right after it in the table.
pub open spec fn transfer_value(s: StateModel, v: ValueModel, d: int) -> StateModel {
    match v.fields {
        Some(span) => {
            let vid = s.values.len() as int;
            let moved = ValueModel {
                kind: v.kind,
                length: v.length,
                depth: d,
                life: ValueLife::Owned,
                backing: v.backing,
                handle: v.handle,
                fields: Some(FieldSpan { first: vid + 1, count: span.count }),
            };
            let children = fresh_children(span_kinds(s.values, span), d);
            StateModel { values: s.values.push(moved) + children, ..s }
        },
        None => push_value(s, ValueModel {
            kind: v.kind,
            length: v.length,
            depth: d,
            life: ValueLife::Owned,
            backing: v.backing,
            handle: v.handle,
            fields: None,
        }),
    }
}

/// The effect of evaluating the right-hand side of a `Bind` or `Reassign`
/// at statement `i`, creating the result at depth `d`: the new state and
/// the index of the value the result binding will hold.
pub open spec fn eval_expr(s: StateModel, e: ValueExpr, i: int, d: int) -> (StateModel, int) {
    let vid = s.values.len() as int;
    match e {
        ValueExpr::Fresh { kind, length } => {
            (push_value(s, fresh_scalar(kind, length, d)), vid)
        },
        ValueExpr::Aggregate { field_kinds } => {
            let agg = ValueModel {
                kind: aggregate_kind(field_kinds@),
                length: 0,
                depth: d,
                life: ValueLife::Owned,
                backing: None,
                handle: None,
                fields: Some(FieldSpan { first: vid + 1, count: field_kinds@.len() as int }),
            };
            (StateModel {
                values: s.values.push(agg) + fresh_children(field_kinds@, d),
                ..s
            }, vid)
        },
        ValueExpr::Consume { source } => eval_consume(s, source, i, d),
        ValueExpr::Ref { target, access } => eval_ref(s, target, access, i, d),
        ValueExpr::FieldOf { source, field } => eval_field_of(s, source, field, i, d),
    }
}

/// Consumption of a binding: a copy when its value is `Primitive`, a move
/// when it is `Owned`. Consumption claims the source for the instant of
/// statement `i` — exclusively for a move, shared for a copy — so that
/// consuming a borrowed value conflicts with the open access.
pub open spec fn eval_consume(s: StateModel, source: u64, i: int, d: int) -> (StateModel, int) {
    match lookup_value(s.env, source) {
        None => {
            let s1 = emit(s, ErrorKind::UnknownBinding, i, None);
            (push_value(s1, poison_value(d)), s1.values.len() as int)
        },
        Some(vid) => {
            let v = s.values[vid];
            match v.life {
                ValueLife::Owned => {
                    let s1 = check_partial_move(s, v, i);
                    if v.kind is Primitive {
                        let s2 = push_access(s1, AccessModel {
                            value: vid,
                            kind: AccessKind::Shared,
                            start: i,
                            end: i + 1,
                        });
                        (transfer_value(s2, v, d), s2.values.len() as int)
                    } else {
                        let s2 = push_access(s1, AccessModel {
                            value: vid,
                            kind: AccessKind::Exclusive,
                            start: i,
                            end: i + 1,
                        });
                        let s3 = mark_moved(s2, vid, i);
                        (transfer_value(s3, v, d), s3.values.len() as int)
                    }
                },
                _ => {
                    let s1 = emit(s, ErrorKind::UseAfterMove, i, Some(left_at(v.life)));
                    (push_value(s1, poison_value(d)), s1.values.len() as int)
                },
            }
        },
    }
}

/// Borrowing a binding: opens an access on its value and produces a
/// copyable handle tied to that access.
pub open spec fn eval_ref(s: StateModel, target: u64, access: AccessKind, i: int, d: int)
    -> (StateModel, int) {
    match lookup_value(s.env, target) {
        None => {
            let s1 = emit(s, ErrorKind::UnknownBinding, i, None);
            (push_value(s1, poison_value(d)), s1.values.len() as int)
        },
        Some(vid) => {
            let v = s.values[vid];
            match v.life {
                ValueLife::Owned => {
                    let s1 = check_partial_move(s, v, i);
                    let aidx = s1.accesses.len() as int;
                    let s2 = push_access(s1, AccessModel {
                        value: vid,
                        kind: access,
                        start: i,
                        end: i + 1,
                    });
                    (push_value(s2, ValueModel {
                        kind: ValueKind::Primitive,
                        length: v.length,
                        depth: d,
                        life: ValueLife::Owned,
                        backing: Some(vid),
                        handle: Some(aidx),
                        fields: None,
                    }), s2.values.len() as int)
                },
                _ => {
                    let s1 = emit(s, ErrorKind::UseAfterMove, i, Some(left_at(v.life)));
                    (push_value(s1, poison_value(d)), s1.values.len() as int)
                },
            }
        },
    }
}

/// Taking one field out of an aggregate: a copy when the field is
/// `Primitive`, a move (partially invalidating the aggregate) when it is
/// `Owned`.
pub open spec fn eval_field_of(s: StateModel, source: u64, field: u64, i: int, d: int)
    -> (StateModel, int) {
    match lookup_value(s.env, source) {
        None => {
            let s1 = emit(s, ErrorKind::UnknownBinding, i, None);
            (push_value(s1, poison_value(d)), s1.values.len() as int)
        },
        Some(vid) => {
            let v = s.values[vid];
            match v.life {
                ValueLife::Owned => {
                    match v.fields {
                        Some(span) if field < span.count => {
                            let cvid = span.first + field;
                            let c = s.values[cvid];
                            match c.life {
                                ValueLife::Owned => {
                                    if c.kind is Primitive {
                                        let s1 = push_access(s, AccessModel {
                                            value: vid,
                                            kind: AccessKind::Shared,
                                            start: i,
                                            end: i + 1,
                                        });
                                        (push_value(s1, fresh_scalar(c.kind, c.length, d)),
                                            s1.values.len() as int)
                                    } else {
                                        let s1 = push_access(s, AccessModel {
                                            value: vid,
                                            kind: AccessKind::Exclusive,
                                            start: i,
                                            end: i + 1,
                                        });
                                        let s2 = mark_moved(s1, cvid, i);
                                        (push_value(s2, fresh_scalar(c.kind, c.length, d)),
                                            s2.values.len() as int)
                                    }
                                },
                                _ => {
                                    let s1 = emit(s, ErrorKind::UseAfterMove, i,
                                        Some(left_at(c.life)));
                                    (push_value(s1, poison_value(d)), s1.values.len() as int)
                                },
                            }
                        },
                        _ => {
                            let s1 = emit(s, ErrorKind::UnknownBinding, i, None);
                            (push_value(s1, poison_value(d)), s1.values.len() as int)
                        },
                    }
                },
                _ => {
                    let s1 = emit(s, ErrorKind::UseAfterMove, i, Some(left_at(v.life)));
                    (push_value(s1, poison_value(d)), s1.values.len() as int)
                },
            }
        },
    }
}

/// One use of a binding at statement `i`: checks the value is still owned
/// and whole, then either keeps the handle's access alive through this
/// statement or records a point access of the given flavour.
pub open spec fn use_one(s: StateModel, name: u64, access: AccessKind, i: int) -> StateModel {
    match lookup_value(s.env, name) {
        None => emit(s, ErrorKind::UnknownBinding, i, None),
        Some(vid) => {
            let v = s.values[vid];
            match v.life {
                ValueLife::Owned => {
                    let s1 = check_partial_move(s, v, i);
                    match v.handle {
                        Some(h) => {
                            if 0 <= h < s1.accesses.len() {
                                StateModel {
                                    accesses: s1.accesses.update(h, AccessModel {
                                        end: i + 1,
                                        ..s1.accesses[h]
                                    }),
                                    ..s1
                                }
                            } else {
                                s1
                            }
                        },
                        None => push_access(s1, AccessModel {
                            value: vid,
                            kind: access,
                            start: i,
                            end: i + 1,
                        }),
                    }
                },
                _ => emit(s, ErrorKind::UseAfterMove, i, Some(left_at(v.life))),
            }
        },
    }
}

/// The uses a `Call` statement makes, in argument order.
pub open spec fn use_args(s: StateModel, args: Seq<Arg>, i: int) -> StateModel
    decreases args.len(),
{
    if args.len() == 0 {
        s
    } else {
        use_one(use_args(s, args.drop_last(), i), args.last().name, args.last().access, i)
    }
}

/// Binding a name to a value: pushes a new binding (shadowing).
pub open spec fn bind_name(s: StateModel, name: u64, vid: int) -> StateModel {
    StateModel { env: s.env.push(BindingModel { name, value: vid }), ..s }
}

/// The effect of a `SliceOf` statement.
pub open spec fn step_slice(s: StateModel, name: u64, buffer: u64, lo: u64, hi: u64, i: int)
    -> StateModel {
    let d = depth_of(s);
    match lookup_value(s.env, buffer) {
        None => {
            let s1 = emit(s, ErrorKind::UnknownBinding, i, None);
            bind_name(push_value(s1, poison_value(d)), name, s1.values.len() as int)
        },
        Some(bvid) => {
            let v = s.values[bvid];
            match v.life {
                ValueLife::Owned => {
                    if lo > hi || hi > v.length {
                        let s1 = emit(s, ErrorKind::SliceOutOfBounds, i, None);
                        bind_name(push_value(s1, poison_value(d)), name,
                            s1.values.len() as int)
                    } else {
                        let aidx = s.accesses.len() as int;
                        let s1 = push_access(s, AccessModel {
                            value: bvid,
                            kind: AccessKind::Shared,
                            start: i,
                            end: i + 1,
                        });
                        bind_name(push_value(s1, ValueModel {
                            kind: ValueKind::Primitive,
                            length: (hi - lo) as u64,
                            depth: d,
                            life: ValueLife::Owned,
                            backing: Some(bvid),
                            handle: Some(aidx),
                            fields: None,
                        }), name, s1.values.len() as int)
                    }
                },
                _ => {
                    let s1 = emit(s, ErrorKind::UseAfterMove, i, Some(left_at(v.life)));
                    bind_name(push_value(s1, poison_value(d)), name, s1.values.len() as int)
                },
            }
        },
    }
}

/// The effect of an `ExitScope` statement: every value the scope still
/// owns is dropped at `i`, and the scope's bindings disappear. A value
/// created in the scope but reassigned into an outer binding carries the
/// outer binding's depth and is explicitly moved out, so it survives.
pub open spec fn step_exit(s: StateModel, i: int) -> StateModel {
    if s.frames.len() == 0 {
        s
    } else {
        let f = s.frames.last();
        let em = if 0 <= f.env_mark <= s.env.len() { f.env_mark } else { s.env.len() as int };
        let vm = f.val_mark;
        StateModel {
            values: Seq::new(s.values.len(), |j: int|
                if j >= vm && s.values[j].life is Owned
                    && s.values[j].depth >= s.frames.len() {
                    ValueModel { life: ValueLife::Dropped(i), ..s.values[j] }
                } else {
                    s.values[j]
                }),
            env: s.env.take(em),
            frames: s.frames.drop_last(),
            ..s
        }
    }
}

/// The effect of a `Return` statement: a shared use of the result binding,
/// plus a `DanglingReturn` when the result is a reference or slice whose
/// backing value was created in the returning scope (or deeper).
pub open spec fn step_return(s: StateModel, name: u64, i: int) -> StateModel {
    let s1 = use_one(s, name, AccessKind::Shared, i);
    match lookup_value(s.env, name) {
        Some(vid) => {
            let v = s.values[vid];
            if v.life is Owned && v.backing is Some
                && 0 <= v.backing->0 < s.values.len()
                && s.values[v.backing->0].depth >= depth_of(s) {
                emit(s1, ErrorKind::DanglingReturn, i, None)
            } else {
                s1
            }
        },
        None => s1,
    }
}

/// The exact effect of statement `stmt`, standing at index `i`, on the
/// analysis state.
pub open spec fn step(s: StateModel, stmt: Stmt, i: int) -> StateModel {
    match stmt {
        Stmt::Bind { name, expr } => {
            let (s1, vid) = eval_expr(s, expr, i, depth_of(s));
            bind_name(s1, name, vid)
        },
        Stmt::Reassign { name, expr } => {
            match binding_index(s.env, name) {
                None => {
                    let (s1, vid) = eval_expr(s, expr, i, depth_of(s));
                    bind_name(s1, name, vid)
                },
                Some(j) => {
                    let old_vid = s.env[j].value;
                    let d = s.values[old_vid].depth;
                    let (s1, vid) = eval_expr(s, expr, i, d);
                    let s2 = if 0 <= old_vid < s1.values.len()
                        && s1.values[old_vid].life is Owned {
                        StateModel {
                            values: s1.values.update(old_vid, ValueModel {
                                life: ValueLife::Dropped(i),
                                ..s1.values[old_vid]
                            }),
                            ..s1
                        }
                    } else {
                        s1
                    };
                    StateModel {
                        env: s2.env.update(j, BindingModel { name, value: vid }),
                        ..s2
                    }
                },
            }
        },
        Stmt::Use { name, access } => use_one(s, name, access, i),
        Stmt::Call { args } => use_args(s, args@, i),
        Stmt::SliceOf { name, buffer, lo, hi } => step_slice(s, name, buffer, lo, hi, i),
        Stmt::EnterScope => {
            StateModel {
                frames: s.frames.push(FrameModel {
                    env_mark: s.env.len() as int,
                    val_mark: s.values.len() as int,
                }),
                ..s
            }
        },
        Stmt::ExitScope => step_exit(s, i),
        Stmt::Return { name } => {
            match name {
                Some(n) => step_return(s, n, i),
                None => s,
            }
        },
    }
}

/// The analysis state after the first `n` statements.
pub open spec fn run_to(stmts: Seq<Stmt>, n: int) -> StateModel
    decreases n,
{
    if n <= 0 {
        state_init()
    } else {
        step(run_to(stmts, n - 1), stmts[n - 1], n - 1)
    }
}

/// Well-formedness of one value with respect to the whole state: all its
/// cross-references stay inside the tables, and a `Primitive` value is
/// never in the `Moved` state (consuming it copies).
pub open spec fn wf_value(s: StateModel, v: ValueModel) -> bool {
    &&& (v.backing is Some ==> 0 <= v.backing->0 < s.values.len())
    &&& (v.handle is Some ==> 0 <= v.handle->0 < s.accesses.len())
    &&& (v.fields is Some ==> 0 <= v.fields->Some_0.first
        && 0 <= v.fields->Some_0.count
        && v.fields->Some_0.first + v.fields->Some_0.count <= s.values.len())
    &&& (v.kind is Primitive ==> !(v.life is Moved))
}

/// The internal invariant of the analysis state. In particular, no two
/// bindings ever name the same value: ownership is single.
pub open spec fn state_wf(s: StateModel) -> bool {
    &&& forall|j: int| 0 <= j < s.env.len()
        ==> 0 <= (#[trigger] s.env[j]).value < s.values.len()
    &&& forall|j: int, k: int| 0 <= j < k < s.env.len()
        ==> (#[trigger] s.env[j]).value != (#[trigger] s.env[k]).value
    &&& forall|j: int| 0 <= j < s.values.len() ==> wf_value(s, #[trigger] s.values[j])
    &&& forall|j: int| 0 <= j < s.frames.len()
        ==> 0 <= (#[trigger] s.frames[j]).env_mark <= s.env.len()
            && 0 <= s.frames[j].val_mark <= s.values.len()
    &&& forall|j: int, k: int| 0 <= j <= k < s.frames.len()
        ==> (#[trigger] s.frames[j]).env_mark <= (#[trigger] s.frames[k]).env_mark
            && s.frames[j].val_mark <= s.frames[k].val_mark
    &&& forall|j: int| 0 <= j < s.accesses.len()
        ==> 0 <= (#[trigger] s.accesses[j]).value < s.values.len()
}

/// What `binding_index` finds: the last binding with the given name.
pub proof fn lemma_binding_index(env: Seq<BindingModel>, name: u64)
    ensures
        match binding_index(env, name) {
            Some(j) => 0 <= j < env.len() && env[j].name == name
                && forall|k: int| j < k < env.len() ==> (#[trigger] env[k]).name != name,
            None => forall|k: int| 0 <= k < env.len() ==> (#[trigger] env[k]).name != name,
        },
    decreases env.len(),
{
    if env.len() > 0 && env.last().name != name {
        let tail = env.drop_last();
        lemma_binding_index(tail, name);
        match binding_index(tail, name) {
            Some(j) => {
                assert(env[j] == tail[j]);
                assert forall|k: int| j < k < env.len()
                    implies (#[trigger] env[k]).name != name by {
                    if k < env.len() - 1 {
                        assert(env[k] == tail[k]);
                    }
                }
            },
            None => {
                assert forall|k: int| 0 <= k < env.len()
                    implies (#[trigger] env[k]).name != name by {
                    if k < env.len() - 1 {
                        assert(env[k] == tail[k]);
                    }
                }
            },
        }
    }
}

/// Evaluating an expression preserves the invariant, leaves bindings and
/// scopes alone, only appends to the value and access tables, and hands
/// back a freshly created value.
pub proof fn lemma_eval_wf(s: StateModel, e: ValueExpr, i: int, d: int)
    requires
        state_wf(s),
    ensures
        state_wf(eval_expr(s, e, i, d).0),
        eval_expr(s, e, i, d).0.env == s.env,
        eval_expr(s, e, i, d).0.frames == s.frames,
        s.values.len() <= eval_expr(s, e, i, d).1 < eval_expr(s, e, i, d).0.values.len(),
        s.values.len() <= eval_expr(s, e, i, d).0.values.len(),
        s.accesses.len() <= eval_expr(s, e, i, d).0.accesses.len(),
{
    lemma_binding_index(s.env, match e {
        ValueExpr::Consume { source } => source,
        ValueExpr::Ref { target, .. } => target,
        ValueExpr::FieldOf { source, .. } => source,
        _ => 0,
    });
    let r = eval_expr(s, e, i, d);
    assert forall|j: int| 0 <= j < r.0.values.len()
        implies wf_value(r.0, #[trigger] r.0.values[j]) by {
        if j < s.values.len() {
            assert(wf_value(s, s.values[j]));
        }
    }
}

/// One use preserves the invariant and touches only accesses and
/// violations.
pub proof fn lemma_use_one_wf(s: StateModel, name: u64, access: AccessKind, i: int)
    requires
        state_wf(s),
    ensures
        state_wf(use_one(s, name, access, i)),
        use_one(s, name, access, i).env == s.env,
        use_one(s, name, access, i).frames == s.frames,
        use_one(s, name, access, i).values == s.values,
        s.accesses.len() <= use_one(s, name, access, i).accesses.len(),
{
    lemma_binding_index(s.env, name);
    let r = use_one(s, name, access, i);
    assert forall|j: int| 0 <= j < r.values.len()
        implies wf_value(r, #[trigger] r.values[j]) by {
        assert(wf_value(s, s.values[j]));
    }
}

/// A whole argument list of uses preserves the invariant.
pub proof fn lemma_use_args_wf(s: StateModel, args: Seq<Arg>, i: int)
    requires
        state_wf(s),
    ensures
        state_wf(use_args(s, args, i)),
        use_args(s, args, i).env == s.env,
        use_args(s, args, i).frames == s.frames,
        use_args(s, args, i).values == s.values,
    decreases args.len(),
{
    if args.len() > 0 {
        lemma_use_args_wf(s, args.drop_last(), i);
        lemma_use_one_wf(use_args(s, args.drop_last(), i), args.last().name,
            args.last().access, i);
    }
}

/// Folding one more argument onto a prefix of the argument list.
pub proof fn lemma_use_args_snoc(s: StateModel, args: Seq<Arg>, k: int, i: int)
    requires
        0 <= k < args.len(),
    ensures
        use_args(s, args.take(k + 1), i)
            == use_one(use_args(s, args.take(k), i), args[k].name, args[k].access, i),
{
    assert(args.take(k + 1).drop_last() =~= args.take(k));
    assert(args.take(k + 1).last() == args[k]);
}

/// One analysis step preserves the invariant.
pub proof fn lemma_step_wf(s: StateModel, stmt: Stmt, i: int)
    requires
        state_wf(s),
    ensures
        state_wf(step(s, stmt, i)),
{
    match stmt {
        Stmt::Bind { name, expr } => {
            lemma_eval_wf(s, expr, i, depth_of(s));
        },
        Stmt::Reassign { name, expr } => {
            lemma_binding_index(s.env, name);
            match binding_index(s.env, name) {
                None => {
                    lemma_eval_wf(s, expr, i, depth_of(s));
                },
                Some(j) => {
                    let old_vid = s.env[j].value;
                    let d = s.values[old_vid].depth;
                    lemma_eval_wf(s, expr, i, d);
                    let r = eval_expr(s, expr, i, d);
                    let s2 = step(s, stmt, i);
                    assert forall|k: int| 0 <= k < s2.values.len()
                        implies wf_value(s2, #[trigger] s2.values[k]) by {
                        assert(wf_value(r.0, r.0.values[k]));
                    }
                },
            }
        },
        Stmt::Use { name, access } => {
            lemma_use_one_wf(s, name, access, i);
        },
        Stmt::Call { args } => {
            lemma_use_args_wf(s, args@, i);
        },
        Stmt::SliceOf { name, buffer, lo, hi } => {
            lemma_binding_index(s.env, buffer);
            let s2 = step(s, stmt, i);
            assert forall|k: int| 0 <= k < s2.values.len()
                implies wf_value(s2, #[trigger] s2.values[k]) by {
                if k < s.values.len() {
                    assert(wf_value(s, s.values[k]));
                }
            }
        },
        Stmt::EnterScope => {},
        Stmt::ExitScope => {
            let s2 = step(s, stmt, i);
            assert forall|k: int| 0 <= k < s2.values.len()
                implies wf_value(s2, #[trigger] s2.values[k]) by {
                assert(wf_value(s, s.values[k]));
            }
        },
        Stmt::Return { name } => {
            match name {
                Some(n) => {
                    lemma_use_one_wf(s, n, AccessKind::Shared, i);
                },
                None => {},
            }
        },
    }
}

/// The analysis state is well formed after every prefix of every program.
pub proof fn lemma_run_wf(stmts: Seq<Stmt>, n: int)
    ensures
        state_wf(run_to(stmts, n)),
    decreases n,
{
    if n <= 0 {
        assert(state_wf(state_init()));
    } else {
        lemma_run_wf(stmts, n - 1);
        lemma_step_wf(run_to(stmts, n - 1), stmts[n - 1], n - 1);
    }
}

} // verus!
