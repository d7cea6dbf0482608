//! The executable analysis sweep.
//!
//! [`Tracker`] holds the per-run state — value table, bindings, open
//! scopes, access intervals, and violations found so far — and each of its
//! methods is proved to have exactly the effect the model in [`crate::model`]
//! prescribes.

use vstd::prelude::*;
use crate::graph::{AccessKind, Stmt, ValueExpr, ValueKind};
use crate::diag::{ErrorKind, Violation};
use crate::model;
use crate::model::{StateModel, ValueLife, ValueModel};

verus! {

/// Where a value stands in its lifecycle; the payload is the statement at
/// which it was moved or dropped.
#[derive(Debug, Clone, Copy, PartialEq, Eq, Structural)]
pub enum ValueState {
    Owned,
    Moved(usize),
    Dropped(usize),
}

/// The positions of an aggregate's field values in the value table.
#[derive(Debug, Clone, Copy, PartialEq, Eq, Structural)]
pub struct FieldSpan {
    pub first: usize,
    pub count: usize,
}

/// One tracked value; see [`model::ValueModel`] for the meaning of the
/// fields.
#[derive(Debug, Clone, Copy)]
pub struct Value {
    pub kind: ValueKind,
    pub length: u64,
    pub depth: usize,
    pub state: ValueState,
    pub backing: Option<usize>,
    pub handle: Option<usize>,
    pub fields: Option<FieldSpan>,
}

/// A name bound to a value table index.
#[derive(Debug, Clone, Copy)]
pub struct Binding {
    pub name: u64,
    pub value: usize,
}

/// One open scope.
#[derive(Debug, Clone, Copy)]
pub struct Frame {
    pub env_mark: usize,
    pub val_mark: usize,
}

/// One access interval `[start, end)` on a value.
#[derive(Debug, Clone, Copy)]
pub struct Access {
    pub value: usize,
    pub kind: AccessKind,
    pub start: usize,
    pub end: usize,
}

pub open spec fn opt_int(o: Option<usize>) -> Option<int> {
    match o {
        Some(x) => Some(x as int),
        None => None,
    }
}

impl View for Value {
    type V = ValueModel;

    open spec fn view(&self) -> ValueModel {
        ValueModel {
            kind: self.kind,
            length: self.length,
            depth: self.depth as int,
            life: match self.state {
                ValueState::Owned => ValueLife::Owned,
                ValueState::Moved(m) => ValueLife::Moved(m as int),
                ValueState::Dropped(d) => ValueLife::Dropped(d as int),
            },
            backing: opt_int(self.backing),
            handle: opt_int(self.handle),
            fields: match self.fields {
                Some(sp) => Some(model::FieldSpan {
                    first: sp.first as int,
                    count: sp.count as int,
                }),
                None => None,
            },
        }
    }
}

impl View for Binding {
    type V = model::BindingModel;

    open spec fn view(&self) -> model::BindingModel {
        model::BindingModel { name: self.name, value: self.value as int }
    }
}

impl View for Frame {
    type V = model::FrameModel;

    open spec fn view(&self) -> model::FrameModel {
        model::FrameModel { env_mark: self.env_mark as int, val_mark: self.val_mark as int }
    }
}

impl View for Access {
    type V = model::AccessModel;

    open spec fn view(&self) -> model::AccessModel {
        model::AccessModel {
            value: self.value as int,
            kind: self.kind,
            start: self.start as int,
            end: self.end as int,
        }
    }
}

impl View for Violation {
    type V = model::ViolationModel;

    open spec fn view(&self) -> model::ViolationModel {
        model::ViolationModel {
            kind: self.kind,
            stmt: self.stmt as int,
            related: opt_int(self.related),
        }
    }
}

/// The per-run analysis state.
pub struct Tracker {
    pub values: Vec<Value>,
    pub env: Vec<Binding>,
    pub frames: Vec<Frame>,
    pub accesses: Vec<Access>,
    pub violations: Vec<Violation>,
}

/// The tracker realises exactly the model state `m`.
pub open spec fn abs_match(t: &Tracker, m: StateModel) -> bool {
    &&& m.values.len() == t.values@.len()
    &&& forall|j: int| 0 <= j < m.values.len() ==> m.values[j] == (#[trigger] t.values@[j])@
    &&& m.env.len() == t.env@.len()
    &&& forall|j: int| 0 <= j < m.env.len() ==> m.env[j] == (#[trigger] t.env@[j])@
    &&& m.frames.len() == t.frames@.len()
    &&& forall|j: int| 0 <= j < m.frames.len() ==> m.frames[j] == (#[trigger] t.frames@[j])@
    &&& m.accesses.len() == t.accesses@.len()
    &&& forall|j: int| 0 <= j < m.accesses.len()
        ==> m.accesses[j] == (#[trigger] t.accesses@[j])@
    &&& m.violations.len() == t.violations@.len()
    &&& forall|j: int| 0 <= j < m.violations.len()
        ==> m.violations[j] == (#[trigger] t.violations@[j])@
}

impl Tracker {
    /// An empty state, matching `state_init`.
    pub fn new() -> (t: Tracker)
        ensures
            abs_match(&t, model::state_init()),
    {
        Tracker {
            values: Vec::new(),
            env: Vec::new(),
            frames: Vec::new(),
            accesses: Vec::new(),
            violations: Vec::new(),
        }
    }

    /// Records one violation.
    fn emit_v(&mut self, kind: ErrorKind, stmt: usize, related: Option<usize>,
        Ghost(m): Ghost<StateModel>)
        requires
            abs_match(old(self), m),
        ensures
            abs_match(final(self), model::emit(m, kind, stmt as int, opt_int(related))),
    {
        self.violations.push(Violation { kind, stmt, related });
    }

    /// The index of the visible binding for `name`.
    fn find_binding(&self, name: u64, Ghost(m): Ghost<StateModel>) -> (r: Option<usize>)
        requires
            abs_match(self, m),
        ensures
            opt_int(r) == model::binding_index(m.env, name),
            r is Some ==> r->0 < self.env@.len(),
    {
        proof {
            model::lemma_binding_index(m.env, name);
        }
        let mut k: usize = self.env.len();
        while k > 0
            invariant
                0 <= k <= self.env@.len(),
                abs_match(self, m),
                forall|j: int| k <= j < m.env.len() ==> (#[trigger] m.env[j]).name != name,
            decreases k,
        {
            k = k - 1;
            if self.env[k].name == name {
                proof {
                    model::lemma_binding_index(m.env, name);
                    assert(m.env[k as int].name == name);
                }
                return Some(k);
            }
        }
        proof {
            model::lemma_binding_index(m.env, name);
        }
        None
    }

    /// The value index the visible binding for `name` holds.
    fn lookup_vid(&self, name: u64, Ghost(m): Ghost<StateModel>) -> (r: Option<usize>)
        requires
            abs_match(self, m),
        ensures
            opt_int(r) == model::lookup_value(m.env, name),
            r is Some ==> r->0 < self.values@.len() || !model::state_wf(m),
    {
        proof {
            model::lemma_binding_index(m.env, name);
        }
        match self.find_binding(name, Ghost(m)) {
            Some(j) => Some(self.env[j].value),
            None => None,
        }
    }

    /// Emits `PartialMove` when the value at `vid` is an aggregate with a
    /// moved-out field.
    fn note_partial_move(&mut self, vid: usize, i: usize, Ghost(m): Ghost<StateModel>)
        requires
            abs_match(old(self), m),
            model::state_wf(m),
            vid < old(self).values@.len(),
        ensures
            abs_match(final(self), model::check_partial_move(m, m.values[vid as int], i as int)),
    {
        let v = self.values[vid];
        let ghost vm = m.values[vid as int];
        match v.fields {
            None => {},
            Some(span) => {
                let nv = self.values.len();
                proof {
                    assert(model::wf_value(m, vm));
                    assert(span.first + span.count <= nv);
                }
                let mut j: usize = 0;
                while j < span.count
                    invariant
                        0 <= j <= span.count,
                        abs_match(self, m),
                        model::state_wf(m),
                        vid < self.values@.len(),
                        m.values[vid as int].fields == Some(model::FieldSpan {
                            first: span.first as int,
                            count: span.count as int,
                        }),
                        span.first + span.count <= self.values@.len(),
                        span.first + span.count <= usize::MAX,
                        model::moved_field_in(m.values, span.first as int, span.count as int)
                            == model::moved_field_in(m.values, span.first + j,
                                span.count - j),
                    decreases span.count - j,
                {
                    let c = self.values[span.first + j];
                    match c.state {
                        ValueState::Moved(mm) => {
                            proof {
                                assert(m.values[span.first + j].life == ValueLife::Moved(
                                    mm as int));
                            }
                            self.emit_v(ErrorKind::PartialMove, i, Some(mm), Ghost(m));
                            return;
                        },
                        _ => {},
                    }
                    j = j + 1;
                }
            },
        }
    }

    /// Pushes a fresh poison value and returns its index.
    fn push_poison(&mut self, d: usize, Ghost(m): Ghost<StateModel>) -> (vid: usize)
        requires
            abs_match(old(self), m),
        ensures
            abs_match(final(self), model::push_value(m, model::poison_value(d as int))),
            vid == old(self).values@.len(),
    {
        let vid = self.values.len();
        self.values.push(Value {
            kind: ValueKind::Primitive,
            length: 0,
            depth: d,
            state: ValueState::Owned,
            backing: None,
            handle: None,
            fields: None,
        });
        vid
    }

    /// One use of a binding, following `model::use_one`.
    fn use_one_x(&mut self, name: u64, access: AccessKind, i: usize,
        Ghost(m): Ghost<StateModel>)
        requires
            abs_match(old(self), m),
            model::state_wf(m),
            i < usize::MAX,
        ensures
            abs_match(final(self), model::use_one(m, name, access, i as int)),
    {
        match self.lookup_vid(name, Ghost(m)) {
            None => {
                self.emit_v(ErrorKind::UnknownBinding, i, None, Ghost(m));
            },
            Some(vid) => {
                let v = self.values[vid];
                match v.state {
                    ValueState::Owned => {
                        self.note_partial_move(vid, i, Ghost(m));
                        let ghost m1 = model::check_partial_move(m, m.values[vid as int],
                            i as int);
                        match v.handle {
                            Some(h) => {
                                if h < self.accesses.len() {
                                    let a = self.accesses[h];
                                    self.accesses[h] = Access { end: i + 1, ..a };
                                }
                            },
                            None => {
                                self.accesses.push(Access {
                                    value: vid,
                                    kind: access,
                                    start: i,
                                    end: i + 1,
                                });
                            },
                        }
                    },
                    ValueState::Moved(mm) => {
                        self.emit_v(ErrorKind::UseAfterMove, i, Some(mm), Ghost(m));
                    },
                    ValueState::Dropped(dd) => {
                        self.emit_v(ErrorKind::UseAfterMove, i, Some(dd), Ghost(m));
                    },
                }
            },
        }
    }

    /// Hands the consumed value `v` to a new owner at depth `d`, following
    /// `model::transfer_value`.
    fn transfer_x(&mut self, v: Value, d: usize, Ghost(m): Ghost<StateModel>) -> (rvid: usize)
        requires
            abs_match(old(self), m),
            match v@.fields {
                Some(span) => 0 <= span.first && 0 <= span.count
                    && span.first + span.count <= old(self).values@.len(),
                None => true,
            },
        ensures
            abs_match(final(self), model::transfer_value(m, v@, d as int)),
            rvid == old(self).values@.len(),
    {
        let rvid = self.values.len();
        match v.fields {
            None => {
                self.values.push(Value {
                    kind: v.kind,
                    length: v.length,
                    depth: d,
                    state: ValueState::Owned,
                    backing: v.backing,
                    handle: v.handle,
                    fields: None,
                });
            },
            Some(span) => {
                self.values.push(Value {
                    kind: v.kind,
                    length: v.length,
                    depth: d,
                    state: ValueState::Owned,
                    backing: v.backing,
                    handle: v.handle,
                    fields: None,
                });
                let first = self.values.len();
                self.values[rvid].fields = Some(FieldSpan { first, count: span.count });
                let ghost mt = model::transfer_value(m, v@, d as int);
                let mut j: usize = 0;
                while j < span.count
                    invariant
                        0 <= j <= span.count,
                        span.first + span.count <= m.values.len(),
                        first == m.values.len() + 1,
                        self.values@.len() == m.values.len() + 1 + j,
                        mt == model::transfer_value(m, v@, d as int),
                        v@.fields == Some(model::FieldSpan {
                            first: span.first as int,
                            count: span.count as int,
                        }),
                        mt.values.len() == m.values.len() + 1 + span.count,
                        forall|k: int| 0 <= k < self.values@.len()
                            ==> mt.values[k] == (#[trigger] self.values@[k])@,
                        mt.env.len() == self.env@.len(),
                        forall|k: int| 0 <= k < mt.env.len()
                            ==> mt.env[k] == (#[trigger] self.env@[k])@,
                        mt.frames.len() == self.frames@.len(),
                        forall|k: int| 0 <= k < mt.frames.len()
                            ==> mt.frames[k] == (#[trigger] self.frames@[k])@,
                        mt.accesses.len() == self.accesses@.len(),
                        forall|k: int| 0 <= k < mt.accesses.len()
                            ==> mt.accesses[k] == (#[trigger] self.accesses@[k])@,
                        mt.violations.len() == self.violations@.len(),
                        forall|k: int| 0 <= k < mt.violations.len()
                            ==> mt.violations[k] == (#[trigger] self.violations@[k])@,
                        forall|k: int| 0 <= k < m.values.len()
                            ==> m.values[k] == (#[trigger] self.values@[k])@,
                    decreases span.count - j,
                {
                    let c = self.values[span.first + j];
                    self.values.push(Value {
                        kind: c.kind,
                        length: 0,
                        depth: d,
                        state: ValueState::Owned,
                        backing: None,
                        handle: None,
                        fields: None,
                    });
                    j = j + 1;
                }
            },
        }
        rvid
    }

    /// Whether every kind in the list is `Primitive`.
    fn all_primitive_x(kinds: &Vec<ValueKind>) -> (r: bool)
        ensures
            r == model::all_primitive(kinds@),
    {
        let mut j: usize = 0;
        let n = kinds.len();
        while j < n
            invariant
                0 <= j <= n,
                n == kinds@.len(),
                forall|k: int| 0 <= k < j ==> (#[trigger] kinds@[k]) is Primitive,
            decreases n - j,
        {
            match kinds[j] {
                ValueKind::Primitive => {},
                ValueKind::Owned => {
                    return false;
                },
            }
            j = j + 1;
        }
        true
    }

    /// A fresh aggregate with the given field kinds, following the
    /// `Aggregate` arm of `model::eval_expr`.
    fn eval_aggregate_x(&mut self, field_kinds: &Vec<ValueKind>, d: usize,
        Ghost(m): Ghost<StateModel>) -> (rvid: usize)
        requires
            abs_match(old(self), m),
        ensures
            abs_match(final(self), StateModel {
                values: m.values.push(ValueModel {
                    kind: model::aggregate_kind(field_kinds@),
                    length: 0,
                    depth: d as int,
                    life: ValueLife::Owned,
                    backing: None,
                    handle: None,
                    fields: Some(model::FieldSpan {
                        first: m.values.len() as int + 1,
                        count: field_kinds@.len() as int,
                    }),
                }).add(model::fresh_children(field_kinds@, d as int)),
                ..m
            }),
            rvid == old(self).values@.len(),
    {
        let kind = if Self::all_primitive_x(field_kinds) {
            ValueKind::Primitive
        } else {
            ValueKind::Owned
        };
        let rvid = self.values.len();
        self.values.push(Value {
            kind,
            length: 0,
            depth: d,
            state: ValueState::Owned,
            backing: None,
            handle: None,
            fields: None,
        });
        let first = self.values.len();
        let count = field_kinds.len();
        self.values[rvid].fields = Some(FieldSpan { first, count });
        let ghost mt = StateModel {
            values: m.values.push(ValueModel {
                kind: model::aggregate_kind(field_kinds@),
                length: 0,
                depth: d as int,
                life: ValueLife::Owned,
                backing: None,
                handle: None,
                fields: Some(model::FieldSpan {
                    first: m.values.len() as int + 1,
                    count: field_kinds@.len() as int,
                }),
            }).add(model::fresh_children(field_kinds@, d as int)),
            ..m
        };
        let mut j: usize = 0;
        while j < count
            invariant
                0 <= j <= count,
                count == field_kinds@.len(),
                self.values@.len() == m.values.len() + 1 + j,
                mt.values.len() == m.values.len() + 1 + count,
                mt == (StateModel {
                    values: m.values.push(ValueModel {
                        kind: model::aggregate_kind(field_kinds@),
                        length: 0,
                        depth: d as int,
                        life: ValueLife::Owned,
                        backing: None,
                        handle: None,
                        fields: Some(model::FieldSpan {
                            first: m.values.len() as int + 1,
                            count: field_kinds@.len() as int,
                        }),
                    }).add(model::fresh_children(field_kinds@, d as int)),
                    ..m
                }),
                forall|k: int| 0 <= k < self.values@.len()
                    ==> mt.values[k] == (#[trigger] self.values@[k])@,
                mt.env.len() == self.env@.len(),
                forall|k: int| 0 <= k < mt.env.len()
                    ==> mt.env[k] == (#[trigger] self.env@[k])@,
                mt.frames.len() == self.frames@.len(),
                forall|k: int| 0 <= k < mt.frames.len()
                    ==> mt.frames[k] == (#[trigger] self.frames@[k])@,
                mt.accesses.len() == self.accesses@.len(),
                forall|k: int| 0 <= k < mt.accesses.len()
                    ==> mt.accesses[k] == (#[trigger] self.accesses@[k])@,
                mt.violations.len() == self.violations@.len(),
                forall|k: int| 0 <= k < mt.violations.len()
                    ==> mt.violations[k] == (#[trigger] self.violations@[k])@,
            decreases count - j,
        {
            self.values.push(Value {
                kind: field_kinds[j],
                length: 0,
                depth: d,
                state: ValueState::Owned,
                backing: None,
                handle: None,
                fields: None,
            });
            j = j + 1;
        }
        rvid
    }

    /// Consumption of a binding, following `model::eval_consume`.
    fn eval_consume_x(&mut self, source: u64, i: usize, d: usize,
        Ghost(m): Ghost<StateModel>) -> (rvid: usize)
        requires
            abs_match(old(self), m),
            model::state_wf(m),
            i < usize::MAX,
        ensures
            abs_match(final(self), model::eval_consume(m, source, i as int, d as int).0),
            rvid as int == model::eval_consume(m, source, i as int, d as int).1,
    {
        match self.lookup_vid(source, Ghost(m)) {
            None => {
                self.emit_v(ErrorKind::UnknownBinding, i, None, Ghost(m));
                let ghost me = model::emit(m, ErrorKind::UnknownBinding, i as int, None);
                self.push_poison(d, Ghost(me))
            },
            Some(vid) => {
                let v = self.values[vid];
                match v.state {
                    ValueState::Owned => {
                        proof {
                            assert(model::wf_value(m, m.values[vid as int]));
                        }
                        self.note_partial_move(vid, i, Ghost(m));
                        let ghost m1 = model::check_partial_move(m, m.values[vid as int],
                            i as int);
                        match v.kind {
                            ValueKind::Primitive => {
                                self.accesses.push(Access {
                                    value: vid,
                                    kind: AccessKind::Shared,
                                    start: i,
                                    end: i + 1,
                                });
                                let ghost m2 = model::push_access(m1, model::AccessModel {
                                    value: vid as int,
                                    kind: AccessKind::Shared,
                                    start: i as int,
                                    end: i + 1,
                                });
                                self.transfer_x(v, d, Ghost(m2))
                            },
                            ValueKind::Owned => {
                                self.accesses.push(Access {
                                    value: vid,
                                    kind: AccessKind::Exclusive,
                                    start: i,
                                    end: i + 1,
                                });
                                let ghost m2 = model::push_access(m1, model::AccessModel {
                                    value: vid as int,
                                    kind: AccessKind::Exclusive,
                                    start: i as int,
                                    end: i + 1,
                                });
                                self.values[vid].state = ValueState::Moved(i);
                                let ghost m3 = model::mark_moved(m2, vid as int, i as int);
                                self.transfer_x(v, d, Ghost(m3))
                            },
                        }
                    },
                    ValueState::Moved(mm) => {
                        self.emit_v(ErrorKind::UseAfterMove, i, Some(mm), Ghost(m));
                        let ghost me = model::emit(m, ErrorKind::UseAfterMove, i as int,
                            Some(mm as int));
                        self.push_poison(d, Ghost(me))
                    },
                    ValueState::Dropped(dd) => {
                        self.emit_v(ErrorKind::UseAfterMove, i, Some(dd), Ghost(m));
                        let ghost me = model::emit(m, ErrorKind::UseAfterMove, i as int,
                            Some(dd as int));
                        self.push_poison(d, Ghost(me))
                    },
                }
            },
        }
    }

    /// Borrowing a binding, following `model::eval_ref`.
    fn eval_ref_x(&mut self, target: u64, access: AccessKind, i: usize, d: usize,
        Ghost(m): Ghost<StateModel>) -> (rvid: usize)
        requires
            abs_match(old(self), m),
            model::state_wf(m),
            i < usize::MAX,
        ensures
            abs_match(final(self), model::eval_ref(m, target, access, i as int, d as int).0),
            rvid as int == model::eval_ref(m, target, access, i as int, d as int).1,
    {
        match self.lookup_vid(target, Ghost(m)) {
            None => {
                self.emit_v(ErrorKind::UnknownBinding, i, None, Ghost(m));
                let ghost me = model::emit(m, ErrorKind::UnknownBinding, i as int, None);
                self.push_poison(d, Ghost(me))
            },
            Some(vid) => {
                let v = self.values[vid];
                match v.state {
                    ValueState::Owned => {
                        self.note_partial_move(vid, i, Ghost(m));
                        let ghost m1 = model::check_partial_move(m, m.values[vid as int],
                            i as int);
                        let aidx = self.accesses.len();
                        self.accesses.push(Access {
                            value: vid,
                            kind: access,
                            start: i,
                            end: i + 1,
                        });
                        let rvid = self.values.len();
                        self.values.push(Value {
                            kind: ValueKind::Primitive,
                            length: v.length,
                            depth: d,
                            state: ValueState::Owned,
                            backing: Some(vid),
                            handle: Some(aidx),
                            fields: None,
                        });
                        rvid
                    },
                    ValueState::Moved(mm) => {
                        self.emit_v(ErrorKind::UseAfterMove, i, Some(mm), Ghost(m));
                        let ghost me = model::emit(m, ErrorKind::UseAfterMove, i as int,
                            Some(mm as int));
                        self.push_poison(d, Ghost(me))
                    },
                    ValueState::Dropped(dd) => {
                        self.emit_v(ErrorKind::UseAfterMove, i, Some(dd), Ghost(m));
                        let ghost me = model::emit(m, ErrorKind::UseAfterMove, i as int,
                            Some(dd as int));
                        self.push_poison(d, Ghost(me))
                    },
                }
            },
        }
    }

    /// Taking a field out of an aggregate, following `model::eval_field_of`.
    fn eval_field_x(&mut self, source: u64, field: u64, i: usize, d: usize,
        Ghost(m): Ghost<StateModel>) -> (rvid: usize)
        requires
            abs_match(old(self), m),
            model::state_wf(m),
            i < usize::MAX,
        ensures
            abs_match(final(self), model::eval_field_of(m, source, field, i as int,
                d as int).0),
            rvid as int == model::eval_field_of(m, source, field, i as int, d as int).1,
    {
        match self.lookup_vid(source, Ghost(m)) {
            None => {
                self.emit_v(ErrorKind::UnknownBinding, i, None, Ghost(m));
                let ghost me = model::emit(m, ErrorKind::UnknownBinding, i as int, None);
                self.push_poison(d, Ghost(me))
            },
            Some(vid) => {
                let v = self.values[vid];
                match v.state {
                    ValueState::Owned => {
                        proof {
                            assert(model::wf_value(m, m.values[vid as int]));
                        }
                        match v.fields {
                            Some(span) if field < (span.count as u64) => {
                                let nv = self.values.len();
                                proof {
                                    assert(span.first + span.count <= nv);
                                }
                                let cvid = span.first + (field as usize);
                                let c = self.values[cvid];
                                match c.state {
                                    ValueState::Owned => {
                                        match c.kind {
                                            ValueKind::Primitive => {
                                                self.accesses.push(Access {
                                                    value: vid,
                                                    kind: AccessKind::Shared,
                                                    start: i,
                                                    end: i + 1,
                                                });
                                                let rvid = self.values.len();
                                                self.values.push(Value {
                                                    kind: c.kind,
                                                    length: c.length,
                                                    depth: d,
                                                    state: ValueState::Owned,
                                                    backing: None,
                                                    handle: None,
                                                    fields: None,
                                                });
                                                rvid
                                            },
                                            ValueKind::Owned => {
                                                self.accesses.push(Access {
                                                    value: vid,
                                                    kind: AccessKind::Exclusive,
                                                    start: i,
                                                    end: i + 1,
                                                });
                                                self.values[cvid].state =
                                                    ValueState::Moved(i);
                                                let rvid = self.values.len();
                                                self.values.push(Value {
                                                    kind: c.kind,
                                                    length: c.length,
                                                    depth: d,
                                                    state: ValueState::Owned,
                                                    backing: None,
                                                    handle: None,
                                                    fields: None,
                                                });
                                                rvid
                                            },
                                        }
                                    },
                                    ValueState::Moved(mm) => {
                                        self.emit_v(ErrorKind::UseAfterMove, i, Some(mm),
                                            Ghost(m));
                                        let ghost me = model::emit(m,
                                            ErrorKind::UseAfterMove, i as int,
                                            Some(mm as int));
                                        self.push_poison(d, Ghost(me))
                                    },
                                    ValueState::Dropped(dd) => {
                                        self.emit_v(ErrorKind::UseAfterMove, i, Some(dd),
                                            Ghost(m));
                                        let ghost me = model::emit(m,
                                            ErrorKind::UseAfterMove, i as int,
                                            Some(dd as int));
                                        self.push_poison(d, Ghost(me))
                                    },
                                }
                            },
                            _ => {
                                self.emit_v(ErrorKind::UnknownBinding, i, None, Ghost(m));
                                let ghost me = model::emit(m, ErrorKind::UnknownBinding,
                                    i as int, None);
                                self.push_poison(d, Ghost(me))
                            },
                        }
                    },
                    ValueState::Moved(mm) => {
                        self.emit_v(ErrorKind::UseAfterMove, i, Some(mm), Ghost(m));
                        let ghost me = model::emit(m, ErrorKind::UseAfterMove, i as int,
                            Some(mm as int));
                        self.push_poison(d, Ghost(me))
                    },
                    ValueState::Dropped(dd) => {
                        self.emit_v(ErrorKind::UseAfterMove, i, Some(dd), Ghost(m));
                        let ghost me = model::emit(m, ErrorKind::UseAfterMove, i as int,
                            Some(dd as int));
                        self.push_poison(d, Ghost(me))
                    },
                }
            },
        }
    }

    /// Evaluates a right-hand side, following `model::eval_expr`.
    fn eval_expr_x(&mut self, expr: &ValueExpr, i: usize, d: usize,
        Ghost(m): Ghost<StateModel>) -> (rvid: usize)
        requires
            abs_match(old(self), m),
            model::state_wf(m),
            i < usize::MAX,
        ensures
            abs_match(final(self), model::eval_expr(m, *expr, i as int, d as int).0),
            rvid as int == model::eval_expr(m, *expr, i as int, d as int).1,
    {
        match expr {
            ValueExpr::Fresh { kind, length } => {
                let rvid = self.values.len();
                self.values.push(Value {
                    kind: *kind,
                    length: *length,
                    depth: d,
                    state: ValueState::Owned,
                    backing: None,
                    handle: None,
                    fields: None,
                });
                rvid
            },
            ValueExpr::Aggregate { field_kinds } => {
                self.eval_aggregate_x(field_kinds, d, Ghost(m))
            },
            ValueExpr::Consume { source } => self.eval_consume_x(*source, i, d, Ghost(m)),
            ValueExpr::Ref { target, access } => {
                self.eval_ref_x(*target, *access, i, d, Ghost(m))
            },
            ValueExpr::FieldOf { source, field } => {
                self.eval_field_x(*source, *field, i, d, Ghost(m))
            },
        }
    }

    /// A `SliceOf` statement, following `model::step_slice`.
    fn step_slice_x(&mut self, name: u64, buffer: u64, lo: u64, hi: u64, i: usize,
        Ghost(m): Ghost<StateModel>)
        requires
            abs_match(old(self), m),
            model::state_wf(m),
            i < usize::MAX,
        ensures
            abs_match(final(self), model::step_slice(m, name, buffer, lo, hi, i as int)),
    {
        let d = self.frames.len();
        match self.lookup_vid(buffer, Ghost(m)) {
            None => {
                self.emit_v(ErrorKind::UnknownBinding, i, None, Ghost(m));
                let ghost me = model::emit(m, ErrorKind::UnknownBinding, i as int, None);
                let vid = self.push_poison(d, Ghost(me));
                self.env.push(Binding { name, value: vid });
            },
            Some(bvid) => {
                let v = self.values[bvid];
                match v.state {
                    ValueState::Owned => {
                        if lo > hi || hi > v.length {
                            self.emit_v(ErrorKind::SliceOutOfBounds, i, None, Ghost(m));
                            let ghost me = model::emit(m, ErrorKind::SliceOutOfBounds,
                                i as int, None);
                            let vid = self.push_poison(d, Ghost(me));
                            self.env.push(Binding { name, value: vid });
                        } else {
                            let aidx = self.accesses.len();
                            self.accesses.push(Access {
                                value: bvid,
                                kind: AccessKind::Shared,
                                start: i,
                                end: i + 1,
                            });
                            let vid = self.values.len();
                            self.values.push(Value {
                                kind: ValueKind::Primitive,
                                length: hi - lo,
                                depth: d,
                                state: ValueState::Owned,
                                backing: Some(bvid),
                                handle: Some(aidx),
                                fields: None,
                            });
                            self.env.push(Binding { name, value: vid });
                        }
                    },
                    ValueState::Moved(mm) => {
                        self.emit_v(ErrorKind::UseAfterMove, i, Some(mm), Ghost(m));
                        let ghost me = model::emit(m, ErrorKind::UseAfterMove, i as int,
                            Some(mm as int));
                        let vid = self.push_poison(d, Ghost(me));
                        self.env.push(Binding { name, value: vid });
                    },
                    ValueState::Dropped(dd) => {
                        self.emit_v(ErrorKind::UseAfterMove, i, Some(dd), Ghost(m));
                        let ghost me = model::emit(m, ErrorKind::UseAfterMove, i as int,
                            Some(dd as int));
                        let vid = self.push_poison(d, Ghost(me));
                        self.env.push(Binding { name, value: vid });
                    },
                }
            },
        }
    }

    /// An `ExitScope` statement, following `model::step_exit`.
    fn step_exit_x(&mut self, i: usize, Ghost(m): Ghost<StateModel>)
        requires
            abs_match(old(self), m),
            model::state_wf(m),
        ensures
            abs_match(final(self), model::step_exit(m, i as int)),
    {
        if self.frames.len() == 0 {
            return;
        }
        let cur = self.frames.len();
        let f = self.frames[self.frames.len() - 1];
        self.frames.pop();
        self.env.truncate(f.env_mark);
        let ghost mt = model::step_exit(m, i as int);
        let nv = self.values.len();
        let mut j: usize = f.val_mark;
        while j < nv
            invariant
                0 <= j <= nv,
                nv == self.values@.len(),
                self.values@.len() == m.values.len(),
                f.val_mark <= j,
                cur as int == m.frames.len(),
                mt == model::step_exit(m, i as int),
                mt.values.len() == m.values.len(),
                forall|k: int| 0 <= k < j ==> mt.values[k] == (#[trigger] self.values@[k])@,
                forall|k: int| j <= k < m.values.len()
                    ==> m.values[k] == (#[trigger] self.values@[k])@,
                forall|k: int| j <= k < m.values.len()
                    ==> mt.values[k] == (if k >= f.val_mark as int
                            && m.values[k].life is Owned
                            && m.values[k].depth >= m.frames.len() {
                        ValueModel { life: ValueLife::Dropped(i as int), ..m.values[k] }
                    } else {
                        m.values[k]
                    }),
                mt.env.len() == self.env@.len(),
                forall|k: int| 0 <= k < mt.env.len()
                    ==> mt.env[k] == (#[trigger] self.env@[k])@,
                mt.frames.len() == self.frames@.len(),
                forall|k: int| 0 <= k < mt.frames.len()
                    ==> mt.frames[k] == (#[trigger] self.frames@[k])@,
                mt.accesses.len() == self.accesses@.len(),
                forall|k: int| 0 <= k < mt.accesses.len()
                    ==> mt.accesses[k] == (#[trigger] self.accesses@[k])@,
                mt.violations.len() == self.violations@.len(),
                forall|k: int| 0 <= k < mt.violations.len()
                    ==> mt.violations[k] == (#[trigger] self.violations@[k])@,
            decreases nv - j,
        {
            if self.values[j].depth >= cur {
                match self.values[j].state {
                    ValueState::Owned => {
                        self.values[j].state = ValueState::Dropped(i);
                    },
                    _ => {},
                }
            }
            j = j + 1;
        }
    }

    /// A `Return` statement, following `model::step_return`.
    fn step_return_x(&mut self, name: u64, i: usize, Ghost(m): Ghost<StateModel>)
        requires
            abs_match(old(self), m),
            model::state_wf(m),
            i < usize::MAX,
        ensures
            abs_match(final(self), model::step_return(m, name, i as int)),
    {
        self.use_one_x(name, AccessKind::Shared, i, Ghost(m));
        let ghost m1 = model::use_one(m, name, AccessKind::Shared, i as int);
        proof {
            model::lemma_use_one_wf(m, name, AccessKind::Shared, i as int);
        }
        match self.lookup_vid(name, Ghost(m1)) {
            Some(vid) => {
                proof {
                    assert(model::lookup_value(m.env, name)
                        == model::lookup_value(m1.env, name));
                }
                let v = self.values[vid];
                match v.state {
                    ValueState::Owned => {
                        match v.backing {
                            Some(b) => {
                                if b < self.values.len() {
                                    let bd = self.values[b].depth;
                                    if bd >= self.frames.len() {
                                        self.emit_v(ErrorKind::DanglingReturn, i, None,
                                            Ghost(m1));
                                    }
                                }
                            },
                            None => {},
                        }
                    },
                    _ => {},
                }
            },
            None => {},
        }
    }

    /// The exact effect of one statement, following `model::step`.
    pub fn step_x(&mut self, stmt: &Stmt, i: usize, Ghost(m): Ghost<StateModel>)
        requires
            abs_match(old(self), m),
            model::state_wf(m),
            i < usize::MAX,
        ensures
            abs_match(final(self), model::step(m, *stmt, i as int)),
    {
        match stmt {
            Stmt::Bind { name, expr } => {
                let d = self.frames.len();
                let vid = self.eval_expr_x(expr, i, d, Ghost(m));
                self.env.push(Binding { name: *name, value: vid });
            },
            Stmt::Reassign { name, expr } => {
                match self.find_binding(*name, Ghost(m)) {
                    None => {
                        let d = self.frames.len();
                        let vid = self.eval_expr_x(expr, i, d, Ghost(m));
                        self.env.push(Binding { name: *name, value: vid });
                    },
                    Some(j) => {
                        let old_vid = self.env[j].value;
                        proof {
                            assert(m.env[j as int].value == old_vid as int);
                        }
                        let d = self.values[old_vid].depth;
                        let vid = self.eval_expr_x(expr, i, d, Ghost(m));
                        proof {
                            model::lemma_eval_wf(m, *expr, i as int, d as int);
                        }
                        match self.values[old_vid].state {
                            ValueState::Owned => {
                                self.values[old_vid].state = ValueState::Dropped(i);
                            },
                            _ => {},
                        }
                        self.env[j] = Binding { name: *name, value: vid };
                    },
                }
            },
            Stmt::Use { name, access } => {
                self.use_one_x(*name, *access, i, Ghost(m));
            },
            Stmt::Call { args } => {
                let n = args.len();
                let mut k: usize = 0;
                proof {
                    assert(args@.take(0) =~= Seq::<crate::graph::Arg>::empty());
                }
                while k < n
                    invariant
                        0 <= k <= n,
                        n == args@.len(),
                        model::state_wf(m),
                        i < usize::MAX,
                        abs_match(self, model::use_args(m, args@.take(k as int), i as int)),
                    decreases n - k,
                {
                    let ghost mk = model::use_args(m, args@.take(k as int), i as int);
                    proof {
                        model::lemma_use_args_wf(m, args@.take(k as int), i as int);
                        model::lemma_use_args_snoc(m, args@, k as int, i as int);
                    }
                    let a = args[k];
                    self.use_one_x(a.name, a.access, i, Ghost(mk));
                    k = k + 1;
                }
                proof {
                    assert(args@.take(n as int) =~= args@);
                }
            },
            Stmt::SliceOf { name, buffer, lo, hi } => {
                self.step_slice_x(*name, *buffer, *lo, *hi, i, Ghost(m));
            },
            Stmt::EnterScope => {
                self.frames.push(Frame {
                    env_mark: self.env.len(),
                    val_mark: self.values.len(),
                });
            },
            Stmt::ExitScope => {
                self.step_exit_x(i, Ghost(m));
            },
            Stmt::Return { name } => {
                match name {
                    Some(n) => {
                        self.step_return_x(*n, i, Ghost(m));
                    },
                    None => {},
                }
            },
        }
    }

    /// Runs the whole analysis sweep over a statement sequence.
    pub fn run(stmts: &Vec<Stmt>) -> (t: Tracker)
        ensures
            abs_match(&t, model::run_to(stmts@, stmts@.len() as int)),
    {
        let mut t = Tracker::new();
        let n = stmts.len();
        let mut i: usize = 0;
        while i < n
            invariant
                0 <= i <= n,
                n == stmts@.len(),
                abs_match(&t, model::run_to(stmts@, i as int)),
            decreases n - i,
        {
            proof {
                model::lemma_run_wf(stmts@, i as int);
            }
            t.step_x(&stmts[i], i, Ghost(model::run_to(stmts@, i as int)));
            i = i + 1;
        }
        t
    }
}

} // verus!
