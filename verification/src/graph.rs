//! The program graph: the typed, scoped representation of bindings,
//! statements, calls, and slice expressions that the engine analyses.
//!
//! The graph is a single linear sequence of statements in execution order;
//! lexical nesting is expressed by `EnterScope` / `ExitScope` statements.
//! Control flow is assumed to have been flattened by the front end, since
//! the safety rules checked here are path-insensitive.

use vstd::prelude::*;

verus! {

/// How a value behaves when it is consumed: a `Primitive` value is copied
/// implicitly and the source stays usable; an `Owned` value is moved, which
/// invalidates the source binding.
#[derive(Debug, Clone, Copy, PartialEq, Eq, Structural)]
pub enum ValueKind {
    Primitive,
    Owned,
}

/// The flavour of an access to a value: `Shared` accesses are read-only and
/// may coexist; an `Exclusive` access must be alone.
#[derive(Debug, Clone, Copy, PartialEq, Eq, Structural)]
pub enum AccessKind {
    Shared,
    Exclusive,
}

/// The right-hand side of a `Bind` or `Reassign` statement.
#[derive(Debug, Clone)]
pub enum ValueExpr {
    /// A brand-new value of the given kind; `length` is its element count
    /// when it is a buffer, and zero otherwise.
    Fresh { kind: ValueKind, length: u64 },
    /// A brand-new aggregate whose fields have the given kinds. The
    /// aggregate itself is `Primitive` exactly when every field is.
    Aggregate { field_kinds: Vec<ValueKind> },
    /// Consumption of an existing binding: a move when its value is
    /// `Owned`, a copy when it is `Primitive`.
    Consume { source: u64 },
    /// A reference to an existing binding, opening an access on its value
    /// that stays live through the last use of the new name.
    Ref { target: u64, access: AccessKind },
    /// A single field taken out of an aggregate binding: a move when the
    /// field is `Owned` (partially invalidating the aggregate), a copy when
    /// it is `Primitive`.
    FieldOf { source: u64, field: u64 },
}

/// One argument of a `Call` statement: a use of a binding with the given
/// access flavour.
#[derive(Debug, Clone, Copy, PartialEq, Eq, Structural)]
pub struct Arg {
    pub name: u64,
    pub access: AccessKind,
}

/// One statement of the program graph. Names are identifiers interned by
/// the front end.
#[derive(Debug, Clone)]
pub enum Stmt {
    /// Introduces a new binding for `name` (shadowing any previous one).
    Bind { name: u64, expr: ValueExpr },
    /// Replaces what an existing binding holds, dropping the value it held
    /// before; binds `name` fresh if it was not bound yet.
    Reassign { name: u64, expr: ValueExpr },
    /// Reads (`Shared`) or writes (`Exclusive`) through a binding.
    Use { name: u64, access: AccessKind },
    /// A call whose arguments are all used at this one statement.
    Call { args: Vec<Arg> },
    /// Binds `name` to the bounded view `[lo, hi)` into the buffer held by
    /// `buffer`. Out-of-bounds ranges are a violation and bind no slice.
    SliceOf { name: u64, buffer: u64, lo: u64, hi: u64 },
    /// Opens a nested lexical scope.
    EnterScope,
    /// Closes the innermost scope, dropping every value still owned by it.
    ExitScope,
    /// Leaves the current scope with an optional result binding.
    Return { name: Option<u64> },
}

/// Why a graph failed construction.
#[derive(Debug, Clone, Copy, PartialEq, Eq, Structural)]
pub enum GraphError {
    /// The statement at this index refers to a name with no visible binding.
    UnknownBinding { stmt: usize },
    /// The statement at this index closes a scope that was never opened.
    UnbalancedScope { stmt: usize },
}

/// The names an expression reads. `Fresh` and `Aggregate` read none.
pub open spec fn expr_sources(e: ValueExpr) -> Seq<u64> {
    match e {
        ValueExpr::Fresh { .. } => Seq::empty(),
        ValueExpr::Aggregate { .. } => Seq::empty(),
        ValueExpr::Consume { source } => seq![source],
        ValueExpr::Ref { target, .. } => seq![target],
        ValueExpr::FieldOf { source, .. } => seq![source],
    }
}

/// The name-resolution state of the well-formedness scan: the names bound
/// in each live scope, innermost last, plus the visible-name marks of the
/// enclosing scopes.
pub ghost struct ScanState {
    pub names: Seq<u64>,
    pub marks: Seq<usize>,
}

pub open spec fn scan_init() -> ScanState {
    ScanState { names: Seq::empty(), marks: Seq::empty() }
}

/// One step of the name-resolution scan; `None` means the statement is
/// malformed.
pub open spec fn scan_step(s: ScanState, stmt: Stmt) -> Option<ScanState> {
    match stmt {
        Stmt::Bind { name, expr } => {
            if forall|k: int| 0 <= k < expr_sources(expr).len()
                ==> s.names.contains(#[trigger] expr_sources(expr)[k]) {
                Some(ScanState { names: s.names.push(name), ..s })
            } else {
                None
            }
        },
        Stmt::Reassign { name, expr } => {
            if forall|k: int| 0 <= k < expr_sources(expr).len()
                ==> s.names.contains(#[trigger] expr_sources(expr)[k]) {
                if s.names.contains(name) {
                    Some(s)
                } else {
                    Some(ScanState { names: s.names.push(name), ..s })
                }
            } else {
                None
            }
        },
        Stmt::Use { name, .. } => {
            if s.names.contains(name) {
                Some(s)
            } else {
                None
            }
        },
        Stmt::Call { args } => {
            if forall|k: int| 0 <= k < args@.len()
                ==> s.names.contains((#[trigger] args@[k]).name) {
                Some(s)
            } else {
                None
            }
        },
        Stmt::SliceOf { name, buffer, .. } => {
            if s.names.contains(buffer) {
                Some(ScanState { names: s.names.push(name), ..s })
            } else {
                None
            }
        },
        Stmt::EnterScope => {
            Some(ScanState { names: s.names, marks: s.marks.push(s.names.len() as usize) })
        },
        Stmt::ExitScope => {
            if s.marks.len() > 0 {
                let m = s.marks.last();
                let keep = if m <= s.names.len() { m as int } else { s.names.len() as int };
                Some(ScanState { names: s.names.take(keep), marks: s.marks.drop_last() })
            } else {
                None
            }
        },
        Stmt::Return { name } => {
            match name {
                Option::Some(n) => if s.names.contains(n) {
                    Some(s)
                } else {
                    None
                },
                Option::None => Some(s),
            }
        },
    }
}

/// The error a statement raises when the scan rejects it.
pub open spec fn scan_error(stmt: Stmt, i: int) -> GraphError {
    match stmt {
        Stmt::ExitScope => GraphError::UnbalancedScope { stmt: i as usize },
        _ => GraphError::UnknownBinding { stmt: i as usize },
    }
}

/// The scan over the first `n` statements: the resulting state, or the
/// first error encountered.
pub open spec fn scan_to(stmts: Seq<Stmt>, n: int) -> Result<ScanState, GraphError>
    decreases n,
{
    if n <= 0 {
        Ok(scan_init())
    } else {
        match scan_to(stmts, n - 1) {
            Ok(s) => match scan_step(s, stmts[n - 1]) {
                Option::Some(s2) => Ok(s2),
                Option::None => Err(scan_error(stmts[n - 1], n - 1)),
            },
            Err(e) => Err(e),
        }
    }
}

/// A graph is well formed when the whole scan succeeds: every referenced
/// name has a visible binding and every `ExitScope` closes an open scope.
pub open spec fn graph_well_formed(stmts: Seq<Stmt>) -> bool {
    scan_to(stmts, stmts.len() as int) is Ok
}

/// An immutable, validated program graph.
pub struct ProgramGraph {
    stmts: Vec<Stmt>,
}

impl ProgramGraph {
    /// The statements of the graph, in execution order.
    pub closed spec fn view(&self) -> Seq<Stmt> {
        self.stmts@
    }

    /// Read access to the statement sequence.
    pub fn stmts(&self) -> (r: &Vec<Stmt>)
        ensures
            r@ == self@,
    {
        &self.stmts
    }

    /// Validates and wraps a statement sequence. Fails with the first
    /// malformation found: a reference to an unbound name, or an
    /// `ExitScope` with no matching `EnterScope`.
    pub fn new(stmts: Vec<Stmt>) -> (r: Result<ProgramGraph, GraphError>)
        ensures
            match r {
                Ok(g) => g@ == stmts@ && graph_well_formed(stmts@),
                Err(e) => !graph_well_formed(stmts@) && scan_to(stmts@, stmts@.len() as int)
                    == Result::<ScanState, GraphError>::Err(e),
            },
    {
        let n = stmts.len();
        let mut names: Vec<u64> = Vec::new();
        let mut marks: Vec<usize> = Vec::new();
        let mut i: usize = 0;
        proof {
            assert(names@ =~= Seq::<u64>::empty());
            assert(marks@ =~= Seq::<usize>::empty());
        }
        while i < n
            invariant
                0 <= i <= n,
                n == stmts@.len(),
                scan_to(stmts@, i as int) == Ok::<ScanState, GraphError>(ScanState {
                    names: names@,
                    marks: marks@,
                }),
                forall|k: int| 0 <= k < marks@.len() ==> #[trigger] marks@[k] <= names@.len(),
                forall|j: int, k: int| 0 <= j <= k < marks@.len()
                    ==> #[trigger] marks@[j] <= #[trigger] marks@[k],
            decreases n - i,
        {
            let ghost pre = ScanState { names: names@, marks: marks@ };
            match &stmts[i] {
                Stmt::Bind { name, expr } => {
                    if !Self::sources_bound(&names, expr) {
                        proof {
                            lemma_scan_extend(stmts@, i as int);
                            lemma_scan_error_stable(stmts@, i + 1, stmts@.len() as int,
                                GraphError::UnknownBinding { stmt: i });
                        }
                        return Err(GraphError::UnknownBinding { stmt: i });
                    }
                    names.push(*name);
                },
                Stmt::Reassign { name, expr } => {
                    if !Self::sources_bound(&names, expr) {
                        proof {
                            lemma_scan_extend(stmts@, i as int);
                            lemma_scan_error_stable(stmts@, i + 1, stmts@.len() as int,
                                GraphError::UnknownBinding { stmt: i });
                        }
                        return Err(GraphError::UnknownBinding { stmt: i });
                    }
                    if !Self::name_bound(&names, *name) {
                        names.push(*name);
                    }
                },
                Stmt::Use { name, .. } => {
                    if !Self::name_bound(&names, *name) {
                        proof {
                            lemma_scan_extend(stmts@, i as int);
                            lemma_scan_error_stable(stmts@, i + 1, stmts@.len() as int,
                                GraphError::UnknownBinding { stmt: i });
                        }
                        return Err(GraphError::UnknownBinding { stmt: i });
                    }
                },
                Stmt::Call { args } => {
                    if !Self::args_bound(&names, args) {
                        proof {
                            lemma_scan_extend(stmts@, i as int);
                            lemma_scan_error_stable(stmts@, i + 1, stmts@.len() as int,
                                GraphError::UnknownBinding { stmt: i });
                        }
                        return Err(GraphError::UnknownBinding { stmt: i });
                    }
                },
                Stmt::SliceOf { name, buffer, .. } => {
                    if !Self::name_bound(&names, *buffer) {
                        proof {
                            lemma_scan_extend(stmts@, i as int);
                            lemma_scan_error_stable(stmts@, i + 1, stmts@.len() as int,
                                GraphError::UnknownBinding { stmt: i });
                        }
                        return Err(GraphError::UnknownBinding { stmt: i });
                    }
                    names.push(*name);
                },
                Stmt::EnterScope => {
                    marks.push(names.len());
                },
                Stmt::ExitScope => {
                    if marks.len() == 0 {
                        proof {
                            lemma_scan_extend(stmts@, i as int);
                            lemma_scan_error_stable(stmts@, i + 1, stmts@.len() as int,
                                GraphError::UnbalancedScope { stmt: i });
                        }
                        return Err(GraphError::UnbalancedScope { stmt: i });
                    }
                    let m = marks[marks.len() - 1];
                    marks.pop();
                    names.truncate(m);
                },
                Stmt::Return { name } => {
                    match name {
                        Option::Some(nm) => {
                            if !Self::name_bound(&names, *nm) {
                                proof {
                                    lemma_scan_extend(stmts@, i as int);
                                    lemma_scan_error_stable(stmts@, i + 1, stmts@.len() as int,
                                        GraphError::UnknownBinding { stmt: i });
                                }
                                return Err(GraphError::UnknownBinding { stmt: i });
                            }
                        },
                        Option::None => {},
                    }
                },
            }
            proof {
                lemma_scan_extend(stmts@, i as int);
                assert(scan_step(pre, stmts@[i as int]) == Option::Some(ScanState {
                    names: names@,
                    marks: marks@,
                }));
            }
            i = i + 1;
        }
        Ok(ProgramGraph { stmts })
    }

    /// Whether every call argument names a bound binding.
    fn args_bound(names: &Vec<u64>, args: &Vec<Arg>) -> (r: bool)
        ensures
            r == forall|k: int| 0 <= k < args@.len()
                ==> names@.contains((#[trigger] args@[k]).name),
    {
        let mut k: usize = 0;
        let a = args.len();
        while k < a
            invariant
                0 <= k <= a,
                a == args@.len(),
                forall|j: int| 0 <= j < k ==> names@.contains((#[trigger] args@[j]).name),
            decreases a - k,
        {
            if !Self::name_bound(names, args[k].name) {
                return false;
            }
            k = k + 1;
        }
        true
    }

    /// Whether `name` is currently bound.
    fn name_bound(names: &Vec<u64>, name: u64) -> (r: bool)
        ensures
            r == names@.contains(name),
    {
        let mut k: usize = 0;
        let n = names.len();
        while k < n
            invariant
                0 <= k <= n,
                n == names@.len(),
                forall|j: int| 0 <= j < k ==> names@[j] != name,
            decreases n - k,
        {
            if names[k] == name {
                return true;
            }
            k = k + 1;
        }
        false
    }

    /// Whether every name the expression reads is currently bound.
    fn sources_bound(names: &Vec<u64>, expr: &ValueExpr) -> (r: bool)
        ensures
            r == forall|k: int| 0 <= k < expr_sources(*expr).len()
                ==> names@.contains(#[trigger] expr_sources(*expr)[k]),
    {
        match expr {
            ValueExpr::Fresh { .. } => {
                proof {
                    assert(expr_sources(*expr).len() == 0);
                }
                true
            },
            ValueExpr::Aggregate { .. } => {
                proof {
                    assert(expr_sources(*expr).len() == 0);
                }
                true
            },
            ValueExpr::Consume { source } => {
                let r = Self::name_bound(names, *source);
                proof {
                    assert(expr_sources(*expr) =~= seq![*source]);
                    assert(expr_sources(*expr)[0] == *source);
                }
                r
            },
            ValueExpr::Ref { target, .. } => {
                let r = Self::name_bound(names, *target);
                proof {
                    assert(expr_sources(*expr) =~= seq![*target]);
                    assert(expr_sources(*expr)[0] == *target);
                }
                r
            },
            ValueExpr::FieldOf { source, .. } => {
                let r = Self::name_bound(names, *source);
                proof {
                    assert(expr_sources(*expr) =~= seq![*source]);
                    assert(expr_sources(*expr)[0] == *source);
                }
                r
            },
        }
    }
}

/// Once the scan has failed, every longer prefix fails the same way.
pub proof fn lemma_scan_error_stable(stmts: Seq<Stmt>, i: int, n: int, e: GraphError)
    requires
        0 <= i <= n,
        scan_to(stmts, i) == Result::<ScanState, GraphError>::Err(e),
    ensures
        scan_to(stmts, n) == Result::<ScanState, GraphError>::Err(e),
    decreases n - i,
{
    if i < n {
        lemma_scan_error_stable(stmts, i, n - 1, e);
    }
}

/// Unfolds one step of the scan.
pub proof fn lemma_scan_extend(stmts: Seq<Stmt>, i: int)
    requires
        0 <= i < stmts.len(),
    ensures
        scan_to(stmts, i + 1) == match scan_to(stmts, i) {
            Ok(s) => match scan_step(s, stmts[i]) {
                Option::Some(s2) => Ok(s2),
                Option::None => Err::<ScanState, GraphError>(scan_error(stmts[i], i)),
            },
            Err(e) => Err(e),
        },
{
}

} // verus!
