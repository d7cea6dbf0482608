//! The two whole-run passes that follow the sweep: interval-overlap
//! conflict detection between accesses, and the validity check that no
//! access outlives the value it targets.

use vstd::prelude::*;
use crate::graph::AccessKind;
use crate::diag::{ErrorKind, Violation};
use crate::model::{AccessModel, StateModel, ValueLife, ValueModel, ViolationModel};
use crate::model;
use crate::tracker::{Access, Value};

verus! {

/// Two accesses conflict exactly when they target the same value, their
/// intervals overlap, and they are not both shared.
pub open spec fn conflict(a: AccessModel, b: AccessModel) -> bool {
    &&& a.value == b.value
    &&& !(a.kind is Shared && b.kind is Shared)
    &&& (if a.start >= b.start { a.start } else { b.start })
        < (if a.end <= b.end { a.end } else { b.end })
}

/// The conflicts of access `j` against the first `k` accesses before it,
/// reported at the newer access and naming the older one.
pub open spec fn excl_row(accs: Seq<AccessModel>, j: int, k: int) -> Seq<ViolationModel>
    decreases k,
{
    if k <= 0 {
        Seq::empty()
    } else {
        let rest = excl_row(accs, j, k - 1);
        if conflict(accs[k - 1], accs[j]) {
            rest.push(ViolationModel {
                kind: ErrorKind::ExclusivityViolation,
                stmt: accs[j].start,
                related: Some(accs[k - 1].start),
            })
        } else {
            rest
        }
    }
}

/// All conflicts among the first `n` accesses.
pub open spec fn excl_to(accs: Seq<AccessModel>, n: int) -> Seq<ViolationModel>
    decreases n,
{
    if n <= 0 {
        Seq::empty()
    } else {
        excl_to(accs, n - 1) + excl_row(accs, n - 1, n - 1)
    }
}

/// Every `ExclusivityViolation` of the run.
pub open spec fn excl_violations(accs: Seq<AccessModel>) -> Seq<ViolationModel> {
    excl_to(accs, accs.len() as int)
}

/// The `DanglingOnDrop` violation an access raises when it stays open past
/// the drop of its target value, reported at the drop and naming the
/// access's start.
pub open spec fn dangle_one(values: Seq<ValueModel>, a: AccessModel) -> Option<ViolationModel> {
    if 0 <= a.value < values.len() {
        match values[a.value].life {
            ValueLife::Dropped(d) => if a.end > d {
                Some(ViolationModel {
                    kind: ErrorKind::DanglingOnDrop,
                    stmt: d,
                    related: Some(a.start),
                })
            } else {
                None
            },
            _ => None,
        }
    } else {
        None
    }
}

/// The dangling violations of the first `n` accesses.
pub open spec fn dangle_to(values: Seq<ValueModel>, accs: Seq<AccessModel>, n: int)
    -> Seq<ViolationModel>
    decreases n,
{
    if n <= 0 {
        Seq::empty()
    } else {
        let rest = dangle_to(values, accs, n - 1);
        match dangle_one(values, accs[n - 1]) {
            Some(v) => rest.push(v),
            None => rest,
        }
    }
}

/// Every `DanglingOnDrop` violation of the run.
pub open spec fn dangle_violations(values: Seq<ValueModel>, accs: Seq<AccessModel>)
    -> Seq<ViolationModel> {
    dangle_to(values, accs, accs.len() as int)
}

/// The access views of an access table.
pub open spec fn acc_views(s: Seq<Access>) -> Seq<AccessModel> {
    Seq::new(s.len(), |j: int| s[j]@)
}

/// The value views of a value table.
pub open spec fn val_views(s: Seq<Value>) -> Seq<ValueModel> {
    Seq::new(s.len(), |j: int| s[j]@)
}

/// The violation views of a violation list.
pub open spec fn vio_views(s: Seq<Violation>) -> Seq<ViolationModel> {
    Seq::new(s.len(), |j: int| s[j]@)
}

/// Appends every exclusivity conflict among `accesses` to `out`.
pub fn exclusivity_pass(accesses: &Vec<Access>, out: &mut Vec<Violation>)
    ensures
        vio_views(final(out)@) == vio_views(old(out)@) + excl_violations(acc_views(accesses@)),
{
    let ghost base = vio_views(old(out)@);
    let ghost accs = acc_views(accesses@);
    let n = accesses.len();
    let mut j: usize = 0;
    while j < n
        invariant
            0 <= j <= n,
            n == accesses@.len(),
            accs == acc_views(accesses@),
            base.len() <= vio_views(out@).len(),
            vio_views(out@) == base + excl_to(accs, j as int),
        decreases n - j,
    {
        let a = accesses[j];
        let mut k: usize = 0;
        while k < j
            invariant
                0 <= k <= j < n,
                n == accesses@.len(),
                accs == acc_views(accesses@),
                a == accesses@[j as int],
                vio_views(out@) == base + excl_to(accs, j as int) + excl_row(accs, j as int,
                    k as int),
            decreases j - k,
        {
            let b = accesses[k];
            let clash = a.value == b.value
                && !(matches!(a.kind, AccessKind::Shared)
                    && matches!(b.kind, AccessKind::Shared))
                && (if a.start >= b.start { a.start } else { b.start })
                    < (if a.end <= b.end { a.end } else { b.end });
            if clash {
                let ghost pre = vio_views(out@);
                out.push(Violation {
                    kind: ErrorKind::ExclusivityViolation,
                    stmt: a.start,
                    related: Some(b.start),
                });
                proof {
                    assert(conflict(accs[k as int], accs[j as int]));
                    assert(vio_views(out@) =~= pre.push(ViolationModel {
                        kind: ErrorKind::ExclusivityViolation,
                        stmt: a.start as int,
                        related: Some(b.start as int),
                    }));
                }
            } else {
                proof {
                    assert(!conflict(accs[k as int], accs[j as int]));
                }
            }
            k = k + 1;
        }
        j = j + 1;
        proof {
            assert(vio_views(out@) =~= base + excl_to(accs, j as int));
        }
    }
    proof {
        assert(vio_views(out@) =~= base + excl_violations(accs));
    }
}

/// Appends every dangling-on-drop violation to `out`.
pub fn dangling_pass(values: &Vec<Value>, accesses: &Vec<Access>, out: &mut Vec<Violation>)
    ensures
        vio_views(final(out)@) == vio_views(old(out)@)
            + dangle_violations(val_views(values@), acc_views(accesses@)),
{
    let ghost base = vio_views(old(out)@);
    let ghost vals = val_views(values@);
    let ghost accs = acc_views(accesses@);
    let n = accesses.len();
    let mut j: usize = 0;
    while j < n
        invariant
            0 <= j <= n,
            n == accesses@.len(),
            vals == val_views(values@),
            accs == acc_views(accesses@),
            vio_views(out@) == base + dangle_to(vals, accs, j as int),
        decreases n - j,
    {
        let a = accesses[j];
        if a.value < values.len() {
            match values[a.value].state {
                crate::tracker::ValueState::Dropped(d) => {
                    if a.end > d {
                        let ghost pre = vio_views(out@);
                        out.push(Violation {
                            kind: ErrorKind::DanglingOnDrop,
                            stmt: d,
                            related: Some(a.start),
                        });
                        proof {
                            assert(vio_views(out@) =~= pre.push(ViolationModel {
                                kind: ErrorKind::DanglingOnDrop,
                                stmt: d as int,
                                related: Some(a.start as int),
                            }));
                        }
                    }
                },
                _ => {},
            }
        }
        j = j + 1;
    }
    proof {
        assert(vio_views(out@) =~= base + dangle_violations(vals, accs));
    }
}

} // verus!
