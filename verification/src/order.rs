//! Ordering and deduplication of the violation list.
//!
//! The report lists violations sorted by statement index, then by kind,
//! then by related location, with exact duplicates removed.

use vstd::prelude::*;
use crate::diag::{ErrorKind, Violation};
use crate::model::ViolationModel;
use crate::checks::vio_views;

verus! {

/// A fixed rank for each violation kind, used only to order reports.
pub open spec fn kind_rank(k: ErrorKind) -> int {
    match k {
        ErrorKind::UseAfterMove => 0,
        ErrorKind::PartialMove => 1,
        ErrorKind::DanglingOnDrop => 2,
        ErrorKind::ExclusivityViolation => 3,
        ErrorKind::DanglingReturn => 4,
        ErrorKind::SliceOutOfBounds => 5,
        ErrorKind::UnknownBinding => 6,
    }
}

pub open spec fn rel_tag(r: Option<int>) -> int {
    match r {
        None => 0,
        Some(_) => 1,
    }
}

pub open spec fn rel_val(r: Option<int>) -> int {
    match r {
        None => 0,
        Some(x) => x,
    }
}

/// The total order of the report: by statement, then kind, then related
/// location.
pub open spec fn vio_le(a: ViolationModel, b: ViolationModel) -> bool {
    if a.stmt != b.stmt {
        a.stmt < b.stmt
    } else if kind_rank(a.kind) != kind_rank(b.kind) {
        kind_rank(a.kind) < kind_rank(b.kind)
    } else if rel_tag(a.related) != rel_tag(b.related) {
        rel_tag(a.related) < rel_tag(b.related)
    } else {
        rel_val(a.related) <= rel_val(b.related)
    }
}

/// `vio_le` is total.
pub proof fn lemma_vio_total(a: ViolationModel, b: ViolationModel)
    ensures
        vio_le(a, b) || vio_le(b, a),
{
}

/// `vio_le` is antisymmetric: the order keys determine the violation.
pub proof fn lemma_vio_antisym(a: ViolationModel, b: ViolationModel)
    requires
        vio_le(a, b),
        vio_le(b, a),
    ensures
        a == b,
{
    assert(kind_rank(a.kind) == kind_rank(b.kind) ==> a.kind == b.kind);
    assert(rel_tag(a.related) == rel_tag(b.related)
        && rel_val(a.related) == rel_val(b.related) ==> a.related == b.related);
}

/// `vio_le` is transitive.
pub proof fn lemma_vio_trans(a: ViolationModel, b: ViolationModel, c: ViolationModel)
    requires
        vio_le(a, b),
        vio_le(b, c),
    ensures
        vio_le(a, c),
{
}

/// Insertion into a sorted sequence, before the first element it is not
/// greater than.
pub open spec fn insert_sorted(s: Seq<ViolationModel>, v: ViolationModel)
    -> Seq<ViolationModel>
    decreases s.len(),
{
    if s.len() == 0 {
        seq![v]
    } else if vio_le(v, s[0]) {
        seq![v] + s
    } else {
        seq![s[0]] + insert_sorted(s.drop_first(), v)
    }
}

/// Insertion sort over the first `n` elements.
pub open spec fn sort_to(s: Seq<ViolationModel>, n: int) -> Seq<ViolationModel>
    decreases n,
{
    if n <= 0 {
        Seq::empty()
    } else {
        insert_sorted(sort_to(s, n - 1), s[n - 1])
    }
}

pub open spec fn sort_violations(s: Seq<ViolationModel>) -> Seq<ViolationModel> {
    sort_to(s, s.len() as int)
}

/// One step of adjacent deduplication.
pub open spec fn dedup_push(acc: Seq<ViolationModel>, v: ViolationModel)
    -> Seq<ViolationModel> {
    if acc.len() > 0 && acc.last() == v {
        acc
    } else {
        acc.push(v)
    }
}

/// Adjacent deduplication of the first `n` elements.
pub open spec fn dedup_to(s: Seq<ViolationModel>, n: int) -> Seq<ViolationModel>
    decreases n,
{
    if n <= 0 {
        Seq::empty()
    } else {
        dedup_push(dedup_to(s, n - 1), s[n - 1])
    }
}

pub open spec fn dedup_violations(s: Seq<ViolationModel>) -> Seq<ViolationModel> {
    dedup_to(s, s.len() as int)
}

/// The final report order: sorted, with exact duplicates removed.
pub open spec fn ordered_violations(s: Seq<ViolationModel>) -> Seq<ViolationModel> {
    dedup_violations(sort_violations(s))
}

/// How often `x` occurs in `s`.
pub open spec fn count_of(s: Seq<ViolationModel>, x: ViolationModel) -> int
    decreases s.len(),
{
    if s.len() == 0 {
        0
    } else {
        count_of(s.drop_first(), x) + if s[0] == x { 1int } else { 0int }
    }
}

pub open spec fn appears(s: Seq<ViolationModel>, x: ViolationModel) -> bool {
    count_of(s, x) > 0
}

/// Counting distributes over `push`.
pub proof fn lemma_count_push(s: Seq<ViolationModel>, v: ViolationModel, x: ViolationModel)
    ensures
        count_of(s.push(v), x) == count_of(s, x) + if v == x { 1int } else { 0int },
    decreases s.len(),
{
    if s.len() == 0 {
        assert(s.push(v).drop_first() =~= Seq::<ViolationModel>::empty());
        assert(s.push(v)[0] == v);
        assert(count_of(Seq::<ViolationModel>::empty(), x) == 0);
        assert(count_of(s.push(v), x) == count_of(s.push(v).drop_first(), x)
            + if s.push(v)[0] == x { 1int } else { 0int });
    } else {
        assert(s.push(v).drop_first() =~= s.drop_first().push(v));
        assert(s.push(v)[0] == s[0]);
        lemma_count_push(s.drop_first(), v, x);
        assert(count_of(s.push(v), x) == count_of(s.push(v).drop_first(), x)
            + if s.push(v)[0] == x { 1int } else { 0int });
        assert(count_of(s, x) == count_of(s.drop_first(), x)
            + if s[0] == x { 1int } else { 0int });
    }
}

/// Counting distributes over concatenation.
pub proof fn lemma_count_add(s: Seq<ViolationModel>, t: Seq<ViolationModel>,
    x: ViolationModel)
    ensures
        count_of(s + t, x) == count_of(s, x) + count_of(t, x),
    decreases s.len(),
{
    if s.len() == 0 {
        assert(s + t =~= t);
    } else {
        assert((s + t).drop_first() =~= s.drop_first() + t);
        lemma_count_add(s.drop_first(), t, x);
    }
}

/// Insertion adds exactly one occurrence of the inserted element.
pub proof fn lemma_insert_count(s: Seq<ViolationModel>, v: ViolationModel,
    x: ViolationModel)
    ensures
        count_of(insert_sorted(s, v), x) == count_of(s, x) + if v == x { 1int } else { 0int },
    decreases s.len(),
{
    if s.len() == 0 {
        assert(seq![v].drop_first() =~= Seq::<ViolationModel>::empty());
        assert(seq![v][0] == v);
        assert(count_of(Seq::<ViolationModel>::empty(), x) == 0);
        assert(count_of(seq![v], x) == count_of(seq![v].drop_first(), x)
            + if seq![v][0] == x { 1int } else { 0int });
    } else if vio_le(v, s[0]) {
        assert((seq![v] + s).drop_first() =~= s);
        assert((seq![v] + s)[0] == v);
        assert(count_of(seq![v] + s, x) == count_of((seq![v] + s).drop_first(), x)
            + if (seq![v] + s)[0] == x { 1int } else { 0int });
    } else {
        lemma_insert_count(s.drop_first(), v, x);
        let t = seq![s[0]] + insert_sorted(s.drop_first(), v);
        assert(t.drop_first() =~= insert_sorted(s.drop_first(), v));
        assert(t[0] == s[0]);
        assert(t.len() > 0);
        assert(count_of(t, x) == count_of(t.drop_first(), x)
            + if t[0] == x { 1int } else { 0int });
        assert(count_of(s, x) == count_of(s.drop_first(), x)
            + if s[0] == x { 1int } else { 0int });
    }
}

/// Sorting permutes: every violation keeps its multiplicity.
pub proof fn lemma_sort_count(s: Seq<ViolationModel>, n: int, x: ViolationModel)
    requires
        0 <= n <= s.len(),
    ensures
        count_of(sort_to(s, n), x) == count_of(s.take(n), x),
    decreases n,
{
    if n <= 0 {
        assert(s.take(0) =~= Seq::<ViolationModel>::empty());
    } else {
        lemma_sort_count(s, n - 1, x);
        lemma_insert_count(sort_to(s, n - 1), s[n - 1], x);
        assert(s.take(n) =~= s.take(n - 1).push(s[n - 1]));
        lemma_count_push(s.take(n - 1), s[n - 1], x);
    }
}

/// Adjacent in sorted order.
pub open spec fn sorted(s: Seq<ViolationModel>) -> bool {
    forall|j: int| 0 <= j < s.len() - 1 ==> vio_le(#[trigger] s[j], s[j + 1])
}

/// Inserting keeps a sequence sorted, and the head of the result is the
/// old head or the inserted element.
pub proof fn lemma_insert_sorted_keeps(s: Seq<ViolationModel>, v: ViolationModel)
    requires
        sorted(s),
    ensures
        sorted(insert_sorted(s, v)),
        insert_sorted(s, v).len() == s.len() + 1,
        insert_sorted(s, v)[0] == v || (s.len() > 0 && insert_sorted(s, v)[0] == s[0]),
    decreases s.len(),
{
    if s.len() == 0 {
    } else if vio_le(v, s[0]) {
        let r = seq![v] + s;
        assert forall|j: int| 0 <= j < r.len() - 1 implies vio_le(#[trigger] r[j], r[j + 1])
            by {
            if j > 0 {
                assert(r[j] == s[j - 1] && r[j + 1] == s[j]);
            }
        }
    } else {
        let tail = s.drop_first();
        assert forall|j: int| 0 <= j < tail.len() - 1
            implies vio_le(#[trigger] tail[j], tail[j + 1]) by {
            assert(tail[j] == s[j + 1] && tail[j + 1] == s[j + 2]);
        }
        lemma_insert_sorted_keeps(tail, v);
        let t = insert_sorted(tail, v);
        let r = seq![s[0]] + t;
        lemma_vio_total(v, s[0]);
        assert forall|j: int| 0 <= j < r.len() - 1 implies vio_le(#[trigger] r[j], r[j + 1])
            by {
            if j == 0 {
                if t.len() > 0 {
                    assert(r[1] == t[0]);
                    if s.len() > 1 && t[0] == tail[0] {
                        assert(vio_le(s[0], s[1]));
                    }
                }
            } else {
                assert(r[j] == t[j - 1] && r[j + 1] == t[j]);
            }
        }
    }
}

/// The full sort is sorted.
pub proof fn lemma_sort_sorted(s: Seq<ViolationModel>, n: int)
    requires
        0 <= n <= s.len(),
    ensures
        sorted(sort_to(s, n)),
    decreases n,
{
    if n > 0 {
        lemma_sort_sorted(s, n - 1);
        lemma_insert_sorted_keeps(sort_to(s, n - 1), s[n - 1]);
    }
}

/// In a sorted sequence the order holds pairwise, not just between
/// neighbours.
pub proof fn lemma_sorted_pairwise(s: Seq<ViolationModel>, j: int, k: int)
    requires
        sorted(s),
        0 <= j <= k < s.len(),
    ensures
        vio_le(s[j], s[k]),
    decreases k - j,
{
    if j < k {
        lemma_sorted_pairwise(s, j, k - 1);
        lemma_vio_trans(s[j], s[k - 1], s[k]);
    }
}

/// Deduplicating a sorted sequence keeps exactly the distinct elements, in
/// order, at most once each.
pub proof fn lemma_dedup_sorted(s: Seq<ViolationModel>, n: int)
    requires
        sorted(s),
        0 <= n <= s.len(),
    ensures
        sorted(dedup_to(s, n)),
        forall|x: ViolationModel| appears(dedup_to(s, n), x) <==> appears(s.take(n), x),
        forall|x: ViolationModel| count_of(dedup_to(s, n), x) <= 1,
        n > 0 ==> dedup_to(s, n).len() > 0 && dedup_to(s, n).last() == s[n - 1],
        forall|j: int| 0 <= j < dedup_to(s, n).len() && n > 0
            ==> vio_le(#[trigger] dedup_to(s, n)[j], s[n - 1]),
    decreases n,
{
    if n > 0 {
        lemma_dedup_sorted(s, n - 1);
        let acc = dedup_to(s, n - 1);
        let v = s[n - 1];
        if acc.len() > 0 && acc.last() == v {
            assert(dedup_to(s, n) == acc);
            assert(s.take(n) =~= s.take(n - 1).push(v));
            assert forall|x: ViolationModel| appears(dedup_to(s, n), x)
                <==> appears(s.take(n), x) by {
                lemma_count_push(s.take(n - 1), v, x);
                lemma_count_nonneg(s.take(n - 1), x);
                assert(count_of(s.take(n), x) == count_of(s.take(n - 1), x)
                    + if v == x { 1int } else { 0int });
                if x == v {
                    lemma_index_appears(acc, acc.len() - 1);
                    assert(appears(acc, x));
                    assert(appears(s.take(n), x));
                } else {
                    assert(appears(acc, x) <==> appears(s.take(n - 1), x));
                    assert(count_of(s.take(n), x) == count_of(s.take(n - 1), x));
                }
                assert(dedup_to(s, n) == acc);
            }
            assert forall|j: int| 0 <= j < acc.len()
                implies vio_le(#[trigger] acc[j], s[n - 1]) by {
                if n - 1 > 0 {
                    lemma_sorted_pairwise(acc, j, acc.len() - 1);
                }
            }
        } else {
            assert(dedup_to(s, n) == acc.push(v));
            assert(s.take(n) =~= s.take(n - 1).push(v));
            assert forall|x: ViolationModel| appears(dedup_to(s, n), x)
                <==> appears(s.take(n), x) by {
                lemma_count_push(s.take(n - 1), v, x);
                lemma_count_push(acc, v, x);
                lemma_count_nonneg(s.take(n - 1), x);
                lemma_count_nonneg(acc, x);
                assert(appears(acc, x) <==> appears(s.take(n - 1), x));
                assert(count_of(dedup_to(s, n), x) == count_of(acc, x)
                    + if v == x { 1int } else { 0int });
                assert(count_of(s.take(n), x) == count_of(s.take(n - 1), x)
                    + if v == x { 1int } else { 0int });
            }
            // the pushed element is new: everything in acc is strictly
            // smaller in the order, being <= s[n-2] and != v
            assert forall|x: ViolationModel| count_of(#[trigger] acc.push(v), x) <= 1 by {
                lemma_count_push(acc, v, x);
                if x == v && appears(acc, v) {
                    lemma_appears_index(acc, v);
                    let j = choose|j: int| 0 <= j < acc.len() && acc[j] == v;
                    if n - 1 > 0 {
                        lemma_sorted_pairwise(acc, j, acc.len() - 1);
                        if n - 2 >= 0 {
                            lemma_sorted_pairwise(s, n - 2, n - 1);
                        }
                        lemma_vio_antisym(acc.last(), v);
                    }
                }
            }
            let r = acc.push(v);
            assert forall|j: int| 0 <= j < r.len() - 1
                implies vio_le(#[trigger] r[j], r[j + 1]) by {
                if j == r.len() - 2 && acc.len() > 0 {
                    if n - 1 > 0 {
                        lemma_sorted_pairwise(s, n - 2, n - 1);
                    }
                }
            }
            assert forall|j: int| 0 <= j < r.len()
                implies vio_le(#[trigger] r[j], s[n - 1]) by {
                if j < acc.len() {
                    if acc.len() > 0 && n - 1 > 0 {
                        lemma_sorted_pairwise(acc, j, acc.len() - 1);
                        lemma_sorted_pairwise(s, n - 2, n - 1);
                        lemma_vio_trans(acc[j], acc.last(), s[n - 1]);
                    }
                }
            }
        }
    }
}

/// An element at an index appears.
pub proof fn lemma_index_appears(s: Seq<ViolationModel>, j: int)
    requires
        0 <= j < s.len(),
    ensures
        appears(s, s[j]),
    decreases s.len(),
{
    lemma_count_nonneg(s.drop_first(), s[j]);
    if j > 0 {
        lemma_index_appears(s.drop_first(), j - 1);
        assert(s.drop_first()[j - 1] == s[j]);
    }
}

/// An element that appears has an index.
pub proof fn lemma_appears_index(s: Seq<ViolationModel>, x: ViolationModel)
    requires
        appears(s, x),
    ensures
        exists|j: int| 0 <= j < s.len() && s[j] == x,
    decreases s.len(),
{
    if s.len() > 0 {
        if s[0] == x {
            assert(0 <= 0 < s.len() && s[0] == x);
        } else {
            lemma_appears_index(s.drop_first(), x);
            let j = choose|j: int| 0 <= j < s.drop_first().len() && s.drop_first()[j] == x;
            assert(s[j + 1] == x);
        }
    }
}

/// The ordered report holds exactly the violations of the raw list, each
/// once.
pub proof fn lemma_ordered_character(s: Seq<ViolationModel>)
    ensures
        sorted(ordered_violations(s)),
        forall|x: ViolationModel| appears(ordered_violations(s), x) <==> appears(s, x),
        forall|x: ViolationModel| count_of(ordered_violations(s), x) <= 1,
        ordered_violations(s).len() == 0 <==> s.len() == 0,
{
    let srt = sort_violations(s);
    lemma_sort_sorted(s, s.len() as int);
    lemma_dedup_sorted(srt, srt.len() as int);
    assert(srt.take(srt.len() as int) =~= srt);
    assert(s.take(s.len() as int) =~= s);
    assert forall|x: ViolationModel| appears(ordered_violations(s), x) <==> appears(s, x)
        by {
        lemma_sort_count(s, s.len() as int, x);
    }
    if s.len() > 0 {
        assert(appears(s, s[0])) by {
            lemma_count_first(s);
        }
    }
    if ordered_violations(s).len() > 0 {
        assert(appears(ordered_violations(s), ordered_violations(s)[0])) by {
            lemma_count_first(ordered_violations(s));
        }
    }
}

/// The first element of a nonempty sequence appears in it.
pub proof fn lemma_count_first(s: Seq<ViolationModel>)
    requires
        s.len() > 0,
    ensures
        appears(s, s[0]),
        count_of(s, s[0]) > 0,
    decreases s.len(),
{
    if s.len() > 0 {
        assert(count_of(s.drop_first(), s[0]) >= 0) by {
            lemma_count_nonneg(s.drop_first(), s[0]);
        }
    }
}

/// Counts are never negative.
pub proof fn lemma_count_nonneg(s: Seq<ViolationModel>, x: ViolationModel)
    ensures
        count_of(s, x) >= 0,
    decreases s.len(),
{
    if s.len() > 0 {
        lemma_count_nonneg(s.drop_first(), x);
    }
}

/// Where the scan of the executable insertion lands, the recursive
/// insertion puts the element.
pub proof fn lemma_insert_at(s: Seq<ViolationModel>, v: ViolationModel, idx: int)
    requires
        0 <= idx <= s.len(),
        forall|k: int| 0 <= k < idx ==> !vio_le(v, #[trigger] s[k]),
        idx < s.len() ==> vio_le(v, s[idx]),
    ensures
        insert_sorted(s, v) == s.insert(idx, v),
    decreases idx,
{
    if s.len() == 0 {
        assert(insert_sorted(s, v) =~= s.insert(0, v));
    } else if idx == 0 {
        assert(insert_sorted(s, v) =~= s.insert(0, v));
    } else {
        let tail = s.drop_first();
        lemma_insert_at(tail, v, idx - 1);
        assert(seq![s[0]] + tail.insert(idx - 1, v) =~= s.insert(idx, v));
    }
}

/// Executable insertion into a sorted violation list.
fn insert_x(out: &mut Vec<Violation>, v: Violation)
    ensures
        vio_views(final(out)@) == insert_sorted(vio_views(old(out)@), v@),
{
    let n = out.len();
    let mut idx: usize = 0;
    while idx < n
        invariant
            0 <= idx <= n,
            n == out@.len(),
            forall|k: int| 0 <= k < idx ==> !vio_le(v@, (#[trigger] out@[k])@),
        ensures
            0 <= idx <= n,
            n == out@.len(),
            forall|k: int| 0 <= k < idx ==> !vio_le(v@, (#[trigger] out@[k])@),
            idx < n ==> vio_le(v@, out@[idx as int]@),
        decreases n - idx,
    {
        let w = out[idx];
        let le = vio_le_x(&v, &w);
        if le {
            break;
        }
        idx = idx + 1;
    }
    let ghost pre = vio_views(out@);
    out.insert(idx, v);
    proof {
        lemma_insert_at(pre, v@, idx as int);
        assert(vio_views(out@) =~= pre.insert(idx as int, v@));
    }
}

/// The executable order test, agreeing with `vio_le` on the views.
fn vio_le_x(a: &Violation, b: &Violation) -> (r: bool)
    ensures
        r == vio_le(a@, b@),
{
    if a.stmt != b.stmt {
        return a.stmt < b.stmt;
    }
    let ra = kind_rank_x(a.kind);
    let rb = kind_rank_x(b.kind);
    if ra != rb {
        return ra < rb;
    }
    match (a.related, b.related) {
        (None, None) => true,
        (None, Some(_)) => true,
        (Some(_), None) => false,
        (Some(x), Some(y)) => x <= y,
    }
}

/// The executable kind rank.
fn kind_rank_x(k: ErrorKind) -> (r: u8)
    ensures
        r as int == kind_rank(k),
{
    match k {
        ErrorKind::UseAfterMove => 0,
        ErrorKind::PartialMove => 1,
        ErrorKind::DanglingOnDrop => 2,
        ErrorKind::ExclusivityViolation => 3,
        ErrorKind::DanglingReturn => 4,
        ErrorKind::SliceOutOfBounds => 5,
        ErrorKind::UnknownBinding => 6,
    }
}

/// Whether two violations are the same entry.
fn vio_eq_x(a: &Violation, b: &Violation) -> (r: bool)
    ensures
        r == (a@ == b@),
{
    let ka = kind_rank_x(a.kind);
    let kb = kind_rank_x(b.kind);
    let rel = match (a.related, b.related) {
        (None, None) => true,
        (Some(x), Some(y)) => x == y,
        _ => false,
    };
    ka == kb && a.stmt == b.stmt && rel
}

/// Sorts and deduplicates a violation list into report order.
pub fn order_violations(raw: &Vec<Violation>) -> (out: Vec<Violation>)
    ensures
        vio_views(out@) == ordered_violations(vio_views(raw@)),
{
    let ghost rv = vio_views(raw@);
    let n = raw.len();
    let mut srt: Vec<Violation> = Vec::new();
    let mut i: usize = 0;
    proof {
        assert(vio_views(srt@) =~= sort_to(rv, 0));
    }
    while i < n
        invariant
            0 <= i <= n,
            n == raw@.len(),
            rv == vio_views(raw@),
            vio_views(srt@) == sort_to(rv, i as int),
        decreases n - i,
    {
        let v = raw[i];
        insert_x(&mut srt, v);
        i = i + 1;
    }
    let m = srt.len();
    let mut out: Vec<Violation> = Vec::new();
    let mut j: usize = 0;
    proof {
        assert(vio_views(out@) =~= dedup_to(vio_views(srt@), 0));
    }
    while j < m
        invariant
            0 <= j <= m,
            m == srt@.len(),
            vio_views(srt@) == sort_violations(rv),
            rv == vio_views(raw@),
            vio_views(out@) == dedup_to(vio_views(srt@), j as int),
        decreases m - j,
    {
        let v = srt[j];
        let dup = if out.len() > 0 {
            let last = out[out.len() - 1];
            vio_eq_x(&last, &v)
        } else {
            false
        };
        let ghost pre = vio_views(out@);
        if !dup {
            out.push(v);
            proof {
                assert(vio_views(out@) =~= pre.push(v@));
            }
        } else {
            proof {
                assert(pre.len() > 0 && pre.last() == v@);
            }
        }
        j = j + 1;
    }
    out
}

} // verus!
