use vstd::prelude::*;
use vstd::seq_lib::to_multiset_contains;

use itertools::Itertools;

use crate::model::{group_key, group_wf, key_of, Snapshot, SnapshotGroup};

verus! {

/// Lexicographic order of character sequences by code point.
pub open spec fn text_lt(a: Seq<char>, b: Seq<char>) -> bool
    decreases a.len(),
{
    if a.len() == 0 {
        b.len() > 0
    } else if b.len() == 0 {
        false
    } else if a[0] != b[0] {
        (a[0] as int) < (b[0] as int)
    } else {
        text_lt(a.drop_first(), b.drop_first())
    }
}

/// The snapshots of `s` whose key is `k`, in their order in `s`.
pub open spec fn with_key(s: Seq<Snapshot>, k: (Seq<char>, Seq<char>)) -> Seq<Snapshot>
    decreases s.len(),
{
    if s.len() == 0 {
        Seq::empty()
    } else {
        let rest = with_key(s.drop_last(), k);
        if key_of(s.last()) == k {
            rest.push(s.last())
        } else {
            rest
        }
    }
}

/// Order of grouping keys: by host, then by path.
pub open spec fn key_lt(a: (Seq<char>, Seq<char>), b: (Seq<char>, Seq<char>)) -> bool {
    text_lt(a.0, b.0) || (a.0 == b.0 && text_lt(a.1, b.1))
}

/// `s` is ordered by grouping key.
pub open spec fn sorted_by_key(s: Seq<Snapshot>) -> bool {
    forall|i: int, j: int| 0 <= i < j < s.len() ==> !key_lt(key_of(#[trigger] s[j]), key_of(#[trigger] s[i]))
}

/// Snapshots of one key stand next to each other in `s`.
pub open spec fn contiguous(s: Seq<Snapshot>) -> bool {
    forall|i: int, j: int, k: int|
        0 <= i < j < k < s.len() && key_of(#[trigger] s[i]) == key_of(#[trigger] s[k])
            ==> key_of(#[trigger] s[j]) == key_of(s[i])
}

/// Each run is non-empty and of one key, and neighbouring runs differ in key.
pub open spec fn runs_wf(r: Seq<Seq<Snapshot>>) -> bool {
    &&& forall|k: int| 0 <= k < r.len() ==> #[trigger] r[k].len() > 0
    &&& forall|k: int, i: int|
        0 <= k < r.len() && 0 <= i < r[k].len() ==> key_of(#[trigger] r[k][i]) == key_of(r[k][0])
    &&& forall|k: int| 0 <= k < r.len() - 1 ==> key_of(#[trigger] r[k][0]) != key_of(r[k + 1][0])
}

/// The contents of each run.
pub open spec fn runs_view(r: Seq<Vec<Snapshot>>) -> Seq<Seq<Snapshot>> {
    r.map_values(|v: Vec<Snapshot>| v@)
}

/// Every snapshot of `groups`, group after group.
pub open spec fn all_snapshots(groups: Seq<SnapshotGroup>) -> Seq<Snapshot> {
    groups.map_values(|g: SnapshotGroup| g.snapshots@).flatten()
}

/// `groups` partitions `input` by grouping key: each snapshot of `input`
/// stands in exactly one group, each group is homogeneous and non-empty, and
/// no two groups share a key. The groups come in increasing order of key, and
/// each holds the snapshots of its key in their input order, so the grouping
/// of an input is fixed.
pub open spec fn is_grouping_of(input: Seq<Snapshot>, groups: Seq<SnapshotGroup>) -> bool {
    &&& all_snapshots(groups).to_multiset() == input.to_multiset()
    &&& forall|k: int|
        0 <= k < groups.len() ==> (#[trigger] groups[k]).snapshots@ == with_key(input, group_key(groups[k]))
    &&& forall|a: int, b: int|
        0 <= a < b < groups.len() ==> key_lt(group_key(#[trigger] groups[a]), group_key(#[trigger] groups[b]))
    &&& forall|k: int| 0 <= k < groups.len() ==> group_wf(#[trigger] groups[k])
    &&& forall|a: int, b: int|
        0 <= a < groups.len() && 0 <= b < groups.len() && a != b
            ==> group_key(#[trigger] groups[a]) != group_key(#[trigger] groups[b])
}

/// Relies on itertools' `Itertools::sorted_by`, which sorts with the stable
/// `slice::sort_by`: the result holds the same snapshots, ordered by host and
/// then path, and snapshots of one key keep their order. `String` compares by
/// UTF-8 bytes, which orders as code points do.
#[verifier::external_body]
fn sorted_by_origin(snapshots: Vec<Snapshot>) -> (r: Vec<Snapshot>)
    ensures
        r@.to_multiset() == snapshots@.to_multiset(),
        sorted_by_key(r@),
        forall|k: (Seq<char>, Seq<char>)| #[trigger] with_key(r@, k) == with_key(snapshots@, k),
{
    snapshots.into_iter().sorted_by(|a, b| (&a.host, &a.path).cmp(&(&b.host, &b.path))).collect()
}

/// Relies on itertools' `Itertools::group_by`: consecutive snapshots with the
/// same host and path form one run, and the runs, in order, are the input.
#[verifier::external_body]
fn group_by_origin(snapshots: Vec<Snapshot>) -> (r: Vec<Vec<Snapshot>>)
    ensures
        runs_view(r@).flatten() == snapshots@,
        runs_wf(runs_view(r@)),
{
    let runs = snapshots.into_iter().group_by(|s| (s.host.clone(), s.path.clone()));
    let r = runs.into_iter().map(|(_, run)| run.collect()).collect();
    r
}

proof fn lemma_text_lt_total(a: Seq<char>, b: Seq<char>)
    ensures
        a != b ==> text_lt(a, b) || text_lt(b, a),
    decreases a.len(),
{
    if a.len() > 0 && b.len() > 0 && a[0] == b[0] {
        lemma_text_lt_total(a.drop_first(), b.drop_first());
        if a.drop_first() == b.drop_first() {
            assert(a =~= seq![a[0]] + a.drop_first());
            assert(b =~= seq![b[0]] + b.drop_first());
        }
    } else if a.len() == 0 && b.len() == 0 {
        assert(a =~= b);
    }
}

proof fn lemma_key_lt_total(a: (Seq<char>, Seq<char>), b: (Seq<char>, Seq<char>))
    ensures
        a != b ==> key_lt(a, b) || key_lt(b, a),
{
    lemma_text_lt_total(a.0, b.0);
    lemma_text_lt_total(a.1, b.1);
}

proof fn lemma_with_key_add(a: Seq<Snapshot>, b: Seq<Snapshot>, k: (Seq<char>, Seq<char>))
    ensures
        with_key(a + b, k) == with_key(a, k) + with_key(b, k),
    decreases b.len(),
{
    if b.len() == 0 {
        assert(a + b =~= a);
        assert(with_key(a, k) + with_key(b, k) =~= with_key(a, k));
    } else {
        lemma_with_key_add(a, b.drop_last(), k);
        assert((a + b).drop_last() =~= a + b.drop_last());
        assert((a + b).last() == b.last());
        assert(with_key(a, k) + with_key(b.drop_last(), k).push(b.last()) =~= (with_key(a, k) + with_key(
            b.drop_last(),
            k,
        )).push(b.last()));
    }
}

/// A run of one key keeps all of itself under that key and nothing under another.
proof fn lemma_with_key_run(s: Seq<Snapshot>, k: (Seq<char>, Seq<char>))
    requires
        forall|i: int| 0 <= i < s.len() ==> key_of(#[trigger] s[i]) == key_of(s[0]),
    ensures
        s.len() > 0 && key_of(s[0]) == k ==> with_key(s, k) == s,
        s.len() > 0 && key_of(s[0]) != k ==> with_key(s, k) == Seq::<Snapshot>::empty(),
    decreases s.len(),
{
    if s.len() > 0 {
        let t = s.drop_last();
        assert(key_of(s.last()) == key_of(s[0]));
        assert(t.push(s.last()) =~= s);
        if t.len() > 0 {
            assert(key_of(t[0]) == key_of(s[0]));
            lemma_with_key_run(t, k);
        } else {
            assert(with_key(t, k) == Seq::<Snapshot>::empty());
            assert(t =~= Seq::<Snapshot>::empty());
        }
        assert(with_key(s, k) == (if key_of(s.last()) == k {
            with_key(t, k).push(s.last())
        } else {
            with_key(t, k)
        }));
    }
}

/// Under the key of a run, runs of distinct keys give back that run.
proof fn lemma_with_key_runs(r: Seq<Seq<Snapshot>>, k: (Seq<char>, Seq<char>))
    requires
        runs_wf(r),
        forall|a: int, b: int| 0 <= a < b < r.len() ==> key_of(#[trigger] r[a][0]) != key_of(#[trigger] r[b][0]),
    ensures
        (forall|j: int| 0 <= j < r.len() ==> key_of(#[trigger] r[j][0]) != k) ==> with_key(r.flatten(), k)
            == Seq::<Snapshot>::empty(),
        forall|j: int| 0 <= j < r.len() && key_of(#[trigger] r[j][0]) == k ==> with_key(r.flatten(), k) == r[j],
    decreases r.len(),
{
    if r.len() > 0 {
        let rest = r.drop_first();
        assert(r.flatten() == r[0] + rest.flatten());
        assert(runs_wf(rest)) by {
            assert forall|j: int| 0 <= j < rest.len() - 1 implies key_of(#[trigger] rest[j][0]) != key_of(rest[j + 1][0]) by {
                assert(rest[j] == r[j + 1]);
            }
        }
        assert forall|a: int, b: int| 0 <= a < b < rest.len() implies key_of(#[trigger] rest[a][0]) != key_of(#[trigger] rest[b][0]) by {
            assert(rest[a] == r[a + 1] && rest[b] == r[b + 1]);
        }
        lemma_with_key_runs(rest, k);
        lemma_with_key_add(r[0], rest.flatten(), k);
        assert forall|i: int| 0 <= i < r[0].len() implies key_of(#[trigger] r[0][i]) == key_of(r[0][0]) by {}
        lemma_with_key_run(r[0], k);
        if key_of(r[0][0]) == k {
            assert forall|j: int| 0 <= j < rest.len() implies key_of(#[trigger] rest[j][0]) != k by {
                assert(rest[j] == r[j + 1]);
            }
            assert(r[0] + Seq::<Snapshot>::empty() =~= r[0]);
        } else {
            assert(Seq::<Snapshot>::empty() + with_key(rest.flatten(), k) =~= with_key(rest.flatten(), k));
            assert forall|j: int| 0 <= j < r.len() && key_of(#[trigger] r[j][0]) == k implies with_key(r.flatten(), k)
                == r[j] by {
                assert(rest[j - 1] == r[j]);
            }
            if forall|j: int| 0 <= j < r.len() ==> key_of(#[trigger] r[j][0]) != k {
                assert forall|j: int| 0 <= j < rest.len() implies key_of(#[trigger] rest[j][0]) != k by {
                    assert(rest[j] == r[j + 1]);
                }
            }
        }
    }
}

/// In runs of a sorted sequence, an earlier run's key is no greater than a
/// later one's.
proof fn lemma_runs_ordered(r: Seq<Seq<Snapshot>>)
    requires
        runs_wf(r),
        sorted_by_key(r.flatten()),
    ensures
        forall|a: int, b: int| 0 <= a < b < r.len() ==> !key_lt(key_of(#[trigger] r[b][0]), key_of(#[trigger] r[a][0])),
    decreases r.len(),
{
    if r.len() > 1 {
        let rest = r.drop_first();
        let s = r.flatten();
        let t = rest.flatten();
        let n = r[0].len() as int;
        assert(s == r[0] + t);
        assert forall|i: int, j: int| 0 <= i < j < t.len() implies !key_lt(key_of(#[trigger] t[j]), key_of(#[trigger] t[i])) by {
            assert(s[n + i] == t[i] && s[n + j] == t[j]);
        }
        assert(runs_wf(rest)) by {
            assert forall|k: int| 0 <= k < rest.len() - 1 implies key_of(#[trigger] rest[k][0]) != key_of(rest[k + 1][0]) by {
                assert(rest[k] == r[k + 1]);
            }
        }
        lemma_runs_ordered(rest);
        assert forall|a: int, b: int| 0 <= a < b < r.len() implies !key_lt(key_of(#[trigger] r[b][0]), key_of(#[trigger] r[a][0])) by {
            if a > 0 {
                assert(r[a] == rest[a - 1] && r[b] == rest[b - 1]);
            } else {
                lemma_in_flatten(rest, b - 1);
                let u = choose|u: int| 0 <= u < t.len() && t[u] == rest[b - 1][0];
                assert(s[0] == r[0][0]);
                assert(s[n + u] == r[b][0]);
            }
        }
    }
}

proof fn lemma_sorted_contiguous(s: Seq<Snapshot>)
    requires
        sorted_by_key(s),
    ensures
        contiguous(s),
{
    assert forall|i: int, j: int, k: int|
        0 <= i < j < k < s.len() && key_of(#[trigger] s[i]) == key_of(#[trigger] s[k]) implies key_of(
        #[trigger] s[j],
    ) == key_of(s[i]) by {
        let ki = key_of(s[i]);
        let kj = key_of(s[j]);
        assert(!key_lt(kj, ki));
        assert(!key_lt(key_of(s[k]), kj));
        lemma_text_lt_total(ki.0, kj.0);
        lemma_text_lt_total(ki.1, kj.1);
    }
}

proof fn lemma_in_flatten(r: Seq<Seq<Snapshot>>, b: int)
    requires
        0 <= b < r.len(),
        r[b].len() > 0,
    ensures
        exists|u: int| 0 <= u < r.flatten().len() && r.flatten()[u] == r[b][0],
    decreases b,
{
    assert(r.flatten() == r[0] + r.drop_first().flatten());
    if b == 0 {
        assert(r.flatten()[0] == r[0][0]);
    } else {
        lemma_in_flatten(r.drop_first(), b - 1);
        let u = choose|u: int|
            0 <= u < r.drop_first().flatten().len() && r.drop_first().flatten()[u] == r.drop_first()[b - 1][0];
        assert(r.flatten()[r[0].len() + u] == r[b][0]);
    }
}

proof fn lemma_runs_distinct(r: Seq<Seq<Snapshot>>)
    requires
        runs_wf(r),
        contiguous(r.flatten()),
    ensures
        forall|a: int, b: int| 0 <= a < b < r.len() ==> key_of(#[trigger] r[a][0]) != key_of(#[trigger] r[b][0]),
    decreases r.len(),
{
    if r.len() > 1 {
        let rest = r.drop_first();
        let s = r.flatten();
        let t = rest.flatten();
        assert(s == r[0] + t);
        assert forall|i: int, j: int, k: int|
            0 <= i < j < k < t.len() && key_of(#[trigger] t[i]) == key_of(#[trigger] t[k]) implies key_of(
            #[trigger] t[j],
        ) == key_of(t[i]) by {
            let n = r[0].len() as int;
            assert(s[n + i] == t[i] && s[n + j] == t[j] && s[n + k] == t[k]);
        }
        assert(runs_wf(rest)) by {
            assert forall|k: int| 0 <= k < rest.len() - 1 implies key_of(#[trigger] rest[k][0]) != key_of(rest[k + 1][0]) by {
                assert(rest[k] == r[k + 1]);
            }
        }
        lemma_runs_distinct(rest);
        assert forall|a: int, b: int| 0 <= a < b < r.len() implies key_of(#[trigger] r[a][0]) != key_of(#[trigger] r[b][0]) by {
            if a > 0 {
                assert(r[a] == rest[a - 1] && r[b] == rest[b - 1]);
            } else if b >= 2 {
                let more = rest.drop_first();
                assert(t == rest[0] + more.flatten());
                lemma_in_flatten(more, b - 2);
                let u = choose|u: int| 0 <= u < more.flatten().len() && more.flatten()[u] == more[b - 2][0];
                let n0 = r[0].len() as int;
                let n1 = r[1].len() as int;
                assert(s[0] == r[0][0]);
                assert(s[n0] == r[1][0]);
                assert(s[n0 + n1 + u] == r[b][0]);
                if key_of(r[0][0]) == key_of(r[b][0]) {
                    assert(key_of(s[n0]) == key_of(s[0]));
                }
            }
        }
    }
}

/// A snapshot equal to `s`.
fn copy_snapshot(s: &Snapshot) -> (r: Snapshot)
    ensures
        r == *s,
{
    Snapshot { time: s.time, host: s.host.clone(), path: s.path.clone(), id: s.id.clone() }
}

/// A list equal to `v`.
pub fn copy_snapshots(v: &Vec<Snapshot>) -> (r: Vec<Snapshot>)
    ensures
        r@ == v@,
{
    let mut r: Vec<Snapshot> = Vec::new();
    let mut i: usize = 0;
    while i < v.len()
        invariant
            i <= v@.len(),
            r@ == v@.take(i as int),
        decreases v@.len() - i,
    {
        r.push(copy_snapshot(&v[i]));
        i = i + 1;
        assert(r@ =~= v@.take(i as int));
    }
    assert(v@.take(i as int) =~= v@);
    r
}

/// Splitting a flat snapshot list into groups of one host and one path.
pub trait GroupSnapshots {
    spec fn snapshot_list(&self) -> Seq<Snapshot>;

    /// The groups of the snapshots, each snapshot in exactly one group.
    fn to_snapshot_groups(&self) -> (r: Vec<SnapshotGroup>)
        ensures
            is_grouping_of(self.snapshot_list(), r@),
    ;
}

impl GroupSnapshots for Vec<Snapshot> {
    open spec fn snapshot_list(&self) -> Seq<Snapshot> {
        self@
    }

    fn to_snapshot_groups(&self) -> (r: Vec<SnapshotGroup>) {
        let sorted = sorted_by_origin(copy_snapshots(self));
        let ghost flat = sorted@;
        let runs = group_by_origin(sorted);
        proof {
            lemma_sorted_contiguous(flat);
            lemma_runs_distinct(runs_view(runs@));
            lemma_runs_ordered(runs_view(runs@));
        }
        let mut groups: Vec<SnapshotGroup> = Vec::new();
        let mut i: usize = 0;
        while i < runs.len()
            invariant
                i <= runs@.len(),
                groups@.len() == i,
                forall|k: int| 0 <= k < i ==> (#[trigger] groups@[k]).snapshots@ == runs@[k]@,
                forall|k: int| 0 <= k < i ==> group_key(#[trigger] groups@[k]) == key_of(runs@[k]@[0]),
                runs_wf(runs_view(runs@)),
            decreases runs@.len() - i,
        {
            assert(runs_view(runs@)[i as int] == runs@[i as int]@);
            let run = copy_snapshots(&runs[i]);
            let host = run[0].host.clone();
            let path = run[0].path.clone();
            groups.push(SnapshotGroup { host, path, snapshots: run });
            i = i + 1;
        }
        proof {
            let rv = runs_view(runs@);
            assert(groups@.map_values(|g: SnapshotGroup| g.snapshots@) =~= rv);
            assert forall|k: int| 0 <= k < groups@.len() implies group_wf(#[trigger] groups@[k]) by {
                assert(rv[k] == runs@[k]@);
                assert forall|j: int| 0 <= j < groups@[k].snapshots@.len() implies #[trigger] key_of(
                    groups@[k].snapshots@[j],
                ) == group_key(groups@[k]) by {
                    assert(key_of(rv[k][j]) == key_of(rv[k][0]));
                }
            }
            assert forall|k: int| 0 <= k < groups@.len() implies (#[trigger] groups@[k]).snapshots@ == with_key(
                self@,
                group_key(groups@[k]),
            ) by {
                assert(rv[k] == runs@[k]@);
                lemma_with_key_runs(rv, key_of(rv[k][0]));
                assert(with_key(flat, key_of(rv[k][0])) == with_key(self@, key_of(rv[k][0])));
            }
            assert forall|a: int, b: int| 0 <= a < b < groups@.len() implies key_lt(
                group_key(#[trigger] groups@[a]),
                group_key(#[trigger] groups@[b]),
            ) by {
                assert(rv[a] == runs@[a]@ && rv[b] == runs@[b]@);
                assert(key_of(rv[a][0]) != key_of(rv[b][0]));
                assert(!key_lt(key_of(rv[b][0]), key_of(rv[a][0])));
                lemma_key_lt_total(key_of(rv[a][0]), key_of(rv[b][0]));
            }
            assert forall|a: int, b: int|
                0 <= a < groups@.len() && 0 <= b < groups@.len() && a != b implies group_key(
                #[trigger] groups@[a],
            ) != group_key(#[trigger] groups@[b]) by {
                assert(rv[a] == runs@[a]@ && rv[b] == runs@[b]@);
                if a < b {
                    assert(key_of(rv[a][0]) != key_of(rv[b][0]));
                } else {
                    assert(key_of(rv[b][0]) != key_of(rv[a][0]));
                }
            }
        }
        groups
    }
}

proof fn lemma_text_lt_irreflexive(a: Seq<char>)
    ensures
        !text_lt(a, a),
    decreases a.len(),
{
    if a.len() > 0 {
        lemma_text_lt_irreflexive(a.drop_first());
    }
}

proof fn lemma_text_lt_transitive(a: Seq<char>, b: Seq<char>, c: Seq<char>)
    requires
        text_lt(a, b),
        text_lt(b, c),
    ensures
        text_lt(a, c),
    decreases a.len(),
{
    if a.len() > 0 && b.len() > 0 && c.len() > 0 && a[0] == b[0] && b[0] == c[0] {
        lemma_text_lt_transitive(a.drop_first(), b.drop_first(), c.drop_first());
    }
}

proof fn lemma_key_lt_order(a: (Seq<char>, Seq<char>), b: (Seq<char>, Seq<char>), c: (Seq<char>, Seq<char>))
    ensures
        !key_lt(a, a),
        key_lt(a, b) && key_lt(b, c) ==> key_lt(a, c),
{
    lemma_text_lt_irreflexive(a.0);
    lemma_text_lt_irreflexive(a.1);
    if key_lt(a, b) && key_lt(b, c) {
        if text_lt(a.0, b.0) && text_lt(b.0, c.0) {
            lemma_text_lt_transitive(a.0, b.0, c.0);
        } else if a.0 == b.0 && b.0 == c.0 {
            lemma_text_lt_transitive(a.1, b.1, c.1);
        }
    }
}

/// Two sequences of keys in increasing order with the same members are equal.
proof fn lemma_increasing_unique(x: Seq<(Seq<char>, Seq<char>)>, y: Seq<(Seq<char>, Seq<char>)>)
    requires
        forall|a: int, b: int| 0 <= a < b < x.len() ==> key_lt(#[trigger] x[a], #[trigger] x[b]),
        forall|a: int, b: int| 0 <= a < b < y.len() ==> key_lt(#[trigger] y[a], #[trigger] y[b]),
        forall|k: (Seq<char>, Seq<char>)| x.contains(k) <==> y.contains(k),
    ensures
        x == y,
    decreases x.len(),
{
    if x.len() == 0 {
        if y.len() > 0 {
            assert(y.contains(y[0]));
        }
        assert(x =~= y);
    } else {
        assert(x.contains(x[0]));
        let j = choose|j: int| 0 <= j < y.len() && y[j] == x[0];
        assert(y.contains(y[0]));
        let i = choose|i: int| 0 <= i < x.len() && x[i] == y[0];
        lemma_key_lt_order(x[0], x[i], x[0]);
        if j > 0 {
            assert(key_lt(y[0], y[j]));
            if i > 0 {
                assert(key_lt(x[0], x[i]));
            }
            assert(false);
        }
        let xs = x.drop_first();
        let ys = y.drop_first();
        assert forall|k: (Seq<char>, Seq<char>)| xs.contains(k) <==> ys.contains(k) by {
            if xs.contains(k) {
                let a = choose|a: int| 0 <= a < xs.len() && xs[a] == k;
                assert(x[a + 1] == k && key_lt(x[0], x[a + 1]));
                lemma_key_lt_order(k, k, k);
                assert(x.contains(k));
                let b = choose|b: int| 0 <= b < y.len() && y[b] == k;
                assert(b != 0);
                assert(ys[b - 1] == k);
            }
            if ys.contains(k) {
                let a = choose|a: int| 0 <= a < ys.len() && ys[a] == k;
                assert(y[a + 1] == k && key_lt(y[0], y[a + 1]));
                lemma_key_lt_order(k, k, k);
                assert(y.contains(k));
                let b = choose|b: int| 0 <= b < x.len() && x[b] == k;
                assert(b != 0);
                assert(xs[b - 1] == k);
            }
        }
        assert forall|a: int, b: int| 0 <= a < b < xs.len() implies key_lt(#[trigger] xs[a], #[trigger] xs[b]) by {
            assert(xs[a] == x[a + 1] && xs[b] == x[b + 1]);
        }
        assert forall|a: int, b: int| 0 <= a < b < ys.len() implies key_lt(#[trigger] ys[a], #[trigger] ys[b]) by {
            assert(ys[a] == y[a + 1] && ys[b] == y[b + 1]);
        }
        lemma_increasing_unique(xs, ys);
        assert(x =~= seq![x[0]] + xs);
        assert(y =~= seq![y[0]] + ys);
    }
}

proof fn lemma_with_key_member(s: Seq<Snapshot>, k: (Seq<char>, Seq<char>))
    requires
        with_key(s, k).len() > 0,
    ensures
        exists|i: int| 0 <= i < s.len() && key_of(#[trigger] s[i]) == k,
    decreases s.len(),
{
    if key_of(s.last()) != k {
        lemma_with_key_member(s.drop_last(), k);
        let i = choose|i: int| 0 <= i < s.drop_last().len() && key_of(#[trigger] s.drop_last()[i]) == k;
        assert(s[i] == s.drop_last()[i]);
    } else {
        assert(key_of(s[s.len() - 1]) == k);
    }
}

proof fn lemma_flatten_member(r: Seq<Seq<Snapshot>>, x: Snapshot)
    requires
        r.flatten().contains(x),
    ensures
        exists|j: int, i: int| 0 <= j < r.len() && 0 <= i < r[j].len() && #[trigger] r[j][i] == x,
    decreases r.len(),
{
    let f = r.flatten();
    let u = choose|u: int| 0 <= u < f.len() && f[u] == x;
    assert(f == r[0] + r.drop_first().flatten());
    if u < r[0].len() {
        assert(r[0][u] == x);
    } else {
        let rest = r.drop_first();
        assert(rest.flatten()[u - r[0].len()] == x);
        lemma_flatten_member(rest, x);
        let (j, i) = choose|j: int, i: int| 0 <= j < rest.len() && 0 <= i < rest[j].len() && #[trigger] rest[j][i] == x;
        assert(r[j + 1][i] == x);
    }
}

/// A key has a group exactly where some input snapshot has that key.
proof fn lemma_group_keys(input: Seq<Snapshot>, groups: Seq<SnapshotGroup>, k: (Seq<char>, Seq<char>))
    requires
        is_grouping_of(input, groups),
    ensures
        groups.map_values(|g: SnapshotGroup| group_key(g)).contains(k) <==> with_key(input, k).len() > 0,
{
    let keys = groups.map_values(|g: SnapshotGroup| group_key(g));
    if keys.contains(k) {
        let j = choose|j: int| 0 <= j < keys.len() && keys[j] == k;
        assert(group_wf(groups[j]));
        assert(groups[j].snapshots@ == with_key(input, group_key(groups[j])));
    }
    if with_key(input, k).len() > 0 {
        lemma_with_key_member(input, k);
        let i = choose|i: int| 0 <= i < input.len() && key_of(#[trigger] input[i]) == k;
        let x = input[i];
        assert(input.contains(x));
        to_multiset_contains(input, x);
        to_multiset_contains(all_snapshots(groups), x);
        let r = groups.map_values(|g: SnapshotGroup| g.snapshots@);
        lemma_flatten_member(r, x);
        let (j, m) = choose|j: int, m: int| 0 <= j < r.len() && 0 <= m < r[j].len() && #[trigger] r[j][m] == x;
        assert(group_wf(groups[j]));
        assert(key_of(groups[j].snapshots@[m]) == group_key(groups[j]));
        assert(keys[j] == k);
    }
}

/// The grouping of an input is unique: any two groupings of it have the same
/// groups, with the same keys and snapshots, in the same order.
pub proof fn lemma_grouping_unique(input: Seq<Snapshot>, g1: Seq<SnapshotGroup>, g2: Seq<SnapshotGroup>)
    requires
        is_grouping_of(input, g1),
        is_grouping_of(input, g2),
    ensures
        g1.len() == g2.len(),
        forall|k: int|
            0 <= k < g1.len() ==> group_key(#[trigger] g1[k]) == group_key(g2[k]) && g1[k].snapshots@
                == g2[k].snapshots@,
{
    let x = g1.map_values(|g: SnapshotGroup| group_key(g));
    let y = g2.map_values(|g: SnapshotGroup| group_key(g));
    assert forall|k: (Seq<char>, Seq<char>)| x.contains(k) <==> y.contains(k) by {
        lemma_group_keys(input, g1, k);
        lemma_group_keys(input, g2, k);
    }
    assert forall|a: int, b: int| 0 <= a < b < x.len() implies key_lt(#[trigger] x[a], #[trigger] x[b]) by {
        assert(key_lt(group_key(g1[a]), group_key(g1[b])));
    }
    assert forall|a: int, b: int| 0 <= a < b < y.len() implies key_lt(#[trigger] y[a], #[trigger] y[b]) by {
        assert(key_lt(group_key(g2[a]), group_key(g2[b])));
    }
    lemma_increasing_unique(x, y);
    assert forall|k: int| 0 <= k < g1.len() implies group_key(#[trigger] g1[k]) == group_key(g2[k]) && g1[k].snapshots@
        == g2[k].snapshots@ by {
        assert(x[k] == y[k]);
    }
}

} // verus!
