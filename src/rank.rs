use vstd::prelude::*;

use crate::fuzzy::{rank_key, skim_score, Scorer};
use crate::package::Package;

verus! {

/// The key by which a record is ranked.
pub open spec fn key(p: Package) -> i64 {
    rank_key(p.score)
}

/// `s` is in descending order of rank key.
pub open spec fn sorted_desc(s: Seq<Package>) -> bool {
    forall|i: int, j: int| 0 <= i < j < s.len() ==> key(#[trigger] s[i]) >= key(#[trigger] s[j])
}

/// `p` inserted into `s` after every trailing element that ranks below it:
/// into a sorted `s`, after all elements that rank at least as high.
pub open spec fn insert_ranked(s: Seq<Package>, p: Package) -> Seq<Package>
    decreases s.len(),
{
    if s.len() == 0 {
        seq![p]
    } else if key(s.last()) >= key(p) {
        s.push(p)
    } else {
        insert_ranked(s.drop_last(), p).push(s.last())
    }
}

/// The first `n` of `s` in stable descending order of rank key: records of
/// equal key keep the order that they have in `s`.
pub open spec fn top_ranked(s: Seq<Package>, n: nat) -> Seq<Package>
    decreases s.len(),
{
    if s.len() == 0 {
        Seq::empty()
    } else {
        let t = insert_ranked(top_ranked(s.drop_last(), n), s.last());
        if t.len() > n {
            t.take(n as int)
        } else {
            t
        }
    }
}

/// A row survives the filters when it has a store path and, where only
/// built packages are asked for, its store path exists (the row's flag).
pub open spec fn survives(row: (Package, bool), filter_built: bool) -> bool {
    row.0.store_path is Some && (!filter_built || row.1)
}

/// The rows that survive the filters, in their order.
pub open spec fn filter_rows(rows: Seq<(Package, bool)>, filter_built: bool) -> Seq<(Package, bool)>
    decreases rows.len(),
{
    if rows.len() == 0 {
        Seq::empty()
    } else if survives(rows.last(), filter_built) {
        filter_rows(rows.drop_last(), filter_built).push(rows.last())
    } else {
        filter_rows(rows.drop_last(), filter_built)
    }
}

/// The record `p` with its score for `query`.
pub open spec fn with_score(p: Package, query: Seq<char>) -> Package {
    Package { score: skim_score(p.name@, query), ..p }
}

/// The records of `rows`, each with its score for `query`.
pub open spec fn scored(rows: Seq<(Package, bool)>, query: Seq<char>) -> Seq<Package> {
    Seq::new(rows.len(), |i: int| with_score(rows[i].0, query))
}

proof fn lemma_insert_ranked_len(s: Seq<Package>, p: Package)
    ensures
        insert_ranked(s, p).len() == s.len() + 1,
    decreases s.len(),
{
    if s.len() > 0 && key(s.last()) < key(p) {
        lemma_insert_ranked_len(s.drop_last(), p);
    }
}

proof fn lemma_insert_ranked_at(s: Seq<Package>, p: Package, j: int)
    requires
        0 <= j <= s.len(),
        forall|k: int| j <= k < s.len() ==> key(#[trigger] s[k]) < key(p),
        j == 0 || key(s[j - 1]) >= key(p),
    ensures
        insert_ranked(s, p) == s.insert(j, p),
    decreases s.len(),
{
    if s.len() == 0 {
        assert(s.insert(j, p) =~= seq![p]);
    } else if j == s.len() {
        assert(s.insert(j, p) =~= s.push(p));
    } else {
        let t = s.drop_last();
        assert(key(s[s.len() - 1]) < key(p));
        lemma_insert_ranked_at(t, p, j);
        assert(t.insert(j, p).push(s.last()) =~= s.insert(j, p));
    }
}

proof fn lemma_insert_ranked_bound(s: Seq<Package>, p: Package, b: i64)
    requires
        forall|k: int| 0 <= k < s.len() ==> key(#[trigger] s[k]) >= b,
        key(p) >= b,
    ensures
        forall|k: int|
            0 <= k < insert_ranked(s, p).len() ==> key(#[trigger] insert_ranked(s, p)[k]) >= b,
    decreases s.len(),
{
    lemma_insert_ranked_len(s, p);
    if s.len() > 0 && key(s.last()) < key(p) {
        let t = s.drop_last();
        lemma_insert_ranked_bound(t, p, b);
        let it = insert_ranked(t, p);
        assert forall|k: int| 0 <= k < it.push(s.last()).len() implies key(
            #[trigger] it.push(s.last())[k],
        ) >= b by {
            if k < it.len() {
                assert(it.push(s.last())[k] == it[k]);
            }
        }
    }
}

proof fn lemma_insert_ranked_sorted(s: Seq<Package>, p: Package)
    requires
        sorted_desc(s),
    ensures
        sorted_desc(insert_ranked(s, p)),
    decreases s.len(),
{
    lemma_insert_ranked_len(s, p);
    if s.len() > 0 && key(s.last()) < key(p) {
        let t = s.drop_last();
        let last = s.last();
        assert(sorted_desc(t));
        lemma_insert_ranked_sorted(t, p);
        assert forall|k: int| 0 <= k < t.len() implies key(#[trigger] t[k]) >= key(last) by {
            assert(s[k] == t[k]);
        }
        lemma_insert_ranked_bound(t, p, key(last));
        let it = insert_ranked(t, p);
        let r = it.push(last);
        assert forall|i: int, j: int| 0 <= i < j < r.len() implies key(#[trigger] r[i]) >= key(
            #[trigger] r[j],
        ) by {
            assert(r[i] == it[i]);
            if j < it.len() {
                assert(r[j] == it[j]);
            }
        }
    } else if s.len() > 0 {
        let r = s.push(p);
        assert forall|i: int, j: int| 0 <= i < j < r.len() implies key(#[trigger] r[i]) >= key(
            #[trigger] r[j],
        ) by {
            assert(r[i] == s[i]);
            if j < s.len() {
                assert(r[j] == s[j]);
            } else {
                assert(key(s[i]) >= key(s[s.len() - 1]));
            }
        }
    }
}

/// The result of ranking holds `min(n, |s|)` records, in descending order of
/// rank key.
pub proof fn lemma_top_ranked(s: Seq<Package>, n: nat)
    ensures
        top_ranked(s, n).len() == if n < s.len() {
            n as int
        } else {
            s.len() as int
        },
        sorted_desc(top_ranked(s, n)),
    decreases s.len(),
{
    if s.len() > 0 {
        let t = s.drop_last();
        lemma_top_ranked(t, n);
        lemma_insert_ranked_len(top_ranked(t, n), s.last());
        lemma_insert_ranked_sorted(top_ranked(t, n), s.last());
        let r = insert_ranked(top_ranked(t, n), s.last());
        if r.len() > n {
            let q = r.take(n as int);
            assert forall|i: int, j: int| 0 <= i < j < q.len() implies key(#[trigger] q[i]) >= key(
                #[trigger] q[j],
            ) by {
                assert(q[i] == r[i] && q[j] == r[j]);
            }
        }
    }
}

proof fn lemma_insert_ranked_pos(x: Seq<Package>, p: Package) -> (j: int)
    ensures
        0 <= j <= x.len(),
        forall|k: int| j <= k < x.len() ==> key(#[trigger] x[k]) < key(p),
        j == 0 || key(x[j - 1]) >= key(p),
        insert_ranked(x, p) == x.insert(j, p),
    decreases x.len(),
{
    if x.len() == 0 {
        assert(x.insert(0, p) =~= seq![p]);
        0
    } else if key(x.last()) >= key(p) {
        assert(x.insert(x.len() as int, p) =~= x.push(p));
        x.len() as int
    } else {
        let t = x.drop_last();
        let j = lemma_insert_ranked_pos(t, p);
        assert forall|k: int| j <= k < x.len() implies key(#[trigger] x[k]) < key(p) by {
            if k < t.len() {
                assert(x[k] == t[k]);
            }
        }
        assert(t.insert(j, p).push(x.last()) =~= x.insert(j, p));
        if j > 0 {
            assert(x[j - 1] == t[j - 1]);
        }
        j
    }
}

proof fn lemma_insert_ranked_take(x: Seq<Package>, p: Package, n: int)
    requires
        sorted_desc(x),
        0 <= n <= x.len(),
    ensures
        insert_ranked(x.take(n), p).take(n) == insert_ranked(x, p).take(n),
{
    let j = lemma_insert_ranked_pos(x, p);
    let xn = x.take(n);
    let jn = if j <= n {
        j
    } else {
        n
    };
    assert forall|k: int| jn <= k < xn.len() implies key(#[trigger] xn[k]) < key(p) by {
        assert(xn[k] == x[k]);
    }
    if jn > 0 {
        assert(xn[jn - 1] == x[jn - 1]);
        if jn < j {
            assert(key(x[jn - 1]) >= key(x[j - 1]));
        }
    }
    lemma_insert_ranked_at(xn, p, jn);
    assert(xn.insert(jn, p).take(n) =~= x.insert(j, p).take(n));
}

proof fn lemma_top_ranked_take(s: Seq<Package>, n: nat, m: nat)
    requires
        n <= m,
    ensures
        top_ranked(s, n) == top_ranked(s, m).take(
            if n < s.len() {
                n as int
            } else {
                s.len() as int
            },
        ),
    decreases s.len(),
{
    if s.len() == 0 {
        assert(top_ranked(s, m).take(0) =~= Seq::<Package>::empty());
    } else {
        let t = s.drop_last();
        let p = s.last();
        lemma_top_ranked_take(t, n, m);
        lemma_top_ranked(t, n);
        lemma_top_ranked(t, m);
        let a = top_ranked(t, n);
        let b = top_ranked(t, m);
        lemma_insert_ranked_len(a, p);
        lemma_insert_ranked_len(b, p);
        if t.len() < n {
            assert(b.take(t.len() as int) =~= b);
            assert(insert_ranked(b, p).take(s.len() as int) =~= insert_ranked(b, p));
            if insert_ranked(b, p).len() > m {
                assert(insert_ranked(b, p).take(m as int).take(s.len() as int) =~= insert_ranked(b, p).take(s.len() as int));
            }
        } else {
            lemma_insert_ranked_take(b, p, n as int);
            let ib = insert_ranked(b, p);
            if ib.len() > m {
                assert(ib.take(m as int).take(n as int) =~= ib.take(n as int));
            } else {
                assert(ib.take(n as int) =~= ib.take(n as int));
            }
        }
    }
}

proof fn lemma_insert_ranked_multiset(s: Seq<Package>, p: Package)
    ensures
        insert_ranked(s, p).to_multiset() =~= s.to_multiset().insert(p),
    decreases s.len(),
{
    broadcast use vstd::seq_lib::group_to_multiset_ensures;
    if s.len() > 0 && key(s.last()) < key(p) {
        let t = s.drop_last();
        lemma_insert_ranked_multiset(t, p);
        assert(t.push(s.last()) =~= s);
    } else if s.len() == 0 {
        assert(seq![p] =~= Seq::<Package>::empty().push(p));
    }
}

proof fn lemma_top_ranked_all(s: Seq<Package>)
    ensures
        top_ranked(s, s.len()).to_multiset() =~= s.to_multiset(),
    decreases s.len(),
{
    broadcast use vstd::seq_lib::group_to_multiset_ensures;
    if s.len() > 0 {
        let t = s.drop_last();
        lemma_top_ranked_all(t);
        lemma_top_ranked_take(t, t.len(), s.len());
        lemma_top_ranked(t, s.len());
        assert(top_ranked(t, s.len()).take(t.len() as int) =~= top_ranked(t, s.len()));
        lemma_insert_ranked_len(top_ranked(t, s.len()), s.last());
        lemma_insert_ranked_multiset(top_ranked(t, s.len()), s.last());
        assert(t.push(s.last()) =~= s);
    }
}

/// Ranking sorts, then truncates: the first `n` records of a ranking are the
/// first `n` of the full ranking, which is in descending order of rank key
/// and holds exactly the records of `s`.
pub proof fn lemma_ranking_is_sorted_prefix(s: Seq<Package>, n: nat)
    ensures
        top_ranked(s, n) == top_ranked(s, s.len()).take(
            if n < s.len() {
                n as int
            } else {
                s.len() as int
            },
        ),
        sorted_desc(top_ranked(s, s.len())),
        top_ranked(s, s.len()).to_multiset() == s.to_multiset(),
{
    if n <= s.len() {
        lemma_top_ranked_take(s, n, s.len());
    } else {
        lemma_top_ranked_take(s, s.len(), n);
        lemma_top_ranked(s, n);
        assert(top_ranked(s, n).take(s.len() as int) =~= top_ranked(s, n));
    }
    lemma_top_ranked(s, s.len());
    lemma_top_ranked_all(s);
}

/// Filtering is idempotent: the rows that survive the filters survive them
/// again, unchanged, when the same existence flags are applied once more.
pub proof fn lemma_filter_idempotent(rows: Seq<(Package, bool)>, filter_built: bool)
    ensures
        filter_rows(filter_rows(rows, filter_built), filter_built) == filter_rows(
            rows,
            filter_built,
        ),
    decreases rows.len(),
{
    if rows.len() > 0 {
        let t = rows.drop_last();
        lemma_filter_idempotent(t, filter_built);
        if survives(rows.last(), filter_built) {
            let f = filter_rows(t, filter_built).push(rows.last());
            assert(f.drop_last() =~= filter_rows(t, filter_built));
        }
    }
}

fn copy_opt(o: &Option<String>) -> (r: Option<String>)
    ensures
        r == *o,
{
    match o {
        Some(s) => Some(s.clone()),
        None => None,
    }
}

fn copy_package(p: &Package) -> (r: Package)
    ensures
        r == *p,
{
    Package {
        attribute: p.attribute.clone(),
        name: p.name.clone(),
        version: p.version.clone(),
        store_path: copy_opt(&p.store_path),
        description: copy_opt(&p.description),
        long_description: copy_opt(&p.long_description),
        score: p.score,
    }
}

fn key_of(p: &Package) -> (r: i64)
    ensures
        r == key(*p),
{
    match p.score {
        Some(s) => s,
        None => 0,
    }
}

fn insert_by_rank(v: &mut Vec<Package>, p: Package)
    ensures
        final(v)@ == insert_ranked(old(v)@, p),
{
    let kp = key_of(&p);
    let mut j: usize = v.len();
    while j > 0 && key_of(&v[j - 1]) < kp
        invariant
            0 <= j <= v@.len(),
            v@ == old(v)@,
            kp == key(p),
            forall|k: int| j <= k < v@.len() ==> key(#[trigger] v@[k]) < key(p),
        decreases j,
    {
        j = j - 1;
    }
    proof {
        lemma_insert_ranked_at(v@, p, j as int);
    }
    v.insert(j, p);
}

/// The first `num_results` of `records` in stable descending order of score,
/// a record without a score counting as 0.
pub fn rank(records: &Vec<Package>, num_results: u32) -> (r: Vec<Package>)
    ensures
        r@ == top_ranked(records@, num_results as nat),
{
    let n = num_results as usize;
    let mut top: Vec<Package> = Vec::new();
    let mut i: usize = 0;
    while i < records.len()
        invariant
            0 <= i <= records@.len(),
            n == num_results,
            top@ == top_ranked(records@.take(i as int), n as nat),
        decreases records@.len() - i,
    {
        proof {
            lemma_top_ranked(records@.take(i as int), n as nat);
            lemma_insert_ranked_len(top@, records@[i as int]);
        }
        let ghost before = top@;
        insert_by_rank(&mut top, copy_package(&records[i]));
        if top.len() > n {
            top.pop();
            assert(top@ =~= insert_ranked(before, records@[i as int]).take(n as int));
        }
        assert(records@.take(i + 1).drop_last() =~= records@.take(i as int));
        i = i + 1;
    }
    assert(records@.take(i as int) =~= records@);
    top
}

/// The records that answer `query`: each row's record is scored against the
/// query by name; rows without a store path are dropped and, where
/// `filter_built` is set, so are rows whose flag says that their store path
/// does not exist; the survivors are ranked by score, highest first, equal
/// scores in row order, and the first `num_results` are returned.
pub fn search(
    scorer: &Scorer,
    query: &str,
    rows: &Vec<(Package, bool)>,
    num_results: u32,
    filter_built: bool,
) -> (r: Vec<Package>)
    ensures
        r@ == top_ranked(scored(filter_rows(rows@, filter_built), query@), num_results as nat),
{
    let mut survivors: Vec<Package> = Vec::new();
    let mut i: usize = 0;
    while i < rows.len()
        invariant
            0 <= i <= rows@.len(),
            survivors@ == scored(filter_rows(rows@.take(i as int), filter_built), query@),
        decreases rows@.len() - i,
    {
        let (p, built) = &rows[i];
        assert(rows@.take(i + 1).drop_last() =~= rows@.take(i as int));
        if p.store_path.is_some() && (!filter_built || *built) {
            let mut q = copy_package(p);
            q.score = scorer.score(p.name.as_str(), query);
            survivors.push(q);
            assert(survivors@ =~= scored(filter_rows(rows@.take(i + 1), filter_built), query@));
        }
        i = i + 1;
    }
    assert(rows@.take(i as int) =~= rows@);
    rank(&survivors, num_results)
}

} // verus!
