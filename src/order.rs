use vstd::prelude::*;

use crate::text::{lemma_text_le_antisym, lemma_text_le_total, lemma_text_le_trans, text_le, text_le_exec};

verus! {

/// The characters of each name and text of `v`.
pub open spec fn entry_views(v: Seq<(String, String)>) -> Seq<(Seq<char>, Seq<char>)> {
    v.map_values(|e: (String, String)| (e.0@, e.1@))
}

/// `e` put into `s` after every entry whose name is no later than its own, and
/// before the entries that follow those.
pub open spec fn insert_by_name(s: Seq<(Seq<char>, Seq<char>)>, e: (Seq<char>, Seq<char>)) -> Seq<
    (Seq<char>, Seq<char>),
>
    decreases s.len(),
{
    if s.len() == 0 {
        seq![e]
    } else if text_le(s.last().0, e.0) {
        s.push(e)
    } else {
        insert_by_name(s.drop_last(), e).push(s.last())
    }
}

/// The entries sorted by name, entries with equal names in their first order.
pub open spec fn sort_by_name(s: Seq<(Seq<char>, Seq<char>)>) -> Seq<(Seq<char>, Seq<char>)>
    decreases s.len(),
{
    if s.len() == 0 {
        s
    } else {
        insert_by_name(sort_by_name(s.drop_last()), s.last())
    }
}

proof fn lemma_insert_at(s: Seq<(Seq<char>, Seq<char>)>, e: (Seq<char>, Seq<char>), j: int)
    requires
        0 <= j <= s.len(),
        j == 0 || text_le(s[j - 1].0, e.0),
        forall|k: int| j <= k < s.len() ==> !text_le(#[trigger] s[k].0, e.0),
    ensures
        insert_by_name(s, e) == s.insert(j, e),
    decreases s.len(),
{
    if s.len() == 0 {
        assert(s.insert(j, e) =~= seq![e]);
    } else if j == s.len() {
        assert(s.insert(j, e) =~= s.push(e));
    } else {
        assert(!text_le(s[s.len() - 1].0, e.0));
        lemma_insert_at(s.drop_last(), e, j);
        assert(s.drop_last().insert(j, e).push(s.last()) =~= s.insert(j, e));
    }
}

/// Sorts `entries`, pairs of a name and a text, by name; entries with equal
/// names keep their order.
pub fn sort_by_name_exec(entries: &Vec<(String, String)>) -> (r: Vec<(String, String)>)
    ensures
        entry_views(r@) == sort_by_name(entry_views(entries@)),
{
    let mut res: Vec<(String, String)> = Vec::new();
    let mut i: usize = 0;
    while i < entries.len()
        invariant
            i <= entries@.len(),
            entry_views(res@) == sort_by_name(entry_views(entries@.subrange(0, i as int))),
        decreases entries@.len() - i,
    {
        let name = entries[i].0.clone();
        let text = entries[i].1.clone();
        let mut j: usize = res.len();
        let mut found = false;
        while j > 0 && !found
            invariant
                j <= res@.len(),
                found ==> j > 0 && text_le(res@[j - 1].0@, name@),
                forall|k: int| j <= k < res@.len() ==> !text_le(#[trigger] res@[k].0@, name@),
            decreases j + (if found {
                0int
            } else {
                1int
            }),
        {
            if text_le_exec(res[j - 1].0.as_str(), name.as_str()) {
                found = true;
            } else {
                j = j - 1;
            }
        }
        let ghost before = entry_views(res@);
        let ghost e = (name@, text@);
        proof {
            lemma_insert_at(before, e, j as int);
            let sub = entry_views(entries@.subrange(0, i + 1));
            assert(sub.drop_last() =~= entry_views(entries@.subrange(0, i as int)));
            assert(sub.last() == e);
        }
        res.insert(j, (name, text));
        assert(entry_views(res@) =~= before.insert(j as int, e));
        i = i + 1;
    }
    assert(entries@.subrange(0, entries@.len() as int) == entries@);
    res
}


/// Every entry's name comes no later than the names of the entries after it.
pub open spec fn names_sorted(s: Seq<(Seq<char>, Seq<char>)>) -> bool {
    forall|i: int, j: int| 0 <= i < j < s.len() ==> text_le(#[trigger] s[i].0, #[trigger] s[j].0)
}

proof fn lemma_insert_sorted(s: Seq<(Seq<char>, Seq<char>)>, e: (Seq<char>, Seq<char>))
    requires
        names_sorted(s),
    ensures
        names_sorted(insert_by_name(s, e)),
        insert_by_name(s, e).to_multiset() == s.to_multiset().insert(e),
        forall|x: (Seq<char>, Seq<char>)| #[trigger]
            insert_by_name(s, e).contains(x) ==> x == e || s.contains(x),
    decreases s.len(),
{
    broadcast use vstd::seq_lib::group_to_multiset_ensures;

    let r = insert_by_name(s, e);
    if s.len() == 0 {
        assert(r =~= seq![e]);
        assert(seq![e] =~= Seq::<(Seq<char>, Seq<char>)>::empty().push(e));
    } else if text_le(s.last().0, e.0) {
        assert forall|i: int, j: int| 0 <= i < j < r.len() implies text_le(
            #[trigger] r[i].0,
            #[trigger] r[j].0,
        ) by {
            if j == s.len() {
                if i < s.len() - 1 {
                    lemma_text_le_trans(s[i].0, s.last().0, e.0);
                }
            }
        }
        assert forall|x: (Seq<char>, Seq<char>)| #[trigger] r.contains(x) implies x == e
            || s.contains(x) by {
            let k = choose|k: int| 0 <= k < r.len() && r[k] == x;
            if k < s.len() {
                assert(s[k] == x);
            }
        }
    } else {
        let t = s.drop_last();
        assert forall|i: int, j: int| 0 <= i < j < t.len() implies text_le(
            #[trigger] t[i].0,
            #[trigger] t[j].0,
        ) by {
            assert(t[i] == s[i] && t[j] == s[j]);
        }
        lemma_insert_sorted(t, e);
        let q = insert_by_name(t, e);
        lemma_text_le_total(s.last().0, e.0);
        assert forall|i: int, j: int| 0 <= i < j < r.len() implies text_le(
            #[trigger] r[i].0,
            #[trigger] r[j].0,
        ) by {
            if j == r.len() - 1 {
                assert(q.contains(q[i]));
                if q[i] != e {
                    let k = choose|k: int| 0 <= k < t.len() && t[k] == q[i];
                    assert(s[k] == t[k]);
                }
            }
        }
        assert forall|x: (Seq<char>, Seq<char>)| #[trigger] r.contains(x) implies x == e
            || s.contains(x) by {
            let k = choose|k: int| 0 <= k < r.len() && r[k] == x;
            if k < q.len() {
                assert(q.contains(x));
                if x != e {
                    let m = choose|m: int| 0 <= m < t.len() && t[m] == x;
                    assert(s[m] == x);
                }
            } else {
                assert(s[s.len() - 1] == x);
            }
        }
        assert(s =~= t.push(s.last()));
    }
}

/// The order by name is sorted and holds the same entries as its input, each
/// as often: however the entries were ordered, they come out by name.
pub proof fn lemma_sorted_by_name(s: Seq<(Seq<char>, Seq<char>)>)
    ensures
        names_sorted(sort_by_name(s)),
        sort_by_name(s).to_multiset() == s.to_multiset(),
    decreases s.len(),
{
    broadcast use vstd::seq_lib::group_to_multiset_ensures;

    if s.len() > 0 {
        lemma_sorted_by_name(s.drop_last());
        lemma_insert_sorted(sort_by_name(s.drop_last()), s.last());
        assert(s =~= s.drop_last().push(s.last()));
    }
}


/// No two entries share a name.
pub open spec fn names_distinct(s: Seq<(Seq<char>, Seq<char>)>) -> bool {
    forall|i: int, j: int| 0 <= i < j < s.len() ==> #[trigger] s[i].0 != #[trigger] s[j].0
}

proof fn lemma_insert_distinct(s: Seq<(Seq<char>, Seq<char>)>, e: (Seq<char>, Seq<char>))
    requires
        names_sorted(s),
        names_distinct(s),
        forall|k: int| 0 <= k < s.len() ==> (#[trigger] s[k]).0 != e.0,
    ensures
        names_distinct(insert_by_name(s, e)),
    decreases s.len(),
{
    let r = insert_by_name(s, e);
    if s.len() == 0 {
        assert(r =~= seq![e]);
    } else if text_le(s.last().0, e.0) {
        assert(r == s.push(e));
        assert forall|i: int, j: int| 0 <= i < j < r.len() implies #[trigger] r[i].0
            != #[trigger] r[j].0 by {
            if j == s.len() {
                assert(s[i].0 != e.0);
            }
        }
    } else {
        let t = s.drop_last();
        assert forall|i: int, j: int| 0 <= i < j < t.len() implies text_le(
            #[trigger] t[i].0,
            #[trigger] t[j].0,
        ) by {
            assert(t[i] == s[i] && t[j] == s[j]);
        }
        assert forall|i: int, j: int| 0 <= i < j < t.len() implies #[trigger] t[i].0
            != #[trigger] t[j].0 by {
            assert(t[i] == s[i] && t[j] == s[j]);
        }
        assert forall|k: int| 0 <= k < t.len() implies (#[trigger] t[k]).0 != e.0 by {
            assert(t[k] == s[k]);
        }
        lemma_insert_distinct(t, e);
        lemma_insert_sorted(t, e);
        let q = insert_by_name(t, e);
        assert(r == q.push(s.last()));
        assert forall|i: int, j: int| 0 <= i < j < r.len() implies #[trigger] r[i].0
            != #[trigger] r[j].0 by {
            if j == r.len() - 1 {
                assert(q.contains(q[i]));
                if q[i] == e {
                    assert(s[s.len() - 1].0 != e.0);
                } else {
                    let k = choose|k: int| 0 <= k < t.len() && t[k] == q[i];
                    assert(s[k] == t[k]);
                }
            }
        }
    }
}

proof fn lemma_sort_distinct(s: Seq<(Seq<char>, Seq<char>)>)
    requires
        names_distinct(s),
    ensures
        names_distinct(sort_by_name(s)),
    decreases s.len(),
{
    broadcast use vstd::seq_lib::group_to_multiset_ensures;

    if s.len() > 0 {
        let t = s.drop_last();
        assert forall|i: int, j: int| 0 <= i < j < t.len() implies #[trigger] t[i].0
            != #[trigger] t[j].0 by {
            assert(t[i] == s[i] && t[j] == s[j]);
        }
        lemma_sort_distinct(t);
        lemma_sorted_by_name(t);
        let st = sort_by_name(t);
        assert forall|k: int| 0 <= k < st.len() implies (#[trigger] st[k]).0 != s.last().0 by {
            assert(st.to_multiset().count(st[k]) > 0);
            assert(t.contains(st[k]));
            let m = choose|m: int| 0 <= m < t.len() && t[m] == st[k];
            assert(s[m] == t[m]);
        }
        lemma_insert_distinct(st, s.last());
    }
}

proof fn lemma_sorted_unique(x: Seq<(Seq<char>, Seq<char>)>, y: Seq<(Seq<char>, Seq<char>)>)
    requires
        names_sorted(x),
        names_sorted(y),
        names_distinct(x),
        names_distinct(y),
        x.len() == y.len(),
        forall|e: (Seq<char>, Seq<char>)| x.contains(e) <==> y.contains(e),
    ensures
        x == y,
    decreases x.len(),
{
    if x.len() > 0 {
        let n = x.len() - 1;
        assert(y.contains(x[n]));
        assert(x.contains(y[n]));
        let a = choose|a: int| 0 <= a < y.len() && y[a] == x[n];
        let b = choose|b: int| 0 <= b < x.len() && x[b] == y[n];
        if a < n {
            assert(text_le(y[a].0, y[n].0));
        }
        if b < n {
            assert(text_le(x[b].0, x[n].0));
        }
        if a < n && b < n {
            lemma_text_le_antisym(x[n].0, y[n].0);
        }
        assert(x[n].0 == y[n].0);
        assert(b == n);
        let xs = x.drop_last();
        let ys = y.drop_last();
        assert forall|e: (Seq<char>, Seq<char>)| xs.contains(e) <==> ys.contains(e) by {
            if xs.contains(e) {
                let i = choose|i: int| 0 <= i < xs.len() && xs[i] == e;
                assert(x[i] == e);
                assert(y.contains(e));
                let k = choose|k: int| 0 <= k < y.len() && y[k] == e;
                assert(x[i].0 != x[n].0);
                assert(k != n);
                assert(ys[k] == e);
            }
            if ys.contains(e) {
                let i = choose|i: int| 0 <= i < ys.len() && ys[i] == e;
                assert(y[i] == e);
                assert(x.contains(e));
                let k = choose|k: int| 0 <= k < x.len() && x[k] == e;
                assert(y[i].0 != y[n].0);
                assert(k != n);
                assert(xs[k] == e);
            }
        }
        assert forall|i: int, j: int| 0 <= i < j < xs.len() implies text_le(
            #[trigger] xs[i].0,
            #[trigger] xs[j].0,
        ) by {
            assert(xs[i] == x[i] && xs[j] == x[j]);
        }
        assert forall|i: int, j: int| 0 <= i < j < ys.len() implies text_le(
            #[trigger] ys[i].0,
            #[trigger] ys[j].0,
        ) by {
            assert(ys[i] == y[i] && ys[j] == y[j]);
        }
        assert forall|i: int, j: int| 0 <= i < j < xs.len() implies #[trigger] xs[i].0
            != #[trigger] xs[j].0 by {
            assert(xs[i] == x[i] && xs[j] == x[j]);
        }
        assert forall|i: int, j: int| 0 <= i < j < ys.len() implies #[trigger] ys[i].0
            != #[trigger] ys[j].0 by {
            assert(ys[i] == y[i] && ys[j] == y[j]);
        }
        lemma_sorted_unique(xs, ys);
        assert(x =~= xs.push(x[n]));
        assert(y =~= ys.push(y[n]));
    } else {
        assert(x =~= y);
    }
}

/// Two orderings of the same entries, no two of which share a name, come out in
/// the same order: the order depends on the names alone.
pub proof fn lemma_order_independent(a: Seq<(Seq<char>, Seq<char>)>, b: Seq<(Seq<char>, Seq<char>)>)
    requires
        a.to_multiset() == b.to_multiset(),
        names_distinct(a),
        names_distinct(b),
    ensures
        sort_by_name(a) == sort_by_name(b),
{
    broadcast use vstd::seq_lib::group_to_multiset_ensures;

    lemma_sorted_by_name(a);
    lemma_sorted_by_name(b);
    lemma_sort_distinct(a);
    lemma_sort_distinct(b);
    let x = sort_by_name(a);
    let y = sort_by_name(b);
    assert forall|e: (Seq<char>, Seq<char>)| x.contains(e) <==> y.contains(e) by {
        assert(x.to_multiset().count(e) == y.to_multiset().count(e));
    }
    assert(x.len() == x.to_multiset().len());
    assert(y.len() == y.to_multiset().len());
    lemma_sorted_unique(x, y);
}

} // verus!
