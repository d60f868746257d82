//! The bytes a signature covers do not depend on the order in which a
//! package lists its entries: sorting by path puts any two orderings of
//! the same entries, no path repeated, in the same order.

use vstd::prelude::*;
use vstd::assert_multisets_equal;
use crate::package::signing::{covered_entries, insert_by_path, is_signature_entry, sort_by_path, spec_signable_bytes};
use crate::text::{lemma_seq_lt_irreflexive, lemma_seq_lt_total, lemma_seq_lt_transitive, seq_lt};

verus! {

broadcast use vstd::seq_lib::group_to_multiset_ensures;

/// An entry: a path and its contents.
pub type Entry = (Seq<char>, Seq<u8>);

/// Whether no path occurs twice among `s`.
pub open spec fn distinct_paths(s: Seq<Entry>) -> bool {
    forall|i: int, j: int| 0 <= i < j < s.len() ==> #[trigger] s[i].0 != #[trigger] s[j].0
}

/// Whether `s` is ordered by path (no entry's path sorts before an
/// earlier one's).
pub open spec fn sorted_by_path(s: Seq<Entry>) -> bool {
    forall|i: int, j: int| 0 <= i < j < s.len() ==> !seq_lt(#[trigger] s[j].0, #[trigger] s[i].0)
}

proof fn lemma_ms_cons(x: Entry, s: Seq<Entry>)
    ensures
        (seq![x] + s).to_multiset() =~= s.to_multiset().insert(x),
{
    let t = seq![x] + s;
    assert(t.remove(0) =~= s);
    assert(t[0] == x);
    assert(t.contains(x));
    assert_multisets_equal!(t.to_multiset(), s.to_multiset().insert(x), y: Entry => {
        if y == x {
            assert(t.to_multiset().count(x) > 0);
        }
    });
}

proof fn lemma_ms_drop_last(s: Seq<Entry>)
    requires
        s.len() > 0,
    ensures
        s.to_multiset() =~= s.drop_last().to_multiset().insert(s.last()),
{
    assert(s =~= s.drop_last().push(s.last()));
}

proof fn lemma_insert_multiset(s: Seq<Entry>, e: Entry)
    ensures
        insert_by_path(s, e).to_multiset() =~= s.to_multiset().insert(e),
    decreases s.len(),
{
    if s.len() == 0 {
        lemma_ms_cons(e, s);
        assert(seq![e] =~= seq![e] + s);
    } else if seq_lt(e.0, s[0].0) {
        lemma_ms_cons(e, s);
    } else {
        lemma_insert_multiset(s.drop_first(), e);
        lemma_ms_cons(s[0], insert_by_path(s.drop_first(), e));
        lemma_ms_cons(s[0], s.drop_first());
        assert(seq![s[0]] + s.drop_first() =~= s);
    }
}

proof fn lemma_insert_sorted(s: Seq<Entry>, e: Entry)
    requires
        sorted_by_path(s),
    ensures
        sorted_by_path(insert_by_path(s, e)),
    decreases s.len(),
{
    let r = insert_by_path(s, e);
    if s.len() == 0 {
    } else if seq_lt(e.0, s[0].0) {
        assert forall|i: int, j: int| 0 <= i < j < r.len() implies !seq_lt(#[trigger] r[j].0, #[trigger] r[i].0) by {
            if i == 0 {
                assert(r[j] == s[j - 1]);
                if j - 1 > 0 {
                    assert(!seq_lt(s[j - 1].0, s[0].0));
                }
                if seq_lt(s[j - 1].0, e.0) {
                    lemma_seq_lt_transitive(s[j - 1].0, e.0, s[0].0);
                    if j - 1 == 0 {
                        lemma_seq_lt_irreflexive(s[0].0);
                    }
                }
            } else {
                assert(r[i] == s[i - 1]);
                assert(r[j] == s[j - 1]);
            }
        }
    } else {
        let tail = s.drop_first();
        assert forall|i: int, j: int| 0 <= i < j < tail.len() implies !seq_lt(#[trigger] tail[j].0, #[trigger] tail[i].0) by {
            assert(tail[i] == s[i + 1]);
            assert(tail[j] == s[j + 1]);
        }
        lemma_insert_sorted(tail, e);
        let rt = insert_by_path(tail, e);
        lemma_insert_multiset(tail, e);
        assert forall|i: int, j: int| 0 <= i < j < r.len() implies !seq_lt(#[trigger] r[j].0, #[trigger] r[i].0) by {
            if i == 0 {
                assert(r[0] == s[0]);
                assert(r[j] == rt[j - 1]);
                assert(rt.contains(rt[j - 1]));
                assert(rt.to_multiset().count(rt[j - 1]) > 0);
                if rt[j - 1] != e {
                    assert(tail.to_multiset().count(rt[j - 1]) > 0);
                    assert(tail.contains(rt[j - 1]));
                    let k = choose|k: int| 0 <= k < tail.len() && tail[k] == rt[j - 1];
                    assert(tail[k] == s[k + 1]);
                }
            } else {
                assert(r[i] == rt[i - 1]);
                assert(r[j] == rt[j - 1]);
            }
        }
    }
}

/// Sorting by path gives a sorted reordering of the same entries.
pub proof fn lemma_sort_by_path(s: Seq<Entry>)
    ensures
        sorted_by_path(sort_by_path(s)),
        sort_by_path(s).to_multiset() =~= s.to_multiset(),
    decreases s.len(),
{
    if s.len() > 0 {
        lemma_sort_by_path(s.drop_last());
        lemma_insert_sorted(sort_by_path(s.drop_last()), s.last());
        lemma_insert_multiset(sort_by_path(s.drop_last()), s.last());
        lemma_ms_drop_last(s);
    }
}

proof fn lemma_covered_count(s: Seq<Entry>, x: Entry)
    ensures
        covered_entries(s).to_multiset().count(x) == if is_signature_entry(x.0) {
            0
        } else {
            s.to_multiset().count(x)
        },
    decreases s.len(),
{
    if s.len() > 0 {
        lemma_covered_count(s.drop_last(), x);
        lemma_ms_drop_last(s);
    }
}

proof fn lemma_covered_members(s: Seq<Entry>)
    ensures
        forall|i: int| 0 <= i < covered_entries(s).len() ==> s.contains(#[trigger] covered_entries(s)[i]),
    decreases s.len(),
{
    if s.len() > 0 {
        let dl = s.drop_last();
        lemma_covered_members(dl);
        let c = covered_entries(s);
        assert forall|i: int| 0 <= i < c.len() implies s.contains(#[trigger] c[i]) by {
            if i < covered_entries(dl).len() {
                assert(c[i] == covered_entries(dl)[i]);
                let k = choose|k: int| 0 <= k < dl.len() && dl[k] == covered_entries(dl)[i];
                assert(s[k] == dl[k]);
            } else {
                assert(c[i] == s.last());
                assert(s[s.len() - 1] == s.last());
            }
        }
    }
}

proof fn lemma_covered_distinct(s: Seq<Entry>)
    requires
        distinct_paths(s),
    ensures
        distinct_paths(covered_entries(s)),
    decreases s.len(),
{
    if s.len() > 0 {
        let dl = s.drop_last();
        assert forall|i: int, j: int| 0 <= i < j < dl.len() implies #[trigger] dl[i].0 != #[trigger] dl[j].0 by {
            assert(dl[i] == s[i]);
            assert(dl[j] == s[j]);
        }
        lemma_covered_distinct(dl);
        lemma_covered_members(dl);
        let cd = covered_entries(dl);
        let c = covered_entries(s);
        assert forall|i: int, j: int| 0 <= i < j < c.len() implies #[trigger] c[i].0 != #[trigger] c[j].0 by {
            if j < cd.len() {
                assert(c[i] == cd[i]);
                assert(c[j] == cd[j]);
            } else {
                assert(c[j] == s.last());
                assert(c[i] == cd[i]);
                let k = choose|k: int| 0 <= k < dl.len() && dl[k] == cd[i];
                assert(s[k] == dl[k]);
                assert(s[s.len() - 1] == s.last());
            }
        }
    }
}

/// Two sorted reorderings of the same entries, no path repeated, are
/// the same sequence.
proof fn lemma_sorted_unique(t1: Seq<Entry>, t2: Seq<Entry>)
    requires
        sorted_by_path(t1),
        sorted_by_path(t2),
        distinct_paths(t1),
        t1.to_multiset() =~= t2.to_multiset(),
    ensures
        t1 =~= t2,
    decreases t1.len(),
{
    if t1.len() == 0 {
        assert(t1.to_multiset().len() == 0);
        assert(t2.to_multiset().len() == 0);
    } else {
        assert(t1.to_multiset().len() == t2.to_multiset().len());
        assert(t2.len() == t1.len());
        assert(t2.contains(t2[0]));
        assert(t1.to_multiset().count(t2[0]) > 0);
        let k = choose|k: int| 0 <= k < t1.len() && t1[k] == t2[0];
        assert(t1.contains(t1[0]));
        assert(t2.to_multiset().count(t1[0]) > 0);
        let m = choose|m: int| 0 <= m < t2.len() && t2[m] == t1[0];
        if k > 0 {
            assert(t1[k].0 != t1[0].0);
            assert(!seq_lt(t1[k].0, t1[0].0));
            lemma_seq_lt_total(t1[k].0, t1[0].0);
            if m > 0 {
                assert(!seq_lt(t2[m].0, t2[0].0));
            }
        }
        assert(t1[0] == t2[0]);
        let r1 = t1.drop_first();
        let r2 = t2.drop_first();
        assert(t1.remove(0) =~= r1);
        assert(t2.remove(0) =~= r2);
        assert(r1.to_multiset() =~= r2.to_multiset());
        assert forall|i: int, j: int| 0 <= i < j < r1.len() implies !seq_lt(#[trigger] r1[j].0, #[trigger] r1[i].0) by {
            assert(r1[i] == t1[i + 1]);
            assert(r1[j] == t1[j + 1]);
        }
        assert forall|i: int, j: int| 0 <= i < j < r2.len() implies !seq_lt(#[trigger] r2[j].0, #[trigger] r2[i].0) by {
            assert(r2[i] == t2[i + 1]);
            assert(r2[j] == t2[j + 1]);
        }
        assert forall|i: int, j: int| 0 <= i < j < r1.len() implies #[trigger] r1[i].0 != #[trigger] r1[j].0 by {
            assert(r1[i] == t1[i + 1]);
            assert(r1[j] == t1[j + 1]);
        }
        lemma_sorted_unique(r1, r2);
        assert(t1 =~= seq![t1[0]] + r1);
        assert(t2 =~= seq![t2[0]] + r2);
    }
}

/// The bytes a signature covers are the same for any two orderings of
/// the same entries in which no path occurs twice.
pub proof fn lemma_signable_bytes_order_independent(es1: Seq<Entry>, es2: Seq<Entry>)
    requires
        es1.to_multiset() =~= es2.to_multiset(),
        distinct_paths(es1),
    ensures
        spec_signable_bytes(es1) == spec_signable_bytes(es2),
{
    let c1 = covered_entries(es1);
    let c2 = covered_entries(es2);
    assert_multisets_equal!(c1.to_multiset(), c2.to_multiset(), x: Entry => {
        lemma_covered_count(es1, x);
        lemma_covered_count(es2, x);
    });
    lemma_covered_distinct(es1);
    lemma_sort_by_path(c1);
    lemma_sort_by_path(c2);
    let t1 = sort_by_path(c1);
    let t2 = sort_by_path(c2);
    assert(t1.to_multiset() =~= t2.to_multiset());
    assert(c1.no_duplicates()) by {
        assert forall|i: int, j: int| 0 <= i < c1.len() && 0 <= j < c1.len() && i != j implies c1[i] != c1[j] by {
            if i < j {
                assert(c1[i].0 != c1[j].0);
            } else {
                assert(c1[j].0 != c1[i].0);
            }
        }
    }
    c1.lemma_multiset_has_no_duplicates();
    t1.lemma_multiset_has_no_duplicates_conv();
    assert forall|i: int, j: int| 0 <= i < j < t1.len() implies #[trigger] t1[i].0 != #[trigger] t1[j].0 by {
        if t1[i].0 == t1[j].0 {
            assert(t1[i] != t1[j]);
            assert(t1.contains(t1[i]));
            assert(t1.contains(t1[j]));
            assert(c1.to_multiset().count(t1[i]) > 0);
            assert(c1.to_multiset().count(t1[j]) > 0);
            let a = choose|a: int| 0 <= a < c1.len() && c1[a] == t1[i];
            let b = choose|b: int| 0 <= b < c1.len() && c1[b] == t1[j];
            if a < b {
                assert(c1[a].0 != c1[b].0);
            } else {
                assert(c1[b].0 != c1[a].0);
            }
        }
    }
    lemma_sorted_unique(t1, t2);
}

} // verus!
