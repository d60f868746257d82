//! The package cache's index: which installed packages it holds, their
//! sizes, and evicting the oldest until it fits a size limit.

use vstd::prelude::*;
use crate::loader::{path_join, spec_path_join};
use crate::text::str_eq;
use crate::versions::{Version, VersionView};

verus! {

/// One entry of the cache's index.
#[derive(Debug)]
pub struct CacheEntry {
    /// The package's name.
    pub name: String,
    /// The package's version.
    pub version: Version,
    /// Where its `package.nyp` lives.
    pub path: String,
    /// When it was recorded, in milliseconds since the Unix epoch (UTC).
    pub installed_at: i64,
    /// The archive's size in bytes.
    pub size_bytes: u64,
}

/// A cache entry as plain values.
pub type CacheEntryView = (Seq<char>, VersionView, Seq<char>, i64, u64);

impl View for CacheEntry {
    type V = CacheEntryView;

    open spec fn view(&self) -> CacheEntryView {
        (self.name@, self.version@, self.path@, self.installed_at, self.size_bytes)
    }
}

/// The entries other than those of `name` at version `v`, in order.
pub open spec fn without(es: Seq<CacheEntryView>, name: Seq<char>, v: VersionView) -> Seq<
    CacheEntryView,
>
    decreases es.len(),
{
    if es.len() == 0 {
        es
    } else if es.last().0 == name && es.last().1 == v {
        without(es.drop_last(), name, v)
    } else {
        without(es.drop_last(), name, v).push(es.last())
    }
}

/// The summed sizes of the entries.
pub open spec fn size_sum(es: Seq<CacheEntryView>) -> nat
    decreases es.len(),
{
    if es.len() == 0 {
        0
    } else {
        size_sum(es.drop_last()) + es.last().4 as nat
    }
}

/// `s` with `e` placed before the first entry recorded strictly later.
pub open spec fn insert_by_time(s: Seq<CacheEntryView>, e: CacheEntryView) -> Seq<CacheEntryView>
    decreases s.len(),
{
    if s.len() == 0 {
        seq![e]
    } else if e.3 < s[0].3 {
        seq![e] + s
    } else {
        seq![s[0]] + insert_by_time(s.drop_first(), e)
    }
}

/// The entries oldest first; entries recorded at the same time keep
/// their order (a stable sort).
pub open spec fn sort_by_time(s: Seq<CacheEntryView>) -> Seq<CacheEntryView>
    decreases s.len(),
{
    if s.len() == 0 {
        s
    } else {
        insert_by_time(sort_by_time(s.drop_last()), s.last())
    }
}

/// How many of the oldest entries must go for the rest to fit `max`.
pub open spec fn evict_count(s: Seq<CacheEntryView>, max: u64) -> nat
    decreases s.len(),
{
    if s.len() == 0 || size_sum(s) <= max {
        0
    } else {
        1 + evict_count(s.drop_first(), max)
    }
}

/// A local package cache: a root directory, and an index of the
/// packages it holds.
#[derive(Debug)]
pub struct PackageCache {
    root: String,
    entries: Vec<CacheEntry>,
}

impl View for PackageCache {
    type V = Seq<CacheEntryView>;

    closed spec fn view(&self) -> Seq<CacheEntryView> {
        Seq::new(self.entries@.len(), |i: int| self.entries@[i]@)
    }
}

proof fn lemma_insert_by_time_at(s: Seq<CacheEntryView>, e: CacheEntryView, k: int)
    requires
        0 <= k <= s.len(),
        forall|j: int| 0 <= j < k ==> !(e.3 < #[trigger] s[j].3),
        k < s.len() ==> e.3 < s[k].3,
    ensures
        insert_by_time(s, e) == s.insert(k, e),
    decreases s.len(),
{
    if s.len() == 0 {
        assert(seq![e] =~= s.insert(k, e));
    } else if k == 0 {
        assert(seq![e] + s =~= s.insert(0, e));
    } else {
        assert forall|j: int| 0 <= j < k - 1 implies !(e.3 < #[trigger] s.drop_first()[j].3) by {
            assert(s.drop_first()[j] == s[j + 1]);
        }
        lemma_insert_by_time_at(s.drop_first(), e, k - 1);
        assert(seq![s[0]] + s.drop_first().insert(k - 1, e) =~= s.insert(k, e));
    }
}

proof fn lemma_size_sum_insert(s: Seq<CacheEntryView>, e: CacheEntryView, k: int)
    requires
        0 <= k <= s.len(),
    ensures
        size_sum(s.insert(k, e)) == size_sum(s) + e.4,
    decreases s.len(),
{
    if k == s.len() {
        assert(s.insert(k, e).drop_last() =~= s);
    } else {
        assert(s.insert(k, e).drop_last() =~= s.drop_last().insert(k, e));
        lemma_size_sum_insert(s.drop_last(), e, k);
    }
}

proof fn lemma_size_sum_drop_first(s: Seq<CacheEntryView>)
    requires
        s.len() > 0,
    ensures
        size_sum(s) == s[0].4 + size_sum(s.drop_first()),
    decreases s.len(),
{
    assert(s =~= s.drop_first().insert(0, s[0]));
    lemma_size_sum_insert(s.drop_first(), s[0], 0);
}

proof fn lemma_sort_size(s: Seq<CacheEntryView>)
    ensures
        size_sum(sort_by_time(s)) == size_sum(s),
        sort_by_time(s).len() == s.len(),
    decreases s.len(),
{
    if s.len() > 0 {
        lemma_sort_size(s.drop_last());
        let t = sort_by_time(s.drop_last());
        lemma_insert_len_size(t, s.last());
    }
}

proof fn lemma_insert_len_size(s: Seq<CacheEntryView>, e: CacheEntryView)
    ensures
        insert_by_time(s, e).len() == s.len() + 1,
        size_sum(insert_by_time(s, e)) == size_sum(s) + e.4,
    decreases s.len(),
{
    let k = first_later(s, e.3);
    lemma_first_later(s, e.3);
    lemma_insert_by_time_at(s, e, k);
    lemma_size_sum_insert(s, e, k);
}

spec fn first_later(s: Seq<CacheEntryView>, at: i64) -> int
    decreases s.len(),
{
    if s.len() == 0 {
        0
    } else if at < s[0].3 {
        0
    } else {
        1 + first_later(s.drop_first(), at)
    }
}

proof fn lemma_first_later(s: Seq<CacheEntryView>, at: i64)
    ensures
        0 <= first_later(s, at) <= s.len(),
        forall|j: int| 0 <= j < first_later(s, at) ==> !(at < #[trigger] s[j].3),
        first_later(s, at) < s.len() ==> at < s[first_later(s, at)].3,
    decreases s.len(),
{
    if s.len() > 0 && !(at < s[0].3) {
        lemma_first_later(s.drop_first(), at);
        assert forall|j: int| 0 <= j < first_later(s, at) implies !(at < #[trigger] s[j].3) by {
            if j > 0 {
                assert(s[j] == s.drop_first()[j - 1]);
            }
        }
    }
}

impl PackageCache {
    /// The index file within `root`.
    pub fn index_path(root: &str) -> (p: String)
        ensures
            p@ == spec_path_join(root@, "packages.json"@),
    {
        path_join(root, "packages.json")
    }

    /// A cache at `root` holding `entries`.
    pub fn from_entries(root: String, entries: Vec<CacheEntry>) -> (c: PackageCache)
        ensures
            c@ == Seq::new(entries@.len(), |i: int| entries@[i]@),
            c.root_view() == root@,
    {
        PackageCache { root, entries }
    }

    /// The cache's root directory.
    pub closed spec fn root_view(&self) -> Seq<char> {
        self.root@
    }

    /// The cache's root directory.
    pub fn root(&self) -> (r: &str)
        ensures
            r@ == self.root_view(),
    {
        self.root.as_str()
    }

    /// Every entry of the index.
    pub fn entries(&self) -> (r: &[CacheEntry])
        ensures
            Seq::new(r@.len(), |i: int| r@[i]@) == self@,
    {
        let r = self.entries.as_slice();
        assert(Seq::new(r@.len(), |i: int| r@[i]@) =~= self@);
        r
    }

    /// Records `entry`, replacing any entry of the same name and version.
    pub fn record(&mut self, entry: CacheEntry)
        ensures
            final(self).root_view() == old(self).root_view(),
            final(self)@ == without(old(self)@, entry.name@, entry.version@).push(entry@),
    {
        let ghost old_view = self@;
        let mut kept: Vec<CacheEntry> = Vec::new();
        let mut old_entries: Vec<CacheEntry> = Vec::new();
        std::mem::swap(&mut old_entries, &mut self.entries);
        let ghost es = Seq::new(old_entries@.len(), |i: int| old_entries@[i]@);
        assert(es == old_view);
        let mut i: usize = 0;
        while i < old_entries.len()
            invariant
                i <= old_entries.len(),
                es == Seq::new(old_entries@.len(), |i: int| old_entries@[i]@),
                Seq::new(kept@.len(), |j: int| kept@[j]@) == without(
                    es.take(i as int),
                    entry.name@,
                    entry.version@,
                ),
            decreases old_entries.len() - i,
        {
            proof {
                assert(es.take(i + 1).drop_last() =~= es.take(i as int));
                assert(es.take(i + 1).last() == old_entries@[i as int]@);
            }
            let e = &old_entries[i];
            if !(str_eq(e.name.as_str(), entry.name.as_str()) && e.version.same_as(&entry.version)) {
                let ghost before = kept@;
                kept.push(
                    CacheEntry {
                        name: e.name.clone(),
                        version: e.version.clone(),
                        path: e.path.clone(),
                        installed_at: e.installed_at,
                        size_bytes: e.size_bytes,
                    },
                );
                assert(Seq::new(kept@.len(), |j: int| kept@[j]@) =~= Seq::new(
                    before.len(),
                    |j: int| before[j]@,
                ).push(e@));
            }
            i += 1;
        }
        assert(es.take(i as int) =~= es);
        let ghost ev = entry@;
        let ghost before = kept@;
        kept.push(entry);
        assert(Seq::new(kept@.len(), |j: int| kept@[j]@) =~= Seq::new(before.len(), |j: int| before[j]@).push(ev));
        self.entries = kept;
    }

    /// The summed `size_bytes` of every entry.
    pub fn total_size(&self) -> (n: u64)
        requires
            size_sum(self@) <= u64::MAX,
        ensures
            n == size_sum(self@),
    {
        let mut n: u64 = 0;
        let mut i: usize = 0;
        while i < self.entries.len()
            invariant
                i <= self.entries.len(),
                self@.len() == self.entries.len(),
                size_sum(self@) <= u64::MAX,
                n == size_sum(self@.take(i as int)),
            decreases self.entries.len() - i,
        {
            proof {
                assert(self@.take(i + 1).drop_last() =~= self@.take(i as int));
                lemma_size_sum_prefix(self@, i + 1);
            }
            n = n + self.entries[i].size_bytes;
            i += 1;
        }
        assert(self@.take(i as int) =~= self@);
        n
    }

    /// Evicts entries, oldest `installed_at` first (a stable order),
    /// until the summed size is at most `max_bytes`; returns the evicted
    /// entries, oldest first. Deleting their files is the caller's.
    pub fn evict_to_fit(&mut self, max_bytes: u64) -> (evicted: Vec<CacheEntry>)
        requires
            size_sum(old(self)@) <= u64::MAX,
        ensures
            final(self).root_view() == old(self).root_view(),
            ({
                let sorted = sort_by_time(old(self)@);
                let k = evict_count(sorted, max_bytes) as int;
                &&& Seq::new(evicted@.len(), |i: int| evicted@[i]@) == sorted.take(k)
                &&& final(self)@ == sorted.skip(k)
            }),
            size_sum(final(self)@) <= max_bytes,
    {
        let mut old_entries: Vec<CacheEntry> = Vec::new();
        std::mem::swap(&mut old_entries, &mut self.entries);
        let ghost es = Seq::new(old_entries@.len(), |i: int| old_entries@[i]@);
        let mut sorted: Vec<CacheEntry> = Vec::new();
        let mut total: u64 = 0;
        proof {
            lemma_sort_size(es);
        }
        while old_entries.len() > 0
            invariant
                es.len() == old_entries@.len() + sorted@.len(),
                size_sum(es) <= u64::MAX,
                forall|j: int| 0 <= j < old_entries@.len() ==> #[trigger] old_entries@[j]@ == es[sorted@.len() + j],
                Seq::new(sorted@.len(), |j: int| sorted@[j]@) == sort_by_time(es.take(sorted@.len() as int)),
                total == size_sum(es.take(sorted@.len() as int)),
            decreases old_entries@.len(),
        {
            let ghost n: int = sorted@.len() as int;
            let e = old_entries.remove(0);
            proof {
                assert(e@ == es[n]);
                assert(es.take(n + 1).drop_last() =~= es.take(n));
                assert(es.take(n + 1).last() == es[n]);
                assert forall|j: int| 0 <= j < old_entries@.len() implies #[trigger] old_entries@[j]@ == es[n + 1 + j] by {}
                lemma_size_sum_prefix(es, n + 1);
            }
            let ghost sv = Seq::new(sorted@.len(), |j: int| sorted@[j]@);
            let mut k: usize = 0;
            while k < sorted.len() && !(e.installed_at < sorted[k].installed_at)
                invariant
                    k <= sorted@.len(),
                    sv == Seq::new(sorted@.len(), |j: int| sorted@[j]@),
                    forall|j: int| 0 <= j < k ==> !(e@.3 < #[trigger] sv[j].3),
                decreases sorted@.len() - k,
            {
                k += 1;
            }
            proof {
                lemma_insert_by_time_at(sv, e@, k as int);
            }
            total = total + e.size_bytes;
            let ghost ev = e@;
            sorted.insert(k, e);
            assert(Seq::new(sorted@.len(), |j: int| sorted@[j]@) =~= sv.insert(k as int, ev));
        }
        assert(es.take(sorted@.len() as int) =~= es);
        let ghost all = sort_by_time(es);
        let sorted_len = sorted.len();
        proof {
            lemma_sort_size(es);
            assert(all.skip(0) =~= all);
            assert(sorted@.len() == es.len());
            assert(all.len() == sorted_len);
        }
        let mut evicted: Vec<CacheEntry> = Vec::new();
        let mut count: usize = 0;
        while total > max_bytes && sorted.len() > 0
            invariant
                all.len() == count + sorted@.len(),
                all.len() <= usize::MAX,
                evicted@.len() == count,
                Seq::new(sorted@.len(), |j: int| sorted@[j]@) == all.skip(count as int),
                Seq::new(evicted@.len(), |j: int| evicted@[j]@) == all.take(count as int),
                total == size_sum(all.skip(count as int)),
                evict_count(all, max_bytes) == count + evict_count(all.skip(count as int), max_bytes),
            decreases sorted@.len(),
        {
            let ghost rest = all.skip(count as int);
            proof {
                lemma_size_sum_drop_first(rest);
                assert(rest.drop_first() =~= all.skip(count + 1));
                assert(rest[0] == sorted@[0]@);
            }
            let e = sorted.remove(0);
            total = total - e.size_bytes;
            let ghost before = evicted@;
            let ghost removed = e@;
            evicted.push(e);
            count += 1;
            proof {
                assert(Seq::new(evicted@.len(), |j: int| evicted@[j]@) =~= Seq::new(before.len(), |j: int| before[j]@).push(removed));
                assert(all.take(count as int) =~= all.take(count - 1).push(all[count - 1]));
                assert(Seq::new(evicted@.len(), |j: int| evicted@[j]@) =~= all.take(count as int));
                assert(Seq::new(sorted@.len(), |j: int| sorted@[j]@) =~= all.skip(count as int));
            }
        }
        proof {
            let rest = all.skip(count as int);
            assert(evict_count(rest, max_bytes) == 0);
        }
        self.entries = sorted;
        evicted
    }
}

proof fn lemma_size_sum_prefix(s: Seq<CacheEntryView>, i: int)
    requires
        0 < i <= s.len(),
    ensures
        size_sum(s.take(i)) == size_sum(s.take(i - 1)) + s[i - 1].4,
        size_sum(s.take(i)) <= size_sum(s),
    decreases s.len() - i,
{
    assert(s.take(i).drop_last() =~= s.take(i - 1));
    if i < s.len() {
        lemma_size_sum_prefix(s, i + 1);
    } else {
        assert(s.take(i) =~= s);
    }
}

} // verus!
