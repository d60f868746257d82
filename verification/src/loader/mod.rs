//! The module loader: discovery index, dependency order, version
//! resolution, conflicts, validation, installation, caching and rollback.

pub mod dependency_graph;
pub mod version_resolver;
pub mod conflict;
pub mod validation;
pub mod rollback;
pub mod installer;
pub mod cache;
pub mod instantiation;

use vstd::prelude::*;
use crate::errors::PackageError;
use crate::versions::{Version, VersionView};

verus! {

/// A `.nyp` package found on disk, named by its manifest.
#[derive(Debug)]
pub struct DiscoveredPackage {
    /// Where the `.nyp` file was found.
    pub path: String,
    /// The package's name, from its manifest.
    pub name: String,
    /// The package's version, from its manifest.
    pub version: Version,
}

/// A discovered package as plain values: `(path, name, version)`.
pub type PackageView = (Seq<char>, Seq<char>, VersionView);

impl View for DiscoveredPackage {
    type V = PackageView;

    open spec fn view(&self) -> PackageView {
        (self.path@, self.name@, self.version@)
    }
}

impl Clone for DiscoveredPackage {
    fn clone(&self) -> (p: Self)
        ensures
            p@ == self@,
    {
        DiscoveredPackage {
            path: self.path.clone(),
            name: self.name.clone(),
            version: self.version.clone(),
        }
    }
}

/// A scan failed to read or parse one candidate `.nyp` file.
#[derive(Debug)]
pub struct ScanError {
    /// The file that failed.
    pub path: String,
    /// Why it failed.
    pub error: PackageError,
}

/// Two `.nyp` files declare the same name and version.
#[derive(Debug)]
pub struct DuplicateModule {
    /// The package name both declare.
    pub name: String,
    /// The version both declare.
    pub version: Version,
    /// The file discovered first (kept in the index).
    pub kept_path: String,
    /// The file discovered afterwards (not kept).
    pub duplicate_path: String,
}

impl Clone for DuplicateModule {
    fn clone(&self) -> (d: Self)
        ensures
            d.name@ == self.name@ && d.version@ == self.version@ && d.kept_path@
                == self.kept_path@ && d.duplicate_path@ == self.duplicate_path@,
    {
        DuplicateModule {
            name: self.name.clone(),
            version: self.version.clone(),
            kept_path: self.kept_path.clone(),
            duplicate_path: self.duplicate_path.clone(),
        }
    }
}

/// The packages of one name, in discovery order, as found under `name`
/// in a list of `(name, packages)` groups; empty where there is none.
pub open spec fn group_of(groups: Seq<(Seq<char>, Seq<PackageView>)>, name: Seq<char>) -> Seq<
    PackageView,
>
    decreases groups.len(),
{
    if groups.len() == 0 {
        Seq::empty()
    } else if groups[0].0 == name {
        groups[0].1
    } else {
        group_of(groups.drop_first(), name)
    }
}

/// The total number of packages in a list of groups.
pub open spec fn total_packages(groups: Seq<(Seq<char>, Seq<PackageView>)>) -> nat
    decreases groups.len(),
{
    if groups.len() == 0 {
        0
    } else {
        total_packages(groups.drop_last()) + groups.last().1.len()
    }
}

/// The first package of `ps` with version `v`, if any.
pub open spec fn first_with_version(ps: Seq<PackageView>, v: VersionView) -> Option<PackageView>
    decreases ps.len(),
{
    if ps.len() == 0 {
        None
    } else if ps[0].2 == v {
        Some(ps[0])
    } else {
        first_with_version(ps.drop_first(), v)
    }
}

/// Packages found during a scan, grouped by name. Names are distinct,
/// every group is non-empty, and versions within a group are distinct.
#[derive(Debug)]
pub struct ModuleIndex {
    packages: Vec<(String, Vec<DiscoveredPackage>)>,
}

impl View for ModuleIndex {
    type V = Seq<(Seq<char>, Seq<PackageView>)>;

    closed spec fn view(&self) -> Seq<(Seq<char>, Seq<PackageView>)> {
        Seq::new(
            self.packages@.len(),
            |i: int|
                (
                    self.packages@[i].0@,
                    Seq::new(self.packages@[i].1@.len(), |j: int| self.packages@[i].1@[j]@),
                ),
        )
    }
}

proof fn lemma_group_of_index(groups: Seq<(Seq<char>, Seq<PackageView>)>, i: int)
    requires
        0 <= i < groups.len(),
        forall|j: int| 0 <= j < i ==> #[trigger] groups[j].0 != groups[i].0,
    ensures
        group_of(groups, groups[i].0) == groups[i].1,
    decreases i,
{
    if i > 0 {
        assert forall|j: int| 0 <= j < i - 1 implies #[trigger] groups.drop_first()[j].0
            != groups.drop_first()[i - 1].0 by {
            assert(groups.drop_first()[j] == groups[j + 1]);
        }
        lemma_group_of_index(groups.drop_first(), i - 1);
    }
}

proof fn lemma_group_of_absent(groups: Seq<(Seq<char>, Seq<PackageView>)>, name: Seq<char>)
    requires
        forall|j: int| 0 <= j < groups.len() ==> #[trigger] groups[j].0 != name,
    ensures
        group_of(groups, name) == Seq::<PackageView>::empty(),
    decreases groups.len(),
{
    if groups.len() > 0 {
        assert forall|j: int| 0 <= j < groups.drop_first().len() implies #[trigger] groups.drop_first()[j].0 != name by {
            assert(groups.drop_first()[j] == groups[j + 1]);
        }
        lemma_group_of_absent(groups.drop_first(), name);
    }
}

proof fn lemma_group_of_update(
    groups: Seq<(Seq<char>, Seq<PackageView>)>,
    i: int,
    ps: Seq<PackageView>,
    name: Seq<char>,
)
    requires
        0 <= i < groups.len(),
        forall|a: int, b: int| 0 <= a < b < groups.len() ==> groups[a].0 != groups[b].0,
    ensures
        group_of(groups.update(i, (groups[i].0, ps)), name) == if name == groups[i].0 {
            ps
        } else {
            group_of(groups, name)
        },
    decreases groups.len(),
{
    let t = groups.update(i, (groups[i].0, ps));
    if i == 0 {
        assert(t.drop_first() =~= groups.drop_first());
    } else {
        assert(t.drop_first() =~= groups.drop_first().update(i - 1, (groups[i].0, ps)));
        assert forall|a: int, b: int|
            0 <= a < b < groups.drop_first().len() implies groups.drop_first()[a].0
            != groups.drop_first()[b].0 by {
            assert(groups.drop_first()[a] == groups[a + 1]);
            assert(groups.drop_first()[b] == groups[b + 1]);
        }
        assert(groups.drop_first()[i - 1] == groups[i]);
        lemma_group_of_update(groups.drop_first(), i - 1, ps, name);
        if name == groups[0].0 {
            assert(groups[0].0 != groups[i].0);
        }
    }
}

proof fn lemma_group_of_push(
    groups: Seq<(Seq<char>, Seq<PackageView>)>,
    g: (Seq<char>, Seq<PackageView>),
    name: Seq<char>,
)
    requires
        forall|j: int| 0 <= j < groups.len() ==> #[trigger] groups[j].0 != g.0,
    ensures
        group_of(groups.push(g), name) == if name == g.0 {
            g.1
        } else {
            group_of(groups, name)
        },
    decreases groups.len(),
{
    if groups.len() == 0 {
        assert(groups.push(g).drop_first() =~= groups);
    } else {
        assert(groups.push(g).drop_first() =~= groups.drop_first().push(g));
        assert forall|j: int| 0 <= j < groups.drop_first().len() implies #[trigger] groups.drop_first()[j].0 != g.0 by {
            assert(groups.drop_first()[j] == groups[j + 1]);
        }
        lemma_group_of_push(groups.drop_first(), g, name);
    }
}

proof fn lemma_total_update(
    groups: Seq<(Seq<char>, Seq<PackageView>)>,
    i: int,
    ps: Seq<PackageView>,
)
    requires
        0 <= i < groups.len(),
    ensures
        total_packages(groups.update(i, (groups[i].0, ps))) == total_packages(groups) - groups[i].1.len() + ps.len(),
    decreases groups.len(),
{
    let t = groups.update(i, (groups[i].0, ps));
    if i == groups.len() - 1 {
        assert(t.drop_last() =~= groups.drop_last());
    } else {
        assert(t.drop_last() =~= groups.drop_last().update(i, (groups[i].0, ps)));
        lemma_total_update(groups.drop_last(), i, ps);
    }
}

/// Whether groups are well formed: distinct names, non-empty groups.
pub open spec fn groups_wf(groups: Seq<(Seq<char>, Seq<PackageView>)>) -> bool {
    &&& forall|a: int, b: int| 0 <= a < b < groups.len() ==> groups[a].0 != groups[b].0
    &&& forall|a: int| 0 <= a < groups.len() ==> #[trigger] groups[a].1.len() > 0
}

impl ModuleIndex {
    /// The index's groups are well formed.
    pub open spec fn wf(&self) -> bool {
        groups_wf(self@)
    }

    /// An empty index.
    pub fn new() -> (r: ModuleIndex)
        ensures
            r@ == Seq::<(Seq<char>, Seq<PackageView>)>::empty(),
            r.wf(),
    {
        let r = ModuleIndex { packages: Vec::new() };
        assert(r@ =~= Seq::<(Seq<char>, Seq<PackageView>)>::empty());
        r
    }

    fn find_group(&self, name: &str) -> (r: Option<usize>)
        requires
            self.wf(),
        ensures
            match r {
                Some(i) => i < self@.len() && self@[i as int].0 == name@,
                None => forall|j: int| 0 <= j < self@.len() ==> #[trigger] self@[j].0 != name@,
            },
    {
        let mut i: usize = 0;
        while i < self.packages.len()
            invariant
                i <= self.packages.len(),
                self@.len() == self.packages.len(),
                forall|j: int| 0 <= j < i ==> #[trigger] self@[j].0 != name@,
            decreases self.packages.len() - i,
        {
            if crate::text::str_eq(self.packages[i].0.as_str(), name) {
                return Some(i);
            }
            i += 1;
        }
        None
    }

    /// Every version of `name` found, in discovery order; empty where
    /// there is none.
    pub fn get(&self, name: &str) -> (r: &[DiscoveredPackage])
        requires
            self.wf(),
        ensures
            Seq::new(r@.len(), |j: int| r@[j]@) == group_of(self@, name@),
    {
        match self.find_group(name) {
            Some(i) => {
                proof {
                    assert forall|j: int| 0 <= j < i implies #[trigger] self@[j].0 != self@[i as int].0 by {}
                    lemma_group_of_index(self@, i as int);
                }
                let r = self.packages[i].1.as_slice();
                assert(Seq::new(r@.len(), |j: int| r@[j]@) =~= self@[i as int].1);
                r
            },
            None => {
                proof {
                    lemma_group_of_absent(self@, name@);
                }
                let r: &[DiscoveredPackage] = &[];
                assert(Seq::new(r@.len(), |j: int| r@[j]@) =~= Seq::<PackageView>::empty());
                r
            },
        }
    }

    /// Every distinct package name found, in the order first found.
    pub fn names(&self) -> (r: Vec<String>)
        ensures
            r@.len() == self@.len(),
            forall|i: int| 0 <= i < r@.len() ==> (#[trigger] r@[i])@ == self@[i].0,
    {
        let mut r: Vec<String> = Vec::new();
        let mut i: usize = 0;
        while i < self.packages.len()
            invariant
                i <= self.packages.len(),
                self@.len() == self.packages.len(),
                r@.len() == i,
                forall|k: int| 0 <= k < i ==> (#[trigger] r@[k])@ == self@[k].0,
            decreases self.packages.len() - i,
        {
            r.push(self.packages[i].0.clone());
            i += 1;
        }
        r
    }

    /// The total number of indexed packages, over all names and versions.
    pub fn len(&self) -> (n: usize)
        requires
            total_packages(self@) <= usize::MAX,
        ensures
            n == total_packages(self@),
    {
        let mut n: usize = 0;
        let mut i: usize = 0;
        while i < self.packages.len()
            invariant
                i <= self.packages.len(),
                self@.len() == self.packages.len(),
                total_packages(self@) <= usize::MAX,
                n == total_packages(self@.take(i as int)),
            decreases self.packages.len() - i,
        {
            proof {
                assert(self@.take(i + 1).drop_last() =~= self@.take(i as int));
                lemma_total_prefix(self@, i as int + 1);
            }
            n = n + self.packages[i].1.len();
            i += 1;
        }
        assert(self@.take(i as int) =~= self@);
        n
    }

    /// Whether no package was indexed.
    pub fn is_empty(&self) -> (r: bool)
        requires
            self.wf(),
        ensures
            r == (total_packages(self@) == 0),
    {
        proof {
            if self@.len() > 0 {
                lemma_total_prefix(self@, self@.len() as int);
                assert(self@.take(self@.len() as int) =~= self@);
                lemma_total_at_least(self@, self@.len() - 1);
            }
        }
        self.packages.len() == 0
    }

    /// Indexes `package`, unless a package of the same name and version
    /// is already there: then the index is unchanged and the duplicate is
    /// reported, naming the path of the one kept.
    pub fn insert(&mut self, package: DiscoveredPackage) -> (r: Option<DuplicateModule>)
        requires
            old(self).wf(),
        ensures
            final(self).wf(),
            match first_with_version(group_of(old(self)@, package.name@), package.version@) {
                Some(kept) => r is Some && final(self)@ == old(self)@ && r->0.name@ == package.name@
                    && r->0.version@ == package.version@ && r->0.kept_path@ == kept.0
                    && r->0.duplicate_path@ == package.path@,
                None => r is None && forall|n: Seq<char>|
                    #[trigger] group_of(final(self)@, n) == if n == package.name@ {
                        group_of(old(self)@, n).push(package@)
                    } else {
                        group_of(old(self)@, n)
                    },
            },
            total_packages(final(self)@) == total_packages(old(self)@) + if r is None { 1nat } else { 0nat },
    {
        let ghost old_view = self@;
        match self.find_group(package.name.as_str()) {
            Some(g) => {
                proof {
                    assert forall|j: int| 0 <= j < g implies #[trigger] self@[j].0 != self@[g as int].0 by {}
                    lemma_group_of_index(self@, g as int);
                }
                let ghost group = self@[g as int].1;
                let mut k: usize = 0;
                let ghost glen = self.packages@[g as int].1@.len();
                assert(group.skip(0) =~= group);
                while k < self.packages[g].1.len()
                    invariant
                        self@ == old_view,
                        old_view == old(self)@,
                        old(self).wf(),
                        group == group_of(old_view, package.name@),
                        g < self@.len(),
                        group == self@[g as int].1,
                        k <= group.len(),
                        self.packages@[g as int].1@.len() == group.len(),
                        first_with_version(group, package.version@) == first_with_version(
                            group.skip(k as int),
                            package.version@,
                        ),
                    decreases group.len() - k,
                {
                    proof {
                        assert(group.skip(k as int)[0] == group[k as int]);
                        assert(group.skip(k as int).drop_first() =~= group.skip(k + 1));
                    }
                    if self.packages[g].1[k].version.same_as(&package.version) {
                        let kept_path = self.packages[g].1[k].path.clone();
                        assert(group[k as int] == self.packages@[g as int].1@[k as int]@);
                        return Some(
                            DuplicateModule {
                                name: package.name,
                                version: package.version,
                                kept_path,
                                duplicate_path: package.path,
                            },
                        );
                    }
                    k += 1;
                }
                assert(group.skip(k as int).len() == 0);
                let ghost pv = package@;
                let mut slot: (String, Vec<DiscoveredPackage>) = (String::new(), Vec::new());
                self.packages.set_and_swap(g, &mut slot);
                proof {
                    assert(Seq::new(slot.1@.len(), |j: int| slot.1@[j]@) =~= group);
                }
                slot.1.push(package);
                proof {
                    assert(Seq::new(slot.1@.len(), |j: int| slot.1@[j]@) =~= group.push(pv));
                }
                self.packages.set(g, slot);
                proof {
                    assert(self@ =~= old_view.update(g as int, (old_view[g as int].0, group.push(pv))));
                    lemma_total_update(old_view, g as int, group.push(pv));
                    assert forall|n: Seq<char>| #[trigger] group_of(self@, n) == if n == pv.1 {
                        group_of(old_view, n).push(pv)
                    } else {
                        group_of(old_view, n)
                    } by {
                        lemma_group_of_update(old_view, g as int, group.push(pv), n);
                    }
                }
                None
            },
            None => {
                proof {
                    lemma_group_of_absent(self@, package.name@);
                }
                let ghost pv = package@;
                let name = package.name.clone();
                let mut group: Vec<DiscoveredPackage> = Vec::new();
                group.push(package);
                proof {
                    assert(Seq::new(group@.len(), |j: int| group@[j]@) =~= seq![pv]);
                }
                self.packages.push((name, group));
                proof {
                    assert(self@ =~= old_view.push((pv.1, seq![pv])));
                    assert(self@.drop_last() =~= old_view);
                    assert forall|n: Seq<char>| #[trigger] group_of(self@, n) == if n == pv.1 {
                        group_of(old_view, n).push(pv)
                    } else {
                        group_of(old_view, n)
                    } by {
                        lemma_group_of_push(old_view, (pv.1, seq![pv]), n);
                        assert(Seq::<PackageView>::empty().push(pv) =~= seq![pv]);
                    }
                }
                None
            },
        }
    }
}

proof fn lemma_total_prefix(groups: Seq<(Seq<char>, Seq<PackageView>)>, i: int)
    requires
        0 < i <= groups.len(),
    ensures
        total_packages(groups.take(i)) == total_packages(groups.take(i - 1)) + groups[i - 1].1.len(),
        total_packages(groups.take(i)) <= total_packages(groups),
    decreases groups.len() - i,
{
    assert(groups.take(i).drop_last() =~= groups.take(i - 1));
    if i < groups.len() {
        lemma_total_prefix(groups, i + 1);
    } else {
        assert(groups.take(i) =~= groups);
    }
}

proof fn lemma_total_at_least(groups: Seq<(Seq<char>, Seq<PackageView>)>, i: int)
    requires
        0 <= i < groups.len(),
    ensures
        total_packages(groups) >= groups[i].1.len(),
    decreases groups.len(),
{
    if i < groups.len() - 1 {
        lemma_total_at_least(groups.drop_last(), i);
    }
}

} // verus!

verus! {

/// The outcome of scanning directories for packages: the index, and
/// what did not stop the scan.
#[derive(Debug)]
pub struct ScanReport {
    /// Discovered and indexed packages.
    pub index: ModuleIndex,
    /// Files that failed to open or parse.
    pub errors: Vec<ScanError>,
    /// Same name and version found again (the first is kept).
    pub duplicates: Vec<DuplicateModule>,
}

impl ScanReport {
    /// An empty report.
    pub fn new() -> (r: ScanReport)
        ensures
            r.index@ == Seq::<(Seq<char>, Seq<PackageView>)>::empty(),
            r.index.wf(),
            r.errors@.len() == 0,
            r.duplicates@.len() == 0,
    {
        ScanReport { index: ModuleIndex::new(), errors: Vec::new(), duplicates: Vec::new() }
    }

    /// Records what reading one `.nyp` file at `path` gave: a package is
    /// indexed (or reported as a duplicate), an error is kept beside it.
    pub fn record(&mut self, path: String, outcome: Result<DiscoveredPackage, PackageError>)
        requires
            old(self).index.wf(),
        ensures
            final(self).index.wf(),
            match outcome {
                Ok(p) => final(self).errors@ == old(self).errors@ && match first_with_version(
                    group_of(old(self).index@, p.name@),
                    p.version@,
                ) {
                    Some(kept) => final(self).index@ == old(self).index@
                        && final(self).duplicates@.len() == old(self).duplicates@.len() + 1
                        && final(self).duplicates@.last().kept_path@ == kept.0
                        && final(self).duplicates@.last().duplicate_path@ == p.path@,
                    None => final(self).duplicates@ == old(self).duplicates@ && forall|n: Seq<char>|
                        #[trigger] group_of(final(self).index@, n) == if n == p.name@ {
                            group_of(old(self).index@, n).push(p@)
                        } else {
                            group_of(old(self).index@, n)
                        },
                },
                Err(e) => final(self).index@ == old(self).index@ && final(self).duplicates@
                    == old(self).duplicates@ && final(self).errors@.len() == old(self).errors@.len()
                    + 1 && final(self).errors@.last().path@ == path@ && final(self).errors@.last().error
                    == e,
            },
    {
        match outcome {
            Ok(package) => {
                if let Some(duplicate) = self.index.insert(package) {
                    self.duplicates.push(duplicate);
                }
            },
            Err(error) => {
                self.errors.push(ScanError { path, error });
            },
        }
    }
}

} // verus!

verus! {

/// The path `base` joined with `part` as `std::path::Path::join` joins
/// them.
pub uninterp spec fn spec_path_join(base: Seq<char>, part: Seq<char>) -> Seq<char>;

/// `Path::new(base).join(part)`, as a string.
#[verifier::external_body]
pub(crate) fn path_join(base: &str, part: &str) -> (r: String)
    ensures
        r@ == spec_path_join(base@, part@),
{
    std::path::Path::new(base).join(part).to_string_lossy().into_owned()
}

} // verus!
