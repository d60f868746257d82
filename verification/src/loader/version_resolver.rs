//! Version resolution: one concrete version per dependency name that
//! satisfies every requirer's semver requirement.

use vstd::prelude::*;
use crate::loader::{group_of, ModuleIndex, PackageView};
use crate::package::manifest::PackageManifest;
use crate::text::{push_str, str_eq};
use crate::versions::{spec_req_matches, spec_version_lt, Version, VersionReq, VersionView};

verus! {

/// One package's declared requirement on a dependency.
#[derive(Debug, PartialEq, Eq)]
pub struct Requirement {
    /// The package that declared it.
    pub requirer: String,
    /// The range it requires.
    pub version_req: VersionReq,
}

impl View for Requirement {
    type V = (Seq<char>, Seq<char>);

    /// `(requirer, requirement text)`.
    open spec fn view(&self) -> (Seq<char>, Seq<char>) {
        (self.requirer@, self.version_req.text@)
    }
}

impl Clone for Requirement {
    fn clone(&self) -> (r: Self)
        ensures
            r@ == self@,
    {
        Requirement { requirer: self.requirer.clone(), version_req: self.version_req.clone() }
    }
}

/// The views of a list of requirements.
pub open spec fn req_views(v: Seq<Requirement>) -> Seq<(Seq<char>, Seq<char>)> {
    Seq::new(v.len(), |i: int| v[i]@)
}

/// No available version of `name` satisfies every requirement on it
/// (including where none is available at all).
#[derive(Debug, PartialEq, Eq)]
pub struct VersionConflict {
    /// The dependency name in conflict.
    pub name: String,
    /// Every requirement declared on it, in declaration order.
    pub requirements: Vec<Requirement>,
}

/// One requirement as a phrase: `<requirer> requires <name> <req>`.
pub open spec fn requirement_phrase(name: Seq<char>, r: (Seq<char>, Seq<char>)) -> Seq<char> {
    r.0 + " requires "@ + name + " "@ + r.1
}

/// The phrases of `reqs`, joined by `"; "`.
pub open spec fn joined_phrases(name: Seq<char>, reqs: Seq<(Seq<char>, Seq<char>)>) -> Seq<char>
    decreases reqs.len(),
{
    if reqs.len() == 0 {
        Seq::empty()
    } else if reqs.len() == 1 {
        requirement_phrase(name, reqs[0])
    } else {
        joined_phrases(name, reqs.drop_last()) + "; "@ + requirement_phrase(name, reqs.last())
    }
}

/// The message of a version conflict.
pub open spec fn version_conflict_message(name: Seq<char>, reqs: Seq<(Seq<char>, Seq<char>)>) -> Seq<
    char,
> {
    "no available version of \""@ + name + "\" satisfies every requirement: "@ + joined_phrases(
        name,
        reqs,
    )
}

impl VersionConflict {
    /// The conflict as a sentence naming every requirer and requirement.
    pub fn message(&self) -> (s: String)
        ensures
            s@ == version_conflict_message(self.name@, req_views(self.requirements@)),
    {
        let mut s = String::new();
        push_str(&mut s, "no available version of \"");
        push_str(&mut s, self.name.as_str());
        push_str(&mut s, "\" satisfies every requirement: ");
        let ghost head = s@;
        let ghost reqs = req_views(self.requirements@);
        let mut i: usize = 0;
        while i < self.requirements.len()
            invariant
                i <= self.requirements.len(),
                reqs == req_views(self.requirements@),
                s@ == head + joined_phrases(self.name@, reqs.take(i as int)),
            decreases self.requirements.len() - i,
        {
            if i > 0 {
                push_str(&mut s, "; ");
            }
            let r = &self.requirements[i];
            push_str(&mut s, r.requirer.as_str());
            push_str(&mut s, " requires ");
            push_str(&mut s, self.name.as_str());
            push_str(&mut s, " ");
            push_str(&mut s, r.version_req.text.as_str());
            proof {
                assert(reqs.take(i + 1).drop_last() =~= reqs.take(i as int));
                assert(reqs.take(i + 1).last() == reqs[i as int]);
                if i == 0 {
                    assert(reqs.take(0) =~= Seq::<(Seq<char>, Seq<char>)>::empty());
                }
            }
            i += 1;
            assert(s@ =~= head + joined_phrases(self.name@, reqs.take(i as int)));
        }
        assert(reqs.take(i as int) =~= reqs);
        s
    }
}

// ---------------------------------------------------------------------
// What resolution computes.
// ---------------------------------------------------------------------

/// A declared requirement as `(requirer, dependency name, requirement text)`.
pub type DeclaredReq = (Seq<char>, Seq<char>, Seq<char>);

/// The requirements one manifest declares, in declaration order.
pub open spec fn manifest_reqs(m: PackageManifest) -> Seq<DeclaredReq> {
    Seq::new(
        m.dependencies@.len(),
        |j: int|
            (
                m.package.name@,
                m.dependencies@[j].0@,
                m.dependencies@[j].1.version_req.text@,
            ),
    )
}

/// Every requirement the manifests declare, manifest by manifest.
pub open spec fn all_reqs(ms: Seq<&PackageManifest>) -> Seq<DeclaredReq>
    decreases ms.len(),
{
    if ms.len() == 0 {
        Seq::empty()
    } else {
        all_reqs(ms.drop_last()) + manifest_reqs(*ms.last())
    }
}

/// The dependency names required, each once, in the order first required.
pub open spec fn required_names(t: Seq<DeclaredReq>) -> Seq<Seq<char>>
    decreases t.len(),
{
    if t.len() == 0 {
        Seq::empty()
    } else {
        let names = required_names(t.drop_last());
        if names.contains(t.last().1) {
            names
        } else {
            names.push(t.last().1)
        }
    }
}

/// The `(requirer, requirement)` pairs on `name`, in declaration order.
pub open spec fn reqs_on(t: Seq<DeclaredReq>, name: Seq<char>) -> Seq<(Seq<char>, Seq<char>)>
    decreases t.len(),
{
    if t.len() == 0 {
        Seq::empty()
    } else {
        let rest = reqs_on(t.drop_last(), name);
        if t.last().1 == name {
            rest.push((t.last().0, t.last().2))
        } else {
            rest
        }
    }
}

/// Whether `v` satisfies every requirement.
pub open spec fn satisfies_all(reqs: Seq<(Seq<char>, Seq<char>)>, v: VersionView) -> bool {
    forall|i: int| 0 <= i < reqs.len() ==> spec_req_matches(#[trigger] reqs[i].1, v)
}

/// The versions of a list of discovered packages.
pub open spec fn versions_in(ps: Seq<PackageView>) -> Seq<VersionView> {
    Seq::new(ps.len(), |i: int| ps[i].2)
}

/// Whether no candidate other than `v` that satisfies every requirement
/// sorts after `v` in semver's order.
pub open spec fn none_satisfying_after(
    cands: Seq<VersionView>,
    reqs: Seq<(Seq<char>, Seq<char>)>,
    v: VersionView,
) -> bool {
    forall|j: int|
        0 <= j < cands.len() && satisfies_all(reqs, #[trigger] cands[j]) && cands[j] != v
            ==> !spec_version_lt(v, cands[j])
}

/// The greatest of the candidates that satisfy every requirement, in
/// semver's order, as `Iterator::max` picks it (the last of equals).
pub open spec fn best_version(cands: Seq<VersionView>, reqs: Seq<(Seq<char>, Seq<char>)>) -> Option<
    VersionView,
>
    decreases cands.len(),
{
    if cands.len() == 0 {
        None
    } else {
        let best = best_version(cands.drop_last(), reqs);
        let v = cands.last();
        if !satisfies_all(reqs, v) {
            best
        } else {
            match best {
                None => Some(v),
                Some(b) => if spec_version_lt(v, b) {
                    Some(b)
                } else {
                    Some(v)
                },
            }
        }
    }
}

/// The chosen version of each name that resolves, in `names` order.
pub open spec fn resolved_part(
    names: Seq<Seq<char>>,
    t: Seq<DeclaredReq>,
    index: Seq<(Seq<char>, Seq<PackageView>)>,
) -> Seq<(Seq<char>, VersionView)>
    decreases names.len(),
{
    if names.len() == 0 {
        Seq::empty()
    } else {
        let rest = resolved_part(names.drop_last(), t, index);
        let n = names.last();
        match best_version(versions_in(group_of(index, n)), reqs_on(t, n)) {
            Some(v) => rest.push((n, v)),
            None => rest,
        }
    }
}

/// The names that do not resolve, with their requirements, in `names`
/// order.
pub open spec fn conflict_part(
    names: Seq<Seq<char>>,
    t: Seq<DeclaredReq>,
    index: Seq<(Seq<char>, Seq<PackageView>)>,
) -> Seq<(Seq<char>, Seq<(Seq<char>, Seq<char>)>)>
    decreases names.len(),
{
    if names.len() == 0 {
        Seq::empty()
    } else {
        let rest = conflict_part(names.drop_last(), t, index);
        let n = names.last();
        match best_version(versions_in(group_of(index, n)), reqs_on(t, n)) {
            Some(v) => rest,
            None => rest.push((n, reqs_on(t, n))),
        }
    }
}

/// The outcome of `resolve_versions`.
#[derive(Debug)]
pub struct ResolvedVersions {
    /// The chosen version of each name that resolved.
    pub resolved: Vec<(String, Version)>,
    /// The names for which no available version satisfied every requirer.
    pub conflicts: Vec<VersionConflict>,
}

impl ResolvedVersions {
    /// `(name, version)` views of the resolved list.
    pub open spec fn resolved_view(&self) -> Seq<(Seq<char>, VersionView)> {
        Seq::new(self.resolved@.len(), |i: int| (self.resolved@[i].0@, self.resolved@[i].1@))
    }

    /// `(name, requirements)` views of the conflicts.
    pub open spec fn conflicts_view(&self) -> Seq<(Seq<char>, Seq<(Seq<char>, Seq<char>)>)> {
        Seq::new(
            self.conflicts@.len(),
            |i: int| (self.conflicts@[i].name@, req_views(self.conflicts@[i].requirements@)),
        )
    }

    /// The version chosen for `name`, if it resolved.
    pub fn get(&self, name: &str) -> (r: Option<&Version>)
        ensures
            r is Some <==> exists|i: int|
                0 <= i < self.resolved@.len() && #[trigger] self.resolved@[i].0@ == name@,
            r is Some ==> exists|i: int|
                0 <= i < self.resolved@.len() && #[trigger] self.resolved@[i].0@ == name@
                    && self.resolved@[i].1@ == r->0@,
    {
        let mut i: usize = 0;
        while i < self.resolved.len()
            invariant
                i <= self.resolved.len(),
                forall|j: int| 0 <= j < i ==> #[trigger] self.resolved@[j].0@ != name@,
            decreases self.resolved.len() - i,
        {
            if str_eq(self.resolved[i].0.as_str(), name) {
                return Some(&self.resolved[i].1);
            }
            i += 1;
        }
        None
    }
}

// ---------------------------------------------------------------------
// Lemmas.
// ---------------------------------------------------------------------

proof fn lemma_all_reqs_step(ms: Seq<&PackageManifest>, m: int)
    requires
        0 <= m < ms.len(),
    ensures
        all_reqs(ms.take(m + 1)) == all_reqs(ms.take(m)) + manifest_reqs(*ms[m]),
{
    assert(ms.take(m + 1).drop_last() =~= ms.take(m));
    assert(ms.take(m + 1).last() == ms[m]);
}

proof fn lemma_reqs_on_absent(t: Seq<DeclaredReq>, name: Seq<char>)
    requires
        !required_names(t).contains(name),
    ensures
        reqs_on(t, name) == Seq::<(Seq<char>, Seq<char>)>::empty(),
    decreases t.len(),
{
    if t.len() > 0 {
        let names = required_names(t.drop_last());
        if names.contains(name) {
            assert(required_names(t).contains(name)) by {
                let k = choose|k: int| 0 <= k < names.len() && names[k] == name;
                if !names.contains(t.last().1) {
                    assert(names.push(t.last().1)[k] == name);
                }
            }
        }
        if t.last().1 == name {
            assert(required_names(t).contains(name)) by {
                if !names.contains(t.last().1) {
                    assert(names.push(t.last().1)[names.len() as int] == name);
                }
            }
        }
        lemma_reqs_on_absent(t.drop_last(), name);
    }
}

proof fn lemma_required_names_distinct(t: Seq<DeclaredReq>)
    ensures
        forall|a: int, b: int|
            0 <= a < b < required_names(t).len() ==> required_names(t)[a] != required_names(t)[b],
    decreases t.len(),
{
    if t.len() > 0 {
        lemma_required_names_distinct(t.drop_last());
        let names = required_names(t.drop_last());
        if !names.contains(t.last().1) {
            assert forall|a: int| 0 <= a < names.len() implies names[a] != t.last().1 by {
                if names[a] == t.last().1 {
                    assert(names.contains(t.last().1));
                }
            }
        }
    }
}

proof fn lemma_part_step(
    names: Seq<Seq<char>>,
    t: Seq<DeclaredReq>,
    index: Seq<(Seq<char>, Seq<PackageView>)>,
    k: int,
)
    requires
        0 <= k < names.len(),
    ensures
        resolved_part(names.take(k + 1), t, index) == match best_version(
            versions_in(group_of(index, names[k])),
            reqs_on(t, names[k]),
        ) {
            Some(v) => resolved_part(names.take(k), t, index).push((names[k], v)),
            None => resolved_part(names.take(k), t, index),
        },
        conflict_part(names.take(k + 1), t, index) == match best_version(
            versions_in(group_of(index, names[k])),
            reqs_on(t, names[k]),
        ) {
            Some(v) => conflict_part(names.take(k), t, index),
            None => conflict_part(names.take(k), t, index).push((names[k], reqs_on(t, names[k]))),
        },
{
    assert(names.take(k + 1).drop_last() =~= names.take(k));
    assert(names.take(k + 1).last() == names[k]);
}

// ---------------------------------------------------------------------
// Resolution.
// ---------------------------------------------------------------------

fn satisfies_every(reqs: &Vec<Requirement>, v: &Version) -> (r: bool)
    ensures
        r == satisfies_all(req_views(reqs@), v@),
{
    let mut i: usize = 0;
    while i < reqs.len()
        invariant
            i <= reqs.len(),
            forall|j: int| 0 <= j < i ==> spec_req_matches(#[trigger] req_views(reqs@)[j].1, v@),
        decreases reqs.len() - i,
    {
        if !reqs[i].version_req.matches(v) {
            assert(req_views(reqs@)[i as int].1 == reqs@[i as int].version_req.text@);
            return false;
        }
        i += 1;
    }
    true
}

fn best_candidate(cands: &[crate::loader::DiscoveredPackage], reqs: &Vec<Requirement>) -> (r: Option<
    Version,
>)
    ensures
        match r {
            Some(v) => best_version(versions_in(Seq::new(cands@.len(), |j: int| cands@[j]@)), req_views(reqs@))
                == Some(v@),
            None => best_version(versions_in(Seq::new(cands@.len(), |j: int| cands@[j]@)), req_views(reqs@)) is None,
        },
        r matches Some(v) ==> none_satisfying_after(
            versions_in(Seq::new(cands@.len(), |j: int| cands@[j]@)),
            req_views(reqs@),
            v@,
        ),
{
    let ghost vs = versions_in(Seq::new(cands@.len(), |j: int| cands@[j]@));
    let mut best: Option<Version> = None;
    let mut c: usize = 0;
    while c < cands.len()
        invariant
            c <= cands.len(),
            vs == versions_in(Seq::new(cands@.len(), |j: int| cands@[j]@)),
            match best {
                Some(b) => best_version(vs.take(c as int), req_views(reqs@)) == Some(b@),
                None => best_version(vs.take(c as int), req_views(reqs@)) is None,
            },
            best is None ==> forall|j: int| 0 <= j < c ==> !satisfies_all(req_views(reqs@), #[trigger] vs[j]),
            best matches Some(b) ==> none_satisfying_after(vs.take(c as int), req_views(reqs@), b@),
        decreases cands.len() - c,
    {
        let v = &cands[c].version;
        proof {
            assert(vs.take(c + 1).drop_last() =~= vs.take(c as int));
            assert(vs.take(c + 1).last() == v@);
        }
        if satisfies_every(reqs, v) {
            let replace = match &best {
                None => true,
                Some(b) => !v.precedes(b),
            };
            if replace {
                best = Some(v.clone());
            }
        }
        c += 1;
    }
    assert(vs.take(cands.len() as int) =~= vs);
    best
}

/// For every dependency named by the manifests, picks the greatest
/// version in `index` (in semver's order) that satisfies every
/// manifest's requirement on that name; names with no such version are
/// reported as conflicts with all their requirements. Names are taken in
/// the order first required.
pub fn resolve_versions(manifests: &[&PackageManifest], index: &ModuleIndex) -> (r: ResolvedVersions)
    requires
        index.wf(),
    ensures
        r.resolved_view() == resolved_part(
            required_names(all_reqs(manifests@)),
            all_reqs(manifests@),
            index@,
        ),
        r.conflicts_view() == conflict_part(
            required_names(all_reqs(manifests@)),
            all_reqs(manifests@),
            index@,
        ),
        forall|i: int|
            0 <= i < r.resolved_view().len() ==> {
                let (n, v) = #[trigger] r.resolved_view()[i];
                &&& versions_in(group_of(index@, n)).contains(v)
                &&& satisfies_all(reqs_on(all_reqs(manifests@), n), v)
                &&& none_satisfying_after(versions_in(group_of(index@, n)), reqs_on(all_reqs(manifests@), n), v)
            },
        forall|i: int|
            0 <= i < r.conflicts_view().len() ==> {
                let (n, reqs) = #[trigger] r.conflicts_view()[i];
                &&& reqs == reqs_on(all_reqs(manifests@), n)
                &&& forall|j: int|
                    0 <= j < group_of(index@, n).len() ==> !satisfies_all(
                        reqs,
                        #[trigger] versions_in(group_of(index@, n))[j],
                    )
            },
{
    let ghost ms = manifests@;
    let mut names: Vec<String> = Vec::new();
    let mut groups: Vec<Vec<Requirement>> = Vec::new();
    let mut m: usize = 0;
    while m < manifests.len()
        invariant
            ms == manifests@,
            m <= manifests.len(),
            names@.len() == groups@.len(),
            names@.len() == required_names(all_reqs(ms.take(m as int))).len(),
            forall|k: int|
                0 <= k < names@.len() ==> (#[trigger] names@[k])@ == required_names(
                    all_reqs(ms.take(m as int)),
                )[k],
            forall|k: int|
                0 <= k < groups@.len() ==> req_views(#[trigger] groups@[k]@) == reqs_on(
                    all_reqs(ms.take(m as int)),
                    names@[k]@,
                ),
        decreases manifests.len() - m,
    {
        let manifest = manifests[m];
        let ghost before = all_reqs(ms.take(m as int));
        let ghost mine = manifest_reqs(*manifest);
        let mut d: usize = 0;
        assert(mine.take(0) =~= Seq::<DeclaredReq>::empty());
        assert(before + mine.take(0) =~= before);
        while d < manifest.dependencies.len()
            invariant
                ms == manifests@,
                m < manifests.len(),
                manifest == ms[m as int],
                before == all_reqs(ms.take(m as int)),
                mine == manifest_reqs(*manifest),
                d <= manifest.dependencies.len(),
                names@.len() == groups@.len(),
                names@.len() == required_names(before + mine.take(d as int)).len(),
                forall|k: int|
                    0 <= k < names@.len() ==> (#[trigger] names@[k])@ == required_names(
                        before + mine.take(d as int),
                    )[k],
                forall|k: int|
                    0 <= k < groups@.len() ==> req_views(#[trigger] groups@[k]@) == reqs_on(
                        before + mine.take(d as int),
                        names@[k]@,
                    ),
            decreases manifest.dependencies.len() - d,
        {
            let dep_name = &manifest.dependencies[d].0;
            let requirement = Requirement {
                requirer: manifest.package.name.clone(),
                version_req: manifest.dependencies[d].1.version_req.clone(),
            };
            let ghost t = before + mine.take(d as int);
            let ghost x = mine[d as int];
            proof {
                assert(before + mine.take(d + 1) =~= t.push(x));
                assert(t.push(x).drop_last() =~= t);
                assert(t.push(x).last() == x);
                assert(x.1 == dep_name@);
                assert(requirement@ == (x.0, x.2));
                lemma_required_names_distinct(t);
            }
            let mut k: usize = 0;
            let mut found = false;
            while k < names.len() && !found
                invariant
                    k <= names.len(),
                    names@.len() == required_names(t).len(),
                    forall|j: int| 0 <= j < names@.len() ==> (#[trigger] names@[j])@ == required_names(t)[j],
                    forall|j: int| 0 <= j < k ==> (#[trigger] names@[j])@ != dep_name@,
                    found ==> k < names.len() && names@[k as int]@ == dep_name@,
                decreases names.len() - k + (if found { 0int } else { 1int }),
            {
                if str_eq(names[k].as_str(), dep_name.as_str()) {
                    found = true;
                } else {
                    k += 1;
                }
            }
            let ghost old_groups = groups@;
            let ghost old_names = names@;
            if found {
                proof {
                    assert(required_names(t)[k as int] == x.1);
                    assert(required_names(t).contains(x.1));
                    assert(required_names(t.push(x)) == required_names(t));
                }
                let mut slot: Vec<Requirement> = Vec::new();
                groups.set_and_swap(k, &mut slot);
                let ghost prev = slot@;
                slot.push(requirement);
                proof {
                    assert(req_views(slot@) =~= req_views(prev).push((x.0, x.2)));
                }
                groups.set(k, slot);
                proof {
                    assert forall|j: int| 0 <= j < groups@.len() implies req_views(#[trigger] groups@[j]@)
                        == reqs_on(t.push(x), names@[j]@) by {
                        if j != k {
                            assert(groups@[j] == old_groups[j]);
                            assert(names@[j]@ != names@[k as int]@);
                        }
                    }
                }
            } else {
                proof {
                    assert(!required_names(t).contains(x.1)) by {
                        if required_names(t).contains(x.1) {
                            let j = choose|j: int| 0 <= j < required_names(t).len() && required_names(t)[j] == x.1;
                            assert(names@[j]@ == x.1);
                        }
                    }
                    assert(required_names(t.push(x)) == required_names(t).push(x.1));
                    lemma_reqs_on_absent(t, x.1);
                }
                names.push(dep_name.clone());
                let mut fresh: Vec<Requirement> = Vec::new();
                fresh.push(requirement);
                proof {
                    assert(req_views(fresh@) =~= seq![(x.0, x.2)]);
                    assert(Seq::<(Seq<char>, Seq<char>)>::empty().push((x.0, x.2)) =~= seq![(x.0, x.2)]);
                }
                groups.push(fresh);
                proof {
                    assert forall|j: int| 0 <= j < groups@.len() implies req_views(#[trigger] groups@[j]@)
                        == reqs_on(t.push(x), names@[j]@) by {
                        if j < old_groups.len() {
                            assert(groups@[j] == old_groups[j]);
                            assert(names@[j] == old_names[j]);
                            assert(names@[j]@ != x.1);
                        }
                    }
                    assert forall|j: int| 0 <= j < names@.len() implies (#[trigger] names@[j])@
                        == required_names(t.push(x))[j] by {
                        if j < old_names.len() {
                            assert(names@[j] == old_names[j]);
                        }
                    }
                }
            }
            d += 1;
        }
        proof {
            assert(mine.take(d as int) =~= mine);
            lemma_all_reqs_step(ms, m as int);
        }
        m += 1;
    }
    proof {
        assert(ms.take(m as int) =~= ms);
    }
    let ghost t = all_reqs(ms);
    let ghost rn = required_names(t);
    let mut resolved: Vec<(String, Version)> = Vec::new();
    let mut conflicts: Vec<VersionConflict> = Vec::new();
    let mut k: usize = 0;
    assert(rn.take(0) =~= Seq::<Seq<char>>::empty());
    while k < names.len()
        invariant
            index.wf(),
            t == all_reqs(manifests@),
            rn == required_names(t),
            k <= names.len(),
            names@.len() == groups@.len(),
            names@.len() == rn.len(),
            forall|j: int| 0 <= j < names@.len() ==> (#[trigger] names@[j])@ == rn[j],
            forall|j: int| 0 <= j < groups@.len() ==> req_views(#[trigger] groups@[j]@) == reqs_on(t, names@[j]@),
            Seq::new(resolved@.len(), |i: int| (resolved@[i].0@, resolved@[i].1@)) == resolved_part(
                rn.take(k as int),
                t,
                index@,
            ),
            Seq::new(
                conflicts@.len(),
                |i: int| (conflicts@[i].name@, req_views(conflicts@[i].requirements@)),
            ) == conflict_part(rn.take(k as int), t, index@),
            forall|i: int|
                0 <= i < resolved@.len() ==> {
                    let n = (#[trigger] resolved@[i]).0@;
                    let v = resolved@[i].1@;
                    &&& versions_in(group_of(index@, n)).contains(v)
                    &&& satisfies_all(reqs_on(t, n), v)
                    &&& none_satisfying_after(versions_in(group_of(index@, n)), reqs_on(t, n), v)
                },
            forall|i: int|
                0 <= i < conflicts@.len() ==> {
                    let n = (#[trigger] conflicts@[i]).name@;
                    &&& req_views(conflicts@[i].requirements@) == reqs_on(t, n)
                    &&& forall|j: int|
                        0 <= j < group_of(index@, n).len() ==> !satisfies_all(
                            reqs_on(t, n),
                            #[trigger] versions_in(group_of(index@, n))[j],
                        )
                },
        decreases names.len() - k,
    {
        proof {
            lemma_part_step(rn, t, index@, k as int);
        }
        let cands = index.get(names[k].as_str());
        let best = best_candidate(cands, &groups[k]);
        proof {
            lemma_best_version_satisfies(
                versions_in(Seq::new(cands@.len(), |j: int| cands@[j]@)),
                req_views(groups@[k as int]@),
            );
            assert(Seq::new(cands@.len(), |j: int| cands@[j]@) == group_of(index@, names@[k as int]@));
            assert(req_views(groups@[k as int]@) == reqs_on(t, names@[k as int]@));
        }
        let ghost old_resolved = resolved@;
        let ghost old_conflicts = conflicts@;
        match best {
            Some(v) => {
                let ghost vv = v@;
                let name = names[k].clone();
                resolved.push((name, v));
                proof {
                    assert(Seq::new(resolved@.len(), |i: int| (resolved@[i].0@, resolved@[i].1@))
                        =~= Seq::new(old_resolved.len(), |i: int| (old_resolved[i].0@, old_resolved[i].1@)).push((rn[k as int], vv)));
                }
            },
            None => {
                let mut reqs: Vec<Requirement> = Vec::new();
                let mut q: usize = 0;
                while q < groups[k].len()
                    invariant
                        k < groups@.len(),
                        q <= groups@[k as int]@.len(),
                        reqs@.len() == q,
                        req_views(reqs@) == req_views(groups@[k as int]@).take(q as int),
                    decreases groups@[k as int]@.len() - q,
                {
                    reqs.push(groups[k][q].clone());
                    q += 1;
                    assert(req_views(reqs@) =~= req_views(groups@[k as int]@).take(q as int));
                }
                assert(req_views(groups@[k as int]@).take(q as int) =~= req_views(groups@[k as int]@));
                let ghost rv = req_views(reqs@);
                let name = names[k].clone();
                assert(name@ == names@[k as int]@);
                conflicts.push(VersionConflict { name, requirements: reqs });
                proof {
                    assert(Seq::new(
                        conflicts@.len(),
                        |i: int| (conflicts@[i].name@, req_views(conflicts@[i].requirements@)),
                    ) =~= Seq::new(
                        old_conflicts.len(),
                        |i: int| (old_conflicts[i].name@, req_views(old_conflicts[i].requirements@)),
                    ).push((rn[k as int], rv)));
                }
            },
        }
        k += 1;
    }
    assert(rn.take(k as int) =~= rn);
    let r = ResolvedVersions { resolved, conflicts };
    assert forall|i: int| 0 <= i < r.resolved_view().len() implies #[trigger] r.resolved_view()[i] == (
        r.resolved@[i].0@,
        r.resolved@[i].1@,
    ) by {}
    assert forall|i: int| 0 <= i < r.conflicts_view().len() implies #[trigger] r.conflicts_view()[i] == (
        r.conflicts@[i].name@,
        req_views(r.conflicts@[i].requirements@),
    ) by {}
    r
}

} // verus!

verus! {

/// The version resolution picks for a name is one of its candidates and
/// satisfies every requirement, and there is one exactly when some
/// candidate satisfies them all.
pub proof fn lemma_best_version_satisfies(
    cands: Seq<VersionView>,
    reqs: Seq<(Seq<char>, Seq<char>)>,
)
    ensures
        best_version(cands, reqs) is None <==> forall|i: int|
            0 <= i < cands.len() ==> !satisfies_all(reqs, #[trigger] cands[i]),
        best_version(cands, reqs) matches Some(b) ==> cands.contains(b) && satisfies_all(reqs, b),
    decreases cands.len(),
{
    if cands.len() > 0 {
        let prefix = cands.drop_last();
        let v = cands.last();
        lemma_best_version_satisfies(prefix, reqs);
        assert(cands[cands.len() - 1] == v);
        assert forall|i: int| 0 <= i < cands.len() - 1 implies #[trigger] cands[i] == prefix[i] by {}
        if let Some(b) = best_version(prefix, reqs) {
            let k = choose|k: int| 0 <= k < prefix.len() && prefix[k] == b;
            assert(cands[k] == b);
        }
    }
}

} // verus!
