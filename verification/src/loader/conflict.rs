//! Conflict detection: unresolved dependencies, told apart into missing
//! and incompatible ones, and Module API version mismatches, each with a
//! message for humans.

use vstd::prelude::*;
use crate::loader::version_resolver::{
    all_reqs, conflict_part, req_views, required_names, resolve_versions, Requirement,
};
use crate::loader::{group_of, ModuleIndex, PackageView};
use crate::module_api::versioning::{is_compatible, ApiVersion};
use crate::package::manifest::PackageManifest;
use crate::text::push_str;

verus! {

/// A detected conflict.
#[derive(Debug, Clone, PartialEq, Eq)]
pub enum Conflict {
    /// No single available version satisfies every requirer.
    IncompatibleVersions {
        /// The dependency in conflict.
        name: String,
        /// Every requirement declared on it.
        requirements: Vec<Requirement>,
    },
    /// No known package provides the dependency at all.
    MissingDependency {
        /// The dependency that could not be found.
        name: String,
        /// The packages that require it.
        requirers: Vec<String>,
    },
    /// A package's declared Module API version does not fit the
    /// Runtime's.
    IncompatibleApiVersion {
        /// The package.
        module: String,
        /// The Module API version the Runtime requires.
        required: ApiVersion,
        /// The version the package declares.
        declared: ApiVersion,
    },
}

/// The names of a list of strings.
pub open spec fn string_views(v: Seq<String>) -> Seq<Seq<char>> {
    Seq::new(v.len(), |i: int| v[i]@)
}

/// The clause for the `i`-th requirement of an incompatible-versions
/// conflict on `name`.
pub open spec fn version_clause(name: Seq<char>, r: (Seq<char>, Seq<char>), first: bool) -> Seq<char> {
    if first {
        "Module "@ + r.0 + " requires "@ + name + " "@ + r.1
    } else {
        ", but module "@ + r.0 + " requires "@ + name + " "@ + r.1
    }
}

/// Every clause of an incompatible-versions message, in order.
pub open spec fn version_clauses(name: Seq<char>, reqs: Seq<(Seq<char>, Seq<char>)>) -> Seq<char>
    decreases reqs.len(),
{
    if reqs.len() == 0 {
        Seq::empty()
    } else {
        version_clauses(name, reqs.drop_last()) + version_clause(
            name,
            reqs.last(),
            reqs.len() == 1,
        )
    }
}

/// Strings joined by `", "`.
pub open spec fn comma_joined(v: Seq<Seq<char>>) -> Seq<char>
    decreases v.len(),
{
    if v.len() == 0 {
        Seq::empty()
    } else if v.len() == 1 {
        v[0]
    } else {
        comma_joined(v.drop_last()) + ", "@ + v.last()
    }
}

/// The message of a missing dependency.
pub open spec fn missing_message(name: Seq<char>, requirers: Seq<Seq<char>>) -> Seq<char> {
    comma_joined(requirers) + " require"@ + (if requirers.len() == 1 {
        "s"@
    } else {
        ""@
    }) + " \""@ + name + "\", but no installed package provides it"@
}

/// The message of an API version mismatch.
pub open spec fn api_message(module: Seq<char>, required: ApiVersion, declared: ApiVersion) -> Seq<
    char,
> {
    "module \""@ + module + "\" was built against Module API "@ + declared.spec_text()
        + ", which is incompatible with the Runtime's required "@ + required.spec_text()
}

/// The message of a conflict.
pub open spec fn conflict_message(c: Conflict) -> Seq<char> {
    match c {
        Conflict::IncompatibleVersions { name, requirements } => version_clauses(
            name@,
            req_views(requirements@),
        ),
        Conflict::MissingDependency { name, requirers } => missing_message(
            name@,
            string_views(requirers@),
        ),
        Conflict::IncompatibleApiVersion { module, required, declared } => api_message(
            module@,
            required,
            declared,
        ),
    }
}

fn push_version_clauses(s: &mut String, name: &String, requirements: &Vec<Requirement>)
    ensures
        final(s)@ == old(s)@ + version_clauses(name@, req_views(requirements@)),
{
    let ghost head = s@;
    let ghost reqs = req_views(requirements@);
    let mut i: usize = 0;
    assert(reqs.take(0) =~= Seq::<(Seq<char>, Seq<char>)>::empty());
    while i < requirements.len()
        invariant
            i <= requirements.len(),
            reqs == req_views(requirements@),
            s@ == head + version_clauses(name@, reqs.take(i as int)),
        decreases requirements.len() - i,
    {
        let r = &requirements[i];
        if i == 0 {
            push_str(s, "Module ");
        } else {
            push_str(s, ", but module ");
        }
        push_str(s, r.requirer.as_str());
        push_str(s, " requires ");
        push_str(s, name.as_str());
        push_str(s, " ");
        push_str(s, r.version_req.text.as_str());
        proof {
            assert(reqs.take(i + 1).drop_last() =~= reqs.take(i as int));
            assert(reqs.take(i + 1).last() == reqs[i as int]);
        }
        i += 1;
        assert(s@ =~= head + version_clauses(name@, reqs.take(i as int)));
    }
    assert(reqs.take(i as int) =~= reqs);
}

fn push_comma_joined(s: &mut String, v: &Vec<String>)
    ensures
        final(s)@ == old(s)@ + comma_joined(string_views(v@)),
{
    let ghost head = s@;
    let ghost names = string_views(v@);
    let mut i: usize = 0;
    assert(names.take(0) =~= Seq::<Seq<char>>::empty());
    while i < v.len()
        invariant
            i <= v.len(),
            names == string_views(v@),
            s@ == head + comma_joined(names.take(i as int)),
        decreases v.len() - i,
    {
        if i > 0 {
            push_str(s, ", ");
        }
        push_str(s, v[i].as_str());
        proof {
            assert(names.take(i + 1).drop_last() =~= names.take(i as int));
            assert(names.take(i + 1).last() == names[i as int]);
            if i == 0 {
                assert(names.take(1)[0] == names[0]);
            }
        }
        i += 1;
        assert(s@ =~= head + comma_joined(names.take(i as int)));
    }
    assert(names.take(i as int) =~= names);
}

impl Conflict {
    /// The conflict as a sentence for humans.
    pub fn message(&self) -> (s: String)
        ensures
            s@ == conflict_message(*self),
    {
        let mut s = String::new();
        match self {
            Conflict::IncompatibleVersions { name, requirements } => {
                push_version_clauses(&mut s, name, requirements);
            },
            Conflict::MissingDependency { name, requirers } => {
                push_comma_joined(&mut s, requirers);
                push_str(&mut s, " require");
                if requirers.len() == 1 {
                    push_str(&mut s, "s");
                } else {
                    push_str(&mut s, "");
                }
                push_str(&mut s, " \"");
                push_str(&mut s, name.as_str());
                push_str(&mut s, "\", but no installed package provides it");
            },
            Conflict::IncompatibleApiVersion { module, required, declared } => {
                push_str(&mut s, "module \"");
                push_str(&mut s, module.as_str());
                push_str(&mut s, "\" was built against Module API ");
                let d = declared.to_string();
                push_str(&mut s, d.as_str());
                push_str(&mut s, ", which is incompatible with the Runtime's required ");
                let r = required.to_string();
                push_str(&mut s, r.as_str());
            },
        }
        assert(s@ =~= conflict_message(*self));
        s
    }
}

/// The manifests whose declared Module API version is incompatible with
/// `required`, in order.
pub open spec fn api_failures(ms: Seq<&PackageManifest>, required: ApiVersion) -> Seq<
    &PackageManifest,
>
    decreases ms.len(),
{
    if ms.len() == 0 {
        Seq::empty()
    } else {
        let rest = api_failures(ms.drop_last(), required);
        let m = ms.last();
        let declared = m.package.api_version;
        if required.major == declared.major && declared.minor >= required.minor {
            rest
        } else {
            rest.push(m)
        }
    }
}

/// Law: a manifest is among the API failures exactly when its declared
/// Module API version has another major than `required`, or the same
/// major with a lower minor; every failure is one of the manifests.
pub proof fn lemma_api_failures_are_the_incompatible(ms: Seq<&PackageManifest>, required: ApiVersion)
    ensures
        forall|i: int|
            0 <= i < ms.len() ==> (api_failures(ms, required).contains(#[trigger] ms[i]) <==> (
            ms[i].package.api_version.major != required.major || ms[i].package.api_version.minor
                < required.minor)),
        forall|m: &PackageManifest| #[trigger] api_failures(ms, required).contains(m) ==> ms.contains(m),
    decreases ms.len(),
{
    if ms.len() > 0 {
        let rest = ms.drop_last();
        let last = ms.last();
        lemma_api_failures_are_the_incompatible(rest, required);
        let fr = api_failures(rest, required);
        let f = api_failures(ms, required);
        assert forall|i: int| 0 <= i < ms.len() - 1 implies #[trigger] ms[i] == rest[i] by {}
        assert(ms[ms.len() - 1] == last);
        let bad = last.package.api_version.major != required.major || last.package.api_version.minor
            < required.minor;
        if bad {
            assert(f == fr.push(last));
            assert(f[fr.len() as int] == last);
        } else {
            assert(f == fr);
        }
        assert forall|m: &PackageManifest| #[trigger] f.contains(m) implies ms.contains(m) by {
            if fr.contains(m) {
                let k = choose|k: int| 0 <= k < rest.len() && rest[k] == m;
                assert(ms[k] == m);
            } else {
                assert(m == last);
            }
        }
        assert forall|i: int| 0 <= i < ms.len() implies (f.contains(#[trigger] ms[i]) <==> (
        ms[i].package.api_version.major != required.major || ms[i].package.api_version.minor
            < required.minor)) by {
            let mi = ms[i];
            let mbad = mi.package.api_version.major != required.major || mi.package.api_version.minor
                < required.minor;
            if i < ms.len() - 1 {
                assert(rest[i] == mi);
                if bad {
                    if fr.contains(mi) {
                        let k = choose|k: int| 0 <= k < fr.len() && fr[k] == mi;
                        assert(f[k] == mi);
                    }
                    if f.contains(mi) && !fr.contains(mi) {
                        assert(mi == last);
                    }
                }
                if !bad && mi == last {
                    assert(!mbad);
                }
                if bad && mi == last {
                    assert(mbad);
                }
            } else {
                assert(mi == last);
                if !bad && fr.contains(mi) {
                    let k = choose|k: int| 0 <= k < fr.len() && fr[k] == mi;
                    let k2 = choose|k2: int| 0 <= k2 < rest.len() && rest[k2] == mi;
                    assert(rest.contains(mi));
                }
            }
        }
    }
}

/// Whether `c` reports the unresolved dependency `name` with
/// requirements `reqs`: as missing where the index has no package of
/// that name, as incompatible otherwise.
pub open spec fn reports_unresolved(
    c: Conflict,
    name: Seq<char>,
    reqs: Seq<(Seq<char>, Seq<char>)>,
    available: Seq<PackageView>,
) -> bool {
    if available.len() == 0 {
        c matches Conflict::MissingDependency { name: n, requirers } && n@ == name && string_views(
            requirers@,
        ) == Seq::new(reqs.len(), |i: int| reqs[i].0)
    } else {
        c matches Conflict::IncompatibleVersions { name: n, requirements } && n@ == name
            && req_views(requirements@) == reqs
    }
}

/// Whether `c` reports that `m` declares an incompatible API version.
pub open spec fn reports_api(c: Conflict, m: PackageManifest, required: ApiVersion) -> bool {
    c matches Conflict::IncompatibleApiVersion { module, required: r, declared } && module@
        == m.package.name@ && r == required && declared == m.package.api_version
}

/// Whether `r` lists the conflicts among `ms`: first each dependency
/// that does not resolve against `index` (see `conflict_part`), as
/// missing or incompatible; then each manifest whose Module API version
/// is not compatible with `required`.
pub open spec fn conflicts_of(
    r: Seq<Conflict>,
    ms: Seq<&PackageManifest>,
    index: Seq<(Seq<char>, Seq<PackageView>)>,
    required: ApiVersion,
) -> bool {
    let unresolved = conflict_part(required_names(all_reqs(ms)), all_reqs(ms), index);
    let api = api_failures(ms, required);
    &&& r.len() == unresolved.len() + api.len()
    &&& forall|i: int|
        0 <= i < unresolved.len() ==> reports_unresolved(
            #[trigger] r[i],
            unresolved[i].0,
            unresolved[i].1,
            group_of(index, unresolved[i].0),
        )
    &&& forall|j: int|
        0 <= j < api.len() ==> reports_api(#[trigger] r[unresolved.len() + j], *api[j], required)
}

/// Law: in a list of conflicts that `detect_conflicts` may return, every
/// manifest whose Module API version has another major than `required`,
/// or the same major and a lower minor, is reported as incompatible, and
/// every API report names a manifest that is.
pub proof fn lemma_api_reports_are_exact(
    r: Seq<Conflict>,
    ms: Seq<&PackageManifest>,
    index: Seq<(Seq<char>, Seq<PackageView>)>,
    required: ApiVersion,
)
    requires
        conflicts_of(r, ms, index, required),
    ensures
        forall|i: int|
            0 <= i < ms.len() && ((#[trigger] ms[i]).package.api_version.major != required.major
                || ms[i].package.api_version.minor < required.minor) ==> exists|k: int|
                0 <= k < r.len() && reports_api(#[trigger] r[k], *ms[i], required),
        forall|k: int|
            0 <= k < r.len() && (#[trigger] r[k]) is IncompatibleApiVersion ==> exists|i: int|
                0 <= i < ms.len() && reports_api(r[k], *#[trigger] ms[i], required) && (
                ms[i].package.api_version.major != required.major || ms[i].package.api_version.minor
                    < required.minor),
{
    let unresolved = conflict_part(required_names(all_reqs(ms)), all_reqs(ms), index);
    let api = api_failures(ms, required);
    lemma_api_failures_are_the_incompatible(ms, required);
    assert forall|i: int|
        0 <= i < ms.len() && ((#[trigger] ms[i]).package.api_version.major != required.major
            || ms[i].package.api_version.minor < required.minor) implies exists|k: int|
            0 <= k < r.len() && reports_api(#[trigger] r[k], *ms[i], required) by {
        assert(api.contains(ms[i]));
        let j = choose|j: int| 0 <= j < api.len() && api[j] == ms[i];
        assert(reports_api(r[unresolved.len() + j], *api[j], required));
    }
    assert forall|k: int| 0 <= k < r.len() && (#[trigger] r[k]) is IncompatibleApiVersion implies exists|i: int|
        0 <= i < ms.len() && reports_api(r[k], *#[trigger] ms[i], required) && (
        ms[i].package.api_version.major != required.major || ms[i].package.api_version.minor
            < required.minor) by {
        if k < unresolved.len() {
            assert(reports_unresolved(r[k], unresolved[k].0, unresolved[k].1, group_of(index, unresolved[k].0)));
        } else {
            let j = k - unresolved.len();
            assert(reports_api(r[unresolved.len() + j], *api[j], required));
            assert(api[j] == api[j]);
            assert(api.contains(api[j]));
            assert(ms.contains(api[j]));
            let i = choose|i: int| 0 <= i < ms.len() && ms[i] == api[j];
            assert(api.contains(ms[i]));
        }
    }
}

/// Detects every conflict among `manifests`: first each dependency that
/// does not resolve (see `resolve_versions`), as missing or
/// incompatible; then each manifest whose Module API version is not
/// compatible with `required_api_version`.
pub fn detect_conflicts(
    manifests: &[&PackageManifest],
    index: &ModuleIndex,
    required_api_version: ApiVersion,
) -> (r: Vec<Conflict>)
    requires
        index.wf(),
    ensures
        conflicts_of(r@, manifests@, index@, required_api_version),
{
    let ghost unresolved = conflict_part(
        required_names(all_reqs(manifests@)),
        all_reqs(manifests@),
        index@,
    );
    let resolved = resolve_versions(manifests, index);
    let mut conflicts: Vec<Conflict> = Vec::new();
    let mut i: usize = 0;
    while i < resolved.conflicts.len()
        invariant
            index.wf(),
            resolved.conflicts_view() == unresolved,
            i <= resolved.conflicts.len(),
            conflicts@.len() == i,
            forall|k: int|
                0 <= k < i ==> reports_unresolved(
                    #[trigger] conflicts@[k],
                    unresolved[k].0,
                    unresolved[k].1,
                    group_of(index@, unresolved[k].0),
                ),
        decreases resolved.conflicts.len() - i,
    {
        let vc = &resolved.conflicts[i];
        let available = index.get(vc.name.as_str());
        proof {
            assert(unresolved[i as int] == (vc.name@, req_views(vc.requirements@)));
            assert(Seq::new(available@.len(), |j: int| available@[j]@).len() == available@.len());
        }
        if available.len() == 0 {
            let mut requirers: Vec<String> = Vec::new();
            let mut q: usize = 0;
            while q < vc.requirements.len()
                invariant
                    q <= vc.requirements.len(),
                    requirers@.len() == q,
                    forall|p: int| 0 <= p < q ==> (#[trigger] requirers@[p])@ == vc.requirements@[p].requirer@,
                decreases vc.requirements.len() - q,
            {
                requirers.push(vc.requirements[q].requirer.clone());
                q += 1;
            }
            proof {
                assert(string_views(requirers@) =~= Seq::new(
                    req_views(vc.requirements@).len(),
                    |p: int| req_views(vc.requirements@)[p].0,
                ));
            }
            conflicts.push(Conflict::MissingDependency { name: vc.name.clone(), requirers });
        } else {
            let mut requirements: Vec<Requirement> = Vec::new();
            let mut q: usize = 0;
            while q < vc.requirements.len()
                invariant
                    q <= vc.requirements.len(),
                    requirements@.len() == q,
                    forall|p: int| 0 <= p < q ==> (#[trigger] requirements@[p])@ == vc.requirements@[p]@,
                decreases vc.requirements.len() - q,
            {
                requirements.push(vc.requirements[q].clone());
                q += 1;
            }
            proof {
                assert(req_views(requirements@) =~= req_views(vc.requirements@));
            }
            conflicts.push(
                Conflict::IncompatibleVersions { name: vc.name.clone(), requirements },
            );
        }
        i += 1;
    }
    let ghost base = conflicts@.len();
    let ghost ms = manifests@;
    let mut m: usize = 0;
    assert(ms.take(0) =~= Seq::<&PackageManifest>::empty());
    while m < manifests.len()
        invariant
            ms == manifests@,
            base == unresolved.len(),
            m <= manifests.len(),
            conflicts@.len() == base + api_failures(ms.take(m as int), required_api_version).len(),
            forall|k: int|
                0 <= k < base ==> reports_unresolved(
                    #[trigger] conflicts@[k],
                    unresolved[k].0,
                    unresolved[k].1,
                    group_of(index@, unresolved[k].0),
                ),
            forall|j: int|
                0 <= j < api_failures(ms.take(m as int), required_api_version).len()
                    ==> reports_api(
                    #[trigger] conflicts@[base + j],
                    *api_failures(ms.take(m as int), required_api_version)[j],
                    required_api_version,
                ),
        decreases manifests.len() - m,
    {
        let manifest = manifests[m];
        proof {
            assert(ms.take(m + 1).drop_last() =~= ms.take(m as int));
            assert(ms.take(m + 1).last() == manifest);
        }
        if !is_compatible(required_api_version, manifest.package.api_version) {
            let ghost before = conflicts@;
            conflicts.push(
                Conflict::IncompatibleApiVersion {
                    module: manifest.package.name.clone(),
                    required: required_api_version,
                    declared: manifest.package.api_version,
                },
            );
            proof {
                let fails = api_failures(ms.take(m as int), required_api_version);
                assert forall|j: int| 0 <= j < fails.len() + 1 implies reports_api(
                    #[trigger] conflicts@[base + j],
                    *fails.push(manifest)[j],
                    required_api_version,
                ) by {
                    if j < fails.len() {
                        assert(conflicts@[base + j] == before[base + j]);
                    }
                }
                assert forall|k: int| 0 <= k < base implies reports_unresolved(
                    #[trigger] conflicts@[k],
                    unresolved[k].0,
                    unresolved[k].1,
                    group_of(index@, unresolved[k].0),
                ) by {
                    assert(conflicts@[k] == before[k]);
                }
            }
        }
        m += 1;
    }
    assert(ms.take(m as int) =~= ms);
    conflicts
}

} // verus!
