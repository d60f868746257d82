//! Installing a `.nyp` package onto disk: where its files go, which
//! payload entries are refused, and registering it in the index.

use vstd::prelude::*;
use crate::errors::PackageError;
use crate::loader::{
    first_with_version, group_of, path_join, spec_path_join, total_packages, DiscoveredPackage,
    DuplicateModule, ModuleIndex,
};
use crate::package::archive::PackageReader;
use crate::package::signing::entry_views;
use crate::text::{chars_of, has_prefix, push_str, string_of};
use crate::versions::Version;

verus! {

/// The outcome of installing a package.
#[derive(Debug)]
pub enum InstallOutcome {
    /// Installed for the first time.
    Installed(DiscoveredPackage),
    /// This name and version was already installed; the index is
    /// unchanged.
    AlreadyInstalled(DuplicateModule),
}

/// Where the payload lives inside an archive.
pub open spec fn payload_prefix() -> Seq<char> {
    "payload/"@
}

/// Whether a relative path has a `..` component (`/`-separated).
pub open spec fn has_parent_component(s: Seq<char>) -> bool {
    exists|i: int|
        0 <= i && i + 2 <= s.len() && #[trigger] s[i] == '.' && s[i + 1] == '.' && (i == 0 || s[i
            - 1] == '/') && (i + 2 == s.len() || s[i + 2] == '/')
}

/// Whether a path below `payload/` would leave it: it is rooted (starts
/// with `/`), or has a `..` component.
pub open spec fn escapes_payload(rel: Seq<char>) -> bool {
    (rel.len() > 0 && rel[0] == '/') || has_parent_component(rel)
}

/// Whether `path` is `dir` joined with a non-empty relative path that is
/// not rooted and has no `..` component.
pub open spec fn lies_below(path: Seq<char>, dir: Seq<char>) -> bool {
    exists|rel: Seq<char>| rel.len() > 0 && !escapes_payload(rel) && path == #[trigger] spec_path_join(dir, rel)
}

/// The path of a payload entry below `payload/`, if it has a non-empty
/// one.
pub open spec fn payload_relative(path: Seq<char>) -> Option<Seq<char>> {
    if payload_prefix().len() <= path.len() && path.take(payload_prefix().len() as int)
        == payload_prefix() && path.len() > payload_prefix().len() {
        Some(path.skip(payload_prefix().len() as int))
    } else {
        None
    }
}

/// Where a package's files go: `<root>/<name>/<version>`.
pub open spec fn package_dir_for(root: Seq<char>, name: Seq<char>, version: Version) -> Seq<char> {
    spec_path_join(spec_path_join(root, name), version.spec_text())
}

/// The files to write for the payload entries of `es`, up to the first
/// entry that escapes `payload/`; and the path of that entry, if any.
pub open spec fn payload_files(es: Seq<(Seq<char>, Seq<u8>)>, payload_dir: Seq<char>) -> (Seq<
    (Seq<char>, Seq<u8>),
>, Option<(Seq<char>, Seq<char>)>)
    decreases es.len(),
{
    if es.len() == 0 {
        (Seq::empty(), None)
    } else {
        let (files, stop) = payload_files(es.drop_last(), payload_dir);
        if stop is Some {
            (files, stop)
        } else {
            match payload_relative(es.last().0) {
                None => (files, None),
                Some(rel) => if escapes_payload(rel) {
                    (files, Some((rel, es.last().0)))
                } else {
                    (files.push((spec_path_join(payload_dir, rel), es.last().1)), None)
                },
            }
        }
    }
}

/// Every file planned for the payload lies below `payload_dir` under a
/// non-empty relative path that neither is rooted nor climbs out.
proof fn lemma_payload_files_stay_inside(es: Seq<(Seq<char>, Seq<u8>)>, payload_dir: Seq<char>)
    ensures
        forall|k: int| 0 <= k < payload_files(es, payload_dir).0.len() ==> lies_below(
            #[trigger] payload_files(es, payload_dir).0[k].0,
            payload_dir,
        ),
    decreases es.len(),
{
    if es.len() == 0 {
        assert(payload_files(es, payload_dir).0.len() == 0);
    } else {
        lemma_payload_files_stay_inside(es.drop_last(), payload_dir);
        let files = payload_files(es.drop_last(), payload_dir).0;
        let res = payload_files(es, payload_dir).0;
        assert forall|k: int| 0 <= k < payload_files(es, payload_dir).0.len() implies lies_below(
            #[trigger] payload_files(es, payload_dir).0[k].0,
            payload_dir,
        ) by {
            if k < files.len() {
                assert(res[k] == files[k]);
                assert(files[k].0 == payload_files(es.drop_last(), payload_dir).0[k].0);
            } else {
                let rel = payload_relative(es.last().0)->0;
                assert(rel.len() > 0);
                assert(res[k].0 == spec_path_join(payload_dir, rel));
            }
        }
    }
}

/// What installing a package writes, in order: the directory, the
/// archive, then each payload file; then either registers the package or
/// fails on a payload entry that escapes `payload/`.
#[derive(Debug)]
pub struct InstallPlan {
    /// `<root>/<name>/<version>`.
    pub package_dir: String,
    /// `<package_dir>/package.nyp`.
    pub archive_path: String,
    /// Payload files: where each goes, and its contents.
    pub files: Vec<(String, Vec<u8>)>,
    /// The error for the first payload entry that escapes `payload/`.
    pub refused: Option<PackageError>,
    /// The package's name.
    pub name: String,
    /// The package's version.
    pub version: Version,
}

fn suffix_from(s: &str, n: usize) -> (r: String)
    requires
        n <= s@.len(),
    ensures
        r@ == s@.skip(n as int),
{
    let chars = chars_of(s);
    let mut tail: Vec<char> = Vec::new();
    let mut i: usize = n;
    while i < chars.len()
        invariant
            chars@ == s@,
            n <= i <= chars.len(),
            tail@ == s@.subrange(n as int, i as int),
        decreases chars.len() - i,
    {
        tail.push(chars[i]);
        i += 1;
        assert(tail@ =~= s@.subrange(n as int, i as int));
    }
    assert(s@.subrange(n as int, i as int) =~= s@.skip(n as int));
    string_of(&tail)
}

fn parent_component(s: &str) -> (r: bool)
    ensures
        r == has_parent_component(s@),
{
    let chars = chars_of(s);
    let n = chars.len();
    let mut i: usize = 0;
    while n >= 2 && i <= n - 2
        invariant
            chars@ == s@,
            i <= n,
            n == chars@.len(),
            forall|j: int|
                0 <= j < i && j + 2 <= n ==> !(#[trigger] s@[j] == '.' && s@[j + 1] == '.' && (j == 0
                    || s@[j - 1] == '/') && (j + 2 == n || s@[j + 2] == '/')),
        decreases n - i,
    {
        if chars[i] == '.' && chars[i + 1] == '.' && (i == 0 || chars[i - 1] == '/') && (i + 2 == n
            || chars[i + 2] == '/') {
            assert(s@[i as int] == '.');
            return true;
        }
        i += 1;
    }
    false
}

/// Plans the installation of an opened package under `install_root`:
/// `<root>/<name>/<version>/package.nyp` for the archive, and each
/// `payload/` entry unpacked below `<root>/<name>/<version>/payload/`.
/// A payload entry whose path below `payload/` is rooted or has a `..`
/// component is refused, with an I/O error naming its relative path;
/// entries after it are not planned. So every planned file lies below
/// `payload/` under a relative path that climbs out nowhere.
pub fn plan_install(reader: &PackageReader, install_root: &str) -> (p: InstallPlan)
    ensures
        ({
            let m = reader.manifest_view();
            let dir = package_dir_for(install_root@, m.package.name@, m.package.version);
            let (files, stop) = payload_files(reader.entries_view(), spec_path_join(dir, "payload"@));
            &&& p.package_dir@ == dir
            &&& p.archive_path@ == spec_path_join(dir, "package.nyp"@)
            &&& p.name@ == m.package.name@
            &&& p.version@ == m.package.version@
            &&& entry_views(p.files@) == files
            &&& (stop is None <==> p.refused is None)
            &&& stop matches Some((rel, full)) ==> (p.refused matches Some(PackageError::Io { path, source })
                && path@ == rel && source@ == "payload entry escapes payload/: "@ + full)
            &&& forall|k: int| 0 <= k < p.files@.len() ==> lies_below(
                #[trigger] p.files@[k].0@,
                spec_path_join(dir, "payload"@),
            )
        }),
{
    let manifest = reader.manifest();
    let name = manifest.package.name.clone();
    let version = manifest.package.version.clone();
    let named = path_join(install_root, name.as_str());
    let version_text = version.to_string();
    let package_dir = path_join(named.as_str(), version_text.as_str());
    let archive_path = path_join(package_dir.as_str(), "package.nyp");
    let payload_dir = path_join(package_dir.as_str(), "payload");
    let entries = match reader.entries() {
        Ok(es) => es,
        Err(_) => Vec::new(),
    };
    let ghost es = entry_views(entries@);
    let mut files: Vec<(String, Vec<u8>)> = Vec::new();
    let mut refused: Option<PackageError> = None;
    let mut i: usize = 0;
    assert(es.take(0) =~= Seq::<(Seq<char>, Seq<u8>)>::empty());
    while i < entries.len()
        invariant
            es == entry_views(entries@),
            es == reader.entries_view(),
            i <= entries.len(),
            entry_views(files@) == payload_files(es.take(i as int), payload_dir@).0,
            refused is None <==> payload_files(es.take(i as int), payload_dir@).1 is None,
            payload_files(es.take(i as int), payload_dir@).1 matches Some((rel, full)) ==> (
            refused matches Some(PackageError::Io { path, source }) && path@ == rel && source@
                == "payload entry escapes payload/: "@ + full),
        decreases entries.len() - i,
    {
        proof {
            assert(es.take(i + 1).drop_last() =~= es.take(i as int));
            assert(es.take(i + 1).last() == es[i as int]);
        }
        if refused.is_none() {
            let path = entries[i].0.as_str();
            if has_prefix(path, "payload/") && path.unicode_len() > 8 {
                proof {
                    reveal_strlit("payload/");
                }
                let relative = suffix_from(path, 8);
                let rooted = relative.as_str().get_char(0) == '/';
                if rooted || parent_component(relative.as_str()) {
                    let mut message = String::new();
                    push_str(&mut message, "payload entry escapes payload/: ");
                    push_str(&mut message, path);
                    refused = Some(PackageError::Io { path: relative, source: message });
                } else {
                    let destination = path_join(payload_dir.as_str(), relative.as_str());
                    let contents = crate::package::archive::copy_bytes(entries[i].1.as_slice());
                    let ghost before = files@;
                    files.push((destination, contents));
                    assert(entry_views(files@) =~= entry_views(before).push(
                        (spec_path_join(payload_dir@, relative@), es[i as int].1),
                    ));
                }
            } else {
                proof {
                    reveal_strlit("payload/");
                }
            }
        }
        i += 1;
    }
    assert(es.take(i as int) =~= es);
    proof {
        lemma_payload_files_stay_inside(es, payload_dir@);
        assert forall|k: int| 0 <= k < files@.len() implies lies_below(
            #[trigger] files@[k].0@,
            spec_path_join(package_dir@, "payload"@),
        ) by {
            assert(entry_views(files@)[k].0 == files@[k].0@);
            assert(payload_files(es, payload_dir@).0[k].0 == files@[k].0@);
        }
    }
    InstallPlan { package_dir, archive_path, files, refused, name, version }
}

/// Whether the planned package is installed already: the duplicate to
/// report, naming the path of the one installed, where `index` holds
/// that name and version. Nothing need then be written.
pub fn already_installed(index: &ModuleIndex, plan: &InstallPlan) -> (r: Option<DuplicateModule>)
    requires
        index.wf(),
    ensures
        match first_with_version(group_of(index@, plan.name@), plan.version@) {
            Some(kept) => r matches Some(d) && d.name@ == plan.name@ && d.version@ == plan.version@
                && d.kept_path@ == kept.0 && d.duplicate_path@ == plan.archive_path@,
            None => r is None,
        },
{
    let group = index.get(plan.name.as_str());
    let ghost g = Seq::new(group@.len(), |j: int| group@[j]@);
    let mut k: usize = 0;
    assert(g.skip(0) =~= g);
    while k < group.len()
        invariant
            g == Seq::new(group@.len(), |j: int| group@[j]@),
            g == group_of(index@, plan.name@),
            k <= group@.len(),
            first_with_version(g, plan.version@) == first_with_version(g.skip(k as int), plan.version@),
        decreases group@.len() - k,
    {
        proof {
            assert(g.skip(k as int)[0] == g[k as int]);
            assert(g.skip(k as int).drop_first() =~= g.skip(k + 1));
        }
        if group[k].version.same_as(&plan.version) {
            return Some(
                DuplicateModule {
                    name: plan.name.clone(),
                    version: plan.version.clone(),
                    kept_path: group[k].path.clone(),
                    duplicate_path: plan.archive_path.clone(),
                },
            );
        }
        k += 1;
    }
    assert(g.skip(k as int).len() == 0);
    None
}

/// Registers a planned, written package in `index`: `Installed` the
/// first time, `AlreadyInstalled` (index unchanged) where that name and
/// version is already indexed.
pub fn finish_install(index: &mut ModuleIndex, plan: InstallPlan) -> (r: InstallOutcome)
    requires
        old(index).wf(),
    ensures
        final(index).wf(),
        match first_with_version(group_of(old(index)@, plan.name@), plan.version@) {
            Some(kept) => final(index)@ == old(index)@ && (r matches InstallOutcome::AlreadyInstalled(
                d,
            ) && d.kept_path@ == kept.0 && d.duplicate_path@ == plan.archive_path@),
            None => (r matches InstallOutcome::Installed(p) && p@ == (
                plan.archive_path@,
                plan.name@,
                plan.version@,
            )) && forall|n: Seq<char>|
                #[trigger] group_of(final(index)@, n) == if n == plan.name@ {
                    group_of(old(index)@, n).push((plan.archive_path@, plan.name@, plan.version@))
                } else {
                    group_of(old(index)@, n)
                },
        },
        total_packages(final(index)@) == total_packages(old(index)@) + if r is Installed { 1nat } else { 0nat },
{
    let discovered = DiscoveredPackage {
        path: plan.archive_path,
        name: plan.name,
        version: plan.version,
    };
    let copy = discovered.clone();
    match index.insert(copy) {
        Some(duplicate) => InstallOutcome::AlreadyInstalled(duplicate),
        None => InstallOutcome::Installed(discovered),
    }
}

} // verus!
