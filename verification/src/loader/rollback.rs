//! Package rollback: a log of which version of each package is active,
//! and returning a package to the version active before the current one.

use vstd::prelude::*;
use crate::errors::PackageError;
use crate::loader::conflict::Conflict;
use crate::loader::validation::ValidationReport;
use crate::loader::{path_join, spec_path_join};
use crate::text::str_eq;
use crate::versions::{Version, VersionView};

verus! {

/// Whether a history entry recorded an install or a rollback.
#[derive(Debug, Clone, Copy, PartialEq, Eq, Structural)]
pub enum HistoryKind {
    /// A version was installed (first time or an update).
    Installed,
    /// The package was rolled back to this version.
    RolledBack,
}

/// One entry of the install and rollback history.
#[derive(Debug)]
pub struct HistoryEntry {
    /// The package's name.
    pub name: String,
    /// The version that became active.
    pub version: Version,
    /// Whether this was an install or a rollback.
    pub kind: HistoryKind,
    /// When it was recorded, in milliseconds since the Unix epoch (UTC).
    pub at: i64,
}

impl View for HistoryEntry {
    type V = (Seq<char>, VersionView, HistoryKind, i64);

    open spec fn view(&self) -> (Seq<char>, VersionView, HistoryKind, i64) {
        (self.name@, self.version@, self.kind, self.at)
    }
}

impl Clone for HistoryEntry {
    fn clone(&self) -> (e: Self)
        ensures
            e@ == self@,
    {
        HistoryEntry {
            name: self.name.clone(),
            version: self.version.clone(),
            kind: self.kind,
            at: self.at,
        }
    }
}

/// A rollback, or an access to its history, failed.
#[derive(Debug)]
pub enum RollbackError {
    /// Reading or writing a file failed; `source` is the I/O error's text.
    Io { path: String, source: String },
    /// The history file is not valid JSON for history entries.
    InvalidHistory { path: String, source: String },
    /// No install was ever recorded for this package.
    NoActiveVersion(String),
    /// Only one version was ever recorded for this package.
    NoPreviousVersion(String),
    /// The previous version's archive is no longer on disk.
    MissingArchive { name: String, version: Version, path: String },
    /// The previous version's archive could not be read as a package.
    Package(PackageError),
    /// The previous version fails validation against the current
    /// environment.
    Incompatible { name: String, version: Version, conflicts: Vec<Conflict> },
}

/// The current time in milliseconds since the Unix epoch, from
/// `chrono::Utc::now`. Nothing is promised of it.
#[verifier::external_body]
fn utc_now_millis() -> i64 {
    chrono::Utc::now().timestamp_millis()
}

/// The versions recorded for `name`, oldest first.
pub open spec fn versions_for(
    es: Seq<(Seq<char>, VersionView, HistoryKind, i64)>,
    name: Seq<char>,
) -> Seq<VersionView>
    decreases es.len(),
{
    if es.len() == 0 {
        Seq::empty()
    } else if es.last().0 == name {
        versions_for(es.drop_last(), name).push(es.last().1)
    } else {
        versions_for(es.drop_last(), name)
    }
}

/// The version active for `name`: that of its latest entry.
pub open spec fn spec_active(es: Seq<(Seq<char>, VersionView, HistoryKind, i64)>, name: Seq<char>) -> Option<
    VersionView,
> {
    let vs = versions_for(es, name);
    if vs.len() >= 1 {
        Some(vs[vs.len() - 1])
    } else {
        None
    }
}

/// The version active for `name` before the current one.
pub open spec fn spec_previous(
    es: Seq<(Seq<char>, VersionView, HistoryKind, i64)>,
    name: Seq<char>,
) -> Option<VersionView> {
    let vs = versions_for(es, name);
    if vs.len() >= 2 {
        Some(vs[vs.len() - 2])
    } else {
        None
    }
}

/// An append-only log of every install and rollback, and the file it is
/// kept in.
#[derive(Debug)]
pub struct RollbackHistory {
    path: String,
    entries: Vec<HistoryEntry>,
}

impl View for RollbackHistory {
    type V = Seq<(Seq<char>, VersionView, HistoryKind, i64)>;

    closed spec fn view(&self) -> Seq<(Seq<char>, VersionView, HistoryKind, i64)> {
        Seq::new(self.entries@.len(), |i: int| self.entries@[i]@)
    }
}

/// Where rollback would look for the archive of `version` of `name`.
pub open spec fn archive_path_for(root: Seq<char>, name: Seq<char>, version: Version) -> Seq<char> {
    spec_path_join(
        spec_path_join(spec_path_join(root, name), version.spec_text()),
        "package.nyp"@,
    )
}

/// What a rollback will switch to, and where its archive should be.
#[derive(Debug)]
pub struct RollbackPlan {
    /// The package.
    pub name: String,
    /// The version to return to.
    pub previous: Version,
    /// Where that version's archive should be.
    pub archive_path: String,
}

impl RollbackHistory {
    /// The history file within `root`.
    pub fn file_path(root: &str) -> (p: String)
        ensures
            p@ == spec_path_join(root@, "history.json"@),
    {
        path_join(root, "history.json")
    }

    /// A history kept at `path` with the given entries.
    pub fn from_entries(path: String, entries: Vec<HistoryEntry>) -> (h: RollbackHistory)
        ensures
            h@ == Seq::new(entries@.len(), |i: int| entries@[i]@),
            h.path_view() == path@,
    {
        RollbackHistory { path, entries }
    }

    /// The path of the history file.
    pub closed spec fn path_view(&self) -> Seq<char> {
        self.path@
    }

    /// The path of the history file.
    pub fn path(&self) -> (p: &str)
        ensures
            p@ == self.path_view(),
    {
        self.path.as_str()
    }

    /// Every entry, oldest first.
    pub fn entries(&self) -> (r: &[HistoryEntry])
        ensures
            Seq::new(r@.len(), |i: int| r@[i]@) == self@,
    {
        let r = self.entries.as_slice();
        assert(Seq::new(r@.len(), |i: int| r@[i]@) =~= self@);
        r
    }

    fn record(&mut self, name: &str, version: Version, kind: HistoryKind)
        ensures
            final(self).path_view() == old(self).path_view(),
            final(self)@.len() == old(self)@.len() + 1,
            final(self)@.drop_last() == old(self)@,
            final(self)@.last().0 == name@,
            final(self)@.last().1 == version@,
            final(self)@.last().2 == kind,
    {
        let ghost before = self@;
        let ghost vv = version@;
        let at = utc_now_millis();
        self.entries.push(HistoryEntry { name: name.to_owned(), version, kind, at });
        assert(self@.drop_last() =~= before);
    }

    /// Records that `version` of `name` was installed and is now active.
    pub fn record_install(&mut self, name: &str, version: Version)
        ensures
            final(self).path_view() == old(self).path_view(),
            final(self)@.len() == old(self)@.len() + 1,
            final(self)@.drop_last() == old(self)@,
            final(self)@.last().0 == name@,
            final(self)@.last().1 == version@,
            final(self)@.last().2 == HistoryKind::Installed,
    {
        self.record(name, version, HistoryKind::Installed)
    }

    /// The version currently active for `name`: that of its latest
    /// entry.
    pub fn active_version(&self, name: &str) -> (r: Option<&Version>)
        ensures
            match r {
                Some(v) => spec_active(self@, name@) == Some(v@),
                None => spec_active(self@, name@) is None,
            },
    {
        self.nth_latest(name, 0)
    }

    /// The version active for `name` before the current one.
    pub fn previous_version(&self, name: &str) -> (r: Option<&Version>)
        ensures
            match r {
                Some(v) => spec_previous(self@, name@) == Some(v@),
                None => spec_previous(self@, name@) is None,
            },
    {
        self.nth_latest(name, 1)
    }

    fn nth_latest(&self, name: &str, n: usize) -> (r: Option<&Version>)
        requires
            n <= 1,
        ensures
            ({
                let vs = versions_for(self@, name@);
                match r {
                    Some(v) => vs.len() > n && v@ == vs[vs.len() - 1 - n],
                    None => vs.len() <= n,
                }
            }),
    {
        let ghost all = versions_for(self@, name@);
        let mut seen: usize = 0;
        let mut i: usize = self.entries.len();
        assert(self@.take(i as int) =~= self@);
        while i > 0
            invariant
                n <= 1,
                i <= self.entries.len(),
                self@.len() == self.entries.len(),
                all == versions_for(self@, name@),
                seen <= n,
                versions_for(self@.take(i as int), name@).len() + seen == all.len(),
                forall|j: int|
                    0 <= j < versions_for(self@.take(i as int), name@).len() ==> #[trigger] all[j]
                        == versions_for(self@.take(i as int), name@)[j],
            decreases i,
        {
            let ghost pre = self@.take(i as int);
            proof {
                assert(pre.drop_last() =~= self@.take(i - 1));
                assert(pre.last() == self@[i - 1]);
            }
            if str_eq(self.entries[i - 1].name.as_str(), name) {
                if seen == n {
                    return Some(&self.entries[i - 1].version);
                }
                seen += 1;
            }
            i -= 1;
        }
        None
    }

    /// Plans a rollback of `name` to its previously active version, with
    /// that version's archive under `install_root`
    /// (`<root>/<name>/<version>/package.nyp`). Fails with
    /// `NoActiveVersion` where nothing was recorded for `name`, and with
    /// `NoPreviousVersion` where only one version was.
    pub fn prepare_rollback(&self, name: &str, install_root: &str) -> (r: Result<
        RollbackPlan,
        RollbackError,
    >)
        ensures
            spec_active(self@, name@) is None ==> r is Err && (r->Err_0 matches RollbackError::NoActiveVersion(
                n,
            ) && n@ == name@),
            spec_active(self@, name@) is Some && spec_previous(self@, name@) is None ==> r is Err
                && (r->Err_0 matches RollbackError::NoPreviousVersion(n) && n@ == name@),
            spec_previous(self@, name@) is Some ==> r is Ok && r->Ok_0.name@ == name@ && Some(
                r->Ok_0.previous@,
            ) == spec_previous(self@, name@) && r->Ok_0.archive_path@ == archive_path_for(
                install_root@,
                name@,
                r->Ok_0.previous,
            ),
    {
        if self.active_version(name).is_none() {
            return Err(RollbackError::NoActiveVersion(name.to_owned()));
        }
        let previous = match self.previous_version(name) {
            Some(v) => v.clone(),
            None => {
                return Err(RollbackError::NoPreviousVersion(name.to_owned()));
            },
        };
        let dir = path_join(install_root, name);
        let version_text = previous.to_string();
        let dir = path_join(dir.as_str(), version_text.as_str());
        let archive_path = path_join(dir.as_str(), "package.nyp");
        Ok(RollbackPlan { name: name.to_owned(), previous, archive_path })
    }

    /// Finishes a planned rollback once the previous version's archive
    /// was read and validated: fails with `Incompatible` (carrying the
    /// report's conflicts) where the report is not valid; otherwise
    /// records the rollback and returns the version now active.
    pub fn complete_rollback(&mut self, plan: RollbackPlan, report: ValidationReport) -> (r: Result<
        Version,
        RollbackError,
    >)
        ensures
            final(self).path_view() == old(self).path_view(),
            !(report.conflicts@.len() == 0 && report.platform_supported) ==> r is Err
                && final(self)@ == old(self)@ && (r->Err_0 matches RollbackError::Incompatible {
                name,
                version,
                conflicts,
            } && name@ == plan.name@ && version@ == plan.previous@ && conflicts@
                == report.conflicts@),
            report.conflicts@.len() == 0 && report.platform_supported ==> r is Ok && r->Ok_0@
                == plan.previous@ && final(self)@.drop_last() == old(self)@ && final(self)@.last()
                == (plan.name@, plan.previous@, HistoryKind::RolledBack, final(self)@.last().3),
    {
        if !report.is_valid() {
            return Err(
                RollbackError::Incompatible {
                    name: plan.name,
                    version: plan.previous,
                    conflicts: report.conflicts,
                },
            );
        }
        let result = plan.previous.clone();
        self.record(plan.name.as_str(), plan.previous, HistoryKind::RolledBack);
        Ok(result)
    }
}

/// The error for a previous version's archive that could not be read:
/// `MissingArchive` where it is not there, an I/O error otherwise.
pub fn archive_read_error(plan: RollbackPlan, not_found: bool, source: String) -> (e: RollbackError)
    ensures
        not_found ==> (e matches RollbackError::MissingArchive { name, version, path } && name@
            == plan.name@ && version@ == plan.previous@ && path@ == plan.archive_path@),
        !not_found ==> (e matches RollbackError::Io { path, source: s } && path@
            == plan.archive_path@ && s@ == source@),
{
    if not_found {
        RollbackError::MissingArchive {
            name: plan.name,
            version: plan.previous,
            path: plan.archive_path,
        }
    } else {
        RollbackError::Io { path: plan.archive_path, source }
    }
}

/// Recording a version makes it the active one, and the one active
/// before it the previous one.
pub proof fn lemma_record_makes_active(
    es: Seq<(Seq<char>, VersionView, HistoryKind, i64)>,
    e: (Seq<char>, VersionView, HistoryKind, i64),
)
    ensures
        spec_active(es.push(e), e.0) == Some(e.1),
        spec_previous(es.push(e), e.0) == spec_active(es, e.0),
        forall|n: Seq<char>|
            n != e.0 ==> #[trigger] spec_active(es.push(e), n) == spec_active(es, n)
                && spec_previous(es.push(e), n) == spec_previous(es, n),
{
    assert(es.push(e).drop_last() =~= es);
    assert forall|n: Seq<char>| n != e.0 implies #[trigger] spec_active(es.push(e), n)
        == spec_active(es, n) && spec_previous(es.push(e), n) == spec_previous(es, n) by {
        assert(versions_for(es.push(e), n) == versions_for(es, n));
    }
}

/// Rolling back twice in a row alternates between the two most recent
/// versions: after returning to the previous version, the version it
/// replaced becomes the previous one.
pub proof fn lemma_rollback_alternates(
    es: Seq<(Seq<char>, VersionView, HistoryKind, i64)>,
    name: Seq<char>,
    at: i64,
)
    requires
        spec_previous(es, name) is Some,
    ensures
        ({
            let back = es.push((name, spec_previous(es, name)->0, HistoryKind::RolledBack, at));
            &&& spec_active(back, name) == spec_previous(es, name)
            &&& spec_previous(back, name) == spec_active(es, name)
        }),
{
    lemma_record_makes_active(es, (name, spec_previous(es, name)->0, HistoryKind::RolledBack, at));
}

} // verus!
