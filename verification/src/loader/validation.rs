//! The validation pipeline for a candidate package: signature, trust
//! level, dependency and API conflicts, and platform support.

use vstd::prelude::*;
use crate::loader::conflict::{conflicts_of, detect_conflicts, Conflict};
use crate::loader::ModuleIndex;
use crate::module_api::platform::Platform;
use crate::module_api::versioning::ApiVersion;
use crate::package::archive::{spec_signature_status, PackageReader, SignatureStatus};
use crate::package::manifest::PackageManifest;
use crate::package::trust::{classify, spec_classify, TrustLevel, TrustStore};

verus! {

/// The outcome of validating one candidate package.
#[derive(Debug)]
pub struct ValidationReport {
    /// Whether its embedded signature, if any, verifies.
    pub signature_status: SignatureStatus,
    /// The trust level its signature implies.
    pub trust_level: TrustLevel,
    /// Dependency and API conflicts across the candidate and every other
    /// manifest it was validated against.
    pub conflicts: Vec<Conflict>,
    /// Whether it supports the current platform (an empty list means
    /// every platform).
    pub platform_supported: bool,
}

impl ValidationReport {
    /// Whether the package passed every check: no conflicts and a
    /// supported platform. Trust is the caller's policy, not a check.
    pub fn is_valid(&self) -> (r: bool)
        ensures
            r == (self.conflicts@.len() == 0 && self.platform_supported),
    {
        self.conflicts.len() == 0 && self.platform_supported
    }
}

/// Whether a manifest supports `platform`: it lists it, or lists none.
pub open spec fn supports_platform(m: PackageManifest, platform: Platform) -> bool {
    m.platforms.supported@.len() == 0 || m.platforms.supported@.contains(platform)
}

/// Runs the validation pipeline on an opened package: its signature
/// status and trust level, the conflicts among `other_manifests` plus
/// its own manifest (last), and whether it supports `platform`.
pub fn validate_package(
    reader: &PackageReader,
    other_manifests: &[&PackageManifest],
    index: &ModuleIndex,
    trust_store: &TrustStore,
    required_api_version: ApiVersion,
    platform: Platform,
) -> (r: ValidationReport)
    requires
        index.wf(),
    ensures
        r.signature_status == spec_signature_status(reader.entries_view()),
        r.trust_level == spec_classify(reader.entries_view(), trust_store@),
        r.platform_supported == supports_platform(reader.manifest_view(), platform),
        conflicts_of(
            r.conflicts@,
            other_manifests@.push(&reader.manifest_view()),
            index@,
            required_api_version,
        ),
{
    let signature_status = match reader.signature_status() {
        Ok(s) => s,
        Err(_) => SignatureStatus::Invalid,
    };
    let trust_level = match classify(reader, trust_store) {
        Ok(level) => level,
        Err(_) => TrustLevel::Unknown,
    };
    let mut manifests: Vec<&PackageManifest> = Vec::new();
    let mut i: usize = 0;
    while i < other_manifests.len()
        invariant
            i <= other_manifests.len(),
            manifests@ == other_manifests@.take(i as int),
        decreases other_manifests.len() - i,
    {
        manifests.push(other_manifests[i]);
        i += 1;
        assert(manifests@ =~= other_manifests@.take(i as int));
    }
    assert(other_manifests@.take(i as int) =~= other_manifests@);
    manifests.push(reader.manifest());
    let conflicts = detect_conflicts(manifests.as_slice(), index, required_api_version);
    let supported = &reader.manifest().platforms.supported;
    let mut platform_supported = supported.len() == 0;
    let mut k: usize = 0;
    while k < supported.len() && !platform_supported
        invariant
            k <= supported.len(),
            platform_supported ==> supports_platform(reader.manifest_view(), platform),
            !platform_supported ==> supported@.len() > 0 && forall|j: int|
                0 <= j < k ==> supported@[j] != platform,
            supported@ == reader.manifest_view().platforms.supported@,
        decreases supported.len() - k,
    {
        if supported[k] == platform {
            platform_supported = true;
        }
        k += 1;
    }
    ValidationReport { signature_status, trust_level, conflicts, platform_supported }
}

} // verus!
