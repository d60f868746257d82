use nyarix::errors::{ModuleError, PackageError};
use nyarix::loader::instantiation::initialization_result;
use nyarix::loader::installer::{already_installed, finish_install, plan_install, InstallOutcome};
use nyarix::loader::validation::validate_package;
use nyarix::loader::{DiscoveredPackage, ModuleIndex, ScanReport};
use nyarix::module_api::metadata::ModuleType;
use nyarix::module_api::platform::Platform;
use nyarix::module_api::versioning::ApiVersion;
use nyarix::package::archive::{unpack, PackageBuilder, PackageReader, SignatureStatus, UnpackedPackage};
use nyarix::package::manifest::{PackageInfo, PackageManifest};
use nyarix::package::signing::generate_keypair;
use nyarix::package::trust::{TrustLevel, TrustStore};
use nyarix::packet::metadata::Metadata;
use nyarix::versions::Version;

fn manifest(name: &str, version: Version) -> PackageManifest {
    PackageManifest::new(
        PackageInfo {
            name: name.to_string(),
            version,
            module_type: ModuleType::Flow,
            api_version: ApiVersion::new(1, 0),
            author: "Nyarix".to_string(),
            description: "test".to_string(),
        },
        Vec::new(),
    )
}

fn reader(builder: PackageBuilder, m: PackageManifest) -> PackageReader {
    let data = builder.build().unwrap();
    PackageReader::from_parts(unpack(&data).unwrap(), m)
}

#[test]
fn different_versions_of_the_same_name_both_install() {
    let mut index = ModuleIndex::new();
    let v1 = reader(PackageBuilder::new().add_file("manifest.toml", b"[package]\n"), manifest("a", Version::new(0, 1, 0)));
    let v2 = reader(PackageBuilder::new().add_file("manifest.toml", b"[package]\n"), manifest("a", Version::new(0, 2, 0)));

    finish_install(&mut index, plan_install(&v1, "/packages"));
    let outcome = finish_install(&mut index, plan_install(&v2, "/packages"));

    assert!(matches!(outcome, InstallOutcome::Installed(_)));
    assert_eq!(index.get("a").len(), 2);
}

#[test]
fn indexes_multiple_versions_of_the_same_name_without_flagging_them_as_duplicates() {
    let mut report = ScanReport::new();
    for (file, version) in [("udp-1.nyp", Version::new(0, 1, 0)), ("udp-2.nyp", Version::new(0, 2, 0))] {
        let path = format!("/modules/{file}");
        let package = DiscoveredPackage { path: path.clone(), name: "nyarix-transport-udp".to_string(), version };
        report.record(path, Ok(package));
    }

    assert!(report.duplicates.is_empty());
    assert_eq!(report.index.get("nyarix-transport-udp").len(), 2);
}

#[test]
fn a_signed_package_from_a_trusted_key_gets_its_trust_level() {
    let key = generate_keypair();
    let signed = reader(
        PackageBuilder::new().add_file("manifest.toml", b"[package]\n").sign(&key),
        manifest("a", Version::new(0, 1, 0)),
    );

    let mut store = TrustStore::new();
    store.trust(key.verifying_key(), TrustLevel::Official);

    let report = validate_package(&signed, &[], &ModuleIndex::new(), &store, ApiVersion::new(1, 0), Platform::Linux);

    assert_eq!(report.signature_status, SignatureStatus::Verified);
    assert_eq!(report.trust_level, TrustLevel::Official);
    assert!(report.is_valid());
}

#[test]
fn open_failure_is_a_real_error_not_a_report() {
    let err = unpack(b"not a real archive").unwrap_err();
    assert!(matches!(err, PackageError::Io { .. }));
}

#[test]
fn rejects_an_empty_name() {
    let err = manifest("", Version::new(0, 1, 0)).validate().unwrap_err();
    assert!(matches!(err, PackageError::InvalidManifest { reason } if reason.contains("name")));
}

#[test]
fn a_name_of_unicode_whitespace_counts_as_empty() {
    for blank in [" \t\n", "\u{3000}", "\u{2028}\u{00a0}", "\u{0085}\u{202f}"] {
        assert!(manifest(blank, Version::new(0, 1, 0)).validate().is_err(), "{blank:?}");
    }
    for named in ["a", " a ", "\u{200b}", "\u{180e}"] {
        assert!(manifest(named, Version::new(0, 1, 0)).validate().is_ok(), "{named:?}");
    }
}

fn now_millis() -> u64 {
    std::time::SystemTime::now().duration_since(std::time::UNIX_EPOCH).unwrap().as_millis() as u64
}

#[test]
fn created_at_is_set_at_packet_creation() {
    let before = now_millis();
    let meta = Metadata::new();
    let after = now_millis();
    assert!(meta.created_at_ms >= before);
    assert!(meta.created_at_ms <= after);
}

#[test]
fn a_failed_initialization_is_reported_under_the_module_name() {
    assert!(initialization_result("dns-resolver", Ok(())).is_ok());
    let failure = ModuleError::InitFailed { name: "dns-resolver".to_string(), reason: "no upstream".to_string() };
    let err = initialization_result("dns-resolver", Err(failure.clone())).unwrap_err();
    assert_eq!(err.name, "dns-resolver");
    assert_eq!(err.source, failure);
}

#[test]
fn a_rooted_payload_entry_is_refused_before_anything_outside_is_planned() {
    let unpacked = UnpackedPackage {
        entries: vec![
            ("manifest.toml".to_string(), b"[package]\n".to_vec()),
            ("payload/ok.bin".to_string(), b"ok".to_vec()),
            ("payload//etc/passwd".to_string(), b"evil".to_vec()),
            ("payload/later.bin".to_string(), b"later".to_vec()),
        ],
        manifest_text: "[package]\n".to_string(),
    };
    let reader = PackageReader::from_parts(unpacked, manifest("a", Version::new(0, 1, 0)));
    let plan = plan_install(&reader, "/packages");
    let files: Vec<&str> = plan.files.iter().map(|(p, _)| p.as_str()).collect();
    assert_eq!(files, vec!["/packages/a/0.1.0/payload/ok.bin"]);
    assert!(matches!(plan.refused, Some(PackageError::Io { path, .. }) if path == "/etc/passwd"));
}

#[test]
fn an_installed_version_is_found_before_anything_is_written() {
    let mut index = ModuleIndex::new();
    let v1 = reader(PackageBuilder::new().add_file("manifest.toml", b"[package]\n"), manifest("a", Version::new(0, 1, 0)));
    let plan = plan_install(&v1, "/packages");
    assert!(already_installed(&index, &plan).is_none());
    finish_install(&mut index, plan);
    let again = plan_install(&v1, "/packages");
    let duplicate = already_installed(&index, &again).unwrap();
    assert_eq!(duplicate.name, "a");
    assert_eq!(duplicate.kept_path, "/packages/a/0.1.0/package.nyp");
    assert_eq!(index.len(), 1);
}
