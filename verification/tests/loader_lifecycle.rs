use nyarix::config::{
    default_cpu_threads, default_io_threads, default_max_background, default_max_flows, default_mtu,
    default_pool_size, default_queue_depth, DeviceConfig, GlobalDefaults, LogLevel, ProfileConfig, RuntimeConfig,
    RuntimeMode, SchedulerConfig,
};
use nyarix::loader::rollback::{HistoryKind, RollbackError, RollbackHistory};
use nyarix::loader::validation::validate_package;
use nyarix::loader::ModuleIndex;
use nyarix::module_api::metadata::ModuleType;
use nyarix::module_api::platform::Platform;
use nyarix::module_api::versioning::ApiVersion;
use nyarix::package::archive::{unpack, PackageBuilder, PackageReader};
use nyarix::package::manifest::{DependencySpec, PackageInfo, PackageManifest};
use nyarix::package::trust::{TrustLevel, TrustStore};
use nyarix::package::signing::generate_keypair;
use nyarix::versions::{Version, VersionReq};
use std::collections::HashMap;

fn manifest(name: &str, platforms: Vec<Platform>, deps: &[(&str, &str)]) -> PackageManifest {
    let dependencies = deps
        .iter()
        .map(|(dep, req)| (dep.to_string(), DependencySpec { version_req: VersionReq::parse(req).unwrap(), optional: false }))
        .collect();
    let mut m = PackageManifest::new(
        PackageInfo {
            name: name.to_string(),
            version: Version::new(0, 1, 0),
            module_type: ModuleType::Flow,
            api_version: ApiVersion::new(1, 0),
            author: "Nyarix".to_string(),
            description: "test".to_string(),
        },
        dependencies,
    );
    m.platforms.supported = platforms;
    m
}

fn reader_for(m: PackageManifest, signed: bool) -> PackageReader {
    let mut builder = PackageBuilder::new().add_file("manifest.toml", b"[package]\n");
    if signed {
        builder = builder.sign(&generate_keypair());
    }
    let data = builder.build().unwrap();
    PackageReader::from_parts(unpack(&data).unwrap(), m)
}

#[test]
fn active_version_is_the_most_recently_recorded_one() {
    let mut history = RollbackHistory::from_entries("/tmp/history.json".to_string(), Vec::new());
    history.record_install("a", Version::new(0, 1, 0));
    history.record_install("a", Version::new(0, 2, 0));
    assert_eq!(history.active_version("a"), Some(&Version::new(0, 2, 0)));
    assert_eq!(history.previous_version("a"), Some(&Version::new(0, 1, 0)));
}

#[test]
fn a_package_with_only_one_install_has_no_previous_version() {
    let mut history = RollbackHistory::from_entries("/tmp/history.json".to_string(), Vec::new());
    history.record_install("a", Version::new(0, 1, 0));
    assert_eq!(history.previous_version("a"), None);
}

#[test]
fn an_unknown_package_has_no_active_version() {
    let history = RollbackHistory::from_entries("/tmp/history.json".to_string(), Vec::new());
    assert_eq!(history.active_version("missing"), None);
}

#[test]
fn rolling_back_a_never_installed_package_is_a_clear_error() {
    let history = RollbackHistory::from_entries("/root/history.json".to_string(), Vec::new());
    let err = history.prepare_rollback("missing", "/root").unwrap_err();
    assert!(matches!(err, RollbackError::NoActiveVersion(name) if name == "missing"));
}

#[test]
fn rolling_back_with_only_one_version_ever_installed_is_a_clear_error() {
    let mut history = RollbackHistory::from_entries("/root/history.json".to_string(), Vec::new());
    history.record_install("a", Version::new(0, 1, 0));
    let err = history.prepare_rollback("a", "/root").unwrap_err();
    assert!(matches!(err, RollbackError::NoPreviousVersion(name) if name == "a"));
}

#[test]
fn rolling_back_returns_to_the_previous_version_and_records_it() {
    let mut history = RollbackHistory::from_entries("/root/history.json".to_string(), Vec::new());
    history.record_install("a", Version::new(0, 1, 0));
    history.record_install("a", Version::new(0, 2, 0));
    let plan = history.prepare_rollback("a", "/root").unwrap();
    assert_eq!(plan.previous, Version::new(0, 1, 0));
    assert_eq!(plan.archive_path, "/root/a/0.1.0/package.nyp");

    let reader = reader_for(manifest("a", Vec::new(), &[]), false);
    let report = validate_package(&reader, &[], &ModuleIndex::new(), &TrustStore::new(), ApiVersion::new(1, 0), Platform::Linux);
    let version = history.complete_rollback(plan, report).unwrap();
    assert_eq!(version, Version::new(0, 1, 0));
    assert_eq!(history.active_version("a"), Some(&Version::new(0, 1, 0)));
    assert_eq!(history.entries().last().unwrap().kind, HistoryKind::RolledBack);
    assert_eq!(history.previous_version("a"), Some(&Version::new(0, 2, 0)));
}

#[test]
fn rolling_back_to_an_incompatible_previous_version_is_a_clear_error() {
    let mut history = RollbackHistory::from_entries("/root/history.json".to_string(), Vec::new());
    history.record_install("a", Version::new(0, 1, 0));
    history.record_install("a", Version::new(0, 2, 0));
    let plan = history.prepare_rollback("a", "/root").unwrap();
    let reader = reader_for(manifest("a", vec![Platform::Ios], &[]), false);
    let report = validate_package(&reader, &[], &ModuleIndex::new(), &TrustStore::new(), ApiVersion::new(1, 0), Platform::Linux);
    let err = history.complete_rollback(plan, report).unwrap_err();
    assert!(matches!(err, RollbackError::Incompatible { .. }));
    assert_eq!(history.active_version("a"), Some(&Version::new(0, 2, 0)));
    assert_eq!(history.entries().len(), 2);
}

#[test]
fn a_minimal_valid_package_passes() {
    let reader = reader_for(manifest("a", Vec::new(), &[]), false);
    let report = validate_package(&reader, &[], &ModuleIndex::new(), &TrustStore::new(), ApiVersion::new(1, 0), Platform::Linux);
    assert_eq!(report.trust_level, TrustLevel::Unknown);
    assert!(report.conflicts.is_empty());
    assert!(report.platform_supported);
    assert!(report.is_valid());
}

#[test]
fn an_unsupported_platform_fails_validation() {
    let reader = reader_for(manifest("a", vec![Platform::Ios, Platform::Android], &[]), false);
    let report = validate_package(&reader, &[], &ModuleIndex::new(), &TrustStore::new(), ApiVersion::new(1, 0), Platform::Linux);
    assert!(!report.platform_supported);
    assert!(!report.is_valid());
}

#[test]
fn an_empty_platform_list_means_all_platforms_supported() {
    let reader = reader_for(manifest("a", Vec::new(), &[]), true);
    let report = validate_package(&reader, &[], &ModuleIndex::new(), &TrustStore::new(), ApiVersion::new(1, 0), Platform::Linux);
    assert!(report.platform_supported);
}

#[test]
fn a_dependency_conflict_against_other_manifests_is_reported() {
    let a = manifest("a", Vec::new(), &[("crypto-core", "^2.0")]);
    let reader = reader_for(manifest("b", Vec::new(), &[]), false);
    let report = validate_package(&reader, &[&a], &ModuleIndex::new(), &TrustStore::new(), ApiVersion::new(1, 0), Platform::Linux);
    assert!(!report.conflicts.is_empty());
    assert!(!report.is_valid());
}

#[test]
fn history_file_lives_in_the_install_root() {
    assert_eq!(RollbackHistory::file_path("/root"), "/root/history.json");
}

fn config_with_profiles() -> RuntimeConfig {
    RuntimeConfig {
        mode: RuntimeMode::Client,
        profile: "stealth".to_string(),
        profiles: vec![
            ProfileConfig {
                name: "mobile".to_string(),
                description: String::new(),
                stack: vec!["udp".to_string()],
                policy: HashMap::new(),
            },
            ProfileConfig {
                name: "stealth".to_string(),
                description: "Maximum stealth profile".to_string(),
                stack: vec!["quic".to_string(), "browser-http3".to_string(), "chacha20".to_string()],
                policy: HashMap::new(),
            },
        ],
        defaults: GlobalDefaults::default(),
        device: None,
        modules: HashMap::new(),
    }
}

#[test]
fn find_profile_returns_the_named_profile() {
    let config = config_with_profiles();
    let profile = config.find_profile("stealth").unwrap();
    assert_eq!(profile.stack.len(), 3);
    assert_eq!(profile.stack[0], "quic");
    assert!(config.find_profile("gaming").is_none());
}

#[test]
fn configuration_defaults() {
    assert_eq!(RuntimeMode::default(), RuntimeMode::Client);
    assert_eq!(LogLevel::default(), LogLevel::Info);
    assert_eq!(SchedulerConfig::default(), SchedulerConfig { io_threads: 2, cpu_threads: 4, max_background_tasks: 16 });
    let defaults = GlobalDefaults::default();
    assert_eq!(defaults.max_flows, 0);
    assert_eq!(defaults.scheduler, SchedulerConfig::default());
    let device = DeviceConfig::default();
    assert_eq!(device.mtu, 1500);
    assert!(device.tun_name.is_empty());
    assert_eq!(
        (default_max_flows(), default_queue_depth(), default_pool_size(), default_mtu()),
        (1024, 256, 4096, 1500)
    );
    assert_eq!((default_io_threads(), default_cpu_threads(), default_max_background()), (2, 4, 16));
}

use nyarix::loader::cache::{CacheEntry, PackageCache};
use nyarix::loader::installer::{finish_install, plan_install, InstallOutcome};

fn entry(name: &str, version: &str, installed_at: i64, size_bytes: u64) -> CacheEntry {
    CacheEntry {
        name: name.to_string(),
        version: Version::parse(version).unwrap(),
        path: format!("/cache/{name}/{version}/package.nyp"),
        installed_at,
        size_bytes,
    }
}

#[test]
fn recording_the_same_name_and_version_replaces_the_previous_entry() {
    let mut cache = PackageCache::from_entries("/cache".to_string(), Vec::new());
    cache.record(entry("a", "0.1.0", 1_000, 100));
    cache.record(entry("a", "0.1.0", 2_000, 200));
    assert_eq!(cache.entries().len(), 1);
    assert_eq!(cache.entries()[0].size_bytes, 200);
}

#[test]
fn total_size_sums_every_entry() {
    let mut cache = PackageCache::from_entries("/cache".to_string(), Vec::new());
    cache.record(entry("a", "0.1.0", 1_000, 100));
    cache.record(entry("b", "0.1.0", 1_000, 250));
    assert_eq!(cache.total_size(), 350);
}

#[test]
fn evict_to_fit_removes_the_oldest_entries_first() {
    let mut cache = PackageCache::from_entries("/cache".to_string(), Vec::new());
    cache.record(entry("newer", "0.1.0", 86_400_000, 100));
    cache.record(entry("old", "0.1.0", 0, 100));
    let evicted = cache.evict_to_fit(100);
    assert_eq!(evicted.len(), 1);
    assert_eq!(evicted[0].name, "old");
    assert_eq!(cache.entries().len(), 1);
    assert_eq!(cache.entries()[0].name, "newer");
}

#[test]
fn evict_to_fit_does_nothing_when_already_under_the_limit() {
    let mut cache = PackageCache::from_entries("/cache".to_string(), Vec::new());
    cache.record(entry("a", "0.1.0", 1_000, 100));
    let evicted = cache.evict_to_fit(1000);
    assert!(evicted.is_empty());
    assert_eq!(cache.entries().len(), 1);
}

#[test]
fn evicting_leaves_the_cache_within_its_limit() {
    let mut cache = PackageCache::from_entries("/cache".to_string(), Vec::new());
    cache.record(entry("a", "0.1.0", 3_000, 400));
    cache.record(entry("b", "0.1.0", 1_000, 300));
    cache.record(entry("c", "0.1.0", 2_000, 200));
    let evicted = cache.evict_to_fit(450);
    let names: Vec<&str> = evicted.iter().map(|e| e.name.as_str()).collect();
    assert_eq!(names, vec!["b", "c"]);
    assert_eq!(cache.total_size(), 400);
    assert!(cache.total_size() <= 450);

    let evicted_all = cache.evict_to_fit(0);
    assert_eq!(evicted_all.len(), 1);
    assert_eq!(cache.total_size(), 0);
}

#[test]
fn the_cache_index_lives_in_its_root() {
    assert_eq!(PackageCache::index_path("/cache"), "/cache/packages.json");
}

fn payload_reader(name: &str) -> PackageReader {
    let data = PackageBuilder::new()
        .add_file("manifest.toml", b"[package]\n")
        .add_file("payload/module.wasm", b"wasm")
        .add_file("payload/lib/helper.bin", b"helper")
        .add_file("assets/logo.png", b"png")
        .build()
        .unwrap();
    PackageReader::from_parts(unpack(&data).unwrap(), manifest(name, Vec::new(), &[]))
}

#[test]
fn installs_a_package_and_registers_it_in_the_index() {
    let reader = payload_reader("a");
    let plan = plan_install(&reader, "/packages");
    assert!(plan.refused.is_none());
    assert_eq!(plan.package_dir, "/packages/a/0.1.0");
    assert_eq!(plan.archive_path, "/packages/a/0.1.0/package.nyp");
    let files: Vec<&str> = plan.files.iter().map(|(path, _)| path.as_str()).collect();
    assert_eq!(files, vec!["/packages/a/0.1.0/payload/module.wasm", "/packages/a/0.1.0/payload/lib/helper.bin"]);

    let mut index = ModuleIndex::new();
    match finish_install(&mut index, plan) {
        InstallOutcome::Installed(package) => {
            assert_eq!(package.name, "a");
            assert_eq!(package.path, "/packages/a/0.1.0/package.nyp");
        }
        other => panic!("expected Installed, got {other:?}"),
    }
    assert_eq!(index.get("a").len(), 1);
}

#[test]
fn reinstalling_the_same_name_and_version_reports_already_installed() {
    let mut index = ModuleIndex::new();
    let first = finish_install(&mut index, plan_install(&payload_reader("a"), "/packages"));
    assert!(matches!(first, InstallOutcome::Installed(_)));
    let second = finish_install(&mut index, plan_install(&payload_reader("a"), "/packages"));
    assert!(matches!(second, InstallOutcome::AlreadyInstalled(_)));
    assert_eq!(index.get("a").len(), 1);
}

#[test]
fn an_archive_entry_that_climbs_out_cannot_be_built() {
    let built = PackageBuilder::new()
        .add_file("manifest.toml", b"[package]\n")
        .add_file("payload/../escape.bin", b"evil")
        .build();
    assert!(matches!(built, Err(nyarix::errors::PackageError::Io { .. })));
}
