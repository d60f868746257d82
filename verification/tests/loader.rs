use nyarix::loader::conflict::{detect_conflicts, Conflict};
use nyarix::loader::dependency_graph::DependencyGraph;
use nyarix::loader::version_resolver::resolve_versions;
use nyarix::loader::{DiscoveredPackage, ModuleIndex};
use nyarix::module_api::metadata::ModuleType;
use nyarix::module_api::versioning::ApiVersion;
use nyarix::package::manifest::{DependencySpec, PackageInfo, PackageManifest};
use nyarix::versions::{Version, VersionReq};

fn manifest_with(name: &str, api_version: ApiVersion, deps: &[(&str, &str)]) -> PackageManifest {
    let dependencies = deps
        .iter()
        .map(|(dep, req)| {
            (dep.to_string(), DependencySpec { version_req: VersionReq::parse(req).unwrap(), optional: false })
        })
        .collect();
    PackageManifest::new(
        PackageInfo {
            name: name.to_string(),
            version: Version::new(0, 1, 0),
            module_type: ModuleType::Flow,
            api_version,
            author: "Nyarix".to_string(),
            description: "test".to_string(),
        },
        dependencies,
    )
}

fn manifest(name: &str, deps: &[&str]) -> PackageManifest {
    let deps: Vec<(&str, &str)> = deps.iter().map(|d| (*d, "^0.1")).collect();
    manifest_with(name, ApiVersion::new(1, 0), &deps)
}

fn manifest_with_deps(name: &str, deps: &[(&str, &str)]) -> PackageManifest {
    manifest_with(name, ApiVersion::new(1, 0), deps)
}

fn index_with_versions(name: &str, versions: &[&str]) -> ModuleIndex {
    let mut index = ModuleIndex::new();
    for (i, version) in versions.iter().enumerate() {
        let duplicate = index.insert(DiscoveredPackage {
            path: format!("/packages/pkg-{i}.nyp"),
            name: name.to_string(),
            version: Version::parse(version).unwrap(),
        });
        assert!(duplicate.is_none());
    }
    index
}

#[test]
fn dependencies_load_before_dependents() {
    let a = manifest("a", &["b"]);
    let b = manifest("b", &[]);
    let graph = DependencyGraph::build(&[&a, &b]);
    let order = graph.load_order().unwrap();
    let a_pos = order.iter().position(|n| n == "a").unwrap();
    let b_pos = order.iter().position(|n| n == "b").unwrap();
    assert!(b_pos < a_pos, "b must load before a: {order:?}");
}

#[test]
fn detects_a_direct_cycle() {
    let a = manifest("a", &["b"]);
    let b = manifest("b", &["a"]);
    let graph = DependencyGraph::build(&[&a, &b]);
    let err = graph.load_order().unwrap_err();
    assert!(err.cycle.contains(&"a".to_string()));
    assert!(err.cycle.contains(&"b".to_string()));
}

#[test]
fn detects_a_longer_cycle() {
    let a = manifest("a", &["b"]);
    let b = manifest("b", &["c"]);
    let c = manifest("c", &["a"]);
    let graph = DependencyGraph::build(&[&a, &b, &c]);
    let err = graph.load_order().unwrap_err();
    assert_eq!(err.cycle.len(), 4);
}

#[test]
fn a_self_dependency_is_a_cycle() {
    let a = manifest("a", &["a"]);
    let graph = DependencyGraph::build(&[&a]);
    let err = graph.load_order().unwrap_err();
    assert_eq!(err.cycle, vec!["a".to_string(), "a".to_string()]);
}

#[test]
fn missing_dependencies_are_reported_not_errored() {
    let a = manifest("a", &["ghost"]);
    let graph = DependencyGraph::build(&[&a]);
    assert!(graph.load_order().is_ok());
    assert_eq!(graph.missing_dependencies(), vec![("a".to_string(), "ghost".to_string())]);
}

#[test]
fn a_diamond_dependency_resolves_cleanly() {
    let a = manifest("a", &[]);
    let b = manifest("b", &["a"]);
    let c = manifest("c", &["a"]);
    let d = manifest("d", &["b", "c"]);
    let graph = DependencyGraph::build(&[&a, &b, &c, &d]);
    let order = graph.load_order().unwrap();
    let pos = |name: &str| order.iter().position(|n| n == name).unwrap();
    assert!(pos("a") < pos("b"));
    assert!(pos("a") < pos("c"));
    assert!(pos("b") < pos("d"));
    assert!(pos("c") < pos("d"));
}

#[test]
fn independent_packages_have_no_forced_relative_order_but_all_appear() {
    let a = manifest("a", &[]);
    let b = manifest("b", &[]);
    let graph = DependencyGraph::build(&[&a, &b]);
    let order = graph.load_order().unwrap();
    assert_eq!(order.len(), 2);
    assert!(order.contains(&"a".to_string()));
    assert!(order.contains(&"b".to_string()));
}

#[test]
fn resolves_a_single_matching_version() {
    let index = index_with_versions("crypto-core", &["0.1.0"]);
    let requirer = manifest_with_deps("udp-transport", &[("crypto-core", "^0.1")]);
    let result = resolve_versions(&[&requirer], &index);
    assert!(result.conflicts.is_empty());
    assert_eq!(result.get("crypto-core"), Some(&Version::new(0, 1, 0)));
}

#[test]
fn picks_the_highest_compatible_version_not_the_first() {
    let index = index_with_versions("crypto-core", &["0.1.0", "0.1.5", "0.1.2"]);
    let requirer = manifest_with_deps("udp-transport", &[("crypto-core", "^0.1")]);
    let result = resolve_versions(&[&requirer], &index);
    assert_eq!(result.get("crypto-core"), Some(&Version::new(0, 1, 5)));
}

#[test]
fn picks_the_highest_pre_release_in_semver_order() {
    let index = index_with_versions(
        "crypto-core",
        &["1.0.0-alpha.2", "1.0.0-beta", "1.0.0-alpha.10", "0.9.0", "1.0.0-alpha"],
    );
    let requirer = manifest_with_deps("udp-transport", &[("crypto-core", ">=1.0.0-alpha")]);
    let result = resolve_versions(&[&requirer], &index);
    assert!(result.conflicts.is_empty());
    assert_eq!(result.get("crypto-core"), Some(&Version::parse("1.0.0-beta").unwrap()));

    let capped = manifest_with_deps("udp-transport", &[("crypto-core", ">=1.0.0-alpha, <1.0.0-beta")]);
    let result = resolve_versions(&[&capped], &index);
    assert_eq!(result.get("crypto-core"), Some(&Version::parse("1.0.0-alpha.10").unwrap()));
}

#[test]
fn satisfies_two_requirers_with_overlapping_ranges() {
    let index = index_with_versions("crypto-core", &["1.0.0", "1.5.0", "1.9.0"]);
    let a = manifest_with_deps("a", &[("crypto-core", ">=1.0.0, <2.0.0")]);
    let b = manifest_with_deps("b", &[("crypto-core", "^1.5")]);
    let result = resolve_versions(&[&a, &b], &index);
    assert!(result.conflicts.is_empty());
    assert_eq!(result.get("crypto-core"), Some(&Version::new(1, 9, 0)));
}

#[test]
fn reports_a_conflict_when_no_version_satisfies_every_requirer() {
    let index = index_with_versions("crypto-core", &["1.0.0", "2.0.0"]);
    let a = manifest_with_deps("a", &[("crypto-core", "^1.0")]);
    let b = manifest_with_deps("b", &[("crypto-core", "^2.0")]);
    let result = resolve_versions(&[&a, &b], &index);
    assert!(result.get("crypto-core").is_none());
    assert_eq!(result.conflicts.len(), 1);
    assert_eq!(result.conflicts[0].name, "crypto-core");
    assert_eq!(result.conflicts[0].requirements.len(), 2);
}

#[test]
fn reports_a_conflict_when_the_dependency_is_entirely_missing() {
    let index = ModuleIndex::new();
    let a = manifest_with_deps("a", &[("crypto-core", "^1.0")]);
    let result = resolve_versions(&[&a], &index);
    assert!(result.resolved.is_empty());
    assert_eq!(result.conflicts.len(), 1);
    assert_eq!(result.conflicts[0].name, "crypto-core");
}

#[test]
fn conflict_message_names_every_requirer_and_its_requirement() {
    let index = index_with_versions("crypto-core", &["1.0.0", "2.0.0"]);
    let a = manifest_with_deps("a", &[("crypto-core", "^1.0")]);
    let b = manifest_with_deps("b", &[("crypto-core", "^2.0")]);
    let result = resolve_versions(&[&a, &b], &index);
    let message = result.conflicts[0].message();
    assert!(message.contains('a'));
    assert!(message.contains('b'));
    assert!(message.contains("crypto-core"));
}

#[test]
fn a_package_with_no_dependencies_resolves_nothing_and_conflicts_nothing() {
    let index = ModuleIndex::new();
    let a = manifest_with_deps("a", &[]);
    let result = resolve_versions(&[&a], &index);
    assert!(result.resolved.is_empty());
    assert!(result.conflicts.is_empty());
}

#[test]
fn reports_incompatible_major_versions_with_a_readable_message() {
    let index = index_with_versions("crypto-core", &["1.0.0", "2.0.0"]);
    let a = manifest_with("a", ApiVersion::new(1, 0), &[("crypto-core", "^1.0")]);
    let b = manifest_with("b", ApiVersion::new(1, 0), &[("crypto-core", "^2.0")]);
    let conflicts = detect_conflicts(&[&a, &b], &index, ApiVersion::new(1, 0));
    let version_conflict = conflicts
        .iter()
        .find(|c| matches!(c, Conflict::IncompatibleVersions { .. }))
        .expect("expected an IncompatibleVersions conflict");
    let message = version_conflict.message();
    assert!(message.contains("Module a requires crypto-core"));
    assert!(message.contains("but module b requires crypto-core"));
}

#[test]
fn reports_a_missing_dependency_distinctly_from_an_incompatible_one() {
    let index = ModuleIndex::new();
    let a = manifest_with("a", ApiVersion::new(1, 0), &[("crypto-core", "^1.0")]);
    let conflicts = detect_conflicts(&[&a], &index, ApiVersion::new(1, 0));
    assert_eq!(conflicts.len(), 1);
    match &conflicts[0] {
        Conflict::MissingDependency { name, requirers } => {
            assert_eq!(name, "crypto-core");
            assert_eq!(requirers, &vec!["a".to_string()]);
        }
        other => panic!("expected MissingDependency, got {other:?}"),
    }
    assert!(conflicts[0].message().contains("no installed package provides it"));
    assert_eq!(
        conflicts[0].message(),
        "a requires \"crypto-core\", but no installed package provides it"
    );
}

#[test]
fn reports_an_incompatible_api_version() {
    let index = ModuleIndex::new();
    let old_module = manifest_with("legacy", ApiVersion::new(1, 0), &[]);
    let conflicts = detect_conflicts(&[&old_module], &index, ApiVersion::new(2, 0));
    assert_eq!(conflicts.len(), 1);
    match &conflicts[0] {
        Conflict::IncompatibleApiVersion { module, required, declared } => {
            assert_eq!(module, "legacy");
            assert_eq!(*required, ApiVersion::new(2, 0));
            assert_eq!(*declared, ApiVersion::new(1, 0));
        }
        other => panic!("expected IncompatibleApiVersion, got {other:?}"),
    }
    assert_eq!(
        conflicts[0].message(),
        "module \"legacy\" was built against Module API 1.0, which is incompatible with the Runtime's required 2.0"
    );
}

#[test]
fn a_compatible_api_version_is_not_a_conflict() {
    let index = ModuleIndex::new();
    let module = manifest_with("modern", ApiVersion::new(1, 2), &[]);
    let conflicts = detect_conflicts(&[&module], &index, ApiVersion::new(1, 0));
    assert!(conflicts.is_empty());
}

#[test]
fn no_conflicts_when_everything_resolves_and_api_versions_match() {
    let index = index_with_versions("crypto-core", &["1.0.0"]);
    let a = manifest_with("a", ApiVersion::new(1, 0), &[("crypto-core", "^1.0")]);
    let conflicts = detect_conflicts(&[&a], &index, ApiVersion::new(1, 0));
    assert!(conflicts.is_empty());
}

#[test]
fn flags_an_exact_name_and_version_duplicate() {
    let mut index = ModuleIndex::new();
    assert!(index
        .insert(DiscoveredPackage { path: "/a/x.nyp".to_string(), name: "x".to_string(), version: Version::new(1, 0, 0) })
        .is_none());
    assert!(index
        .insert(DiscoveredPackage { path: "/a/y.nyp".to_string(), name: "x".to_string(), version: Version::new(1, 1, 0) })
        .is_none());
    let duplicate = index.insert(DiscoveredPackage {
        path: "/b/x.nyp".to_string(),
        name: "x".to_string(),
        version: Version::new(1, 0, 0),
    });
    assert!(duplicate.is_some());
    assert_eq!(index.get("x").len(), 2);
    assert_eq!(index.len(), 2);
}
