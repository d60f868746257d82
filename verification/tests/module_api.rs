use nyarix::base::version::SemVer;
use nyarix::module_api::capability::{Capability, CapabilityGrant, CapabilityMask};
use nyarix::module_api::fallback::{resolve, Resolution};
use nyarix::module_api::io_policy::{FilesystemPolicy, NetworkPolicy};
use nyarix::module_api::metrics::{metric_name, Counter, Gauge};
use nyarix::module_api::platform::Platform;
use nyarix::module_api::versioning::{is_compatible, ApiVersion};

#[test]
fn single_capability_round_trips_through_mask() {
    let mask = Capability::Network.mask();
    assert!(mask.has(Capability::Network));
    assert!(!mask.has(Capability::Filesystem));
}

#[test]
fn from_capabilities_combines_bits() {
    let mask = CapabilityMask::from_capabilities(&[Capability::Network, Capability::Crypto]);
    assert!(mask.has(Capability::Network));
    assert!(mask.has(Capability::Crypto));
    assert!(!mask.has(Capability::Tun));
}

#[test]
fn satisfies_checks_superset() {
    let granted = CapabilityMask::from_capabilities(&[
        Capability::Network,
        Capability::Crypto,
        Capability::Clock,
    ]);
    let required = CapabilityMask::from_capabilities(&[Capability::Network, Capability::Crypto]);
    let too_much = CapabilityMask::from_capabilities(&[Capability::Network, Capability::Tun]);

    assert!(granted.satisfies(required));
    assert!(!granted.satisfies(too_much));
}

#[test]
fn all_capabilities_have_distinct_bits() {
    let all = Capability::all();
    let combined = CapabilityMask::from_capabilities(&all);
    let bit_count = combined.bits().count_ones();
    assert_eq!(bit_count as usize, all.len());
}

#[test]
fn a_request_fully_within_the_granted_mask_is_fully_granted() {
    let granted = CapabilityMask::from_capabilities(&[Capability::Network, Capability::Crypto]);
    let request = CapabilityGrant::request(&[Capability::Network], granted);

    assert!(request.is_fully_granted());
    assert!(request.has(Capability::Network));
    assert!(request.denied.is_empty());
}

#[test]
fn a_request_beyond_the_granted_mask_lists_what_was_denied() {
    let granted = CapabilityMask::from_capabilities(&[Capability::Network]);
    let request = CapabilityGrant::request(&[Capability::Network, Capability::Tun], granted);

    assert!(!request.is_fully_granted());
    assert!(request.has(Capability::Network));
    assert!(!request.has(Capability::Tun));
    assert_eq!(request.denied, vec![Capability::Tun]);
}

#[test]
fn granted_mask_never_exceeds_what_was_requested() {
    let granted = CapabilityMask::from_capabilities(&[Capability::Network, Capability::Crypto]);
    let request = CapabilityGrant::request(&[Capability::Network], granted);

    assert_eq!(
        request.granted,
        CapabilityMask::from_capabilities(&[Capability::Network])
    );
    assert!(!request.granted.has(Capability::Crypto));
}

#[test]
fn requesting_nothing_is_trivially_fully_granted() {
    let request = CapabilityGrant::request(&[], CapabilityMask::empty());
    assert!(request.is_fully_granted());
}

fn candidates() -> Vec<(String, ApiVersion)> {
    vec![
        ("quic-v1".to_string(), ApiVersion::new(1, 0)),
        ("quic-v1-compat".to_string(), ApiVersion::new(1, 2)),
    ]
}

#[test]
fn prefers_exact_match_over_compatible() {
    let outcome = resolve(ApiVersion::new(1, 0), &candidates(), Some("legacy-quic"));
    assert_eq!(outcome, Resolution::ExactMatch("quic-v1".to_string()));
}

#[test]
fn falls_back_to_compatible_version() {
    let only_newer = vec![("quic-v1-compat".to_string(), ApiVersion::new(1, 2))];
    let outcome = resolve(ApiVersion::new(1, 0), &only_newer, Some("legacy-quic"));
    assert_eq!(
        outcome,
        Resolution::CompatibleVersion("quic-v1-compat".to_string())
    );
}

#[test]
fn falls_back_to_manifest_fallback_when_incompatible() {
    let incompatible = vec![("quic-v2".to_string(), ApiVersion::new(2, 0))];
    let outcome = resolve(ApiVersion::new(1, 0), &incompatible, Some("legacy-quic"));
    assert_eq!(outcome, Resolution::Fallback("legacy-quic".to_string()));
}

#[test]
fn errors_when_incompatible_and_no_fallback() {
    let incompatible = vec![("quic-v2".to_string(), ApiVersion::new(2, 0))];
    let outcome = resolve(ApiVersion::new(1, 0), &incompatible, None);
    assert_eq!(outcome, Resolution::Incompatible);
}

#[test]
fn errors_when_no_candidates_and_no_fallback() {
    let outcome = resolve(ApiVersion::new(1, 0), &[], None);
    assert_eq!(outcome, Resolution::Incompatible);
}

#[test]
fn deny_all_filesystem_policy_allows_nothing() {
    let policy = FilesystemPolicy::deny_all();
    assert!(!policy.allows("/etc/passwd"));
    assert!(!policy.allows("/"));
}

#[test]
fn filesystem_policy_allows_paths_under_a_whitelisted_prefix() {
    let policy = FilesystemPolicy::allowing(vec!["/var/nyarix/data".to_string()]);
    assert!(policy.allows("/var/nyarix/data/file.txt"));
    assert!(!policy.allows("/etc/passwd"));
}

#[test]
fn deny_all_network_policy_allows_nothing() {
    let policy = NetworkPolicy::deny_all();
    assert!(!policy.allows("example.com", 443));
}

#[test]
fn network_policy_allows_a_host_on_any_port_when_no_port_specified() {
    let policy = NetworkPolicy::deny_all().allow_host("example.com");
    assert!(policy.allows("example.com", 443));
    assert!(policy.allows("example.com", 8080));
    assert!(!policy.allows("evil.example", 443));
}

#[test]
fn network_policy_restricts_to_the_declared_port() {
    let policy = NetworkPolicy::deny_all().allow_host_port("example.com", 443);
    assert!(policy.allows("example.com", 443));
    assert!(!policy.allows("example.com", 8080));
}

#[test]
fn allows_host_ignores_port_restrictions() {
    let policy = NetworkPolicy::deny_all().allow_host_port("example.com", 443);
    assert!(policy.allows_host("example.com"));
    assert!(!policy.allows_host("evil.example"));
}

#[test]
fn metric_name_follows_the_namespace_convention() {
    assert_eq!(
        metric_name("quic-transport", "packets_sent"),
        "nyarix.module.quic-transport.packets_sent"
    );
}

#[test]
fn counter_starts_at_zero_and_accumulates() {
    let mut counter = Counter::default();
    assert_eq!(counter.value(), 0);
    counter.increment(3);
    counter.increment(2);
    assert_eq!(counter.value(), 5);
}

#[test]
fn gauge_can_be_set_and_adjusted() {
    let mut gauge = Gauge::default();
    gauge.set(10);
    assert_eq!(gauge.value(), 10);
    gauge.add(-3);
    assert_eq!(gauge.value(), 7);
}

#[test]
fn current_matches_build_target() {
    // The build target's `target_os` name is what the application hands
    // over; on the Linux machines this suite runs on it is "linux".
    let platform = Platform::from_target_os("linux");
    assert_eq!(platform, Platform::Linux);
}

#[test]
fn exact_match_is_compatible() {
    assert!(is_compatible(ApiVersion::new(1, 2), ApiVersion::new(1, 2)));
}

#[test]
fn newer_minor_is_compatible() {
    assert!(is_compatible(ApiVersion::new(1, 2), ApiVersion::new(1, 5)));
}

#[test]
fn older_minor_is_incompatible() {
    assert!(!is_compatible(ApiVersion::new(1, 5), ApiVersion::new(1, 2)));
}

#[test]
fn different_major_is_incompatible() {
    assert!(!is_compatible(ApiVersion::new(1, 0), ApiVersion::new(2, 0)));
}

#[test]
fn display_format() {
    assert_eq!(ApiVersion::new(1, 2).to_string(), "1.2");
}

#[test]
fn api_versions_parse_from_text() {
    let v: nyarix::module_api::versioning::ApiVersion = "1.2".parse().unwrap();
    assert_eq!((v.major, v.minor), (1, 2));
    let err = "1".parse::<nyarix::module_api::versioning::ApiVersion>().unwrap_err();
    assert_eq!(err.input, "1");
    assert!("1.x".parse::<nyarix::module_api::versioning::ApiVersion>().is_err());
}

#[test]
fn a_mask_holds_exactly_the_bits_of_its_capabilities() {
    let all = CapabilityMask::from_capabilities(&Capability::all());
    assert_eq!(all.bits(), 0x1fff);
    assert_eq!(all.bits().count_ones(), 13);
    let some = CapabilityMask::from_capabilities(&[Capability::Network, Capability::Clock, Capability::Network]);
    assert_eq!(some.bits(), Capability::Network.mask().bits() | Capability::Clock.mask().bits());
    let grant = CapabilityGrant::request(&[Capability::Network, Capability::Tun], some);
    assert_eq!(grant.granted, Capability::Network.mask());
    assert!(!grant.is_fully_granted());
    assert!(all.satisfies(some));
}

#[test]
fn a_newer_minor_is_compatible_with_an_older_one() {
    let a = SemVer::new(1, 2, 0);
    let b = SemVer::new(1, 5, 0);
    let c = SemVer::new(2, 5, 0);
    assert!(a.is_compatible_with(&b));
    assert!(!b.is_compatible_with(&a));
    assert!(!a.is_compatible_with(&c));
}
