use nyarix::errors::SecurityError;
use nyarix::module_api::capability::{Capability, CapabilityMask};
use nyarix::module_api::config::ModuleConfig;
use nyarix::module_api::context::RuntimeContext;
use nyarix::module_api::io_policy::{FilesystemPolicy, NetworkPolicy};
use nyarix::module_api::metadata::{ModuleMetadata, ModuleType};
use nyarix::module_api::metrics::MetricRegistry;
use nyarix::module_api::platform::Platform;
use nyarix::module_api::rate_limiter::RateLimiter;
use nyarix::module_api::resource_limits::ResourceLimits;
use nyarix::module_api::sandbox_permission::{AccessMode, SandboxPermission};
use nyarix::module_api::versioning::ApiVersion;
use nyarix::versions::Version;

fn new_metadata(name: &str) -> ModuleMetadata {
    ModuleMetadata::new(name, Version::new(0, 1, 0), ModuleType::Flow)
}

fn version(text: &str) -> Version {
    Version::parse(text).unwrap()
}

fn empty() -> RuntimeContext {
    RuntimeContext::empty(Platform::Linux)
}

#[test]
fn metadata_declares_capabilities() {
    let meta = ModuleMetadata::new("quic-transport", version("0.1.0"), ModuleType::Transport)
        .with_required_capabilities(vec![Capability::Network, Capability::Clock])
        .with_provided_capabilities(vec![Capability::Network]);

    assert_eq!(meta.required_capabilities.len(), 2);
    assert_eq!(meta.provided_capabilities, vec![Capability::Network]);

    let required_mask = CapabilityMask::from_capabilities(&meta.required_capabilities);
    let provided_mask = CapabilityMask::from_capabilities(&meta.provided_capabilities);
    assert!(!provided_mask.satisfies(required_mask));
}

#[test]
fn metadata_declares_provided_tags_separately_from_capabilities() {
    let meta = ModuleMetadata::new("udp-transport", version("0.1.0"), ModuleType::Transport)
        .with_provided_capabilities(vec![Capability::Network])
        .with_provided_tags(vec!["transport-udp".to_string()]);

    assert_eq!(meta.provided_capabilities, vec![Capability::Network]);
    assert_eq!(meta.provided_tags, vec!["transport-udp".to_string()]);
}

#[test]
fn metadata_declares_platforms_and_limits() {
    let meta = ModuleMetadata::new("tun-bridge", version("0.2.0"), ModuleType::Transport)
        .with_platforms(vec![Platform::Linux, Platform::MacOs])
        .with_resource_limits(ResourceLimits {
            max_memory_bytes: Some(64 * 1024 * 1024),
            ..ResourceLimits::unbounded()
        });

    assert_eq!(meta.platforms, vec![Platform::Linux, Platform::MacOs]);
    assert_eq!(meta.resource_limits.max_memory_bytes, Some(64 * 1024 * 1024));
    assert_eq!(meta.resource_limits.max_cpu_percent, None);
}

#[test]
fn default_api_version_is_1_0() {
    let meta = ModuleMetadata::new("noop", version("0.1.0"), ModuleType::Observability);
    assert_eq!(meta.api_version, ApiVersion::new(1, 0));
}

#[test]
fn distinct_variants_are_not_equal() {
    let filesystem = SandboxPermission::FilesystemPath { path: "/tmp".to_string(), mode: AccessMode::Read };
    let network = SandboxPermission::NetworkAddress { host: "example.com".to_string(), port: None };
    assert_ne!(filesystem, network);
}

#[test]
fn registry_returns_the_same_counter_instance_for_repeated_lookups() {
    let mut registry = MetricRegistry::new();
    registry.counter("quic", "packets_sent").increment(5);
    let b = registry.counter("quic", "packets_sent");
    assert_eq!(b.value(), 5);
}

#[test]
fn get_counter_does_not_create_one_that_was_never_recorded() {
    let registry = MetricRegistry::new();
    assert!(registry.get_counter("quic", "packets_sent").is_none());
    assert!(registry.get_counter("quic", "packets_sent").is_none());
}

#[test]
fn get_counter_finds_an_already_registered_counter() {
    let mut registry = MetricRegistry::new();
    registry.counter("quic", "packets_sent").increment(3);
    let found = registry.get_counter("quic", "packets_sent").unwrap();
    assert_eq!(found.value(), 3);
}

#[test]
fn get_gauge_is_read_only_too() {
    let mut registry = MetricRegistry::new();
    assert!(registry.get_gauge("quic", "queue_depth").is_none());
    registry.gauge("quic", "queue_depth").set(5);
    assert_eq!(registry.get_gauge("quic", "queue_depth").unwrap().value(), 5);
}

#[test]
fn different_modules_get_independent_counters() {
    let mut registry = MetricRegistry::new();
    registry.counter("quic", "packets_sent").increment(5);
    registry.counter("udp", "packets_sent").increment(2);

    assert_eq!(registry.counter("quic", "packets_sent").value(), 5);
    assert_eq!(registry.counter("udp", "packets_sent").value(), 2);
}

#[test]
fn starts_with_a_full_bucket() {
    let mut limiter = RateLimiter::new(3, 1, 0);
    assert!(limiter.try_acquire(0));
    assert!(limiter.try_acquire(0));
    assert!(limiter.try_acquire(0));
}

#[test]
fn refuses_once_the_bucket_is_empty() {
    let mut limiter = RateLimiter::new(1, 0, 0);
    assert!(limiter.try_acquire(0));
    assert!(!limiter.try_acquire(0));
}

#[test]
fn refills_over_time() {
    let mut limiter = RateLimiter::new(1, 1000, 0);
    assert!(limiter.try_acquire(0));
    assert!(!limiter.try_acquire(0));
    assert!(limiter.try_acquire(20_000_000));
}

#[test]
fn never_exceeds_capacity_even_after_a_long_idle_period() {
    let mut limiter = RateLimiter::new(2, 1000, 0);
    assert!(limiter.try_acquire(50_000_000));
    assert!(limiter.try_acquire(50_000_000));
    assert!(!limiter.try_acquire(50_000_000));
}

#[test]
fn a_half_refilled_token_is_not_enough() {
    let mut limiter = RateLimiter::new(1, 2, 0);
    assert!(limiter.try_acquire(0));
    assert!(!limiter.try_acquire(250_000_000));
    assert!(limiter.try_acquire(500_000_000));
}

#[test]
fn empty_context_has_no_dependencies() {
    let ctx = empty();
    assert!(!ctx.has_module("anything"));
}

#[test]
fn has_module_reflects_resolved_dependencies() {
    let ctx = RuntimeContext::new(ModuleConfig::empty(), vec!["dns-resolver".to_string()], Platform::Linux);
    assert!(ctx.has_module("dns-resolver"));
    assert!(!ctx.has_module("nonexistent-optional-plugin"));
}

#[test]
fn platform_matches_current_target() {
    let ctx = empty();
    assert_eq!(ctx.platform(), Platform::Linux);
}

#[test]
fn a_context_with_no_capabilities_attached_grants_nothing() {
    let ctx = empty();
    assert_eq!(ctx.granted_capabilities(), CapabilityMask::empty());
}

#[test]
fn with_granted_capabilities_is_reflected_back() {
    let mask = CapabilityMask::from_capabilities(&[Capability::Network]);
    let ctx = empty().with_granted_capabilities(mask);
    assert_eq!(ctx.granted_capabilities(), mask);
}

#[test]
fn request_capabilities_reports_what_the_context_was_granted() {
    let mask = CapabilityMask::from_capabilities(&[Capability::Network]);
    let ctx = empty().with_granted_capabilities(mask);
    let metadata = new_metadata("quic-transport").with_required_capabilities(vec![Capability::Network, Capability::Tun]);

    let grant = ctx.request_capabilities(&metadata);

    assert!(!grant.is_fully_granted());
    assert!(grant.has(Capability::Network));
    assert!(!grant.has(Capability::Tun));
    assert_eq!(grant.denied, vec![Capability::Tun]);
}

#[test]
fn request_capability_succeeds_when_granted() {
    let mask = CapabilityMask::from_capabilities(&[Capability::Network]);
    let ctx = empty().with_granted_capabilities(mask);
    let metadata = new_metadata("quic-transport");
    assert!(ctx.request_capability(&metadata, Capability::Network).is_ok());
}

#[test]
fn request_capability_does_not_panic_when_denied_and_returns_an_error() {
    let ctx = empty();
    let metadata = new_metadata("quic-transport");

    let Err(err) = ctx.request_capability(&metadata, Capability::Network) else {
        panic!("expected request_capability to fail");
    };
    let SecurityError::CapabilityDenied { module, capability } = err else {
        panic!("expected CapabilityDenied");
    };
    assert_eq!(module, "quic-transport");
    assert_eq!(capability, "network");
}

#[test]
fn check_file_access_denies_without_the_filesystem_capability() {
    let mut ctx = empty().with_filesystem_policy(FilesystemPolicy::allowing(vec!["/tmp".to_string()]));
    let metadata = new_metadata("storage-module");

    let Err(err) = ctx.check_file_access(&metadata, "/tmp/data", 0) else {
        panic!("expected check_file_access to fail");
    };
    assert!(matches!(err, SecurityError::CapabilityDenied { .. }));
}

#[test]
fn check_file_access_denies_a_path_outside_the_whitelist() {
    let mut ctx = empty()
        .with_granted_capabilities(CapabilityMask::from_capabilities(&[Capability::Filesystem]))
        .with_filesystem_policy(FilesystemPolicy::allowing(vec!["/tmp".to_string()]));
    let metadata = new_metadata("storage-module");

    let Err(err) = ctx.check_file_access(&metadata, "/etc/passwd", 0) else {
        panic!("expected check_file_access to fail");
    };
    match err {
        SecurityError::SandboxViolation { module, violation } => {
            assert_eq!(module, "storage-module");
            assert_eq!(violation, "filesystem access to /etc/passwd is not whitelisted");
        }
        other => panic!("expected SandboxViolation, got {other:?}"),
    }
}

#[test]
fn check_file_access_allows_a_whitelisted_path_with_the_capability_granted() {
    let mut ctx = empty()
        .with_granted_capabilities(CapabilityMask::from_capabilities(&[Capability::Filesystem]))
        .with_filesystem_policy(FilesystemPolicy::allowing(vec!["/tmp".to_string()]));
    let metadata = new_metadata("storage-module");
    assert!(ctx.check_file_access(&metadata, "/tmp/data", 0).is_ok());
}

#[test]
fn check_network_access_denies_a_destination_outside_the_whitelist() {
    let mut ctx = empty()
        .with_granted_capabilities(CapabilityMask::from_capabilities(&[Capability::Network]))
        .with_network_policy(NetworkPolicy::deny_all().allow_host("example.com"));
    let metadata = new_metadata("quic-transport");

    let Err(err) = ctx.check_network_access(&metadata, "evil.example", 443, 0) else {
        panic!("expected check_network_access to fail");
    };
    match err {
        SecurityError::SandboxViolation { violation, .. } => {
            assert_eq!(violation, "network access to evil.example:443 is not whitelisted");
        }
        other => panic!("expected SandboxViolation, got {other:?}"),
    }
}

#[test]
fn check_network_access_allows_a_whitelisted_destination() {
    let mut ctx = empty()
        .with_granted_capabilities(CapabilityMask::from_capabilities(&[Capability::Network]))
        .with_network_policy(NetworkPolicy::deny_all().allow_host("example.com"));
    let metadata = new_metadata("quic-transport");
    assert!(ctx.check_network_access(&metadata, "example.com", 443, 0).is_ok());
}

#[test]
fn the_io_rate_limiter_is_shared_between_file_and_network_checks() {
    let mut ctx = empty()
        .with_granted_capabilities(CapabilityMask::from_capabilities(&[Capability::Filesystem, Capability::Network]))
        .with_filesystem_policy(FilesystemPolicy::allowing(vec!["/tmp".to_string()]))
        .with_network_policy(NetworkPolicy::deny_all().allow_host("example.com"))
        .with_io_rate_limiter(RateLimiter::new(1, 0, 0));
    let metadata = new_metadata("busy-module");

    assert!(ctx.check_file_access(&metadata, "/tmp/data", 0).is_ok());

    let Err(err) = ctx.check_network_access(&metadata, "example.com", 443, 0) else {
        panic!("expected the shared rate limiter to already be exhausted");
    };
    match err {
        SecurityError::SandboxViolation { violation, .. } => assert_eq!(violation, "I/O rate limit exceeded"),
        other => panic!("expected SandboxViolation, got {other:?}"),
    }
}

#[test]
fn check_dns_resolve_denies_without_the_dns_capability() {
    let mut ctx = empty().with_network_policy(NetworkPolicy::deny_all().allow_host("example.com"));
    let metadata = new_metadata("dns-client");

    let Err(err) = ctx.check_dns_resolve(&metadata, "example.com", 0) else {
        panic!("expected check_dns_resolve to fail");
    };
    assert!(matches!(err, SecurityError::CapabilityDenied { .. }));
}

#[test]
fn check_dns_resolve_denies_a_host_outside_the_whitelist() {
    let mut ctx = empty()
        .with_granted_capabilities(CapabilityMask::from_capabilities(&[Capability::Dns]))
        .with_network_policy(NetworkPolicy::deny_all().allow_host("example.com"));
    let metadata = new_metadata("dns-client");

    let Err(err) = ctx.check_dns_resolve(&metadata, "evil.example", 0) else {
        panic!("expected check_dns_resolve to fail");
    };
    match err {
        SecurityError::SandboxViolation { violation, .. } => {
            assert_eq!(violation, "DNS resolution of evil.example is not whitelisted")
        }
        other => panic!("expected SandboxViolation, got {other:?}"),
    }
}

#[test]
fn check_dns_resolve_allows_a_whitelisted_host_with_the_capability_granted() {
    let mut ctx = empty()
        .with_granted_capabilities(CapabilityMask::from_capabilities(&[Capability::Dns]))
        .with_network_policy(NetworkPolicy::deny_all().allow_host("example.com"));
    let metadata = new_metadata("dns-client");
    assert!(ctx.check_dns_resolve(&metadata, "example.com", 0).is_ok());
}

#[test]
fn check_bind_access_denies_without_the_network_capability() {
    let mut ctx = empty();
    let metadata = new_metadata("listener");

    let Err(err) = ctx.check_bind_access(&metadata, 8080, 0) else {
        panic!("expected check_bind_access to fail");
    };
    assert!(matches!(err, SecurityError::CapabilityDenied { .. }));
}

#[test]
fn check_bind_access_allows_an_unprivileged_port_with_just_network() {
    let mut ctx = empty().with_granted_capabilities(CapabilityMask::from_capabilities(&[Capability::Network]));
    let metadata = new_metadata("listener");
    assert!(ctx.check_bind_access(&metadata, 8080, 0).is_ok());
}

#[test]
fn check_bind_access_denies_a_privileged_port_without_privileged_sockets() {
    let mut ctx = empty().with_granted_capabilities(CapabilityMask::from_capabilities(&[Capability::Network]));
    let metadata = new_metadata("listener");

    let Err(err) = ctx.check_bind_access(&metadata, 80, 0) else {
        panic!("expected check_bind_access to fail on a privileged port");
    };
    match err {
        SecurityError::CapabilityDenied { capability, .. } => assert_eq!(capability, "privilegedsockets"),
        other => panic!("expected CapabilityDenied, got {other:?}"),
    }
}

#[test]
fn check_bind_access_allows_a_privileged_port_with_both_capabilities() {
    let mut ctx = empty().with_granted_capabilities(CapabilityMask::from_capabilities(&[
        Capability::Network,
        Capability::PrivilegedSockets,
    ]));
    let metadata = new_metadata("listener");
    assert!(ctx.check_bind_access(&metadata, 80, 0).is_ok());
}

#[test]
fn connection_tracking_counts_opens_and_closes_per_module() {
    let mut ctx = empty();
    let metadata = new_metadata("quic-transport");
    let other = new_metadata("other-transport");

    assert_eq!(ctx.open_connection_count("quic-transport"), 0);

    ctx.track_connection_opened(&metadata);
    ctx.track_connection_opened(&metadata);
    ctx.track_connection_opened(&other);
    assert_eq!(ctx.open_connection_count("quic-transport"), 2);
    assert_eq!(ctx.open_connection_count("other-transport"), 1);

    ctx.track_connection_closed(&metadata);
    assert_eq!(ctx.open_connection_count("quic-transport"), 1);
}

#[test]
fn closing_an_untracked_connection_does_not_underflow() {
    let mut ctx = empty();
    let metadata = new_metadata("quic-transport");

    ctx.track_connection_closed(&metadata);
    assert_eq!(ctx.open_connection_count("quic-transport"), 0);
}
