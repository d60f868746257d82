//! What the Runtime hands a module: its configuration, the platform, the
//! names of the dependencies it may use, the capabilities it was
//! granted, its I/O whitelists and rate limit, and a count of the
//! connections it holds open. The checks a module passes through before
//! touching the filesystem or the network are decided here.

use vstd::prelude::*;
use crate::errors::SecurityError;
use crate::module_api::capability::{Capability, CapabilityGrant, CapabilityMask};
use crate::module_api::config::ModuleConfig;
use crate::module_api::io_policy::{entry_allows, spec_path_starts_with, FilesystemPolicy, NetworkPolicy};
use crate::module_api::metadata::ModuleMetadata;
use crate::module_api::metrics::first_named;
use crate::module_api::platform::Platform;
use crate::module_api::rate_limiter::{refilled, RateLimiter, TOKEN};
use crate::text::{decimal, push_decimal, push_str};

verus! {

/// A capability's name, as its `Debug` name in lower case.
pub open spec fn spec_capability_name(c: Capability) -> Seq<char> {
    match c {
        Capability::Filesystem => "filesystem"@,
        Capability::Network => "network"@,
        Capability::Tun => "tun"@,
        Capability::Random => "random"@,
        Capability::Crypto => "crypto"@,
        Capability::Clock => "clock"@,
        Capability::Scheduler => "scheduler"@,
        Capability::Storage => "storage"@,
        Capability::Metrics => "metrics"@,
        Capability::Dns => "dns"@,
        Capability::UiHooks => "uihooks"@,
        Capability::Background => "background"@,
        Capability::PrivilegedSockets => "privilegedsockets"@,
    }
}

fn capability_name(c: Capability) -> (s: &'static str)
    ensures
        s@ == spec_capability_name(c),
{
    match c {
        Capability::Filesystem => "filesystem",
        Capability::Network => "network",
        Capability::Tun => "tun",
        Capability::Random => "random",
        Capability::Crypto => "crypto",
        Capability::Clock => "clock",
        Capability::Scheduler => "scheduler",
        Capability::Storage => "storage",
        Capability::Metrics => "metrics",
        Capability::Dns => "dns",
        Capability::UiHooks => "uihooks",
        Capability::Background => "background",
        Capability::PrivilegedSockets => "privilegedsockets",
    }
}

/// Whether `e` denies module `module` the capability `c`.
pub open spec fn is_denial(e: SecurityError, module: Seq<char>, c: Capability) -> bool {
    e matches SecurityError::CapabilityDenied { module: m, capability } && m@ == module && capability@
        == spec_capability_name(c)
}

/// Whether `e` reports that module `module` broke the sandbox because
/// `violation`.
pub open spec fn is_violation(e: SecurityError, module: Seq<char>, violation: Seq<char>) -> bool {
    e matches SecurityError::SandboxViolation { module: m, violation: v } && m@ == module && v@ == violation
}

/// Why a rate-limited call was refused.
pub open spec fn rate_violation() -> Seq<char> {
    "I/O rate limit exceeded"@
}

/// Why a file access was refused.
pub open spec fn file_violation(path: Seq<char>) -> Seq<char> {
    "filesystem access to "@ + path + " is not whitelisted"@
}

/// Why a connection was refused.
pub open spec fn network_violation(host: Seq<char>, port: u16) -> Seq<char> {
    "network access to "@ + host + ":"@ + decimal(port as nat) + " is not whitelisted"@
}

/// Why a DNS resolution was refused.
pub open spec fn dns_violation(host: Seq<char>) -> Seq<char> {
    "DNS resolution of "@ + host + " is not whitelisted"@
}

/// What the whitelist says of a path.
pub open spec fn path_allowed(p: FilesystemPolicy, path: Seq<char>) -> bool {
    exists|i: int| 0 <= i < p.allowed_prefixes@.len() && spec_path_starts_with(path, #[trigger] p.allowed_prefixes@[i]@)
}

/// What the whitelist says of a destination.
pub open spec fn destination_allowed(p: NetworkPolicy, host: Seq<char>, port: u16) -> bool {
    exists|i: int| 0 <= i < p.allowed@.len() && entry_allows(#[trigger] p.allowed@[i], host, port)
}

/// What the whitelist says of a host, whatever the port.
pub open spec fn host_allowed(p: NetworkPolicy, host: Seq<char>) -> bool {
    exists|i: int| 0 <= i < p.allowed@.len() && #[trigger] p.allowed@[i].0@ == host
}

/// Whether a rate limiter in state `l` grants a call at `now`.
pub open spec fn limiter_grants(l: RateLimiter, now: u128) -> bool {
    refilled(
        l.tokens_view(),
        if now >= l.last_view() { (now - l.last_view()) as u128 } else { 0 },
        l.rate_view(),
        l.capacity_view(),
    ) >= TOKEN
}

/// Whether the optional limiter `l` grants a call at `now`: no limiter
/// grants every call.
pub open spec fn rate_allows(l: Option<RateLimiter>, now: u128) -> bool {
    match l {
        Some(lim) => limiter_grants(lim, now),
        None => true,
    }
}

/// The context handed to one module.
#[derive(Debug)]
pub struct RuntimeContext {
    config: ModuleConfig,
    platform: Platform,
    dependencies: Vec<String>,
    granted_capabilities: CapabilityMask,
    filesystem_policy: FilesystemPolicy,
    network_policy: NetworkPolicy,
    io_rate_limiter: Option<RateLimiter>,
    open_connections: Vec<(String, usize)>,
}

impl RuntimeContext {
    /// The capabilities granted.
    pub closed spec fn granted_view(&self) -> CapabilityMask {
        self.granted_capabilities
    }

    /// The platform.
    pub closed spec fn platform_view(&self) -> Platform {
        self.platform
    }

    /// The names of the resolvable dependencies.
    pub closed spec fn dependency_names(&self) -> Seq<Seq<char>> {
        Seq::new(self.dependencies@.len(), |i: int| self.dependencies@[i]@)
    }

    /// The filesystem whitelist.
    pub closed spec fn fs_policy_view(&self) -> FilesystemPolicy {
        self.filesystem_policy
    }

    /// The network whitelist.
    pub closed spec fn net_policy_view(&self) -> NetworkPolicy {
        self.network_policy
    }

    /// The I/O rate limiter, if any.
    pub closed spec fn limiter_view(&self) -> Option<RateLimiter> {
        self.io_rate_limiter
    }

    /// The configuration.
    pub closed spec fn config_view(&self) -> ModuleConfig {
        self.config
    }

    /// The names under which connections are counted.
    pub closed spec fn connection_names(&self) -> Seq<Seq<char>> {
        Seq::new(self.open_connections@.len(), |i: int| self.open_connections@[i].0@)
    }

    /// The open connections counted for module `name`.
    pub closed spec fn open_count(&self, name: Seq<char>) -> nat {
        match first_named(self.connection_names(), name) {
            Some(i) => self.open_connections@[i].1 as nat,
            None => 0,
        }
    }

    /// The rate limiter, where there is one, keeps to its capacity.
    pub closed spec fn wf(&self) -> bool {
        self.io_rate_limiter matches Some(l) ==> l.wf()
    }

    /// A context on `platform` with an empty configuration, no
    /// dependencies, nothing granted, whitelists that allow nothing and no
    /// rate limit.
    pub fn empty(platform: Platform) -> (c: Self)
        ensures
            c.wf(),
            c.platform_view() == platform,
            c.dependency_names().len() == 0,
            c.granted_view().bits == 0,
            c.fs_policy_view().allowed_prefixes@.len() == 0,
            c.net_policy_view().allowed@.len() == 0,
            c.limiter_view() is None,
            forall|n: Seq<char>| #[trigger] c.open_count(n) == 0,
    {
        Self::new(ModuleConfig::empty(), Vec::new(), platform)
    }

    /// A context with `config` and the dependencies named in
    /// `dependencies`; otherwise as `empty`.
    pub fn new(config: ModuleConfig, dependencies: Vec<String>, platform: Platform) -> (c: Self)
        ensures
            c.wf(),
            c.platform_view() == platform,
            c.config_view() == config,
            c.dependency_names() == Seq::new(dependencies@.len(), |i: int| dependencies@[i]@),
            c.granted_view().bits == 0,
            c.fs_policy_view().allowed_prefixes@.len() == 0,
            c.net_policy_view().allowed@.len() == 0,
            c.limiter_view() is None,
            forall|n: Seq<char>| #[trigger] c.open_count(n) == 0,
    {
        let c = RuntimeContext {
            config,
            platform,
            dependencies,
            granted_capabilities: CapabilityMask::empty(),
            filesystem_policy: FilesystemPolicy::deny_all(),
            network_policy: NetworkPolicy::deny_all(),
            io_rate_limiter: None,
            open_connections: Vec::new(),
        };
        assert forall|n: Seq<char>| #[trigger] c.open_count(n) == 0 by {
            assert(c.connection_names().len() == 0);
        }
        c
    }

    /// The same context with `granted` as its capabilities.
    pub fn with_granted_capabilities(self, granted: CapabilityMask) -> (c: Self)
        requires
            self.wf(),
        ensures
            c.wf(),
            c.granted_view() == granted,
            c.platform_view() == self.platform_view(),
            c.dependency_names() == self.dependency_names(),
            c.fs_policy_view() == self.fs_policy_view(),
            c.net_policy_view() == self.net_policy_view(),
            c.limiter_view() == self.limiter_view(),
            forall|n: Seq<char>| #[trigger] c.open_count(n) == self.open_count(n),
    {
        let mut c = self;
        c.granted_capabilities = granted;
        c
    }

    /// The same context with `policy` as its filesystem whitelist.
    pub fn with_filesystem_policy(self, policy: FilesystemPolicy) -> (c: Self)
        requires
            self.wf(),
        ensures
            c.wf(),
            c.fs_policy_view() == policy,
            c.granted_view() == self.granted_view(),
            c.net_policy_view() == self.net_policy_view(),
            c.limiter_view() == self.limiter_view(),
            forall|n: Seq<char>| #[trigger] c.open_count(n) == self.open_count(n),
    {
        let mut c = self;
        c.filesystem_policy = policy;
        c
    }

    /// The same context with `policy` as its network whitelist.
    pub fn with_network_policy(self, policy: NetworkPolicy) -> (c: Self)
        requires
            self.wf(),
        ensures
            c.wf(),
            c.net_policy_view() == policy,
            c.granted_view() == self.granted_view(),
            c.fs_policy_view() == self.fs_policy_view(),
            c.limiter_view() == self.limiter_view(),
            forall|n: Seq<char>| #[trigger] c.open_count(n) == self.open_count(n),
    {
        let mut c = self;
        c.network_policy = policy;
        c
    }

    /// The same context with `limiter` bounding its file and network
    /// checks together.
    pub fn with_io_rate_limiter(self, limiter: RateLimiter) -> (c: Self)
        requires
            self.wf(),
            limiter.wf(),
        ensures
            c.wf(),
            c.limiter_view() == Some(limiter),
            c.granted_view() == self.granted_view(),
            c.fs_policy_view() == self.fs_policy_view(),
            c.net_policy_view() == self.net_policy_view(),
            forall|n: Seq<char>| #[trigger] c.open_count(n) == self.open_count(n),
    {
        let mut c = self;
        c.io_rate_limiter = Some(limiter);
        c
    }

    /// The capabilities granted.
    pub fn granted_capabilities(&self) -> (m: CapabilityMask)
        ensures
            m == self.granted_view(),
    {
        self.granted_capabilities
    }

    /// The module's required capabilities checked against the grant.
    pub fn request_capabilities(&self, metadata: &ModuleMetadata) -> (g: CapabilityGrant)
        ensures
            forall|c: Capability| #![trigger g.granted.has_spec(c)] g.granted.has_spec(c) <==> (metadata.required_capabilities@.contains(c)
                && self.granted_view().has_spec(c)),
            g.denied@ == metadata.required_capabilities@.filter(|c: Capability| !self.granted_view().has_spec(c)),
    {
        let required = metadata.required_capabilities.as_slice();
        assert(required@ == metadata.required_capabilities@);
        let g = CapabilityGrant::request(required, self.granted_capabilities);
        g
    }

    /// Whether the module may use `capability` now: granted, or refused
    /// with an error naming the module and the capability.
    pub fn request_capability(&self, metadata: &ModuleMetadata, capability: Capability) -> (r: Result<(), SecurityError>)
        ensures
            r is Ok <==> self.granted_view().has_spec(capability),
            r matches Err(e) ==> is_denial(e, metadata.name@, capability),
    {
        if self.granted_capabilities.has(capability) {
            return Ok(());
        }
        Err(
            SecurityError::CapabilityDenied {
                module: metadata.name.clone(),
                capability: capability_name(capability).to_owned(),
            },
        )
    }

    fn check_rate_limit(&mut self, metadata: &ModuleMetadata, now: u128) -> (r: Result<(), SecurityError>)
        requires
            old(self).wf(),
        ensures
            final(self).wf(),
            r is Ok <==> rate_allows(old(self).limiter_view(), now),
            r matches Err(e) ==> is_violation(e, metadata.name@, rate_violation()),
            final(self).limiter_view() == (match old(self).limiter_view() {
                Some(l) => Some(final(self).limiter_view()->0),
                None => None,
            }),
            old(self).limiter_view() matches Some(l) ==> (final(self).limiter_view() matches Some(l2) && l2.last_view() == now
                && l2.capacity_view() == l.capacity_view() && l2.rate_view() == l.rate_view()),
            final(self).granted_view() == old(self).granted_view(),
            final(self).fs_policy_view() == old(self).fs_policy_view(),
            final(self).net_policy_view() == old(self).net_policy_view(),
            final(self).platform_view() == old(self).platform_view(),
            final(self).dependency_names() == old(self).dependency_names(),
            forall|n: Seq<char>| #[trigger] final(self).open_count(n) == old(self).open_count(n),
    {
        match &mut self.io_rate_limiter {
            Some(limiter) => {
                if limiter.try_acquire(now) {
                    Ok(())
                } else {
                    proof {
                        reveal_strlit("I/O rate limit exceeded");
                    }
                    Err(
                        SecurityError::SandboxViolation {
                            module: metadata.name.clone(),
                            violation: "I/O rate limit exceeded".to_owned(),
                        },
                    )
                }
            },
            None => Ok(()),
        }
    }

    /// Whether the module may access `path` at time `now` (nanoseconds on
    /// the rate limiter's clock): it needs the filesystem capability, then
    /// a token from the rate limiter (taken only once the capability is
    /// granted), then a whitelisted path.
    pub fn check_file_access(&mut self, metadata: &ModuleMetadata, path: &str, now: u128) -> (r: Result<(), SecurityError>)
        requires
            old(self).wf(),
        ensures
            final(self).wf(),
            !old(self).granted_view().has_spec(Capability::Filesystem) ==> (r matches Err(e) && is_denial(
                e,
                metadata.name@,
                Capability::Filesystem,
            ) && final(self).limiter_view() == old(self).limiter_view()),
            old(self).granted_view().has_spec(Capability::Filesystem) ==> {
                if !rate_allows(old(self).limiter_view(), now) {
                    r matches Err(e) && is_violation(e, metadata.name@, rate_violation())
                } else if !path_allowed(old(self).fs_policy_view(), path@) {
                    r matches Err(e) && is_violation(e, metadata.name@, file_violation(path@))
                } else {
                    r is Ok
                }
            },
            final(self).granted_view() == old(self).granted_view(),
            final(self).fs_policy_view() == old(self).fs_policy_view(),
            final(self).net_policy_view() == old(self).net_policy_view(),
            forall|n: Seq<char>| #[trigger] final(self).open_count(n) == old(self).open_count(n),
    {
        match self.request_capability(metadata, Capability::Filesystem) {
            Ok(()) => {},
            Err(e) => {
                return Err(e);
            },
        }
        match self.check_rate_limit(metadata, now) {
            Ok(()) => {},
            Err(e) => {
                return Err(e);
            },
        }
        if !self.filesystem_policy.allows(path) {
            let mut violation = String::new();
            push_str(&mut violation, "filesystem access to ");
            push_str(&mut violation, path);
            push_str(&mut violation, " is not whitelisted");
            proof {
                reveal_strlit("filesystem access to ");
                reveal_strlit(" is not whitelisted");
            }
            assert(violation@ =~= file_violation(path@));
            return Err(SecurityError::SandboxViolation { module: metadata.name.clone(), violation });
        }
        Ok(())
    }

    /// Whether the module may connect to `host:port` at time `now`: it
    /// needs the network capability, then a token from the rate limiter,
    /// then a whitelisted destination.
    pub fn check_network_access(&mut self, metadata: &ModuleMetadata, host: &str, port: u16, now: u128) -> (r: Result<(), SecurityError>)
        requires
            old(self).wf(),
        ensures
            final(self).wf(),
            !old(self).granted_view().has_spec(Capability::Network) ==> (r matches Err(e) && is_denial(
                e,
                metadata.name@,
                Capability::Network,
            ) && final(self).limiter_view() == old(self).limiter_view()),
            old(self).granted_view().has_spec(Capability::Network) ==> {
                if !rate_allows(old(self).limiter_view(), now) {
                    r matches Err(e) && is_violation(e, metadata.name@, rate_violation())
                } else if !destination_allowed(old(self).net_policy_view(), host@, port) {
                    r matches Err(e) && is_violation(e, metadata.name@, network_violation(host@, port))
                } else {
                    r is Ok
                }
            },
            final(self).granted_view() == old(self).granted_view(),
            final(self).fs_policy_view() == old(self).fs_policy_view(),
            final(self).net_policy_view() == old(self).net_policy_view(),
            forall|n: Seq<char>| #[trigger] final(self).open_count(n) == old(self).open_count(n),
    {
        match self.request_capability(metadata, Capability::Network) {
            Ok(()) => {},
            Err(e) => {
                return Err(e);
            },
        }
        match self.check_rate_limit(metadata, now) {
            Ok(()) => {},
            Err(e) => {
                return Err(e);
            },
        }
        if !self.network_policy.allows(host, port) {
            let mut violation = String::new();
            push_str(&mut violation, "network access to ");
            push_str(&mut violation, host);
            push_str(&mut violation, ":");
            push_decimal(&mut violation, port as u64);
            push_str(&mut violation, " is not whitelisted");
            proof {
                reveal_strlit("network access to ");
                reveal_strlit(":");
                reveal_strlit(" is not whitelisted");
            }
            assert(violation@ =~= network_violation(host@, port));
            return Err(SecurityError::SandboxViolation { module: metadata.name.clone(), violation });
        }
        Ok(())
    }

    /// Whether the module may resolve `host` at time `now`: it needs the
    /// DNS capability, then a token from the rate limiter, then a host on
    /// the network whitelist (any port).
    pub fn check_dns_resolve(&mut self, metadata: &ModuleMetadata, host: &str, now: u128) -> (r: Result<(), SecurityError>)
        requires
            old(self).wf(),
        ensures
            final(self).wf(),
            !old(self).granted_view().has_spec(Capability::Dns) ==> (r matches Err(e) && is_denial(
                e,
                metadata.name@,
                Capability::Dns,
            ) && final(self).limiter_view() == old(self).limiter_view()),
            old(self).granted_view().has_spec(Capability::Dns) ==> {
                if !rate_allows(old(self).limiter_view(), now) {
                    r matches Err(e) && is_violation(e, metadata.name@, rate_violation())
                } else if !host_allowed(old(self).net_policy_view(), host@) {
                    r matches Err(e) && is_violation(e, metadata.name@, dns_violation(host@))
                } else {
                    r is Ok
                }
            },
            final(self).granted_view() == old(self).granted_view(),
            final(self).fs_policy_view() == old(self).fs_policy_view(),
            final(self).net_policy_view() == old(self).net_policy_view(),
            forall|n: Seq<char>| #[trigger] final(self).open_count(n) == old(self).open_count(n),
    {
        match self.request_capability(metadata, Capability::Dns) {
            Ok(()) => {},
            Err(e) => {
                return Err(e);
            },
        }
        match self.check_rate_limit(metadata, now) {
            Ok(()) => {},
            Err(e) => {
                return Err(e);
            },
        }
        if !self.network_policy.allows_host(host) {
            let mut violation = String::new();
            push_str(&mut violation, "DNS resolution of ");
            push_str(&mut violation, host);
            push_str(&mut violation, " is not whitelisted");
            proof {
                reveal_strlit("DNS resolution of ");
                reveal_strlit(" is not whitelisted");
            }
            assert(violation@ =~= dns_violation(host@));
            return Err(SecurityError::SandboxViolation { module: metadata.name.clone(), violation });
        }
        Ok(())
    }

    /// Whether the module may bind `port` at time `now`: it needs the
    /// network capability, and for a port below 1024 the privileged
    /// sockets capability too, then a token from the rate limiter. No
    /// whitelist applies to binding.
    pub fn check_bind_access(&mut self, metadata: &ModuleMetadata, port: u16, now: u128) -> (r: Result<(), SecurityError>)
        requires
            old(self).wf(),
        ensures
            final(self).wf(),
            !old(self).granted_view().has_spec(Capability::Network) ==> (r matches Err(e) && is_denial(
                e,
                metadata.name@,
                Capability::Network,
            )),
            old(self).granted_view().has_spec(Capability::Network) && port < 1024
                && !old(self).granted_view().has_spec(Capability::PrivilegedSockets) ==> (r matches Err(e) && is_denial(
                e,
                metadata.name@,
                Capability::PrivilegedSockets,
            )),
            old(self).granted_view().has_spec(Capability::Network) && (port >= 1024 || old(
                self,
            ).granted_view().has_spec(Capability::PrivilegedSockets)) ==> {
                if !rate_allows(old(self).limiter_view(), now) {
                    r matches Err(e) && is_violation(e, metadata.name@, rate_violation())
                } else {
                    r is Ok
                }
            },
            final(self).granted_view() == old(self).granted_view(),
            forall|n: Seq<char>| #[trigger] final(self).open_count(n) == old(self).open_count(n),
    {
        match self.request_capability(metadata, Capability::Network) {
            Ok(()) => {},
            Err(e) => {
                return Err(e);
            },
        }
        if port < 1024 {
            match self.request_capability(metadata, Capability::PrivilegedSockets) {
                Ok(()) => {},
                Err(e) => {
                    return Err(e);
                },
            }
        }
        self.check_rate_limit(metadata, now)
    }

    fn connection_index(&self, name: &str) -> (r: Option<usize>)
        ensures
            r matches Some(i) ==> first_named(self.connection_names(), name@) == Some(i as int),
            r is None ==> first_named(self.connection_names(), name@) is None,
    {
        let ghost nv = self.connection_names();
        let mut i: usize = 0;
        while i < self.open_connections.len()
            invariant
                nv == self.connection_names(),
                i <= self.open_connections@.len(),
                forall|j: int| 0 <= j < i ==> nv[j] != name@,
            decreases self.open_connections@.len() - i,
        {
            if crate::text::str_eq(self.open_connections[i].0.as_str(), name) {
                proof {
                    crate::module_api::metrics::lemma_first_named(nv, name@);
                    assert(nv[i as int] == name@);
                    assert(nv.contains(name@));
                    let i0 = first_named(nv, name@)->0;
                    if i0 < i {
                        assert(nv[i0] != name@);
                    }
                    if i < i0 {
                        assert(nv[i as int] != name@);
                    }
                }
                return Some(i);
            }
            i += 1;
        }
        proof {
            crate::module_api::metrics::lemma_first_named(nv, name@);
            if nv.contains(name@) {
                let j = choose|j: int| 0 <= j < nv.len() && nv[j] == name@;
                assert(nv[j] != name@);
            }
        }
        None
    }

    /// Count one more connection opened by the module.
    pub fn track_connection_opened(&mut self, metadata: &ModuleMetadata)
        requires
            old(self).open_count(metadata.name@) < usize::MAX,
        ensures
            final(self).open_count(metadata.name@) == old(self).open_count(metadata.name@) + 1,
            forall|n: Seq<char>| n != metadata.name@ ==> #[trigger] final(self).open_count(n) == old(self).open_count(n),
            final(self).wf() == old(self).wf(),
            final(self).granted_view() == old(self).granted_view(),
            final(self).limiter_view() == old(self).limiter_view(),
    {
        let ghost names0 = self.connection_names();
        let ghost key = metadata.name@;
        proof {
            crate::module_api::metrics::lemma_first_named(names0, key);
        }
        match self.connection_index(metadata.name.as_str()) {
            Some(i) => {
                let (name, count) = self.open_connections.remove(i);
                self.open_connections.insert(i, (name, count + 1));
                proof {
                    assert(self.connection_names() =~= names0);
                    assert forall|n: Seq<char>| n != key implies #[trigger] self.open_count(n) == old(self).open_count(n) by {
                        crate::module_api::metrics::lemma_first_named(names0, n);
                    }
                }
            },
            None => {
                let ghost conns0 = self.open_connections@;
                self.open_connections.push((metadata.name.clone(), 1));
                proof {
                    assert(self.connection_names() =~= names0.push(key));
                    crate::module_api::metrics::lemma_first_named_push(names0, key);
                    assert forall|n: Seq<char>| n != key implies #[trigger] self.open_count(n) == old(self).open_count(n) by {
                        crate::module_api::metrics::lemma_first_named(names0, n);
                        if let Some(j) = first_named(names0, n) {
                            assert(self.open_connections@[j] == conns0[j]);
                        }
                    }
                }
            },
        }
    }

    /// Count one connection of the module closed; with none open nothing
    /// changes.
    pub fn track_connection_closed(&mut self, metadata: &ModuleMetadata)
        ensures
            final(self).open_count(metadata.name@) == if old(self).open_count(metadata.name@) > 0 {
                old(self).open_count(metadata.name@) - 1
            } else {
                0
            },
            forall|n: Seq<char>| n != metadata.name@ ==> #[trigger] final(self).open_count(n) == old(self).open_count(n),
            final(self).wf() == old(self).wf(),
            final(self).granted_view() == old(self).granted_view(),
            final(self).limiter_view() == old(self).limiter_view(),
    {
        let ghost names0 = self.connection_names();
        let ghost key = metadata.name@;
        proof {
            crate::module_api::metrics::lemma_first_named(names0, key);
        }
        match self.connection_index(metadata.name.as_str()) {
            Some(i) => {
                let (name, count) = self.open_connections.remove(i);
                self.open_connections.insert(i, (name, count.saturating_sub(1)));
                proof {
                    assert(self.connection_names() =~= names0);
                    assert forall|n: Seq<char>| n != key implies #[trigger] self.open_count(n) == old(self).open_count(n) by {
                        crate::module_api::metrics::lemma_first_named(names0, n);
                    }
                }
            },
            None => {},
        }
    }

    /// The connections counted open for the module `module_name`.
    pub fn open_connection_count(&self, module_name: &str) -> (n: usize)
        ensures
            n == self.open_count(module_name@),
    {
        match self.connection_index(module_name) {
            Some(i) => {
                proof {
                    crate::module_api::metrics::lemma_first_named(self.connection_names(), module_name@);
                }
                self.open_connections[i].1
            },
            None => 0,
        }
    }

    /// The module's configuration.
    pub fn config(&self) -> (c: &ModuleConfig)
        ensures
            *c == self.config_view(),
    {
        &self.config
    }

    /// Whether a dependency named `name` was resolved for the module.
    pub fn has_module(&self, name: &str) -> (r: bool)
        ensures
            r == self.dependency_names().contains(name@),
    {
        let ghost nv = self.dependency_names();
        let mut i: usize = 0;
        while i < self.dependencies.len()
            invariant
                nv == self.dependency_names(),
                i <= self.dependencies@.len(),
                forall|j: int| 0 <= j < i ==> nv[j] != name@,
            decreases self.dependencies@.len() - i,
        {
            if crate::text::str_eq(self.dependencies[i].as_str(), name) {
                assert(nv[i as int] == name@);
                return true;
            }
            i += 1;
        }
        proof {
            if nv.contains(name@) {
                let j = choose|j: int| 0 <= j < nv.len() && nv[j] == name@;
                assert(nv[j] != name@);
            }
        }
        false
    }

    /// The platform the Runtime runs on.
    pub fn platform(&self) -> (p: Platform)
        ensures
            p == self.platform_view(),
    {
        self.platform
    }
}

} // verus!
