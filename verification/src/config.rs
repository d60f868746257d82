//! The Runtime's configuration: its mode, named profiles (stack presets),
//! global defaults, per-device overrides and per-module values. Reading
//! it from TOML text is the application's part; what a configuration
//! defaults to and how a profile is found are here.

use vstd::prelude::*;
use std::collections::HashMap;

verus! {

/// The operating mode of a Runtime instance.
#[derive(Debug, Clone, Copy, PartialEq, Eq, Structural)]
pub enum RuntimeMode {
    /// Originates connections.
    Client,
    /// Accepts connections.
    Server,
    /// Forwards between peers.
    Relay,
    /// Bridges networks.
    Gateway,
    /// Transparent passthrough.
    Bridge,
    /// Introspection and testing.
    Diagnostic,
}

impl Default for RuntimeMode {
    /// Client mode.
    fn default() -> (m: Self)
        ensures
            m == RuntimeMode::Client,
    {
        RuntimeMode::Client
    }
}

/// Log level.
#[derive(Debug, Clone, Copy, PartialEq, Eq, Structural)]
pub enum LogLevel {
    /// Very verbose.
    Trace,
    /// Debugging detail.
    Debug,
    /// Normal operation.
    Info,
    /// Something unexpected.
    Warn,
    /// A failure.
    Error,
}

impl Default for LogLevel {
    /// Info.
    fn default() -> (l: Self)
        ensures
            l == LogLevel::Info,
    {
        LogLevel::Info
    }
}

/// Scheduler configuration.
#[derive(Debug, Clone, Copy, PartialEq, Eq, Structural)]
pub struct SchedulerConfig {
    /// Number of I/O worker threads.
    pub io_threads: usize,
    /// Number of CPU worker threads.
    pub cpu_threads: usize,
    /// Maximum number of background tasks.
    pub max_background_tasks: usize,
}

/// The active profile's name where none is given: empty.
pub fn default_profile() -> (s: String)
    ensures
        s@.len() == 0,
{
    String::new()
}

/// Concurrent flows where none is given.
pub fn default_max_flows() -> (n: usize)
    ensures
        n == 1024,
{
    1024
}

/// Queue depth per node where none is given.
pub fn default_queue_depth() -> (n: usize)
    ensures
        n == 256,
{
    256
}

/// Packet pool size where none is given.
pub fn default_pool_size() -> (n: usize)
    ensures
        n == 4096,
{
    4096
}

/// TUN interface name where none is given: empty.
pub fn default_tun_name() -> (s: String)
    ensures
        s@.len() == 0,
{
    String::new()
}

/// TUN MTU where none is given.
pub fn default_mtu() -> (n: u16)
    ensures
        n == 1500,
{
    1500
}

/// I/O worker threads where none is given.
pub fn default_io_threads() -> (n: usize)
    ensures
        n == 2,
{
    2
}

/// CPU worker threads where none is given.
pub fn default_cpu_threads() -> (n: usize)
    ensures
        n == 4,
{
    4
}

/// Background tasks where none is given.
pub fn default_max_background() -> (n: usize)
    ensures
        n == 16,
{
    16
}

impl Default for SchedulerConfig {
    /// Two I/O threads, four CPU threads, sixteen background tasks.
    fn default() -> (c: Self)
        ensures
            c == (SchedulerConfig { io_threads: 2, cpu_threads: 4, max_background_tasks: 16 }),
    {
        SchedulerConfig {
            io_threads: default_io_threads(),
            cpu_threads: default_cpu_threads(),
            max_background_tasks: default_max_background(),
        }
    }
}

/// Defaults applied where a profile or device does not override them.
#[derive(Debug, Clone, Copy, PartialEq, Eq, Structural)]
pub struct GlobalDefaults {
    /// Log level.
    pub log_level: LogLevel,
    /// Maximum concurrent flows.
    pub max_flows: usize,
    /// Maximum packet queue depth per node.
    pub queue_depth: usize,
    /// Packet pool size.
    pub pool_size: usize,
    /// Scheduler configuration.
    pub scheduler: SchedulerConfig,
}

impl Default for GlobalDefaults {
    /// Each field at its type's default: info logging, zero flows, zero
    /// queue depth, an empty pool, the default scheduler. (A configuration
    /// read from text that leaves out a field gets the `default_*` value
    /// for it instead.)
    fn default() -> (d: Self)
        ensures
            d == (GlobalDefaults {
                log_level: LogLevel::Info,
                max_flows: 0,
                queue_depth: 0,
                pool_size: 0,
                scheduler: SchedulerConfig { io_threads: 2, cpu_threads: 4, max_background_tasks: 16 },
            }),
    {
        GlobalDefaults {
            log_level: LogLevel::default(),
            max_flows: 0,
            queue_depth: 0,
            pool_size: 0,
            scheduler: SchedulerConfig::default(),
        }
    }
}

/// Per-device overrides.
#[derive(Debug, Clone, PartialEq, Eq)]
pub struct DeviceConfig {
    /// Device name.
    pub name: String,
    /// TUN interface name.
    pub tun_name: String,
    /// TUN MTU.
    pub mtu: u16,
    /// Battery-aware mode for mobile devices.
    pub battery_aware: bool,
}

impl Default for DeviceConfig {
    /// No name, no TUN name, MTU 1500, not battery-aware.
    fn default() -> (d: Self)
        ensures
            d.name@.len() == 0,
            d.tun_name@.len() == 0,
            d.mtu == 1500,
            !d.battery_aware,
    {
        DeviceConfig { name: String::new(), tun_name: default_tun_name(), mtu: default_mtu(), battery_aware: false }
    }
}

/// A named profile: a stack preset.
#[derive(Debug, Clone)]
pub struct ProfileConfig {
    /// The profile's name.
    pub name: String,
    /// What the profile is for.
    pub description: String,
    /// The stack: module names in order.
    pub stack: Vec<String>,
    /// Policy overrides.
    pub policy: HashMap<String, toml::Value>,
}

/// The whole Runtime configuration.
#[derive(Debug, Clone)]
pub struct RuntimeConfig {
    /// The operating mode.
    pub mode: RuntimeMode,
    /// The active profile's name.
    pub profile: String,
    /// The profile definitions.
    pub profiles: Vec<ProfileConfig>,
    /// Global defaults.
    pub defaults: GlobalDefaults,
    /// Per-device overrides.
    pub device: Option<DeviceConfig>,
    /// Per-module values.
    pub modules: HashMap<String, toml::Value>,
}

/// Index of the first profile named `name`.
pub open spec fn first_profile(ps: Seq<ProfileConfig>, name: Seq<char>) -> Option<int>
    decreases ps.len(),
{
    if ps.len() == 0 {
        None
    } else if ps[0].name@ == name {
        Some(0)
    } else {
        match first_profile(ps.drop_first(), name) {
            Some(i) => Some(i + 1),
            None => None,
        }
    }
}

proof fn lemma_first_profile(ps: Seq<ProfileConfig>, name: Seq<char>, k: int)
    requires
        0 <= k <= ps.len(),
        forall|j: int| 0 <= j < k ==> (#[trigger] ps[j]).name@ != name,
    ensures
        first_profile(ps, name) == match first_profile(ps.skip(k), name) {
            Some(i) => Some(i + k),
            None => None::<int>,
        },
    decreases k,
{
    if k > 0 {
        assert(ps.skip(1) =~= ps.drop_first());
        assert(ps.drop_first().skip(k - 1) =~= ps.skip(k));
        assert forall|j: int| 0 <= j < k - 1 implies (#[trigger] ps.drop_first()[j]).name@ != name by {
            assert(ps.drop_first()[j] == ps[j + 1]);
        }
        lemma_first_profile(ps.drop_first(), name, k - 1);
    } else {
        assert(ps.skip(0) =~= ps);
    }
}

impl RuntimeConfig {
    /// The first profile named `name`, if any.
    pub fn find_profile(&self, name: &str) -> (r: Option<&ProfileConfig>)
        ensures
            r is None <==> first_profile(self.profiles@, name@) is None,
            r matches Some(p) ==> (first_profile(self.profiles@, name@) matches Some(i) && *p == self.profiles@[i]),
    {
        let mut i: usize = 0;
        while i < self.profiles.len()
            invariant
                i <= self.profiles@.len(),
                forall|j: int| 0 <= j < i ==> (#[trigger] self.profiles@[j]).name@ != name@,
            decreases self.profiles@.len() - i,
        {
            if crate::text::str_eq(self.profiles[i].name.as_str(), name) {
                proof {
                    lemma_first_profile(self.profiles@, name@, i as int);
                    assert(self.profiles@.skip(i as int)[0] == self.profiles@[i as int]);
                }
                return Some(&self.profiles[i]);
            }
            i += 1;
        }
        proof {
            lemma_first_profile(self.profiles@, name@, i as int);
            assert(self.profiles@.skip(i as int).len() == 0);
        }
        None
    }
}

} // verus!
