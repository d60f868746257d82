//! Whitelists of the filesystem paths and network destinations a module
//! may touch.

use vstd::prelude::*;

verus! {

/// Whether `path` starts with the path `base`, component by component, as
/// `std::path::Path::starts_with` decides.
pub uninterp spec fn spec_path_starts_with(path: Seq<char>, base: Seq<char>) -> bool;

/// `std::path::Path::starts_with` on the two paths.
#[verifier::external_body]
fn path_starts_with(path: &str, base: &str) -> (r: bool)
    ensures
        r == spec_path_starts_with(path@, base@),
{
    std::path::Path::new(path).starts_with(base)
}

/// Filesystem access whitelist: a path is allowed when it lies under one of
/// the allowed prefixes.
#[derive(Debug, Clone, Default)]
pub struct FilesystemPolicy {
    pub allowed_prefixes: Vec<String>,
}

impl FilesystemPolicy {
    /// A policy that allows nothing.
    pub fn deny_all() -> (p: Self)
        ensures
            p.allowed_prefixes@.len() == 0,
    {
        Self { allowed_prefixes: Vec::new() }
    }

    /// A policy allowing everything under the given prefixes.
    pub fn allowing(prefixes: Vec<String>) -> (p: Self)
        ensures
            p.allowed_prefixes@ == prefixes@,
    {
        Self { allowed_prefixes: prefixes }
    }

    /// Whether `path` lies under some allowed prefix.
    pub fn allows(&self, path: &str) -> (r: bool)
        ensures
            r == exists|i: int| 0 <= i < self.allowed_prefixes@.len()
                && spec_path_starts_with(path@, #[trigger] self.allowed_prefixes@[i]@),
    {
        let mut i: usize = 0;
        while i < self.allowed_prefixes.len()
            invariant
                i <= self.allowed_prefixes@.len(),
                forall|j: int| 0 <= j < i ==> !spec_path_starts_with(path@, #[trigger] self.allowed_prefixes@[j]@),
            decreases self.allowed_prefixes@.len() - i,
        {
            if path_starts_with(path, self.allowed_prefixes[i].as_str()) {
                return true;
            }
            i += 1;
        }
        false
    }
}

/// Whether the whitelist entry `(host, port)` admits `host:port`: same
/// host, and either no port restriction or the same port.
pub open spec fn entry_allows(entry: (String, Option<u16>), host: Seq<char>, port: u16) -> bool {
    entry.0@ == host && match entry.1 {
        None => true,
        Some(p) => p == port,
    }
}

/// Network access whitelist of hosts, each optionally restricted to a port.
#[derive(Debug, Clone, Default)]
pub struct NetworkPolicy {
    pub allowed: Vec<(String, Option<u16>)>,
}

impl NetworkPolicy {
    /// A policy that allows nothing.
    pub fn deny_all() -> (p: Self)
        ensures
            p.allowed@.len() == 0,
    {
        Self { allowed: Vec::new() }
    }

    /// Also allow `host` on any port.
    pub fn allow_host(self, host: &str) -> (p: Self)
        ensures
            p.allowed@.len() == self.allowed@.len() + 1,
            p.allowed@.take(self.allowed@.len() as int) == self.allowed@,
            p.allowed@.last().0@ == host@,
            p.allowed@.last().1 is None,
    {
        let mut allowed = self.allowed;
        allowed.push((host.to_owned(), None));
        assert(allowed@.take(self.allowed@.len() as int) =~= self.allowed@);
        Self { allowed }
    }

    /// Also allow `host`, on `port` only.
    pub fn allow_host_port(self, host: &str, port: u16) -> (p: Self)
        ensures
            p.allowed@.len() == self.allowed@.len() + 1,
            p.allowed@.take(self.allowed@.len() as int) == self.allowed@,
            p.allowed@.last().0@ == host@,
            p.allowed@.last().1 == Some(port),
    {
        let mut allowed = self.allowed;
        allowed.push((host.to_owned(), Some(port)));
        assert(allowed@.take(self.allowed@.len() as int) =~= self.allowed@);
        Self { allowed }
    }

    /// Whether some entry admits `host:port`.
    pub fn allows(&self, host: &str, port: u16) -> (r: bool)
        ensures
            r == exists|i: int| 0 <= i < self.allowed@.len() && entry_allows(#[trigger] self.allowed@[i], host@, port),
    {
        let mut i: usize = 0;
        while i < self.allowed.len()
            invariant
                i <= self.allowed@.len(),
                forall|j: int| 0 <= j < i ==> !entry_allows(#[trigger] self.allowed@[j], host@, port),
            decreases self.allowed@.len() - i,
        {
            let entry = &self.allowed[i];
            let port_ok = match entry.1 {
                None => true,
                Some(p) => p == port,
            };
            if crate::text::str_eq(entry.0.as_str(), host) && port_ok {
                return true;
            }
            i += 1;
        }
        false
    }

    /// Whether some entry names `host`, whatever its port restriction.
    pub fn allows_host(&self, host: &str) -> (r: bool)
        ensures
            r == exists|i: int| 0 <= i < self.allowed@.len() && #[trigger] self.allowed@[i].0@ == host@,
    {
        let mut i: usize = 0;
        while i < self.allowed.len()
            invariant
                i <= self.allowed@.len(),
                forall|j: int| 0 <= j < i ==> #[trigger] self.allowed@[j].0@ != host@,
            decreases self.allowed@.len() - i,
        {
            if crate::text::str_eq(self.allowed[i].0.as_str(), host) {
                return true;
            }
            i += 1;
        }
        false
    }
}

} // verus!
