//! What a module declares about itself.

use vstd::prelude::*;
use crate::versions::Version;
use super::capability::{Capability, CapabilityMask};
use super::platform::Platform;
use super::resource_limits::ResourceLimits;
use super::versioning::ApiVersion;

verus! {

/// The kind of a module.
#[derive(Debug, Clone, Copy, PartialEq, Eq, Hash, Structural)]
pub enum ModuleType {
    Transport,
    Crypto,
    Flow,
    Obfuscation,
    Policy,
    Observability,
}

/// A module's self-description.
#[derive(Debug, Clone, PartialEq, Eq)]
pub struct ModuleMetadata {
    pub name: String,
    pub version: Version,
    pub module_type: ModuleType,
    pub api_version: ApiVersion,
    pub author: String,
    pub description: String,
    pub required_capabilities: Vec<Capability>,
    pub provided_capabilities: Vec<Capability>,
    pub provided_tags: Vec<String>,
    pub platforms: Vec<Platform>,
    pub resource_limits: ResourceLimits,
}

impl ModuleMetadata {
    /// Metadata with the given identity, API version 1.0, and nothing else
    /// declared.
    pub fn new(name: &str, version: Version, module_type: ModuleType) -> (m: Self)
        ensures
            m.name@ == name@,
            m.version == version,
            m.module_type == module_type,
            m.api_version == (ApiVersion { major: 1, minor: 0 }),
            m.author@.len() == 0,
            m.description@.len() == 0,
            m.required_capabilities@.len() == 0,
            m.provided_capabilities@.len() == 0,
            m.provided_tags@.len() == 0,
            m.platforms@.len() == 0,
            m.resource_limits == ResourceLimits::unbounded_spec(),
    {
        Self {
            name: name.to_owned(),
            version,
            module_type,
            api_version: ApiVersion::new(1, 0),
            author: String::new(),
            description: String::new(),
            required_capabilities: Vec::new(),
            provided_capabilities: Vec::new(),
            provided_tags: Vec::new(),
            platforms: Vec::new(),
            resource_limits: ResourceLimits::unbounded(),
        }
    }

    /// Declare the capabilities the module requires.
    pub fn with_required_capabilities(self, capabilities: Vec<Capability>) -> (m: Self)
        ensures
            m == (Self { required_capabilities: capabilities, ..self }),
    {
        Self { required_capabilities: capabilities, ..self }
    }

    /// Declare the capabilities the module provides.
    pub fn with_provided_capabilities(self, capabilities: Vec<Capability>) -> (m: Self)
        ensures
            m == (Self { provided_capabilities: capabilities, ..self }),
    {
        Self { provided_capabilities: capabilities, ..self }
    }

    /// Declare the tags the module provides.
    pub fn with_provided_tags(self, tags: Vec<String>) -> (m: Self)
        ensures
            m == (Self { provided_tags: tags, ..self }),
    {
        Self { provided_tags: tags, ..self }
    }

    /// Declare the platforms the module supports.
    pub fn with_platforms(self, platforms: Vec<Platform>) -> (m: Self)
        ensures
            m == (Self { platforms, ..self }),
    {
        Self { platforms, ..self }
    }

    /// Declare the module's resource limits.
    pub fn with_resource_limits(self, limits: ResourceLimits) -> (m: Self)
        ensures
            m == (Self { resource_limits: limits, ..self }),
    {
        Self { resource_limits: limits, ..self }
    }

    /// The required capabilities as a mask.
    pub fn required_capabilities_mask(&self) -> (m: CapabilityMask)
        ensures
            forall|c: Capability| m.has_spec(c) <==> self.required_capabilities@.contains(c),
    {
        CapabilityMask::from_capabilities(self.required_capabilities.as_slice())
    }
}

} // verus!
