//! Structured errors, organized by the layer they come from.

use vstd::prelude::*;

verus! {

/// Configuration errors.
#[derive(Debug, Clone, PartialEq, Eq)]
pub enum ConfigError {
    /// A configuration file could not be parsed.
    Parse { path: String, source: String },
    /// A required key is missing.
    MissingKey { key: String },
    /// A value is invalid.
    InvalidValue { key: String, reason: String },
    /// Two modules' configurations contradict each other.
    Incompatible { message: String },
}

/// Package errors.
#[derive(Debug, Clone, PartialEq, Eq)]
pub enum PackageError {
    /// A package file could not be read; `source` is the I/O error's message.
    Io { path: String, source: String },
    /// The manifest is invalid.
    InvalidManifest { reason: String },
    /// The package's signature did not verify.
    SignatureFailure { package: String },
    /// The package format version is not supported.
    UnsupportedVersion { version: String },
    /// No package of this name was found.
    NotFound { name: String },
    /// A required top-level member of the archive is missing.
    MissingMember { path: String },
}

/// Module errors.
#[derive(Debug, Clone, PartialEq, Eq)]
pub enum ModuleError {
    InitFailed { name: String, reason: String },
    Crashed { name: String, reason: String },
    ApiMismatch { name: String, required: String, actual: String },
    MissingDependency { name: String, dependency: String },
    CircularDependency { chain: String },
    QuotaExceeded { name: String, resource: String },
}

/// Flow graph errors.
#[derive(Debug, Clone, PartialEq, Eq)]
pub enum GraphError {
    Cycle { cycle: String },
    MissingNode { node_id: String },
    IncompatibleEdge { from: String, to: String, reason: String },
    Disconnected,
    BuildFailed { reason: String },
}

/// Runtime execution errors.
#[derive(Debug, Clone, PartialEq, Eq)]
pub enum RuntimeError {
    AlreadyRunning,
    ShuttingDown,
    Scheduler { reason: String },
    EventBus { reason: String },
    ResourceExhausted { resource: String },
}

/// Transport errors; `source` is the I/O error's message.
#[derive(Debug, Clone, PartialEq, Eq)]
pub enum TransportError {
    ConnectionFailed { addr: String, source: String },
    ConnectionReset { reason: String },
    Timeout { duration_ms: u64 },
    ResolutionFailed { addr: String },
    NotSupported { transport: String },
}

/// Cryptographic errors.
#[derive(Debug, Clone, PartialEq, Eq)]
pub enum CryptoError {
    KeyExchange { reason: String },
    OperationFailed { reason: String },
    InvalidKey { reason: String },
    UnsupportedAlgorithm { algorithm: String },
}

/// Security and sandbox errors.
#[derive(Debug, Clone, PartialEq, Eq)]
pub enum SecurityError {
    CapabilityDenied { module: String, capability: String },
    SignatureFailed { reason: String },
    InsufficientTrust { module: String, level: String, required: String },
    SandboxViolation { module: String, violation: String },
}

/// Errors that indicate a bug.
#[derive(Debug, Clone, PartialEq, Eq)]
pub enum InternalError {
    InvariantViolation { message: String },
    UnexpectedState { message: String },
    Bug { message: String },
}

/// Any error of the platform, by layer.
#[derive(Debug, Clone, PartialEq, Eq)]
pub enum NyarixError {
    Config(ConfigError),
    Package(PackageError),
    Module(ModuleError),
    Graph(GraphError),
    Runtime(RuntimeError),
    Transport(TransportError),
    Crypto(CryptoError),
    Security(SecurityError),
    Internal(InternalError),
}

} // verus!
