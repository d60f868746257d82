//! The operating systems the runtime distinguishes.

use vstd::prelude::*;
use crate::text::str_eq;

verus! {

/// A target operating system.
#[derive(Debug, Clone, Copy, PartialEq, Eq, Hash, Structural)]
pub enum Platform {
    Linux,
    Windows,
    MacOs,
    Ios,
    Android,
    Unknown,
}

/// The platform that a Rust `target_os` name denotes.
pub open spec fn spec_platform_of(os: Seq<char>) -> Platform {
    if os == "linux"@ {
        Platform::Linux
    } else if os == "windows"@ {
        Platform::Windows
    } else if os == "macos"@ {
        Platform::MacOs
    } else if os == "ios"@ {
        Platform::Ios
    } else if os == "android"@ {
        Platform::Android
    } else {
        Platform::Unknown
    }
}

impl Platform {
    /// The platform for a Rust `target_os` name such as `"linux"`.
    pub fn from_target_os(os: &str) -> (p: Platform)
        ensures
            p == spec_platform_of(os@),
    {
        if str_eq(os, "linux") {
            Platform::Linux
        } else if str_eq(os, "windows") {
            Platform::Windows
        } else if str_eq(os, "macos") {
            Platform::MacOs
        } else if str_eq(os, "ios") {
            Platform::Ios
        } else if str_eq(os, "android") {
            Platform::Android
        } else {
            Platform::Unknown
        }
    }

    /// Whether this is a mobile platform (iOS or Android).
    pub fn is_mobile(&self) -> (r: bool)
        ensures
            r == (*self == Platform::Ios || *self == Platform::Android),
    {
        match self {
            Platform::Ios | Platform::Android => true,
            _ => false,
        }
    }

    /// Whether this is a desktop platform (Linux, Windows or macOS).
    pub fn is_desktop(&self) -> (r: bool)
        ensures
            r == (*self == Platform::Linux || *self == Platform::Windows || *self == Platform::MacOs),
    {
        match self {
            Platform::Linux | Platform::Windows | Platform::MacOs => true,
            _ => false,
        }
    }
}

} // verus!
