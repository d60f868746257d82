//! The operating systems a module can declare support for.

use vstd::prelude::*;

verus! {

/// A target operating system.
#[derive(Debug, Clone, Copy, PartialEq, Eq, Hash, Structural)]
pub enum Platform {
    Linux,
    Windows,
    MacOs,
    Android,
    Ios,
    Unknown,
}

/// The platform that a `target_os` name denotes.
pub open spec fn spec_platform_of(os: Seq<char>) -> Platform {
    if os == "linux"@ {
        Platform::Linux
    } else if os == "windows"@ {
        Platform::Windows
    } else if os == "macos"@ {
        Platform::MacOs
    } else if os == "android"@ {
        Platform::Android
    } else if os == "ios"@ {
        Platform::Ios
    } else {
        Platform::Unknown
    }
}

impl Platform {
    /// The platform for a Rust `target_os` name such as `"linux"`.
    pub fn from_target_os(os: &str) -> (p: Platform)
        ensures
            p == spec_platform_of(os@),
    {
        if crate::text::str_eq(os, "linux") {
            Platform::Linux
        } else if crate::text::str_eq(os, "windows") {
            Platform::Windows
        } else if crate::text::str_eq(os, "macos") {
            Platform::MacOs
        } else if crate::text::str_eq(os, "android") {
            Platform::Android
        } else if crate::text::str_eq(os, "ios") {
            Platform::Ios
        } else {
            Platform::Unknown
        }
    }
}

} // verus!
