//! The formats that a directory file can have.

use vstd::prelude::*;
use vstd::string::StringExecFns;

verus! {

/// The formats of directory files.
#[derive(Debug, Clone, Copy, PartialEq, Eq, Structural)]
pub enum PakFormat {
    /// No known format.
    Unknown,
    /// Version 1.
    VPKVersion1,
    /// Version 2.
    VPKVersion2,
    /// The Respawn variant.
    VPKRespawn,
}

impl PakFormat {
    /// The name of the format.
    pub open spec fn name(self) -> Seq<char> {
        match self {
            PakFormat::Unknown => "Unknown"@,
            PakFormat::VPKVersion1 => "VPK Version 1"@,
            PakFormat::VPKVersion2 => "VPK Version 2"@,
            PakFormat::VPKRespawn => "VPK Respawn"@,
        }
    }

    /// The name of the format.
    pub fn to_string(&self) -> (name: String)
        ensures
            name@ == self.name(),
    {
        match self {
            PakFormat::Unknown => String::from_str("Unknown"),
            PakFormat::VPKVersion1 => String::from_str("VPK Version 1"),
            PakFormat::VPKVersion2 => String::from_str("VPK Version 2"),
            PakFormat::VPKRespawn => String::from_str("VPK Respawn"),
        }
    }
}

} // verus!
