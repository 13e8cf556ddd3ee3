//! Reading, reconstructing and writing VPK packages.
//!
//! A package is a directory file, which lists the packaged files, and a set
//! of numbered archives, which hold their contents. Three generations of the
//! format are supported: version 1, version 2 and the Respawn variant.
//!
//! The library works on bytes held in memory: a caller reads or maps the
//! files of a package and hands their bytes in.

pub mod detect;
pub mod pak;
pub mod util;
