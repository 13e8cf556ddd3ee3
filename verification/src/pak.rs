//! The three generations of the format, and what they share.

pub mod archive;
pub mod content;
pub mod entry;
pub mod error;
pub mod map;
pub mod name;
pub mod path;
pub mod revpk;
pub mod roundtrip;
pub mod tree;
pub mod v1;
pub mod v2;
pub mod worker;

pub use entry::{DirEntry, VPKDirectoryEntry, VPK_ARCHIVE_INDEX_DIR, VPK_ENTRY_TERMINATOR};
pub use error::{Error, Violation};
pub use map::PathMap;
pub use tree::VPKTree;
pub use worker::{PakReader, PakWorker, PakWriter};
