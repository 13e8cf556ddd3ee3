//! Finding out the format of a directory file from its header.

pub mod error;
pub mod format;
pub mod worker;

pub use error::Error;
pub use format::PakFormat;
pub use worker::{detect_pak_format, find_pak_worker, Pak};
