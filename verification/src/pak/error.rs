//! Why an operation on a package fails.

use crate::util;
use crate::util::error::IoError;
use vstd::prelude::*;

verus! {

/// The rule of the format that a piece of data breaks.
#[derive(Debug, Clone, Copy, PartialEq, Eq, Structural)]
pub enum Violation {
    /// The archive checksum section of a version 2 header is no whole number
    /// of records; the payload is the size found.
    ArchiveMd5SectionSize(u32),
    /// The second checksum section of a version 2 header has not the size of
    /// its one record; the payload is the size found.
    OtherMd5SectionSize(u32),
    /// The signature section of a version 2 header is neither absent nor of
    /// the size of its one record; the payload is the size found.
    SignatureSectionSize(u32),
    /// The public key of a signature section has not 160 bytes; the payload
    /// is the size found.
    PublicKeySize(u32),
    /// The signature of a signature section has not 128 bytes; the payload is
    /// the size found.
    SignatureSize(u32),
    /// The reserved field of a Respawn header is not zero; the payload is the
    /// value found.
    ReservedField(u32),
    /// A Respawn entry lists no file part.
    NoFileParts,
    /// An archive ends before the data of an entry does.
    ArchiveTooShort,
    /// The parts of an audio file hold fewer bytes than the metadata of the
    /// smallest audio file accounts for.
    AudioTooShort,
    /// The checksum of the reconstructed file differs from the one stored in
    /// its entry.
    CrcMismatch,
}

/// Failure of an operation on a package.
#[derive(Debug, Clone, Copy, PartialEq, Eq, Structural)]
pub enum Error {
    /// An entry does not end in the terminator; the payload is the value
    /// found in its place.
    InvalidEntryTerminator(u16),
    /// A header does not start with the signature; the payload is the value
    /// found in its place.
    InvalidSignature(u32),
    /// A header carries another version than the one asked for; the payload
    /// is the version found.
    BadVersion(u32),
    /// An archive or a sidecar file was not supplied.
    Io(IoError),
    /// The directory tree lists no file under the path asked for.
    FileNotFound,
    /// A primitive read failed.
    Util(util::error::Error),
    /// The data breaks a rule of the format.
    BadData(Violation),
    /// An entry declares preload bytes and the tree holds none for it, or a
    /// file part is compressed and its expanded bytes were not supplied.
    DataNotFound,
    /// No memory map was supplied for the archive with this index.
    MemoryMappedFileNotFound(u16),
    /// A length does not fit the width of the field that is to hold it.
    DataTooLarge,
}

/// The failure of a read that the end of the stream cut short.
pub open spec fn eof_error() -> Error {
    Error::Util(util::error::Error::Io(IoError::UnexpectedEof))
}

} // verus!
