//! Directory entries: the record that the tree holds for each file.

use crate::pak::error::Error;
use crate::util;
use crate::util::error::IoError;
use crate::util::file::{
    available, holds_at, lemma_holds_at_concat, lemma_u16_roundtrip, lemma_u32_roundtrip, u16_at,
    u16_bytes, u32_at, u32_bytes, ByteReader, VPKFileReader, VPKFileWriter,
};
use vstd::prelude::*;

verus! {

/// The two bytes that end an entry.
pub const VPK_ENTRY_TERMINATOR: u16 = 0xFFFF;

/// The archive index that stands for the directory file itself: the data of
/// such an entry follows the directory tree.
pub const VPK_ARCHIVE_INDEX_DIR: u16 = 0x7FFF;

/// What the entry formats of the three generations have in common.
pub trait DirEntry: View + Sized {
    /// What reading an entry at `pos` yields: the entry and the number of
    /// bytes that it takes, or the failure.
    spec fn parse_at(data: Seq<u8>, pos: int) -> Result<(Self::V, nat), Error>;

    /// Why the entry cannot be written, where it cannot.
    spec fn write_error(entry: Self::V) -> Option<Error>;

    /// The bytes of the entry in a directory file.
    spec fn wire(entry: Self::V) -> Seq<u8>;

    /// Number of preload bytes that follow the entry in the directory file.
    spec fn preload_len(entry: Self::V) -> nat;

    /// An entry that is read back as it was written.
    spec fn faithful(entry: Self::V) -> bool;

    /// Reads an entry from a stream.
    fn from(file: &mut ByteReader<'_>) -> (r: Result<Self, Error>)
        ensures
            final(file).data() == old(file).data(),
            match r {
                Ok(entry) => Self::parse_at(old(file).data(), old(file).position()) matches Ok(
                    (parsed, taken),
                ) && parsed == entry@ && final(file).position() == old(file).position() + taken,
                Err(e) => Self::parse_at(old(file).data(), old(file).position()) == Err::<
                    (Self::V, nat),
                    Error,
                >(e),
            },
    ;

    /// Writes the entry to a stream. An entry that cannot be written leaves
    /// the stream as it was.
    fn write(&self, file: &mut Vec<u8>) -> (r: Result<(), Error>)
        ensures
            match r {
                Ok(_) => Self::write_error(self@) is None && final(file)@ == old(file)@
                    + Self::wire(self@),
                Err(e) => Self::write_error(self@) == Some(e) && final(file)@ == old(file)@,
            },
    ;

    /// Whether the entry can be written.
    fn validate(&self) -> (r: Result<(), Error>)
        ensures
            match r {
                Ok(_) => Self::write_error(self@) is None,
                Err(e) => Self::write_error(self@) == Some(e),
            },
    ;

    /// Number of preload bytes of the entry; zero where all of the file's
    /// data is in archives.
    fn get_preload_length(&self) -> (n: usize)
        ensures
            n == Self::preload_len(self@),
    ;

    /// An entry takes at least one byte of the stream, and none from behind
    /// its end.
    proof fn lemma_parse_bounds(data: Seq<u8>, pos: int)
        ensures
            Self::parse_at(data, pos) matches Ok((_, taken)) ==> 0 <= pos && taken > 0 && pos
                + taken <= data.len(),
    ;

    /// An entry that was read can be written, and is faithful.
    proof fn lemma_parsed_faithful(data: Seq<u8>, pos: int)
        ensures
            Self::parse_at(data, pos) matches Ok((entry, _)) ==> Self::write_error(entry) is None
                && Self::faithful(entry),
    ;

    /// A faithful entry is read back as it was written.
    proof fn lemma_roundtrip(entry: Self::V, data: Seq<u8>, pos: int)
        requires
            Self::write_error(entry) is None,
            Self::faithful(entry),
            holds_at(data, pos, Self::wire(entry)),
        ensures
            Self::parse_at(data, pos) == Ok::<(Self::V, nat), Error>(
                (entry, Self::wire(entry).len()),
            ),
    ;
}

/// The entry of version 1 and version 2 directories.
#[derive(Debug, Clone, Copy, PartialEq, Eq, Structural)]
pub struct VPKDirectoryEntry {
    /// CRC-32/ISO-HDLC of the whole file.
    pub crc: u32,
    /// Number of preload bytes that follow the entry in the directory file.
    pub preload_length: u16,
    /// Index of the archive that holds the data, or `VPK_ARCHIVE_INDEX_DIR`
    /// where the data follows the directory tree.
    pub archive_index: u16,
    /// Offset of the data: from the end of the tree where `archive_index` is
    /// `VPK_ARCHIVE_INDEX_DIR`, else from the start of the archive.
    pub entry_offset: u32,
    /// Number of bytes at `entry_offset`; zero where the file is all preload.
    pub entry_length: u32,
    /// The terminator; `VPK_ENTRY_TERMINATOR` in every valid entry.
    pub terminator: u16,
}

impl View for VPKDirectoryEntry {
    type V = VPKDirectoryEntry;

    open spec fn view(&self) -> VPKDirectoryEntry {
        *self
    }
}

impl VPKDirectoryEntry {
    /// An entry of an empty file.
    pub fn new() -> (entry: Self)
        ensures
            entry == (VPKDirectoryEntry {
                crc: 0,
                preload_length: 0,
                archive_index: 0,
                entry_offset: 0,
                entry_length: 0,
                terminator: VPK_ENTRY_TERMINATOR,
            }),
    {
        VPKDirectoryEntry {
            crc: 0,
            preload_length: 0,
            archive_index: 0,
            entry_offset: 0,
            entry_length: 0,
            terminator: VPK_ENTRY_TERMINATOR,
        }
    }

    /// The entry whose fields stand at `pos`.
    pub open spec fn fields_at(data: Seq<u8>, pos: int) -> VPKDirectoryEntry {
        VPKDirectoryEntry {
            crc: u32_at(data, pos),
            preload_length: u16_at(data, pos + 4),
            archive_index: u16_at(data, pos + 6),
            entry_offset: u32_at(data, pos + 8),
            entry_length: u32_at(data, pos + 12),
            terminator: u16_at(data, pos + 16),
        }
    }
}

impl Default for VPKDirectoryEntry {
    fn default() -> (entry: Self)
        ensures
            entry == (VPKDirectoryEntry {
                crc: 0,
                preload_length: 0,
                archive_index: 0,
                entry_offset: 0,
                entry_length: 0,
                terminator: VPK_ENTRY_TERMINATOR,
            }),
    {
        VPKDirectoryEntry::new()
    }
}

impl DirEntry for VPKDirectoryEntry {
    open spec fn parse_at(data: Seq<u8>, pos: int) -> Result<(VPKDirectoryEntry, nat), Error> {
        if available(data, pos) < 18 {
            Err(Error::Util(util::error::Error::Io(IoError::UnexpectedEof)))
        } else if u16_at(data, pos + 16) != VPK_ENTRY_TERMINATOR {
            Err(Error::InvalidEntryTerminator(u16_at(data, pos + 16)))
        } else {
            Ok((VPKDirectoryEntry::fields_at(data, pos), 18nat))
        }
    }

    open spec fn write_error(entry: VPKDirectoryEntry) -> Option<Error> {
        if entry.terminator != VPK_ENTRY_TERMINATOR {
            Some(Error::InvalidEntryTerminator(entry.terminator))
        } else {
            None
        }
    }

    open spec fn wire(entry: VPKDirectoryEntry) -> Seq<u8> {
        u32_bytes(entry.crc) + u16_bytes(entry.preload_length) + u16_bytes(entry.archive_index)
            + u32_bytes(entry.entry_offset) + u32_bytes(entry.entry_length) + u16_bytes(
            entry.terminator,
        )
    }

    open spec fn preload_len(entry: VPKDirectoryEntry) -> nat {
        entry.preload_length as nat
    }

    open spec fn faithful(entry: VPKDirectoryEntry) -> bool {
        true
    }

    fn from(file: &mut ByteReader<'_>) -> (r: Result<Self, Error>) {
        let crc = match file.read_u32() {
            Ok(v) => v,
            Err(e) => return Err(Error::Util(e)),
        };
        let preload_length = match file.read_u16() {
            Ok(v) => v,
            Err(e) => return Err(Error::Util(e)),
        };
        let archive_index = match file.read_u16() {
            Ok(v) => v,
            Err(e) => return Err(Error::Util(e)),
        };
        let entry_offset = match file.read_u32() {
            Ok(v) => v,
            Err(e) => return Err(Error::Util(e)),
        };
        let entry_length = match file.read_u32() {
            Ok(v) => v,
            Err(e) => return Err(Error::Util(e)),
        };
        let terminator = match file.read_u16() {
            Ok(v) => v,
            Err(e) => return Err(Error::Util(e)),
        };
        if terminator != VPK_ENTRY_TERMINATOR {
            return Err(Error::InvalidEntryTerminator(terminator));
        }
        Ok(
            VPKDirectoryEntry {
                crc,
                preload_length,
                archive_index,
                entry_offset,
                entry_length,
                terminator,
            },
        )
    }

    fn write(&self, file: &mut Vec<u8>) -> (r: Result<(), Error>) {
        match self.validate() {
            Ok(_) => {},
            Err(e) => return Err(e),
        }
        file.write_u32(self.crc);
        file.write_u16(self.preload_length);
        file.write_u16(self.archive_index);
        file.write_u32(self.entry_offset);
        file.write_u32(self.entry_length);
        file.write_u16(self.terminator);
        assert(file@ =~= old(file)@ + Self::wire(*self));
        Ok(())
    }

    fn validate(&self) -> (r: Result<(), Error>) {
        if self.terminator != VPK_ENTRY_TERMINATOR {
            Err(Error::InvalidEntryTerminator(self.terminator))
        } else {
            Ok(())
        }
    }

    fn get_preload_length(&self) -> (n: usize) {
        self.preload_length as usize
    }

    proof fn lemma_parse_bounds(data: Seq<u8>, pos: int) {
    }

    proof fn lemma_parsed_faithful(data: Seq<u8>, pos: int) {
    }

    proof fn lemma_roundtrip(entry: VPKDirectoryEntry, data: Seq<u8>, pos: int) {
        let a = u32_bytes(entry.crc);
        let b = u16_bytes(entry.preload_length);
        let c = u16_bytes(entry.archive_index);
        let d = u32_bytes(entry.entry_offset);
        let e = u32_bytes(entry.entry_length);
        let f = u16_bytes(entry.terminator);
        lemma_holds_at_concat(data, pos, a + b + c + d + e, f);
        lemma_holds_at_concat(data, pos, a + b + c + d, e);
        lemma_holds_at_concat(data, pos, a + b + c, d);
        lemma_holds_at_concat(data, pos, a + b, c);
        lemma_holds_at_concat(data, pos, a, b);
        lemma_u32_roundtrip(data, pos, entry.crc);
        lemma_u16_roundtrip(data, pos + 4, entry.preload_length);
        lemma_u16_roundtrip(data, pos + 6, entry.archive_index);
        lemma_u32_roundtrip(data, pos + 8, entry.entry_offset);
        lemma_u32_roundtrip(data, pos + 12, entry.entry_length);
        lemma_u16_roundtrip(data, pos + 16, entry.terminator);
    }
}

} // verus!
