//! Version 2 of the format. Directory files of this version are read, not
//! written.

use crate::pak::archive::Archives;
use crate::pak::content::{
    archives_needed, assemble, content_of, copy_in_chunks, needed_of,
};
use crate::pak::entry::VPKDirectoryEntry;
use crate::pak::error::{eof_error, Error, Violation};
use crate::pak::tree::{parse_tree, TreeModel, VPKTree};
use crate::pak::worker::PakReader;
use crate::util;
use crate::util::error::IoError;
use crate::util::file::{
    available, bytes_at, u32_at, ByteReader, VPKFileReader, VPKFileWriter,
};
use vstd::prelude::*;

verus! {

/// The signature that starts a version 2 directory file.
pub const VPK_SIGNATURE_V2: u32 = 0x55AA_1234;

/// The version that a version 2 header carries.
pub const VPK_VERSION_V2: u32 = 2;

/// Number of bytes of a version 2 header.
pub const VPK_HEADER_SIZE_V2: u64 = 28;

/// Number of bytes of a record of the archive checksum section.
pub const VPK_ARCHIVE_MD5_ENTRY_SIZE: u32 = 28;

/// Number of bytes of the record of the second checksum section.
pub const VPK_OTHER_MD5_SECTION_SIZE: u32 = 48;

/// Number of bytes of the record of the signature section.
pub const VPK_SIGNATURE_SECTION_SIZE: u32 = 296;

/// The header of a version 2 directory file.
#[derive(Debug, Clone, Copy, PartialEq, Eq, Structural)]
pub struct VPKHeaderV2 {
    /// The signature; `VPK_SIGNATURE_V2` in every valid header.
    pub signature: u32,
    /// The version; `VPK_VERSION_V2` in every valid header.
    pub version: u32,
    /// Number of bytes of the directory tree.
    pub tree_size: u32,
    /// Number of bytes of the file data that follow the tree.
    pub file_data_section_size: u32,
    /// Number of bytes of the archive checksum section; a multiple of
    /// `VPK_ARCHIVE_MD5_ENTRY_SIZE` in every valid header.
    pub archive_md5_section_size: u32,
    /// Number of bytes of the second checksum section;
    /// `VPK_OTHER_MD5_SECTION_SIZE` in every valid header.
    pub other_md5_section_size: u32,
    /// Number of bytes of the signature section; zero or
    /// `VPK_SIGNATURE_SECTION_SIZE` in every valid header.
    pub signature_section_size: u32,
}

impl VPKHeaderV2 {
    /// The header whose fields stand at `pos`.
    pub open spec fn fields_at(data: Seq<u8>, pos: int) -> VPKHeaderV2 {
        VPKHeaderV2 {
            signature: u32_at(data, pos),
            version: u32_at(data, pos + 4),
            tree_size: u32_at(data, pos + 8),
            file_data_section_size: u32_at(data, pos + 12),
            archive_md5_section_size: u32_at(data, pos + 16),
            other_md5_section_size: u32_at(data, pos + 20),
            signature_section_size: u32_at(data, pos + 24),
        }
    }

    /// What reading a header at `pos` yields. Every field is judged as soon
    /// as it is read: the signature, the version, and the sizes of the three
    /// sections of records.
    pub open spec fn parse_at(data: Seq<u8>, pos: int) -> Result<VPKHeaderV2, Error> {
        let header = Self::fields_at(data, pos);
        if available(data, pos) < 4 {
            Err(eof_error())
        } else if header.signature != VPK_SIGNATURE_V2 {
            Err(Error::InvalidSignature(header.signature))
        } else if available(data, pos) < 8 {
            Err(eof_error())
        } else if header.version != VPK_VERSION_V2 {
            Err(Error::BadVersion(header.version))
        } else if available(data, pos) < 20 {
            Err(eof_error())
        } else if header.archive_md5_section_size % VPK_ARCHIVE_MD5_ENTRY_SIZE != 0 {
            Err(Error::BadData(Violation::ArchiveMd5SectionSize(header.archive_md5_section_size)))
        } else if available(data, pos) < 24 {
            Err(eof_error())
        } else if header.other_md5_section_size != VPK_OTHER_MD5_SECTION_SIZE {
            Err(Error::BadData(Violation::OtherMd5SectionSize(header.other_md5_section_size)))
        } else if available(data, pos) < 28 {
            Err(eof_error())
        } else if header.signature_section_size != 0 && header.signature_section_size
            != VPK_SIGNATURE_SECTION_SIZE {
            Err(Error::BadData(Violation::SignatureSectionSize(header.signature_section_size)))
        } else {
            Ok(header)
        }
    }

    /// Whether a version 2 header stands at `pos`, as far as signature and
    /// version tell.
    pub open spec fn probe_at(data: Seq<u8>, pos: int) -> bool {
        &&& available(data, pos) >= 8
        &&& u32_at(data, pos) == VPK_SIGNATURE_V2
        &&& u32_at(data, pos + 4) == VPK_VERSION_V2
    }

    /// Reads a header from a stream.
    pub fn from(file: &mut ByteReader<'_>) -> (r: Result<Self, Error>)
        ensures
            final(file).data() == old(file).data(),
            r == Self::parse_at(old(file).data(), old(file).position()),
            r is Ok ==> final(file).position() == old(file).position() + VPK_HEADER_SIZE_V2,
    {
        let signature = match file.read_u32() {
            Ok(v) => v,
            Err(e) => return Err(Error::Util(e)),
        };
        if signature != VPK_SIGNATURE_V2 {
            return Err(Error::InvalidSignature(signature));
        }
        let version = match file.read_u32() {
            Ok(v) => v,
            Err(e) => return Err(Error::Util(e)),
        };
        if version != VPK_VERSION_V2 {
            return Err(Error::BadVersion(version));
        }
        let tree_size = match file.read_u32() {
            Ok(v) => v,
            Err(e) => return Err(Error::Util(e)),
        };
        let file_data_section_size = match file.read_u32() {
            Ok(v) => v,
            Err(e) => return Err(Error::Util(e)),
        };
        let archive_md5_section_size = match file.read_u32() {
            Ok(v) => v,
            Err(e) => return Err(Error::Util(e)),
        };
        if archive_md5_section_size % VPK_ARCHIVE_MD5_ENTRY_SIZE != 0 {
            return Err(Error::BadData(Violation::ArchiveMd5SectionSize(archive_md5_section_size)));
        }
        let other_md5_section_size = match file.read_u32() {
            Ok(v) => v,
            Err(e) => return Err(Error::Util(e)),
        };
        if other_md5_section_size != VPK_OTHER_MD5_SECTION_SIZE {
            return Err(Error::BadData(Violation::OtherMd5SectionSize(other_md5_section_size)));
        }
        let signature_section_size = match file.read_u32() {
            Ok(v) => v,
            Err(e) => return Err(Error::Util(e)),
        };
        if signature_section_size != 0 && signature_section_size != VPK_SIGNATURE_SECTION_SIZE {
            return Err(Error::BadData(Violation::SignatureSectionSize(signature_section_size)));
        }
        Ok(
            VPKHeaderV2 {
                signature,
                version,
                tree_size,
                file_data_section_size,
                archive_md5_section_size,
                other_md5_section_size,
                signature_section_size,
            },
        )
    }

    /// Whether the stream holds a version 2 header at the cursor. The cursor
    /// is left where it was.
    pub fn is_format(file: &mut ByteReader<'_>) -> (b: bool)
        ensures
            final(file).data() == old(file).data(),
            final(file).position() == old(file).position(),
            b == Self::probe_at(old(file).data(), old(file).position()),
    {
        let pos = file.stream_position();
        let signature = file.read_u32();
        let version = file.read_u32();
        file.seek(pos);
        match (signature, version) {
            (Ok(s), Ok(v)) => s == VPK_SIGNATURE_V2 && v == VPK_VERSION_V2,
            _ => false,
        }
    }
}

/// What a record of the archive checksum section holds.
pub struct ArchiveMd5Model {
    /// Index of the archive that the checksum is of.
    pub archive_index: u32,
    /// Where in the archive the checked bytes start.
    pub starting_offset: u32,
    /// Number of checked bytes.
    pub count: u32,
    /// The MD5 checksum of these bytes.
    pub md5_checksum: Seq<u8>,
}

/// A record of the archive checksum section: the checksum of a run of bytes
/// of an archive.
#[derive(Debug, Clone, Copy, PartialEq, Eq)]
pub struct VPKArchiveMD5SectionEntry {
    /// Index of the archive that the checksum is of.
    pub archive_index: u32,
    /// Where in the archive the checked bytes start.
    pub starting_offset: u32,
    /// Number of checked bytes.
    pub count: u32,
    /// The MD5 checksum of these bytes.
    pub md5_checksum: [u8; 16],
}

impl View for VPKArchiveMD5SectionEntry {
    type V = ArchiveMd5Model;

    open spec fn view(&self) -> ArchiveMd5Model {
        ArchiveMd5Model {
            archive_index: self.archive_index,
            starting_offset: self.starting_offset,
            count: self.count,
            md5_checksum: self.md5_checksum@,
        }
    }
}

/// What the record of the second checksum section holds.
pub struct OtherMd5Model {
    /// The MD5 checksum of the directory tree.
    pub tree_checksum: Seq<u8>,
    /// The MD5 checksum of the archive checksum section.
    pub archive_md5_section_checksum: Seq<u8>,
    /// Sixteen bytes of unknown meaning.
    pub unknown: Seq<u8>,
}

/// The record of the second checksum section: checksums of parts of the
/// directory file itself.
#[derive(Debug, Clone, Copy, PartialEq, Eq)]
pub struct VPKOtherMD5Section {
    /// The MD5 checksum of the directory tree.
    pub tree_checksum: [u8; 16],
    /// The MD5 checksum of the archive checksum section.
    pub archive_md5_section_checksum: [u8; 16],
    /// Sixteen bytes of unknown meaning.
    pub unknown: [u8; 16],
}

impl View for VPKOtherMD5Section {
    type V = OtherMd5Model;

    open spec fn view(&self) -> OtherMd5Model {
        OtherMd5Model {
            tree_checksum: self.tree_checksum@,
            archive_md5_section_checksum: self.archive_md5_section_checksum@,
            unknown: self.unknown@,
        }
    }
}

/// Sixteen zero bytes.
pub open spec fn zeros16() -> Seq<u8> {
    Seq::new(16, |i: int| 0u8)
}

impl VPKOtherMD5Section {
    /// A record of zeros.
    pub fn new() -> (section: Self)
        ensures
            section@ == (OtherMd5Model {
                tree_checksum: zeros16(),
                archive_md5_section_checksum: zeros16(),
                unknown: zeros16(),
            }),
    {
        let section = VPKOtherMD5Section {
            tree_checksum: [0u8;16],
            archive_md5_section_checksum: [0u8;16],
            unknown: [0u8;16],
        };
        assert(section.tree_checksum@ =~= zeros16());
        assert(section.archive_md5_section_checksum@ =~= zeros16());
        assert(section.unknown@ =~= zeros16());
        section
    }
}

impl Default for VPKOtherMD5Section {
    fn default() -> (section: Self)
        ensures
            section@ == (OtherMd5Model {
                tree_checksum: zeros16(),
                archive_md5_section_checksum: zeros16(),
                unknown: zeros16(),
            }),
    {
        VPKOtherMD5Section::new()
    }
}

/// What the record of the signature section holds.
pub struct SignatureModel {
    /// Number of bytes of the public key.
    pub public_key_size: u32,
    /// The public key.
    pub public_key: Seq<u8>,
    /// Number of bytes of the signature.
    pub signature_size: u32,
    /// The signature.
    pub signature: Seq<u8>,
}

/// The record of the signature section: a public key and a signature.
#[derive(Debug, Clone, Copy, PartialEq, Eq)]
pub struct VPKSignatureSection {
    /// Number of bytes of the public key.
    pub public_key_size: u32,
    /// The public key.
    pub public_key: [u8; 160],
    /// Number of bytes of the signature.
    pub signature_size: u32,
    /// The signature.
    pub signature: [u8; 128],
}

impl View for VPKSignatureSection {
    type V = SignatureModel;

    open spec fn view(&self) -> SignatureModel {
        SignatureModel {
            public_key_size: self.public_key_size,
            public_key: self.public_key@,
            signature_size: self.signature_size,
            signature: self.signature@,
        }
    }
}

/// Number of bytes that a read of `declared` bytes at `pos` yields.
pub open spec fn read_len(data: Seq<u8>, pos: int, declared: int) -> int {
    if declared <= available(data, pos) {
        declared
    } else {
        available(data, pos)
    }
}

/// The record of the archive checksum section that stands at `pos`.
pub open spec fn archive_md5_at(data: Seq<u8>, pos: int) -> ArchiveMd5Model {
    ArchiveMd5Model {
        archive_index: u32_at(data, pos),
        starting_offset: u32_at(data, pos + 4),
        count: u32_at(data, pos + 8),
        md5_checksum: bytes_at(data, pos + 12, 16),
    }
}

/// What reading `count` records of the archive checksum section yields,
/// from `pos` on.
pub open spec fn parse_archive_md5(data: Seq<u8>, pos: int, count: nat) -> Result<
    Seq<ArchiveMd5Model>,
    Error,
>
    decreases count,
{
    if count == 0 {
        Ok(Seq::empty())
    } else if available(data, pos) < 28 {
        Err(eof_error())
    } else {
        match parse_archive_md5(data, pos + 28, (count - 1) as nat) {
            Err(e) => Err(e),
            Ok(rest) => Ok(seq![archive_md5_at(data, pos)] + rest),
        }
    }
}

/// Records read so far, followed by those that are read next.
pub open spec fn more_md5(
    so_far: Seq<ArchiveMd5Model>,
    next: Result<Seq<ArchiveMd5Model>, Error>,
) -> Result<Seq<ArchiveMd5Model>, Error> {
    match next {
        Err(e) => Err(e),
        Ok(rest) => Ok(so_far + rest),
    }
}

/// What reading the signature section at `pos` yields: the record, where
/// the header declares one, and where the cursor then stands. A header that
/// declares no record declares an empty section, of which nothing is read.
/// The sizes of key and signature are judged when both have been read.
pub open spec fn parse_signature(data: Seq<u8>, pos: int, section_size: u32) -> Result<
    (Option<SignatureModel>, int),
    Error,
> {
    if section_size != VPK_SIGNATURE_SECTION_SIZE {
        Ok((None, pos))
    } else if available(data, pos) < 4 {
        Err(eof_error())
    } else {
        let key_size = u32_at(data, pos);
        let key_len = read_len(data, pos + 4, key_size as int);
        let after_key = pos + 4 + key_len;
        if available(data, after_key) < 4 {
            Err(eof_error())
        } else {
            let signature_size = u32_at(data, after_key);
            let signature_len = read_len(data, after_key + 4, signature_size as int);
            if key_len != 160 {
                Err(Error::BadData(Violation::PublicKeySize(key_len as u32)))
            } else if signature_len != 128 {
                Err(Error::BadData(Violation::SignatureSize(signature_len as u32)))
            } else {
                Ok(
                    (
                        Some(
                            SignatureModel {
                                public_key_size: key_size,
                                public_key: bytes_at(data, pos + 4, 160),
                                signature_size,
                                signature: bytes_at(data, after_key + 4, 128),
                            },
                        ),
                        after_key + 4 + 128,
                    ),
                )
            }
        }
    }
}

/// What a version 2 directory file holds.
pub struct V2Model {
    /// The header.
    pub header: VPKHeaderV2,
    /// The directory tree.
    pub tree: TreeModel<VPKDirectoryEntry>,
    /// The file data that follow the tree.
    pub file_data: Seq<u8>,
    /// The records of the archive checksum section.
    pub archive_md5_section_entries: Seq<ArchiveMd5Model>,
    /// The record of the second checksum section.
    pub other_md5_section: OtherMd5Model,
    /// The record of the signature section, where the file has one.
    pub signature_section: Option<SignatureModel>,
}

/// A version 2 package: the contents of its directory file.
#[derive(Debug)]
pub struct VPKVersion2 {
    /// The header.
    pub header: VPKHeaderV2,
    /// The directory tree.
    pub tree: VPKTree<VPKDirectoryEntry>,
    /// The file data that follow the tree.
    pub file_data: Vec<u8>,
    /// The records of the archive checksum section.
    pub archive_md5_section_entries: Vec<VPKArchiveMD5SectionEntry>,
    /// The record of the second checksum section.
    pub other_md5_section: VPKOtherMD5Section,
    /// The record of the signature section, where the file has one.
    pub signature_section: Option<VPKSignatureSection>,
}

impl View for VPKVersion2 {
    type V = V2Model;

    open spec fn view(&self) -> V2Model {
        V2Model {
            header: self.header,
            tree: self.tree@,
            file_data: self.file_data@,
            archive_md5_section_entries: Seq::new(
                self.archive_md5_section_entries@.len(),
                |i: int| self.archive_md5_section_entries@[i]@,
            ),
            other_md5_section: self.other_md5_section@,
            signature_section: match self.signature_section {
                Some(section) => Some(section@),
                None => None,
            },
        }
    }
}

/// What reading the records behind the file data yields, from `pos` on: the
/// archive checksums, the second checksum section and the signature section.
pub open spec fn parse_records(
    data: Seq<u8>,
    pos: int,
    header: VPKHeaderV2,
    tree: TreeModel<VPKDirectoryEntry>,
    file_data: Seq<u8>,
) -> Result<(V2Model, int), Error> {
    let count = (header.archive_md5_section_size / VPK_ARCHIVE_MD5_ENTRY_SIZE) as nat;
    let after_entries = pos + 28 * count;
    match parse_archive_md5(data, pos, count) {
        Err(e) => Err(e),
        Ok(entries) => if available(data, after_entries) < 48 {
            Err(eof_error())
        } else {
            match parse_signature(data, after_entries + 48, header.signature_section_size) {
                Err(e) => Err(e),
                Ok((signature_section, end)) => Ok(
                    (
                        V2Model {
                            header,
                            tree,
                            file_data,
                            archive_md5_section_entries: entries,
                            other_md5_section: OtherMd5Model {
                                tree_checksum: bytes_at(data, after_entries, 16),
                                archive_md5_section_checksum: bytes_at(
                                    data,
                                    after_entries + 16,
                                    16,
                                ),
                                unknown: bytes_at(data, after_entries + 32, 16),
                            },
                            signature_section,
                        },
                        end,
                    ),
                ),
            }
        },
    }
}

/// What reading the sections behind the tree yields, from `pos` on, for a
/// header and a tree that were read before: the file data, as many as the
/// header declares, and the records behind them.
pub open spec fn parse_sections(
    data: Seq<u8>,
    pos: int,
    header: VPKHeaderV2,
    tree: TreeModel<VPKDirectoryEntry>,
) -> Result<(V2Model, int), Error> {
    if available(data, pos) < header.file_data_section_size {
        Err(eof_error())
    } else {
        parse_records(
            data,
            pos + header.file_data_section_size,
            header,
            tree,
            bytes_at(data, pos, header.file_data_section_size as int),
        )
    }
}

/// Reads sixteen bytes.
fn read_16(file: &mut ByteReader<'_>) -> (r: Result<[u8; 16], Error>)
    ensures
        final(file).data() == old(file).data(),
        match r {
            Ok(bytes) => available(old(file).data(), old(file).position()) >= 16 && bytes@
                == bytes_at(old(file).data(), old(file).position(), 16) && final(file).position()
                == old(file).position() + 16,
            Err(e) => available(old(file).data(), old(file).position()) < 16 && e == eof_error(),
        },
{
    let bytes = match file.read_bytes(16) {
        Ok(bytes) => bytes,
        Err(e) => return Err(Error::Util(e)),
    };
    if bytes.len() != 16 {
        return Err(Error::Util(util::error::Error::Io(IoError::UnexpectedEof)));
    }
    let mut out = [0u8; 16];
    let mut i: usize = 0;
    while i < 16
        invariant
            i <= 16,
            bytes@.len() == 16,
            forall|k: int| 0 <= k < i ==> out@[k] == bytes@[k],
        decreases 16 - i,
    {
        out[i] = bytes[i];
        i = i + 1;
    }
    assert(out@ =~= bytes@);
    Ok(out)
}

impl VPKVersion2 {
    /// What reading a directory file at `pos` yields: its contents, and
    /// where the cursor then stands. The sections are read from where the
    /// reading of the tree ended.
    pub open spec fn parse_at(data: Seq<u8>, pos: int) -> Result<(V2Model, int), Error> {
        match VPKHeaderV2::parse_at(data, pos) {
            Err(e) => Err(e),
            Ok(header) => match parse_tree::<VPKDirectoryEntry>(
                data,
                pos + VPK_HEADER_SIZE_V2,
                header.tree_size as int,
            ) {
                Err(e) => Err(e),
                Ok((tree, after_tree)) => parse_sections(data, after_tree, header, tree),
            },
        }
    }

    /// A package without files: no file data, no archive checksums, a second
    /// checksum section of zeros and no signature.
    pub fn new() -> (vpk: Self)
        ensures
            vpk@ == (V2Model {
                header: VPKHeaderV2 {
                    signature: VPK_SIGNATURE_V2,
                    version: VPK_VERSION_V2,
                    tree_size: 0,
                    file_data_section_size: 0,
                    archive_md5_section_size: 0,
                    other_md5_section_size: VPK_OTHER_MD5_SECTION_SIZE,
                    signature_section_size: 0,
                },
                tree: TreeModel::<VPKDirectoryEntry>::empty(),
                file_data: Seq::empty(),
                archive_md5_section_entries: Seq::empty(),
                other_md5_section: OtherMd5Model {
                    tree_checksum: zeros16(),
                    archive_md5_section_checksum: zeros16(),
                    unknown: zeros16(),
                },
                signature_section: None,
            }),
    {
        let vpk = VPKVersion2 {
            header: VPKHeaderV2 {
                signature: VPK_SIGNATURE_V2,
                version: VPK_VERSION_V2,
                tree_size: 0,
                file_data_section_size: 0,
                archive_md5_section_size: 0,
                other_md5_section_size: VPK_OTHER_MD5_SECTION_SIZE,
                signature_section_size: 0,
            },
            tree: VPKTree::new(),
            file_data: Vec::new(),
            archive_md5_section_entries: Vec::new(),
            other_md5_section: VPKOtherMD5Section::new(),
            signature_section: None,
        };
        assert(vpk@.archive_md5_section_entries =~= Seq::<ArchiveMd5Model>::empty());
        vpk
    }

    /// Reads the records of the archive checksum section.
    fn read_archive_md5(file: &mut ByteReader<'_>, count: u32) -> (r: Result<
        Vec<VPKArchiveMD5SectionEntry>,
        Error,
    >)
        ensures
            final(file).data() == old(file).data(),
            match parse_archive_md5(old(file).data(), old(file).position(), count as nat) {
                Ok(entries) => r matches Ok(found) && Seq::new(found@.len(), |i: int| found@[i]@)
                    == entries && final(file).position() == old(file).position() + 28 * count,
                Err(e) => r matches Err(err) && err == e,
            },
    {
        let ghost data = file.data();
        let ghost start = file.position();
        let ghost goal = parse_archive_md5(data, start, count as nat);
        let mut entries: Vec<VPKArchiveMD5SectionEntry> = Vec::new();
        let mut i: u32 = 0;
        assert(Seq::new(entries@.len(), |k: int| entries@[k]@) =~= Seq::<ArchiveMd5Model>::empty());
        while i < count
            invariant
                i <= count,
                file.data() == data,
                data == old(file).data(),
                start == old(file).position(),
                entries@.len() == i,
                file.position() == start + 28 * i,
                goal == parse_archive_md5(data, start, count as nat),
                goal == more_md5(
                    Seq::new(entries@.len(), |k: int| entries@[k]@),
                    parse_archive_md5(data, file.position(), (count - i) as nat),
                ),
            decreases count - i,
        {
            let ghost at = file.position();
            let ghost before = Seq::new(entries@.len(), |k: int| entries@[k]@);
            let archive_index = match file.read_u32() {
                Ok(v) => v,
                Err(e) => return Err(Error::Util(e)),
            };
            let starting_offset = match file.read_u32() {
                Ok(v) => v,
                Err(e) => return Err(Error::Util(e)),
            };
            let count_field = match file.read_u32() {
                Ok(v) => v,
                Err(e) => return Err(Error::Util(e)),
            };
            let md5_checksum = match read_16(file) {
                Ok(v) => v,
                Err(e) => return Err(e),
            };
            let entry = VPKArchiveMD5SectionEntry {
                archive_index,
                starting_offset,
                count: count_field,
                md5_checksum,
            };
            entries.push(entry);
            i = i + 1;
            proof {
                assert(entry@ == archive_md5_at(data, at));
                let now = Seq::new(entries@.len(), |k: int| entries@[k]@);
                assert(now =~= before + seq![entry@]);
                match parse_archive_md5(data, at + 28, (count - i) as nat) {
                    Ok(rest) => {
                        assert(before + (seq![entry@] + rest) =~= now + rest);
                    },
                    Err(_) => {},
                }
            }
        }
        proof {
            let now = Seq::new(entries@.len(), |k: int| entries@[k]@);
            assert(now + Seq::<ArchiveMd5Model>::empty() =~= now);
        }
        Ok(entries)
    }

    /// Reads a run of bytes of a declared size into an array; the number of
    /// bytes that the stream held of them, where they are not as many as the
    /// array takes.
    fn read_sized<const N: usize>(file: &mut ByteReader<'_>, declared: u32) -> (r: Result<
        [u8; N],
        u32,
    >)
        ensures
            final(file).data() == old(file).data(),
            final(file).position() == old(file).position() + read_len(
                old(file).data(),
                old(file).position(),
                declared as int,
            ),
            match r {
                Ok(bytes) => read_len(old(file).data(), old(file).position(), declared as int)
                    == N && bytes@ == bytes_at(old(file).data(), old(file).position(), N as int),
                Err(n) => n != N && n == read_len(
                    old(file).data(),
                    old(file).position(),
                    declared as int,
                ),
            },
    {
        let bytes = match file.read_bytes(declared as usize) {
            Ok(bytes) => bytes,
            Err(_) => Vec::new(),
        };
        if bytes.len() != N {
            return Err(bytes.len() as u32);
        }
        let mut out = [0u8;N];
        let mut i: usize = 0;
        while i < N
            invariant
                i <= N,
                bytes@.len() == N,
                forall|k: int| 0 <= k < i ==> out@[k] == bytes@[k],
            decreases N - i,
        {
            out[i] = bytes[i];
            i = i + 1;
        }
        assert(out@ =~= bytes@);
        Ok(out)
    }

    /// Reads the signature section.
    fn read_signature(file: &mut ByteReader<'_>, section_size: u32) -> (r: Result<
        Option<VPKSignatureSection>,
        Error,
    >)
        ensures
            final(file).data() == old(file).data(),
            match parse_signature(old(file).data(), old(file).position(), section_size) {
                Ok((section, end)) => r matches Ok(found) && final(file).position() == end && (
                match found {
                    Some(record) => section == Some(record@),
                    None => section is None,
                }),
                Err(e) => r matches Err(err) && err == e,
            },
    {
        if section_size != VPK_SIGNATURE_SECTION_SIZE {
            return Ok(None);
        }
        let public_key_size = match file.read_u32() {
            Ok(v) => v,
            Err(e) => return Err(Error::Util(e)),
        };
        let public_key = Self::read_sized::<160>(file, public_key_size);
        let signature_size = match file.read_u32() {
            Ok(v) => v,
            Err(e) => return Err(Error::Util(e)),
        };
        let signature = Self::read_sized::<128>(file, signature_size);
        let public_key = match public_key {
            Ok(bytes) => bytes,
            Err(n) => return Err(Error::BadData(Violation::PublicKeySize(n))),
        };
        let signature = match signature {
            Ok(bytes) => bytes,
            Err(n) => return Err(Error::BadData(Violation::SignatureSize(n))),
        };
        Ok(Some(VPKSignatureSection { public_key_size, public_key, signature_size, signature }))
    }

    /// Reads a package from its directory file: the header, the tree, the
    /// file data, the archive checksums, the second checksum section and the
    /// signature section.
    pub fn from_file(file: &mut ByteReader<'_>) -> (r: Result<Self, Error>)
        ensures
            final(file).data() == old(file).data(),
            match Self::parse_at(old(file).data(), old(file).position()) {
                Ok((model, end)) => r matches Ok(vpk) && vpk@ == model && final(file).position()
                    == end,
                Err(e) => r matches Err(err) && err == e,
            },
    {
        let header = match VPKHeaderV2::from(file) {
            Ok(header) => header,
            Err(e) => return Err(e),
        };
        let tree_start = file.stream_position();
        let tree = match VPKTree::from(file, tree_start, header.tree_size as u64) {
            Ok(tree) => tree,
            Err(e) => return Err(e),
        };
        Self::read_sections(file, header, tree)
    }

    /// Reads the sections behind the tree.
    fn read_sections(
        file: &mut ByteReader<'_>,
        header: VPKHeaderV2,
        tree: VPKTree<VPKDirectoryEntry>,
    ) -> (r: Result<Self, Error>)
        ensures
            final(file).data() == old(file).data(),
            match parse_sections(old(file).data(), old(file).position(), header, tree@) {
                Ok((model, end)) => r matches Ok(vpk) && vpk@ == model && final(file).position()
                    == end,
                Err(e) => r matches Err(err) && err == e,
            },
    {
        let file_data = match file.read_bytes(header.file_data_section_size as usize) {
            Ok(bytes) => bytes,
            Err(e) => return Err(Error::Util(e)),
        };
        if file_data.len() != header.file_data_section_size as usize {
            return Err(Error::Util(util::error::Error::Io(IoError::UnexpectedEof)));
        }
        let count = header.archive_md5_section_size / VPK_ARCHIVE_MD5_ENTRY_SIZE;
        let archive_md5_section_entries = match Self::read_archive_md5(file, count) {
            Ok(entries) => entries,
            Err(e) => return Err(e),
        };
        let tree_checksum = match read_16(file) {
            Ok(v) => v,
            Err(e) => return Err(e),
        };
        let archive_md5_section_checksum = match read_16(file) {
            Ok(v) => v,
            Err(e) => return Err(e),
        };
        let unknown = match read_16(file) {
            Ok(v) => v,
            Err(e) => return Err(e),
        };
        let other_md5_section = VPKOtherMD5Section {
            tree_checksum,
            archive_md5_section_checksum,
            unknown,
        };
        let signature_section = match Self::read_signature(file, header.signature_section_size) {
            Ok(section) => section,
            Err(e) => return Err(e),
        };
        Ok(
            VPKVersion2 {
                header,
                tree,
                file_data,
                archive_md5_section_entries,
                other_md5_section,
                signature_section,
            },
        )
    }
}

impl PakReader for VPKVersion2 {
    /// The contents of a file: its preload bytes and its bytes in an
    /// archive. The offset of an entry of the directory file counts from the
    /// end of the tree.
    open spec fn content(
        &self,
        archives: Map<u16, Seq<u8>>,
        inflated: Map<u128, Seq<u8>>,
        path: Seq<u8>,
        mapped: bool,
    ) -> Result<Seq<u8>, Error> {
        content_of(
            self.tree@,
            VPK_HEADER_SIZE_V2 + self.header.tree_size,
            archives,
            path,
            mapped,
        )
    }

    open spec fn needed(&self, path: Seq<u8>) -> Set<u16> {
        needed_of(self.tree@, path)
    }

    fn archives_of(&self, file_path: &str) -> (r: Vec<u16>) {
        archives_needed(&self.tree, file_path)
    }

    fn read_file(&self, archives: &Archives<'_>, file_path: &str) -> (r: Option<Vec<u8>>) {
        let data_start = VPK_HEADER_SIZE_V2 + self.header.tree_size as u64;
        match assemble(&self.tree, data_start, archives, file_path, false) {
            Ok(bytes) => Some(bytes),
            Err(_) => None,
        }
    }

    fn extract_file(&self, archives: &Archives<'_>, file_path: &str, output: &mut Vec<u8>) -> (r:
        Result<(), Error>) {
        let data_start = VPK_HEADER_SIZE_V2 + self.header.tree_size as u64;
        let bytes = match assemble(&self.tree, data_start, archives, file_path, false) {
            Ok(bytes) => bytes,
            Err(e) => return Err(e),
        };
        copy_in_chunks(bytes.as_slice(), output);
        Ok(())
    }

    fn extract_file_mem_map(
        &self,
        archive_mmaps: &Archives<'_>,
        file_path: &str,
        output: &mut Vec<u8>,
    ) -> (r: Result<(), Error>) {
        let data_start = VPK_HEADER_SIZE_V2 + self.header.tree_size as u64;
        let bytes = match assemble(&self.tree, data_start, archive_mmaps, file_path, true) {
            Ok(bytes) => bytes,
            Err(e) => return Err(e),
        };
        output.reserve(bytes.len());
        output.write_bytes(bytes.as_slice());
        Ok(())
    }
}

} // verus!
