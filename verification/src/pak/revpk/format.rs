//! The Respawn variant of the format: header, file parts and entries.

use crate::pak::entry::{DirEntry, VPK_ENTRY_TERMINATOR};
use crate::pak::error::{eof_error, Error, Violation};
use crate::util::file::{
    available, holds_at, lemma_holds_at_concat, lemma_u16_roundtrip, lemma_u32_roundtrip,
    lemma_u64_roundtrip, u16_at, u16_bytes, u32_at, u32_bytes, u64_at, u64_bytes, ByteReader,
    VPKFileReader, VPKFileWriter,
};
use vstd::prelude::*;

verus! {

/// The signature that starts a Respawn directory file.
pub const VPK_SIGNATURE_REVPK: u32 = 0x55AA_1234;

/// The version that a Respawn header carries.
pub const VPK_VERSION_REVPK: u32 = 196_610;

/// Number of bytes of a Respawn header.
pub const VPK_HEADER_SIZE_REVPK: u64 = 16;

/// The header of a Respawn directory file.
#[derive(Debug, Clone, Copy, PartialEq, Eq, Structural)]
pub struct VPKHeaderRespawn {
    /// The signature; `VPK_SIGNATURE_REVPK` in every valid header.
    pub signature: u32,
    /// The version; `VPK_VERSION_REVPK` in every valid header.
    pub version: u32,
    /// Number of bytes of the directory tree.
    pub tree_size: u32,
    /// A reserved field; zero in every header that is read.
    pub unknown: u32,
}

impl VPKHeaderRespawn {
    /// What reading a header at `pos` yields. The signature is judged
    /// before the version is read, the version before the tree size, and the
    /// reserved field last.
    pub open spec fn parse_at(data: Seq<u8>, pos: int) -> Result<VPKHeaderRespawn, Error> {
        if available(data, pos) < 4 {
            Err(eof_error())
        } else if u32_at(data, pos) != VPK_SIGNATURE_REVPK {
            Err(Error::InvalidSignature(u32_at(data, pos)))
        } else if available(data, pos) < 8 {
            Err(eof_error())
        } else if u32_at(data, pos + 4) != VPK_VERSION_REVPK {
            Err(Error::BadVersion(u32_at(data, pos + 4)))
        } else if available(data, pos) < 16 {
            Err(eof_error())
        } else if u32_at(data, pos + 12) != 0 {
            Err(Error::BadData(Violation::ReservedField(u32_at(data, pos + 12))))
        } else {
            Ok(
                VPKHeaderRespawn {
                    signature: u32_at(data, pos),
                    version: u32_at(data, pos + 4),
                    tree_size: u32_at(data, pos + 8),
                    unknown: u32_at(data, pos + 12),
                },
            )
        }
    }

    /// Why the header cannot be written, where it cannot: for what would
    /// fail it when read.
    pub open spec fn write_error(self) -> Option<Error> {
        if self.signature != VPK_SIGNATURE_REVPK {
            Some(Error::InvalidSignature(self.signature))
        } else if self.version != VPK_VERSION_REVPK {
            Some(Error::BadVersion(self.version))
        } else if self.unknown != 0 {
            Some(Error::BadData(Violation::ReservedField(self.unknown)))
        } else {
            None
        }
    }

    /// The bytes of the header in a directory file.
    pub open spec fn wire(self) -> Seq<u8> {
        u32_bytes(self.signature) + u32_bytes(self.version) + u32_bytes(self.tree_size)
            + u32_bytes(self.unknown)
    }

    /// Whether a Respawn header stands at `pos`, as far as signature and
    /// version tell.
    pub open spec fn probe_at(data: Seq<u8>, pos: int) -> bool {
        &&& available(data, pos) >= 8
        &&& u32_at(data, pos) == VPK_SIGNATURE_REVPK
        &&& u32_at(data, pos + 4) == VPK_VERSION_REVPK
    }

    /// Reads a header from a stream.
    pub fn from(file: &mut ByteReader<'_>) -> (r: Result<Self, Error>)
        ensures
            final(file).data() == old(file).data(),
            r == Self::parse_at(old(file).data(), old(file).position()),
            r is Ok ==> final(file).position() == old(file).position() + VPK_HEADER_SIZE_REVPK,
    {
        let signature = match file.read_u32() {
            Ok(v) => v,
            Err(e) => return Err(Error::Util(e)),
        };
        if signature != VPK_SIGNATURE_REVPK {
            return Err(Error::InvalidSignature(signature));
        }
        let version = match file.read_u32() {
            Ok(v) => v,
            Err(e) => return Err(Error::Util(e)),
        };
        if version != VPK_VERSION_REVPK {
            return Err(Error::BadVersion(version));
        }
        let tree_size = match file.read_u32() {
            Ok(v) => v,
            Err(e) => return Err(Error::Util(e)),
        };
        let unknown = match file.read_u32() {
            Ok(v) => v,
            Err(e) => return Err(Error::Util(e)),
        };
        if unknown != 0 {
            return Err(Error::BadData(Violation::ReservedField(unknown)));
        }
        Ok(VPKHeaderRespawn { signature, version, tree_size, unknown })
    }

    /// Writes the header to a stream. A header with another signature or
    /// version, or with a reserved field that is not zero, leaves the stream
    /// as it was.
    pub fn write(&self, file: &mut Vec<u8>) -> (r: Result<(), Error>)
        ensures
            match r {
                Ok(_) => self.write_error() is None && final(file)@ == old(file)@ + self.wire(),
                Err(e) => self.write_error() == Some(e) && final(file)@ == old(file)@,
            },
    {
        if self.signature != VPK_SIGNATURE_REVPK {
            return Err(Error::InvalidSignature(self.signature));
        }
        if self.version != VPK_VERSION_REVPK {
            return Err(Error::BadVersion(self.version));
        }
        if self.unknown != 0 {
            return Err(Error::BadData(Violation::ReservedField(self.unknown)));
        }
        file.write_u32(self.signature);
        file.write_u32(self.version);
        file.write_u32(self.tree_size);
        file.write_u32(self.unknown);
        assert(file@ =~= old(file)@ + self.wire());
        Ok(())
    }

    /// Whether the stream holds a Respawn header at the cursor. The cursor is
    /// left where it was.
    pub fn is_format(file: &mut ByteReader<'_>) -> (b: bool)
        ensures
            final(file).data() == old(file).data(),
            final(file).position() == old(file).position(),
            b == Self::probe_at(old(file).data(), old(file).position()),
    {
        let pos = file.stream_position();
        let signature = file.read_u32();
        let version = file.read_u32();
        file.seek(pos);
        match (signature, version) {
            (Ok(s), Ok(v)) => s == VPK_SIGNATURE_REVPK && v == VPK_VERSION_REVPK,
            _ => false,
        }
    }

    /// A written header is read back as it was.
    pub proof fn lemma_roundtrip(header: VPKHeaderRespawn, data: Seq<u8>, pos: int)
        requires
            header.write_error() is None,
            holds_at(data, pos, header.wire()),
        ensures
            VPKHeaderRespawn::parse_at(data, pos) == Ok::<VPKHeaderRespawn, Error>(header),
    {
        let a = u32_bytes(header.signature);
        let b = u32_bytes(header.version);
        let c = u32_bytes(header.tree_size);
        let d = u32_bytes(header.unknown);
        lemma_holds_at_concat(data, pos, a + b + c, d);
        lemma_holds_at_concat(data, pos, a + b, c);
        lemma_holds_at_concat(data, pos, a, b);
        lemma_u32_roundtrip(data, pos, header.signature);
        lemma_u32_roundtrip(data, pos + 4, header.version);
        lemma_u32_roundtrip(data, pos + 8, header.tree_size);
        lemma_u32_roundtrip(data, pos + 12, header.unknown);
    }
}

/// How the engine loads a file part.
#[derive(Debug, Clone, Copy, PartialEq, Eq, Structural)]
pub enum EPackedLoadFlags {
    /// No flag.
    LoadNone,
    /// The part is visible to the file system.
    LoadVisible,
    /// The part belongs to an asset that is not stored in the depot.
    LoadCache,
    /// A flag of cached assets.
    LoadAcacheUnk0,
    /// A flag of textures.
    LoadTextureUnk0,
    /// A flag of textures.
    LoadTextureUnk1,
    /// A flag of textures.
    LoadTextureUnk2,
}

impl EPackedLoadFlags {
    /// The bit that stands for the flag.
    pub open spec fn spec_bits(self) -> u32 {
        match self {
            EPackedLoadFlags::LoadNone => 0,
            EPackedLoadFlags::LoadVisible => 0x1,
            EPackedLoadFlags::LoadCache => 0x100,
            EPackedLoadFlags::LoadAcacheUnk0 => 0x400,
            EPackedLoadFlags::LoadTextureUnk0 => 0x4_0000,
            EPackedLoadFlags::LoadTextureUnk1 => 0x8_0000,
            EPackedLoadFlags::LoadTextureUnk2 => 0x10_0000,
        }
    }

    /// The bit that stands for the flag.
    pub fn bits(self) -> (bits: u32)
        ensures
            bits == self.spec_bits(),
    {
        match self {
            EPackedLoadFlags::LoadNone => 0,
            EPackedLoadFlags::LoadVisible => 0x1,
            EPackedLoadFlags::LoadCache => 0x100,
            EPackedLoadFlags::LoadAcacheUnk0 => 0x400,
            EPackedLoadFlags::LoadTextureUnk0 => 0x4_0000,
            EPackedLoadFlags::LoadTextureUnk1 => 0x8_0000,
            EPackedLoadFlags::LoadTextureUnk2 => 0x10_0000,
        }
    }
}

/// How the engine treats the texture in a file part.
#[derive(Debug, Clone, Copy, PartialEq, Eq, Structural)]
pub enum EPackedTextureFlags {
    /// No flag.
    TextureNone,
    /// An ordinary texture.
    TextureDefault,
    /// An environment map.
    TextureEnvironmentMap,
}

impl EPackedTextureFlags {
    /// The bit that stands for the flag.
    pub open spec fn spec_bits(self) -> u32 {
        match self {
            EPackedTextureFlags::TextureNone => 0,
            EPackedTextureFlags::TextureDefault => 0x8,
            EPackedTextureFlags::TextureEnvironmentMap => 0x400,
        }
    }

    /// The bit that stands for the flag.
    pub fn bits(self) -> (bits: u32)
        ensures
            bits == self.spec_bits(),
    {
        match self {
            EPackedTextureFlags::TextureNone => 0,
            EPackedTextureFlags::TextureDefault => 0x8,
            EPackedTextureFlags::TextureEnvironmentMap => 0x400,
        }
    }
}

/// Where six windows stand in a stream one behind the other, each stands
/// at the place that the lengths of those before it give.
proof fn lemma_six_windows(
    data: Seq<u8>,
    pos: int,
    a: Seq<u8>,
    b: Seq<u8>,
    c: Seq<u8>,
    d: Seq<u8>,
    e: Seq<u8>,
    f: Seq<u8>,
)
    requires
        holds_at(data, pos, a + b + c + d + e + f),
    ensures
        holds_at(data, pos, a),
        holds_at(data, pos + a.len(), b),
        holds_at(data, pos + a.len() + b.len(), c),
        holds_at(data, pos + a.len() + b.len() + c.len(), d),
        holds_at(data, pos + a.len() + b.len() + c.len() + d.len(), e),
        holds_at(data, pos + a.len() + b.len() + c.len() + d.len() + e.len(), f),
{
    lemma_holds_at_concat(data, pos, a + b + c + d + e, f);
    lemma_holds_at_concat(data, pos, a + b + c + d, e);
    lemma_holds_at_concat(data, pos, a + b + c, d);
    lemma_holds_at_concat(data, pos, a + b, c);
    lemma_holds_at_concat(data, pos, a, b);
}

/// One part of a file of a Respawn package: a run of bytes in an archive,
/// compressed or not.
#[derive(Debug, Clone, Copy, PartialEq, Eq, Structural)]
pub struct VPKFilePartEntryRespawn {
    /// Index of the archive that holds the part.
    pub archive_index: u16,
    /// The load flags; see `EPackedLoadFlags`.
    pub load_flags: u16,
    /// The texture flags; see `EPackedTextureFlags`.
    pub texture_flags: u32,
    /// Offset of the part in its archive.
    pub entry_offset: u64,
    /// Number of bytes of the part in its archive.
    pub entry_length: u64,
    /// Number of bytes of the part when expanded; equal to `entry_length`
    /// where the part is not compressed.
    pub entry_length_uncompressed: u64,
}

impl VPKFilePartEntryRespawn {
    /// A part without bytes.
    pub fn new() -> (part: Self)
        ensures
            part == (VPKFilePartEntryRespawn {
                archive_index: 0,
                load_flags: 0,
                texture_flags: 0,
                entry_offset: 0,
                entry_length: 0,
                entry_length_uncompressed: 0,
            }),
    {
        VPKFilePartEntryRespawn {
            archive_index: 0,
            load_flags: 0,
            texture_flags: 0,
            entry_offset: 0,
            entry_length: 0,
            entry_length_uncompressed: 0,
        }
    }

    /// The part whose fields stand at `pos`.
    pub open spec fn fields_at(data: Seq<u8>, pos: int) -> VPKFilePartEntryRespawn {
        VPKFilePartEntryRespawn {
            archive_index: u16_at(data, pos),
            load_flags: u16_at(data, pos + 2),
            texture_flags: u32_at(data, pos + 4),
            entry_offset: u64_at(data, pos + 8),
            entry_length: u64_at(data, pos + 16),
            entry_length_uncompressed: u64_at(data, pos + 24),
        }
    }

    /// The bytes of the part in a directory file.
    #[verifier::opaque]
    pub open spec fn wire(self) -> Seq<u8> {
        u16_bytes(self.archive_index) + u16_bytes(self.load_flags) + u32_bytes(self.texture_flags)
            + u64_bytes(self.entry_offset) + u64_bytes(self.entry_length) + u64_bytes(
            self.entry_length_uncompressed,
        )
    }

    /// A written part is read back as it was.
    pub proof fn lemma_roundtrip(part: VPKFilePartEntryRespawn, data: Seq<u8>, pos: int)
        requires
            holds_at(data, pos, part.wire()),
        ensures
            part.wire().len() == 32,
            Self::fields_at(data, pos) == part,
    {
        let a = u16_bytes(part.archive_index);
        let b = u16_bytes(part.load_flags);
        let c = u32_bytes(part.texture_flags);
        let d = u64_bytes(part.entry_offset);
        let e = u64_bytes(part.entry_length);
        let f = u64_bytes(part.entry_length_uncompressed);
        assert(part.wire() == a + b + c + d + e + f) by {
            reveal(VPKFilePartEntryRespawn::wire);
        }
        assert(a.len() == 2 && b.len() == 2 && c.len() == 4);
        assert(d.len() == 8 && e.len() == 8 && f.len() == 8);
        lemma_six_windows(data, pos, a, b, c, d, e, f);
        lemma_u16_roundtrip(data, pos, part.archive_index);
        lemma_u16_roundtrip(data, pos + 2, part.load_flags);
        lemma_u32_roundtrip(data, pos + 4, part.texture_flags);
        lemma_u64_roundtrip(data, pos + 8, part.entry_offset);
        lemma_u64_roundtrip(data, pos + 16, part.entry_length);
        lemma_u64_roundtrip(data, pos + 24, part.entry_length_uncompressed);
    }
}

impl Default for VPKFilePartEntryRespawn {
    fn default() -> (part: Self)
        ensures
            part == (VPKFilePartEntryRespawn {
                archive_index: 0,
                load_flags: 0,
                texture_flags: 0,
                entry_offset: 0,
                entry_length: 0,
                entry_length_uncompressed: 0,
            }),
    {
        VPKFilePartEntryRespawn::new()
    }
}

/// What reading the file parts of an entry yields, from `pos` on: the parts
/// and the number of bytes that they and their terminator take. The run ends
/// with the terminator in place of an archive index, or with the stream:
/// a run of whole parts that the stream ends behind has no terminator and
/// is read all the same, and two bytes that end the stream are taken for a
/// terminator whatever they hold. A stream that ends within a part fails
/// the read.
pub open spec fn parse_parts(data: Seq<u8>, pos: int) -> Result<
    (Seq<VPKFilePartEntryRespawn>, nat),
    Error,
>
    decreases data.len() - pos,
{
    if pos == data.len() {
        Ok((Seq::empty(), 0nat))
    } else if available(data, pos) < 2 {
        Err(eof_error())
    } else if u16_at(data, pos) == VPK_ENTRY_TERMINATOR || pos + 2 == data.len() {
        Ok((Seq::empty(), 2nat))
    } else if available(data, pos) < 32 {
        Err(eof_error())
    } else {
        match parse_parts(data, pos + 32) {
            Err(e) => Err(e),
            Ok((rest, taken)) => Ok(
                (seq![VPKFilePartEntryRespawn::fields_at(data, pos)] + rest, 32 + taken),
            ),
        }
    }
}

/// What reading parts from `pos` on yields, behind parts that were read
/// before and took `taken` bytes.
pub open spec fn parts_behind(
    parts: Seq<VPKFilePartEntryRespawn>,
    taken: nat,
    more: Result<(Seq<VPKFilePartEntryRespawn>, nat), Error>,
) -> Result<(Seq<VPKFilePartEntryRespawn>, nat), Error> {
    match more {
        Err(e) => Err(e),
        Ok((rest, further)) => Ok((parts + rest, taken + further)),
    }
}

/// The bytes of a run of parts in a directory file, without the terminator.
pub open spec fn wire_parts(parts: Seq<VPKFilePartEntryRespawn>) -> Seq<u8>
    decreases parts.len(),
{
    if parts.len() == 0 {
        Seq::empty()
    } else {
        parts[0].wire() + wire_parts(parts.drop_first())
    }
}

/// Writing one more part appends its bytes.
pub proof fn lemma_wire_parts_push(
    parts: Seq<VPKFilePartEntryRespawn>,
    part: VPKFilePartEntryRespawn,
)
    ensures
        wire_parts(parts.push(part)) == wire_parts(parts) + part.wire(),
    decreases parts.len(),
{
    if parts.len() == 0 {
        let one = parts.push(part);
        assert(one.drop_first() =~= Seq::<VPKFilePartEntryRespawn>::empty());
        assert(wire_parts(one.drop_first()) =~= Seq::<u8>::empty());
        assert(wire_parts(parts) =~= Seq::<u8>::empty());
        assert(one[0] == part);
        assert(wire_parts(one) =~= wire_parts(parts) + part.wire());
    } else {
        lemma_wire_parts_push(parts.drop_first(), part);
        assert(parts.push(part).drop_first() =~= parts.drop_first().push(part));
        assert(wire_parts(parts.push(part)) =~= wire_parts(parts) + part.wire());
    }
}

/// What an entry of a Respawn directory holds.
pub struct RespawnEntryModel {
    /// CRC-32/ISO-HDLC of the whole file.
    pub crc: u32,
    /// Number of preload bytes that follow the entry in the directory file.
    pub preload_length: u16,
    /// The parts of the file, in order.
    pub file_parts: Seq<VPKFilePartEntryRespawn>,
}

/// The entry of Respawn directories.
#[derive(Debug, Clone, PartialEq, Eq)]
pub struct VPKDirectoryEntryRespawn {
    /// CRC-32/ISO-HDLC of the whole file.
    pub crc: u32,
    /// Number of preload bytes that follow the entry in the directory file.
    pub preload_length: u16,
    /// The parts of the file, in order.
    pub file_parts: Vec<VPKFilePartEntryRespawn>,
}

impl View for VPKDirectoryEntryRespawn {
    type V = RespawnEntryModel;

    open spec fn view(&self) -> RespawnEntryModel {
        RespawnEntryModel {
            crc: self.crc,
            preload_length: self.preload_length,
            file_parts: self.file_parts@,
        }
    }
}

impl VPKDirectoryEntryRespawn {
    /// An entry without parts.
    pub fn new() -> (entry: Self)
        ensures
            entry@ == (RespawnEntryModel { crc: 0, preload_length: 0, file_parts: Seq::empty() }),
    {
        VPKDirectoryEntryRespawn { crc: 0, preload_length: 0, file_parts: Vec::new() }
    }
}

impl Default for VPKDirectoryEntryRespawn {
    fn default() -> (entry: Self)
        ensures
            entry@ == (RespawnEntryModel { crc: 0, preload_length: 0, file_parts: Seq::empty() }),
    {
        VPKDirectoryEntryRespawn::new()
    }
}

/// A run of written parts without a terminator among their archive indices
/// is read back as it was, together with the terminator behind it.
pub proof fn lemma_parts_roundtrip(parts: Seq<VPKFilePartEntryRespawn>, data: Seq<u8>, pos: int)
    requires
        forall|i: int| 0 <= i < parts.len() ==> (#[trigger] parts[i]).archive_index
            != VPK_ENTRY_TERMINATOR,
        holds_at(data, pos, wire_parts(parts) + u16_bytes(VPK_ENTRY_TERMINATOR)),
    ensures
        wire_parts(parts).len() == 32 * parts.len(),
        parse_parts(data, pos) == Ok::<(Seq<VPKFilePartEntryRespawn>, nat), Error>(
            (parts, (32 * parts.len() + 2) as nat),
        ),
    decreases parts.len(),
{
    let end = u16_bytes(VPK_ENTRY_TERMINATOR);
    if parts.len() == 0 {
        assert(wire_parts(parts) + end =~= end);
        lemma_u16_roundtrip(data, pos, VPK_ENTRY_TERMINATOR);
        assert(parts =~= Seq::<VPKFilePartEntryRespawn>::empty());
        assert(available(data, pos) >= 2);
        assert(u16_at(data, pos) == VPK_ENTRY_TERMINATOR);
    } else {
        let first = parts[0];
        let rest = parts.drop_first();
        assert(wire_parts(parts) + end =~= first.wire() + (wire_parts(rest) + end));
        lemma_holds_at_concat(data, pos, first.wire(), wire_parts(rest) + end);
        VPKFilePartEntryRespawn::lemma_roundtrip(first, data, pos);
        assert forall|i: int| 0 <= i < rest.len() implies (#[trigger] rest[i]).archive_index
            != VPK_ENTRY_TERMINATOR by {
            assert(rest[i] == parts[i + 1]);
        }
        lemma_parts_roundtrip(rest, data, pos + 32);
        assert(first.archive_index != VPK_ENTRY_TERMINATOR);
        assert(seq![first] + rest =~= parts);
        assert(parts.len() == rest.len() + 1);
        assert(available(data, pos) >= 32 + 2);
        assert(u16_at(data, pos) == first.archive_index);
        assert(parse_parts(data, pos + 32) == Ok::<(Seq<VPKFilePartEntryRespawn>, nat), Error>(
            (rest, (32 * rest.len() + 2) as nat),
        ));
        assert(wire_parts(parts).len() == 32 + wire_parts(rest).len());
    }
}

/// A run of written parts without a terminator among their archive indices
/// that the stream ends behind is read back as it was, though no terminator
/// follows it.
pub proof fn lemma_parts_to_the_end(parts: Seq<VPKFilePartEntryRespawn>, data: Seq<u8>, pos: int)
    requires
        forall|i: int| 0 <= i < parts.len() ==> (#[trigger] parts[i]).archive_index
            != VPK_ENTRY_TERMINATOR,
        holds_at(data, pos, wire_parts(parts)),
        pos + wire_parts(parts).len() == data.len(),
    ensures
        wire_parts(parts).len() == 32 * parts.len(),
        parse_parts(data, pos) == Ok::<(Seq<VPKFilePartEntryRespawn>, nat), Error>(
            (parts, (32 * parts.len()) as nat),
        ),
    decreases parts.len(),
{
    if parts.len() == 0 {
        assert(parts =~= Seq::<VPKFilePartEntryRespawn>::empty());
    } else {
        let first = parts[0];
        let rest = parts.drop_first();
        lemma_holds_at_concat(data, pos, first.wire(), wire_parts(rest));
        VPKFilePartEntryRespawn::lemma_roundtrip(first, data, pos);
        assert forall|i: int| 0 <= i < rest.len() implies (#[trigger] rest[i]).archive_index
            != VPK_ENTRY_TERMINATOR by {
            assert(rest[i] == parts[i + 1]);
        }
        lemma_parts_to_the_end(rest, data, pos + 32);
        assert(first.archive_index != VPK_ENTRY_TERMINATOR);
        assert(seq![first] + rest =~= parts);
        assert(parts.len() == rest.len() + 1);
        assert(available(data, pos) >= 32);
        assert(u16_at(data, pos) == first.archive_index);
        assert(parse_parts(data, pos + 32) == Ok::<(Seq<VPKFilePartEntryRespawn>, nat), Error>(
            (rest, (32 * rest.len()) as nat),
        ));
        assert(wire_parts(parts).len() == 32 + wire_parts(rest).len());
    }
}

/// The parts of an entry take no bytes from behind the end of the stream,
/// and no bytes at all only where the stream has ended.
pub proof fn lemma_parse_parts_bounds(data: Seq<u8>, pos: int)
    ensures
        parse_parts(data, pos) matches Ok((_, taken)) ==> 0 <= pos && pos + taken <= data.len()
            && (taken >= 2 || pos + taken == data.len()),
    decreases data.len() - pos,
{
    if pos != data.len() && available(data, pos) >= 32 && !(u16_at(data, pos)
        == VPK_ENTRY_TERMINATOR || pos + 2 == data.len()) {
        lemma_parse_parts_bounds(data, pos + 32);
    }
}

/// No part that was read holds the terminator in place of its archive
/// index.
pub proof fn lemma_parsed_parts(data: Seq<u8>, pos: int)
    ensures
        parse_parts(data, pos) matches Ok((parts, _)) ==> forall|i: int|
            0 <= i < parts.len() ==> (#[trigger] parts[i]).archive_index != VPK_ENTRY_TERMINATOR,
    decreases data.len() - pos,
{
    if pos != data.len() && available(data, pos) >= 32 && !(u16_at(data, pos)
        == VPK_ENTRY_TERMINATOR || pos + 2 == data.len()) {
        lemma_parsed_parts(data, pos + 32);
        if let Ok((rest, _)) = parse_parts(data, pos + 32) {
            let first = VPKFilePartEntryRespawn::fields_at(data, pos);
            let parts = seq![first] + rest;
            assert forall|i: int| 0 <= i < parts.len() implies (#[trigger] parts[i]).archive_index
                != VPK_ENTRY_TERMINATOR by {
                if i > 0 {
                    assert(parts[i] == rest[i - 1]);
                }
            }
        }
    }
}

impl DirEntry for VPKDirectoryEntryRespawn {
    open spec fn parse_at(data: Seq<u8>, pos: int) -> Result<(RespawnEntryModel, nat), Error> {
        if available(data, pos) < 6 {
            Err(eof_error())
        } else {
            match parse_parts(data, pos + 6) {
                Err(e) => Err(e),
                Ok((parts, taken)) => Ok(
                    (
                        RespawnEntryModel {
                            crc: u32_at(data, pos),
                            preload_length: u16_at(data, pos + 4),
                            file_parts: parts,
                        },
                        6 + taken,
                    ),
                ),
            }
        }
    }

    open spec fn write_error(entry: RespawnEntryModel) -> Option<Error> {
        None
    }

    open spec fn wire(entry: RespawnEntryModel) -> Seq<u8> {
        u32_bytes(entry.crc) + u16_bytes(entry.preload_length) + wire_parts(entry.file_parts)
            + u16_bytes(VPK_ENTRY_TERMINATOR)
    }

    open spec fn preload_len(entry: RespawnEntryModel) -> nat {
        entry.preload_length as nat
    }

    open spec fn faithful(entry: RespawnEntryModel) -> bool {
        forall|i: int|
            0 <= i < entry.file_parts.len() ==> (#[trigger] entry.file_parts[i]).archive_index
                != VPK_ENTRY_TERMINATOR
    }

    fn from(file: &mut ByteReader<'_>) -> (r: Result<Self, Error>) {
        let ghost data = file.data();
        let ghost start = file.position();
        let crc = match file.read_u32() {
            Ok(v) => v,
            Err(e) => return Err(Error::Util(e)),
        };
        let preload_length = match file.read_u16() {
            Ok(v) => v,
            Err(e) => return Err(Error::Util(e)),
        };
        let end = file.len();
        let mut file_parts: Vec<VPKFilePartEntryRespawn> = Vec::new();
        loop
            invariant
                file.data() == data,
                data == old(file).data(),
                start == old(file).position(),
                end == data.len(),
                available(data, start) >= 6,
                crc == u32_at(data, start),
                preload_length == u16_at(data, start + 4),
                file.position() == start + 6 + 32 * file_parts.len(),
                file.position() <= data.len(),
                parse_parts(data, start + 6) == parts_behind(
                    file_parts@,
                    (32 * file_parts.len()) as nat,
                    parse_parts(data, file.position()),
                ),
            decreases data.len() - file.position(),
        {
            let ghost at = file.position();
            let ghost before = file_parts@;
            if file.remaining() == 0 {
                assert(before + Seq::<VPKFilePartEntryRespawn>::empty() =~= before);
                return Ok(VPKDirectoryEntryRespawn { crc, preload_length, file_parts });
            }
            let archive_index = match file.read_u16() {
                Ok(v) => v,
                Err(e) => return Err(Error::Util(e)),
            };
            if archive_index == VPK_ENTRY_TERMINATOR || file.stream_position() == end {
                assert(before + Seq::<VPKFilePartEntryRespawn>::empty() =~= before);
                return Ok(VPKDirectoryEntryRespawn { crc, preload_length, file_parts });
            }
            let load_flags = match file.read_u16() {
                Ok(v) => v,
                Err(e) => return Err(Error::Util(e)),
            };
            let texture_flags = match file.read_u32() {
                Ok(v) => v,
                Err(e) => return Err(Error::Util(e)),
            };
            let entry_offset = match file.read_u64() {
                Ok(v) => v,
                Err(e) => return Err(Error::Util(e)),
            };
            let entry_length = match file.read_u64() {
                Ok(v) => v,
                Err(e) => return Err(Error::Util(e)),
            };
            let entry_length_uncompressed = match file.read_u64() {
                Ok(v) => v,
                Err(e) => return Err(Error::Util(e)),
            };
            let part = VPKFilePartEntryRespawn {
                archive_index,
                load_flags,
                texture_flags,
                entry_offset,
                entry_length,
                entry_length_uncompressed,
            };
            file_parts.push(part);
            proof {
                assert(part == VPKFilePartEntryRespawn::fields_at(data, at));
                match parse_parts(data, at + 32) {
                    Ok((rest, further)) => {
                        assert(before + (seq![part] + rest) =~= before.push(part) + rest);
                    },
                    Err(_) => {},
                }
            }
        }
    }

    fn write(&self, file: &mut Vec<u8>) -> (r: Result<(), Error>) {
        file.write_u32(self.crc);
        file.write_u16(self.preload_length);
        let ghost head = file@;
        let n = self.file_parts.len();
        let mut i: usize = 0;
        while i < n
            invariant
                i <= n,
                n == self.file_parts@.len(),
                file@ == head + wire_parts(self.file_parts@.subrange(0, i as int)),
            decreases n - i,
        {
            let part = &self.file_parts[i];
            let ghost so_far = file@;
            file.write_u16(part.archive_index);
            file.write_u16(part.load_flags);
            file.write_u32(part.texture_flags);
            file.write_u64(part.entry_offset);
            file.write_u64(part.entry_length);
            file.write_u64(part.entry_length_uncompressed);
            proof {
                assert(file@ =~= so_far + part.wire()) by {
                    reveal(VPKFilePartEntryRespawn::wire);
                }
                lemma_wire_parts_push(self.file_parts@.subrange(0, i as int), *part);
                assert(self.file_parts@.subrange(0, i as int).push(*part)
                    =~= self.file_parts@.subrange(0, i + 1));
            }
            i = i + 1;
        }
        assert(self.file_parts@.subrange(0, n as int) =~= self.file_parts@);
        file.write_u16(VPK_ENTRY_TERMINATOR);
        assert(file@ =~= old(file)@ + Self::wire(self@));
        Ok(())
    }

    fn validate(&self) -> (r: Result<(), Error>) {
        Ok(())
    }

    fn get_preload_length(&self) -> (n: usize) {
        self.preload_length as usize
    }

    proof fn lemma_parse_bounds(data: Seq<u8>, pos: int) {
        lemma_parse_parts_bounds(data, pos + 6);
    }

    proof fn lemma_parsed_faithful(data: Seq<u8>, pos: int) {
        lemma_parsed_parts(data, pos + 6);
    }

    proof fn lemma_roundtrip(entry: RespawnEntryModel, data: Seq<u8>, pos: int) {
        let a = u32_bytes(entry.crc);
        let b = u16_bytes(entry.preload_length);
        let c = wire_parts(entry.file_parts);
        let d = u16_bytes(VPK_ENTRY_TERMINATOR);
        assert(Self::wire(entry) =~= a + (b + (c + d)));
        lemma_holds_at_concat(data, pos, a, b + (c + d));
        lemma_holds_at_concat(data, pos + 4, b, c + d);
        lemma_u32_roundtrip(data, pos, entry.crc);
        lemma_u16_roundtrip(data, pos + 4, entry.preload_length);
        lemma_parts_roundtrip(entry.file_parts, data, pos + 6);
    }
}

} // verus!
