//! Detection of the format, and packages of a format that is found out on
//! reading.

use crate::detect::error::Error;
use crate::detect::format::PakFormat;
use crate::pak;
use crate::pak::archive::Archives;
use crate::pak::revpk::format::VPKHeaderRespawn;
use crate::pak::revpk::package::VPKRespawn;
use crate::pak::v1::{VPKHeaderV1, VPKVersion1};
use crate::pak::v2::{VPKHeaderV2, VPKVersion2};
use crate::pak::worker::{PakReader, PakWorker};
use crate::util::file::{available, u32_at, ByteReader, VPKFileReader};
use vstd::prelude::*;

verus! {

/// The format of the directory file that stands at `pos`: the one whose
/// signature and version stand there, if any.
pub open spec fn detected(data: Seq<u8>, pos: int) -> PakFormat {
    if VPKHeaderV1::probe_at(data, pos) {
        PakFormat::VPKVersion1
    } else if VPKHeaderV2::probe_at(data, pos) {
        PakFormat::VPKVersion2
    } else if VPKHeaderRespawn::probe_at(data, pos) {
        PakFormat::VPKRespawn
    } else {
        PakFormat::Unknown
    }
}

/// Finds out the format of the directory file in the stream. The cursor is
/// left where it was.
pub fn detect_pak_format(file: &mut ByteReader<'_>) -> (format: PakFormat)
    ensures
        final(file).data() == old(file).data(),
        final(file).position() == old(file).position(),
        format == detected(old(file).data(), old(file).position()),
{
    if VPKHeaderV1::is_format(file) {
        return PakFormat::VPKVersion1;
    }
    if VPKHeaderV2::is_format(file) {
        return PakFormat::VPKVersion2;
    }
    if VPKHeaderRespawn::is_format(file) {
        return PakFormat::VPKRespawn;
    }
    PakFormat::Unknown
}

/// A header that is read as one of the three formats is detected as that
/// format; a stream that starts with another signature, another version or
/// fewer than eight bytes is of no known format.
pub proof fn lemma_detection(data: Seq<u8>, pos: int)
    ensures
        VPKHeaderV1::parse_at(data, pos) is Ok ==> detected(data, pos) == PakFormat::VPKVersion1,
        VPKHeaderV2::parse_at(data, pos) is Ok ==> detected(data, pos) == PakFormat::VPKVersion2,
        VPKHeaderRespawn::parse_at(data, pos) is Ok ==> detected(data, pos)
            == PakFormat::VPKRespawn,
        available(data, pos) < 8 ==> detected(data, pos) == PakFormat::Unknown,
        u32_at(data, pos) != 0x55AA_1234 ==> detected(data, pos) == PakFormat::Unknown,
        u32_at(data, pos + 4) != 1 && u32_at(data, pos + 4) != 2 && u32_at(data, pos + 4)
            != 196_610 ==> detected(data, pos) == PakFormat::Unknown,
{
}

/// A package of any of the three formats.
#[derive(Debug)]
pub enum Pak {
    /// A version 1 package.
    Version1(VPKVersion1),
    /// A version 2 package.
    Version2(VPKVersion2),
    /// A Respawn package.
    Respawn(VPKRespawn),
}

impl Pak {
    /// The format of the package.
    pub fn format(&self) -> (format: PakFormat)
        ensures
            format == match self {
                Pak::Version1(_) => PakFormat::VPKVersion1,
                Pak::Version2(_) => PakFormat::VPKVersion2,
                Pak::Respawn(_) => PakFormat::VPKRespawn,
            },
    {
        match self {
            Pak::Version1(_) => PakFormat::VPKVersion1,
            Pak::Version2(_) => PakFormat::VPKVersion2,
            Pak::Respawn(_) => PakFormat::VPKRespawn,
        }
    }
}

impl PakReader for Pak {
    /// The contents of a file, as the format of the package has them.
    open spec fn content(
        &self,
        archives: Map<u16, Seq<u8>>,
        inflated: Map<u128, Seq<u8>>,
        path: Seq<u8>,
        mapped: bool,
    ) -> Result<Seq<u8>, pak::Error> {
        match self {
            Pak::Version1(vpk) => vpk.content(archives, inflated, path, mapped),
            Pak::Version2(vpk) => vpk.content(archives, inflated, path, mapped),
            Pak::Respawn(vpk) => vpk.content(archives, inflated, path, mapped),
        }
    }

    open spec fn needed(&self, path: Seq<u8>) -> Set<u16> {
        match self {
            Pak::Version1(vpk) => vpk.needed(path),
            Pak::Version2(vpk) => vpk.needed(path),
            Pak::Respawn(vpk) => vpk.needed(path),
        }
    }

    fn archives_of(&self, file_path: &str) -> (r: Vec<u16>) {
        match self {
            Pak::Version1(vpk) => vpk.archives_of(file_path),
            Pak::Version2(vpk) => vpk.archives_of(file_path),
            Pak::Respawn(vpk) => vpk.archives_of(file_path),
        }
    }

    fn read_file(&self, archives: &Archives<'_>, file_path: &str) -> (r: Option<Vec<u8>>) {
        match self {
            Pak::Version1(vpk) => vpk.read_file(archives, file_path),
            Pak::Version2(vpk) => vpk.read_file(archives, file_path),
            Pak::Respawn(vpk) => vpk.read_file(archives, file_path),
        }
    }

    fn extract_file(&self, archives: &Archives<'_>, file_path: &str, output: &mut Vec<u8>) -> (r:
        Result<(), pak::Error>) {
        match self {
            Pak::Version1(vpk) => vpk.extract_file(archives, file_path, output),
            Pak::Version2(vpk) => vpk.extract_file(archives, file_path, output),
            Pak::Respawn(vpk) => vpk.extract_file(archives, file_path, output),
        }
    }

    fn extract_file_mem_map(
        &self,
        archive_mmaps: &Archives<'_>,
        file_path: &str,
        output: &mut Vec<u8>,
    ) -> (r: Result<(), pak::Error>) {
        match self {
            Pak::Version1(vpk) => vpk.extract_file_mem_map(archive_mmaps, file_path, output),
            Pak::Version2(vpk) => vpk.extract_file_mem_map(archive_mmaps, file_path, output),
            Pak::Respawn(vpk) => vpk.extract_file_mem_map(archive_mmaps, file_path, output),
        }
    }
}

/// Finds out the format of the directory file in the stream and reads the
/// package.
pub fn find_pak_worker(file: &mut ByteReader<'_>) -> (r: Result<Pak, Error>)
    ensures
        final(file).data() == old(file).data(),
        match detected(old(file).data(), old(file).position()) {
            PakFormat::Unknown => r matches Err(e) && e == Error::UnknownFormat
                && final(file).position() == old(file).position(),
            PakFormat::VPKVersion1 => match VPKVersion1::parse_at(
                old(file).data(),
                old(file).position(),
            ) {
                Ok((header, tree, end)) => r matches Ok(Pak::Version1(vpk)) && vpk.header
                    == header && vpk.tree@ == tree && final(file).position() == end,
                Err(e) => r matches Err(err) && err == Error::Pak(e),
            },
            PakFormat::VPKVersion2 => match VPKVersion2::parse_at(
                old(file).data(),
                old(file).position(),
            ) {
                Ok((model, end)) => r matches Ok(Pak::Version2(vpk)) && vpk@ == model
                    && final(file).position() == end,
                Err(e) => r matches Err(err) && err == Error::Pak(e),
            },
            PakFormat::VPKRespawn => match VPKRespawn::parse_at(
                old(file).data(),
                old(file).position(),
            ) {
                Ok((header, tree, end)) => r matches Ok(Pak::Respawn(vpk)) && vpk.header
                    == header && vpk.tree@ == tree && final(file).position() == end,
                Err(e) => r matches Err(err) && err == Error::Pak(e),
            },
        },
{
    match detect_pak_format(file) {
        PakFormat::VPKVersion1 => match VPKVersion1::from_file(file) {
            Ok(vpk) => Ok(Pak::Version1(vpk)),
            Err(e) => Err(Error::Pak(e)),
        },
        PakFormat::VPKVersion2 => match VPKVersion2::from_file(file) {
            Ok(vpk) => Ok(Pak::Version2(vpk)),
            Err(e) => Err(Error::Pak(e)),
        },
        PakFormat::VPKRespawn => match VPKRespawn::from_file(file) {
            Ok(vpk) => Ok(Pak::Respawn(vpk)),
            Err(e) => Err(Error::Pak(e)),
        },
        PakFormat::Unknown => Err(Error::UnknownFormat),
    }
}

} // verus!
