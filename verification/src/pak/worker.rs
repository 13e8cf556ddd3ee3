//! What packages of every generation offer.

use crate::pak::archive::Archives;
use crate::pak::error::Error;
use crate::util::file::{ByteReader, VPKFileReader};
use vstd::prelude::*;
use vstd::utf8::encode_utf8;

verus! {

/// Reading the contents of the files of a package.
pub trait PakReader {
    /// The contents of the file under `path`, or why they cannot be had,
    /// given the bytes of the archives and the expanded bytes of compressed
    /// parts. With `mapped` the archives are memory maps, and an archive
    /// that is needed and was not supplied fails with its index.
    spec fn content(
        &self,
        archives: Map<u16, Seq<u8>>,
        inflated: Map<u128, Seq<u8>>,
        path: Seq<u8>,
        mapped: bool,
    ) -> Result<Seq<u8>, Error>;

    /// The indices of the archives that hold bytes of the file under `path`;
    /// none for a path that is not listed.
    spec fn needed(&self, path: Seq<u8>) -> Set<u16>;

    /// The indices of the archives that the reconstruction of the file under
    /// `file_path` needs, each once.
    fn archives_of(&self, file_path: &str) -> (r: Vec<u16>)
        ensures
            r@.no_duplicates(),
            forall|index: u16|
                r@.contains(index) <==> self.needed(encode_utf8(file_path@)).contains(index),
    ;

    /// The contents of the file under `file_path`, where they can be had.
    fn read_file(&self, archives: &Archives<'_>, file_path: &str) -> (r: Option<Vec<u8>>)
        ensures
            match self.content(
                archives.contents(),
                archives.inflated(),
                encode_utf8(file_path@),
                false,
            ) {
                Ok(bytes) => r matches Some(found) && found@ == bytes,
                Err(_) => r is None,
            },
    ;

    /// Appends the contents of the file under `file_path` to the output, in
    /// bounded steps. A failure leaves the output as it was.
    fn extract_file(&self, archives: &Archives<'_>, file_path: &str, output: &mut Vec<u8>) -> (r:
        Result<(), Error>)
        ensures
            match self.content(
                archives.contents(),
                archives.inflated(),
                encode_utf8(file_path@),
                false,
            ) {
                Ok(bytes) => r is Ok && final(output)@ == old(output)@ + bytes,
                Err(e) => r == Err::<(), Error>(e) && final(output)@ == old(output)@,
            },
    ;

    /// Appends the contents of the file under `file_path` to the output,
    /// which is sized for them beforehand. The archives are memory maps. A
    /// failure leaves the output as it was.
    fn extract_file_mem_map(
        &self,
        archive_mmaps: &Archives<'_>,
        file_path: &str,
        output: &mut Vec<u8>,
    ) -> (r: Result<(), Error>)
        ensures
            match self.content(
                archive_mmaps.contents(),
                archive_mmaps.inflated(),
                encode_utf8(file_path@),
                true,
            ) {
                Ok(bytes) => r is Ok && final(output)@ == old(output)@ + bytes,
                Err(e) => r == Err::<(), Error>(e) && final(output)@ == old(output)@,
            },
    ;
}

/// Writing the directory file of a package.
pub trait PakWriter {
    /// Why the package cannot be written, where it cannot.
    spec fn write_error(&self) -> Option<Error>;

    /// The bytes of the directory file of the package.
    spec fn wire(&self) -> Seq<u8>;

    /// The directory file of the package: the header as it stands, and the
    /// tree. No archive is touched.
    fn write_dir(&self) -> (r: Result<Vec<u8>, Error>)
        ensures
            match r {
                Ok(bytes) => self.write_error() is None && bytes@ == self.wire(),
                Err(e) => self.write_error() == Some(e),
            },
    ;
}

/// Making packages, empty or from a directory file.
pub trait PakWorker: PakReader + PakWriter + Sized {
    /// Why no package can be read from the stream at `pos`, where none can.
    spec fn read_error(data: Seq<u8>, pos: int) -> Option<Error>;

    /// The package is what reading the stream from `pos` to `end` yields.
    spec fn read_from(&self, data: Seq<u8>, pos: int, end: int) -> bool;

    /// The package is empty.
    spec fn is_empty(&self) -> bool;

    /// A package without files.
    fn new() -> (vpk: Self)
        ensures
            vpk.is_empty(),
    ;

    /// Reads a package from its directory file.
    fn from_file(file: &mut ByteReader<'_>) -> (r: Result<Self, Error>)
        ensures
            final(file).data() == old(file).data(),
            match r {
                Ok(vpk) => Self::read_error(old(file).data(), old(file).position()) is None
                    && vpk.read_from(
                    old(file).data(),
                    old(file).position(),
                    final(file).position(),
                ),
                Err(e) => Self::read_error(old(file).data(), old(file).position()) == Some(e),
            },
    ;
}

} // verus!
