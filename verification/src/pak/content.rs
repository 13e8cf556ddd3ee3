//! The contents of a file of a version 1 or version 2 package: its preload
//! bytes, followed by its bytes in an archive.
//!
//! A file is reconstructed in two steps. Its bytes are gathered from the
//! tree and the archives; then their checksum is judged against the one in
//! the entry of the file.

use crate::pak::archive::{crc32, crc32_iso_hdlc, Archives};
use crate::pak::entry::{VPKDirectoryEntry, VPK_ARCHIVE_INDEX_DIR};
use crate::pak::error::{Error, Violation};
use crate::pak::tree::{TreeModel, VPKTree};
use crate::util::error::IoError;
use crate::util::file::VPKFileWriter;
use vstd::prelude::*;
use vstd::slice::slice_subrange;
use vstd::utf8::encode_utf8;

verus! {

/// The most bytes that are copied to the output at once.
pub const VPK_COPY_CHUNK: usize = 0x10_0000;

/// The failure of an operation that lacks the archive with the given index:
/// an operation on memory maps names the index.
pub open spec fn archive_missing(mapped: bool, index: u16) -> Error {
    if mapped {
        Error::MemoryMappedFileNotFound(index)
    } else {
        Error::Io(IoError::NotFound)
    }
}

/// Where the data of an entry starts in its archive. Under the index
/// `VPK_ARCHIVE_INDEX_DIR` the archive is the directory file, and the offset
/// counts from `data_start`, the end of the directory tree.
pub open spec fn data_offset(entry: VPKDirectoryEntry, data_start: int) -> int {
    if entry.archive_index == VPK_ARCHIVE_INDEX_DIR {
        data_start + entry.entry_offset
    } else {
        entry.entry_offset as int
    }
}

/// The bytes of the file with the given entry and preload bytes: the
/// preload bytes, and as many bytes as the entry declares from its archive.
pub open spec fn assembled(
    entry: VPKDirectoryEntry,
    preload: Seq<u8>,
    data_start: int,
    archives: Map<u16, Seq<u8>>,
    mapped: bool,
) -> Result<Seq<u8>, Error> {
    if entry.entry_length == 0 {
        Ok(preload)
    } else if !archives.contains_key(entry.archive_index) {
        Err(archive_missing(mapped, entry.archive_index))
    } else {
        let archive = archives[entry.archive_index];
        let from = data_offset(entry, data_start);
        if from + entry.entry_length > archive.len() {
            Err(Error::BadData(Violation::ArchiveTooShort))
        } else {
            Ok(preload + archive.subrange(from, from + entry.entry_length))
        }
    }
}

/// The preload bytes of the file under `path`: those that the tree holds,
/// where the entry declares some.
pub open spec fn preload_of<T>(tree: TreeModel<T>, path: Seq<u8>, declared: u16) -> Seq<u8> {
    if declared > 0 {
        tree.preload[path]
    } else {
        Seq::empty()
    }
}

/// The bytes of the file under `path` before their checksum is judged, or
/// why they cannot be had. The file must be listed; where its entry
/// declares preload bytes, the tree must hold them; where it declares bytes
/// in an archive, the archive must be supplied and hold them.
pub open spec fn gathered_of(
    tree: TreeModel<VPKDirectoryEntry>,
    data_start: int,
    archives: Map<u16, Seq<u8>>,
    path: Seq<u8>,
    mapped: bool,
) -> Result<Seq<u8>, Error> {
    if !tree.files.contains_key(path) {
        Err(Error::FileNotFound)
    } else if tree.files[path].preload_length > 0 && !tree.preload.contains_key(path) {
        Err(Error::DataNotFound)
    } else {
        assembled(
            tree.files[path],
            preload_of(tree, path, tree.files[path].preload_length),
            data_start,
            archives,
            mapped,
        )
    }
}

/// Bytes whose checksum is `sum`, judged against the checksum `crc` of
/// their entry: the bytes, where the two are the same.
pub open spec fn judged(bytes: Seq<u8>, sum: u32, crc: u32) -> Result<Seq<u8>, Error> {
    if sum != crc {
        Err(Error::BadData(Violation::CrcMismatch))
    } else {
        Ok(bytes)
    }
}

/// The contents of the file under `path`, or why they cannot be had: the
/// bytes that are gathered for it, where their checksum is the one that the
/// entry of the file holds.
pub open spec fn content_of(
    tree: TreeModel<VPKDirectoryEntry>,
    data_start: int,
    archives: Map<u16, Seq<u8>>,
    path: Seq<u8>,
    mapped: bool,
) -> Result<Seq<u8>, Error> {
    match gathered_of(tree, data_start, archives, path, mapped) {
        Err(e) => Err(e),
        Ok(bytes) => judged(bytes, crc32_iso_hdlc(bytes), tree.files[path].crc),
    }
}

/// Gathers the bytes of the file under `file_path`, and the checksum that
/// its entry holds for them.
pub fn gather(
    tree: &VPKTree<VPKDirectoryEntry>,
    data_start: u64,
    archives: &Archives<'_>,
    file_path: &str,
    mapped: bool,
) -> (r: Result<(Vec<u8>, u32), Error>)
    ensures
        match gathered_of(
            tree@,
            data_start as int,
            archives.contents(),
            encode_utf8(file_path@),
            mapped,
        ) {
            Ok(bytes) => r matches Ok((found, crc)) && found@ == bytes && crc
                == tree@.files[encode_utf8(file_path@)].crc,
            Err(e) => r matches Err(err) && err == e,
        },
{
    let entry = match tree.files.get(file_path) {
        Some(entry) => *entry,
        None => return Err(Error::FileNotFound),
    };
    let mut buf: Vec<u8> = Vec::new();
    if entry.preload_length > 0 {
        match tree.preload.get(file_path) {
            Some(bytes) => buf.write_bytes(bytes.as_slice()),
            None => return Err(Error::DataNotFound),
        }
    }
    assert(buf@ =~= preload_of(tree@, encode_utf8(file_path@), entry.preload_length));
    if entry.entry_length > 0 {
        let archive = match archives.get(entry.archive_index) {
            Some(archive) => archive,
            None => {
                if mapped {
                    return Err(Error::MemoryMappedFileNotFound(entry.archive_index));
                } else {
                    return Err(Error::Io(IoError::NotFound));
                }
            },
        };
        let from: u128 = if entry.archive_index == VPK_ARCHIVE_INDEX_DIR {
            data_start as u128 + entry.entry_offset as u128
        } else {
            entry.entry_offset as u128
        };
        let until: u128 = from + entry.entry_length as u128;
        if until > archive.len() as u128 {
            return Err(Error::BadData(Violation::ArchiveTooShort));
        }
        buf.write_bytes(slice_subrange(archive, from as usize, until as usize));
    }
    Ok((buf, entry.crc))
}

/// Judges bytes whose checksum is `sum` against the checksum `crc` of their
/// entry, and hands them on where the two are the same.
pub fn judge(bytes: Vec<u8>, sum: u32, crc: u32) -> (r: Result<Vec<u8>, Error>)
    ensures
        match judged(bytes@, sum, crc) {
            Ok(same) => r == Ok::<Vec<u8>, Error>(bytes),
            Err(e) => r == Err::<Vec<u8>, Error>(e),
        },
{
    if sum != crc {
        Err(Error::BadData(Violation::CrcMismatch))
    } else {
        Ok(bytes)
    }
}

/// Reconstructs the file under `file_path`: gathers its bytes and judges
/// their checksum.
pub fn assemble(
    tree: &VPKTree<VPKDirectoryEntry>,
    data_start: u64,
    archives: &Archives<'_>,
    file_path: &str,
    mapped: bool,
) -> (r: Result<Vec<u8>, Error>)
    ensures
        match content_of(
            tree@,
            data_start as int,
            archives.contents(),
            encode_utf8(file_path@),
            mapped,
        ) {
            Ok(bytes) => r matches Ok(found) && found@ == bytes,
            Err(e) => r matches Err(err) && err == e,
        },
{
    let (bytes, crc) = match gather(tree, data_start, archives, file_path, mapped) {
        Ok(gathered) => gathered,
        Err(e) => return Err(e),
    };
    let sum = crc32(bytes.as_slice());
    judge(bytes, sum, crc)
}

/// Contents that are had carry the checksum of their entry; bytes that are
/// gathered and carry another checksum are refused as such.
pub proof fn lemma_checksum_enforced(
    tree: TreeModel<VPKDirectoryEntry>,
    data_start: int,
    archives: Map<u16, Seq<u8>>,
    path: Seq<u8>,
    mapped: bool,
)
    ensures
        content_of(tree, data_start, archives, path, mapped) matches Ok(bytes)
            ==> crc32_iso_hdlc(bytes) == tree.files[path].crc,
        gathered_of(tree, data_start, archives, path, mapped) matches Ok(bytes) && crc32_iso_hdlc(
            bytes,
        ) != tree.files[path].crc ==> content_of(tree, data_start, archives, path, mapped) == Err::<
            Seq<u8>,
            Error,
        >(Error::BadData(Violation::CrcMismatch)),
{
}

/// The data of an entry of the directory file are read from the directory
/// file, at the offset of the entry behind the end of the tree, whatever the
/// other archives hold.
pub proof fn lemma_directory_data(
    tree: TreeModel<VPKDirectoryEntry>,
    data_start: int,
    archives: Map<u16, Seq<u8>>,
    other_archives: Map<u16, Seq<u8>>,
    path: Seq<u8>,
    mapped: bool,
)
    requires
        tree.files.contains_key(path),
        tree.files[path].archive_index == VPK_ARCHIVE_INDEX_DIR,
        tree.files[path].entry_length > 0,
        archives.contains_key(VPK_ARCHIVE_INDEX_DIR),
        other_archives.contains_key(VPK_ARCHIVE_INDEX_DIR),
        archives[VPK_ARCHIVE_INDEX_DIR] == other_archives[VPK_ARCHIVE_INDEX_DIR],
    ensures
        content_of(tree, data_start, archives, path, mapped) == content_of(
            tree,
            data_start,
            other_archives,
            path,
            mapped,
        ),
        content_of(tree, data_start, archives, path, mapped) matches Ok(bytes) ==> bytes
            == preload_of(tree, path, tree.files[path].preload_length)
            + archives[VPK_ARCHIVE_INDEX_DIR].subrange(
            data_start + tree.files[path].entry_offset,
            data_start + tree.files[path].entry_offset + tree.files[path].entry_length,
        ),
{
}

/// The indices of the archives that hold bytes of the file under `path`: the
/// index in its entry, where the entry declares bytes in an archive.
pub open spec fn needed_of(tree: TreeModel<VPKDirectoryEntry>, path: Seq<u8>) -> Set<u16> {
    if tree.files.contains_key(path) && tree.files[path].entry_length > 0 {
        set![tree.files[path].archive_index]
    } else {
        Set::empty()
    }
}

/// The indices of the archives that the reconstruction of the file under
/// `file_path` needs.
pub fn archives_needed(tree: &VPKTree<VPKDirectoryEntry>, file_path: &str) -> (r: Vec<u16>)
    ensures
        r@.no_duplicates(),
        forall|index: u16|
            r@.contains(index) <==> needed_of(tree@, encode_utf8(file_path@)).contains(index),
{
    let mut found: Vec<u16> = Vec::new();
    match tree.files.get(file_path) {
        Some(entry) => {
            if entry.entry_length > 0 {
                found.push(entry.archive_index);
                assert(found@[0] == entry.archive_index);
            }
        },
        None => {},
    }
    found
}

/// Appends `bytes` to the output, at most `VPK_COPY_CHUNK` bytes at a time.
pub fn copy_in_chunks(bytes: &[u8], output: &mut Vec<u8>)
    ensures
        final(output)@ == old(output)@ + bytes@,
{
    let total = bytes.len();
    let mut done: usize = 0;
    while done < total
        invariant
            done <= total,
            total == bytes@.len(),
            output@ == old(output)@ + bytes@.subrange(0, done as int),
        decreases total - done,
    {
        let left = total - done;
        let step = if left < VPK_COPY_CHUNK {
            left
        } else {
            VPK_COPY_CHUNK
        };
        output.write_bytes(slice_subrange(bytes, done, done + step));
        assert(output@ =~= old(output)@ + bytes@.subrange(0, done + step));
        done = done + step;
    }
    assert(bytes@.subrange(0, done as int) =~= bytes@);
}

} // verus!
