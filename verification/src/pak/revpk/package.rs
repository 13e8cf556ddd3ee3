//! Respawn packages: reading and writing the directory file, and the
//! reconstruction of files from their parts.

use crate::pak::archive::{crc32, crc32_iso_hdlc, part_key, Archives};
use crate::pak::content::{archive_missing, copy_in_chunks, judge, judged};
use crate::pak::error::{Error, Violation};
use crate::pak::path::{ext_of, split};
use crate::pak::revpk::cam::{
    create_wav_header, default_cam, default_cam_error, filler_run, parse_cam, representable,
    seek_to_wav_data, total_uncompressed, wav_header, wav_representable, VPKRespawnCam,
    VPKRespawnCamEntry,
};
use crate::pak::revpk::format::{
    RespawnEntryModel, VPKDirectoryEntryRespawn, VPKFilePartEntryRespawn, VPKHeaderRespawn,
    VPK_HEADER_SIZE_REVPK, VPK_SIGNATURE_REVPK, VPK_VERSION_REVPK,
};
use crate::pak::map::distinct_keys;
use crate::pak::roundtrip::{
    faithful_tree, lemma_read_faithful, lemma_tree_roundtrip, parted, preload_matched,
};
use crate::pak::tree::{first_write_error, parse_tree, TreeModel, VPKTree};
use crate::pak::worker::{PakReader, PakWorker, PakWriter};
use crate::util::error::IoError;
use crate::util::file::{lemma_layout, ByteReader, VPKFileReader, VPKFileWriter};
use std::collections::HashMap;
use vstd::prelude::*;
use vstd::slice::slice_subrange;
use vstd::utf8::encode_utf8;

verus! {

/// The lower-case form of an ASCII letter; any other byte as it is.
pub open spec fn ascii_lower(b: u8) -> u8 {
    if 0x41 <= b <= 0x5A {
        (b + 0x20) as u8
    } else {
        b
    }
}

/// Whether the path names an audio file: its extension is `wav`, in upper
/// or lower case.
pub open spec fn is_wav(path: Seq<u8>) -> bool {
    let ext = ext_of(path);
    &&& ext.len() == 3
    &&& ascii_lower(ext[0]) == 0x77
    &&& ascii_lower(ext[1]) == 0x61
    &&& ascii_lower(ext[2]) == 0x76
}

/// The metadata of the audio file of an entry: the record that the sidecar
/// of the archive of its first part holds under the offset of that part, or
/// else the metadata that is made up for the entry.
pub open spec fn cam_of(
    cams: Map<u16, Map<u64, VPKRespawnCamEntry>>,
    entry: RespawnEntryModel,
) -> Result<VPKRespawnCamEntry, Error> {
    let first = entry.file_parts[0];
    if cams.contains_key(first.archive_index) && cams[first.archive_index].contains_key(
        first.entry_offset,
    ) {
        Ok(cams[first.archive_index][first.entry_offset])
    } else {
        match default_cam_error(entry) {
            Some(e) => Err(e),
            None => Ok(default_cam(entry)),
        }
    }
}

/// The bytes of a part as they stand in its archive, or why they cannot be
/// had. Of the first part of an audio file the filler at its start is left
/// out.
pub open spec fn stored_bytes(
    part: VPKFilePartEntryRespawn,
    first_of_wav: bool,
    archives: Map<u16, Seq<u8>>,
    mapped: bool,
) -> Result<Seq<u8>, Error> {
    if !archives.contains_key(part.archive_index) {
        Err(archive_missing(mapped, part.archive_index))
    } else if part.entry_offset + part.entry_length > archives[part.archive_index].len() {
        Err(Error::BadData(Violation::ArchiveTooShort))
    } else {
        let raw = archives[part.archive_index].subrange(
            part.entry_offset as int,
            part.entry_offset + part.entry_length,
        );
        if first_of_wav {
            Ok(raw.skip(filler_run(raw) as int))
        } else {
            Ok(raw)
        }
    }
}

/// The bytes that a part adds to its file, or why they cannot be had. A
/// part without expanded bytes adds nothing. The lengths of any other part
/// must fit the address width of the machine. A part that is not compressed
/// adds its stored bytes. A compressed part must stand in its archive, and
/// adds the expanded bytes that were supplied for it.
pub open spec fn part_bytes(
    part: VPKFilePartEntryRespawn,
    first_of_wav: bool,
    archives: Map<u16, Seq<u8>>,
    inflated: Map<u128, Seq<u8>>,
    mapped: bool,
) -> Result<Seq<u8>, Error> {
    if part.entry_length_uncompressed == 0 {
        Ok(Seq::empty())
    } else if part.entry_length > usize::MAX || part.entry_length_uncompressed > usize::MAX {
        Err(Error::DataTooLarge)
    } else {
        match stored_bytes(part, first_of_wav, archives, mapped) {
            Err(e) => Err(e),
            Ok(stored) => if part.entry_length == part.entry_length_uncompressed {
                Ok(stored)
            } else if !inflated.contains_key(part_key(part.archive_index, part.entry_offset)) {
                Err(Error::DataNotFound)
            } else {
                Ok(inflated[part_key(part.archive_index, part.entry_offset)])
            },
        }
    }
}

/// Bytes read so far, followed by what is read next.
pub open spec fn continued(so_far: Seq<u8>, next: Result<Seq<u8>, Error>) -> Result<
    Seq<u8>,
    Error,
> {
    match next {
        Err(e) => Err(e),
        Ok(bytes) => Ok(so_far + bytes),
    }
}

/// The bytes that the parts from `i` on add to their file, in order, or the
/// first failure among them.
pub open spec fn parts_bytes(
    parts: Seq<VPKFilePartEntryRespawn>,
    i: int,
    wav: bool,
    archives: Map<u16, Seq<u8>>,
    inflated: Map<u128, Seq<u8>>,
    mapped: bool,
) -> Result<Seq<u8>, Error>
    decreases parts.len() - i,
{
    if i < 0 || i >= parts.len() {
        Ok(Seq::empty())
    } else {
        match part_bytes(parts[i], wav && i == 0, archives, inflated, mapped) {
            Err(e) => Err(e),
            Ok(bytes) => continued(
                bytes,
                parts_bytes(parts, i + 1, wav, archives, inflated, mapped),
            ),
        }
    }
}

/// The bytes cut to the size that the metadata of an audio file declares,
/// where it declares one and the bytes are more.
pub open spec fn clipped(bytes: Seq<u8>, original_size: u32) -> Seq<u8> {
    if original_size > 0 && bytes.len() > original_size {
        bytes.subrange(0, original_size as int)
    } else {
        bytes
    }
}

/// The bytes of the file under `path` before a checksum is judged, and the
/// checksum that they are to be judged against, if any; or why the bytes
/// cannot be had.
///
/// The file must be listed; where its entry declares preload bytes, the tree
/// must hold them; the entry must have parts, and the archive of the first
/// part must be supplied. The bytes are the preload bytes, for an audio
/// file a WAV header made from its metadata, and the bytes of the parts. The
/// bytes of an audio file are cut to the size that its metadata declares,
/// and are not judged; the bytes of any other file are judged against the
/// checksum in its entry.
pub open spec fn respawn_gathered(
    tree: TreeModel<RespawnEntryModel>,
    cams: Map<u16, Map<u64, VPKRespawnCamEntry>>,
    archives: Map<u16, Seq<u8>>,
    inflated: Map<u128, Seq<u8>>,
    path: Seq<u8>,
    mapped: bool,
) -> Result<(Seq<u8>, Option<u32>), Error> {
    if !tree.files.contains_key(path) {
        Err(Error::FileNotFound)
    } else if tree.files[path].preload_length > 0 && !tree.preload.contains_key(path) {
        Err(Error::DataNotFound)
    } else if tree.files[path].file_parts.len() == 0 {
        Err(Error::BadData(Violation::NoFileParts))
    } else if !archives.contains_key(tree.files[path].file_parts[0].archive_index) {
        Err(archive_missing(mapped, tree.files[path].file_parts[0].archive_index))
    } else {
        let entry = tree.files[path];
        let preload = if entry.preload_length > 0 {
            tree.preload[path]
        } else {
            Seq::empty()
        };
        if is_wav(path) {
            match cam_of(cams, entry) {
                Err(e) => Err(e),
                Ok(cam) => if !wav_representable(cam) {
                    Err(Error::DataTooLarge)
                } else {
                    finished(
                        preload + wav_header(cam),
                        parts_bytes(entry.file_parts, 0, true, archives, inflated, mapped),
                        true,
                        cam.original_size,
                        entry.crc,
                    )
                },
            }
        } else {
            finished(
                preload,
                parts_bytes(entry.file_parts, 0, false, archives, inflated, mapped),
                false,
                0,
                entry.crc,
            )
        }
    }
}

/// The bytes of a file, made of what stands before the bytes of its parts
/// and of these bytes, and the checksum that they are to be judged against:
/// an audio file is cut to the size that its metadata declares and is not
/// judged; any other file is judged against the checksum given.
pub open spec fn finished(
    head: Seq<u8>,
    data: Result<Seq<u8>, Error>,
    wav: bool,
    original_size: u32,
    crc: u32,
) -> Result<(Seq<u8>, Option<u32>), Error> {
    match data {
        Err(e) => Err(e),
        Ok(bytes) => if wav {
            Ok((clipped(head + bytes, original_size), None))
        } else {
            Ok((head + bytes, Some(crc)))
        },
    }
}

/// The contents of the file under `path`, or why they cannot be had: the
/// bytes that are gathered for it, where their checksum is the one that
/// they are to be judged against.
pub open spec fn respawn_content(
    tree: TreeModel<RespawnEntryModel>,
    cams: Map<u16, Map<u64, VPKRespawnCamEntry>>,
    archives: Map<u16, Seq<u8>>,
    inflated: Map<u128, Seq<u8>>,
    path: Seq<u8>,
    mapped: bool,
) -> Result<Seq<u8>, Error> {
    match respawn_gathered(tree, cams, archives, inflated, path, mapped) {
        Err(e) => Err(e),
        Ok((bytes, None)) => Ok(bytes),
        Ok((bytes, Some(crc))) => judged(bytes, crc32_iso_hdlc(bytes), crc),
    }
}

/// Whether the path names an audio file.
pub fn path_is_wav(path: &str) -> (b: bool)
    ensures
        b == is_wav(encode_utf8(path@)),
{
    let ext = split(path.as_bytes()).extension;
    ext.len() == 3 && (ext[0] == 0x77 || ext[0] == 0x57) && (ext[1] == 0x61 || ext[1] == 0x41) && (
    ext[2] == 0x76 || ext[2] == 0x56)
}

/// A compressed part of a file, for the caller to expand.
#[derive(Debug)]
pub struct CompressedPart {
    /// Index of the archive that holds the part.
    pub archive_index: u16,
    /// Offset of the part in its archive.
    pub entry_offset: u64,
    /// The bytes of the part as they stand in the archive.
    pub bytes: Vec<u8>,
    /// Number of bytes of the part when expanded.
    pub expanded_length: u64,
}

/// A Respawn package: the header and the tree of its directory file, and
/// the audio metadata of its archives.
#[derive(Debug)]
pub struct VPKRespawn {
    /// The header.
    pub header: VPKHeaderRespawn,
    /// The directory tree.
    pub tree: VPKTree<VPKDirectoryEntryRespawn>,
    /// The audio metadata that was read, by archive index.
    pub archive_cams: HashMap<u16, VPKRespawnCam>,
}

impl VPKRespawn {
    /// What reading a directory file at `pos` yields: the header, the tree,
    /// and where the cursor then stands.
    pub open spec fn parse_at(data: Seq<u8>, pos: int) -> Result<
        (VPKHeaderRespawn, TreeModel<RespawnEntryModel>, int),
        Error,
    > {
        match VPKHeaderRespawn::parse_at(data, pos) {
            Err(e) => Err(e),
            Ok(header) => match parse_tree::<VPKDirectoryEntryRespawn>(
                data,
                pos + VPK_HEADER_SIZE_REVPK,
                header.tree_size as int,
            ) {
                Err(e) => Err(e),
                Ok((tree, end)) => Ok((header, tree, end)),
            },
        }
    }

    /// The audio metadata that was read: for each archive index the records
    /// by offset.
    pub open spec fn cams(&self) -> Map<u16, Map<u64, VPKRespawnCamEntry>> {
        Map::new(
            |index: u16| self.archive_cams@.contains_key(index),
            |index: u16| self.archive_cams@[index]@,
        )
    }
}

impl PakWorker for VPKRespawn {
    open spec fn read_error(data: Seq<u8>, pos: int) -> Option<Error> {
        match Self::parse_at(data, pos) {
            Ok(_) => None,
            Err(e) => Some(e),
        }
    }

    /// A package that was read holds no audio metadata yet.
    open spec fn read_from(&self, data: Seq<u8>, pos: int, end: int) -> bool {
        &&& Self::parse_at(data, pos) == Ok::<
            (VPKHeaderRespawn, TreeModel<RespawnEntryModel>, int),
            Error,
        >((self.header, self.tree@, end))
        &&& self.cams() == Map::<u16, Map<u64, VPKRespawnCamEntry>>::empty()
    }

    open spec fn is_empty(&self) -> bool {
        &&& self.header == (VPKHeaderRespawn {
            signature: VPK_SIGNATURE_REVPK,
            version: VPK_VERSION_REVPK,
            tree_size: 0,
            unknown: 0,
        })
        &&& self.tree@ == TreeModel::<RespawnEntryModel>::empty()
        &&& self.cams() == Map::<u16, Map<u64, VPKRespawnCamEntry>>::empty()
    }

    fn new() -> (vpk: Self) {
        let vpk = VPKRespawn {
            header: VPKHeaderRespawn {
                signature: VPK_SIGNATURE_REVPK,
                version: VPK_VERSION_REVPK,
                tree_size: 0,
                unknown: 0,
            },
            tree: VPKTree::new(),
            archive_cams: HashMap::new(),
        };
        assert(vpk.cams() =~= Map::<u16, Map<u64, VPKRespawnCamEntry>>::empty());
        vpk
    }

    fn from_file(file: &mut ByteReader<'_>) -> (r: Result<Self, Error>) {
        let header = match VPKHeaderRespawn::from(file) {
            Ok(header) => header,
            Err(e) => return Err(e),
        };
        let tree_start = file.stream_position();
        let tree = match VPKTree::from(file, tree_start, header.tree_size as u64) {
            Ok(tree) => tree,
            Err(e) => return Err(e),
        };
        let vpk = VPKRespawn { header, tree, archive_cams: HashMap::new() };
        assert(vpk.cams() =~= Map::<u16, Map<u64, VPKRespawnCamEntry>>::empty());
        Ok(vpk)
    }
}

impl PakWriter for VPKRespawn {
    /// A package cannot be written for its header only: every entry can be
    /// written.
    open spec fn write_error(&self) -> Option<Error> {
        self.header.write_error()
    }

    open spec fn wire(&self) -> Seq<u8> {
        self.header.wire() + self.tree.wire()
    }

    fn write_dir(&self) -> (r: Result<Vec<u8>, Error>) {
        let mut out: Vec<u8> = Vec::new();
        match self.header.write(&mut out) {
            Ok(_) => {},
            Err(e) => return Err(e),
        }
        proof {
            lemma_writable(self.tree.items(), 0);
        }
        match self.tree.write(&mut out) {
            Ok(_) => {},
            Err(e) => return Err(e),
        }
        assert(out@ =~= self.wire());
        Ok(out)
    }
}

impl VPKRespawn {
    /// Reads the sidecar file of the archive with the given index and keeps
    /// its records in place of those that were kept for the archive before.
    /// A sidecar file that cannot be read changes nothing.
    pub fn read_cam(&mut self, archive_index: u16, cam_file: &mut ByteReader<'_>) -> (r: Result<
        (),
        Error,
    >)
        ensures
            final(cam_file).data() == old(cam_file).data(),
            final(self).header == old(self).header,
            final(self).tree == old(self).tree,
            match parse_cam(old(cam_file).data(), 0, Map::empty()) {
                Ok(entries) => r is Ok && final(self).cams() == old(self).cams().insert(
                    archive_index,
                    entries,
                ),
                Err(e) => r == Err::<(), Error>(e) && final(self).cams() == old(self).cams(),
            },
    {
        let cam = match VPKRespawnCam::from_file(cam_file) {
            Ok(cam) => cam,
            Err(e) => return Err(e),
        };
        self.archive_cams.insert(archive_index, cam);
        assert(self.cams() =~= old(self).cams().insert(archive_index, cam@));
        Ok(())
    }

    /// Reads the sidecar file of the archive with the given index, unless
    /// audio metadata are kept for the archive already: then nothing is read
    /// and nothing changes. Tells whether the file was read.
    pub fn read_cam_once(&mut self, archive_index: u16, cam_file: &mut ByteReader<'_>) -> (r:
        Result<bool, Error>)
        ensures
            final(cam_file).data() == old(cam_file).data(),
            final(self).header == old(self).header,
            final(self).tree == old(self).tree,
            old(self).cams().contains_key(archive_index) ==> r == Ok::<bool, Error>(false)
                && final(self).cams() == old(self).cams() && final(cam_file).position() == old(
                cam_file,
            ).position(),
            !old(self).cams().contains_key(archive_index) ==> match parse_cam(
                old(cam_file).data(),
                0,
                Map::empty(),
            ) {
                Ok(entries) => r == Ok::<bool, Error>(true) && final(self).cams() == old(
                    self,
                ).cams().insert(archive_index, entries),
                Err(e) => r == Err::<bool, Error>(e) && final(self).cams() == old(self).cams(),
            },
    {
        if self.archive_cams.contains_key(&archive_index) {
            return Ok(false);
        }
        match self.read_cam(archive_index, cam_file) {
            Ok(_) => Ok(true),
            Err(e) => Err(e),
        }
    }

    /// The metadata of the audio file of an entry with parts.
    fn find_cam(&self, entry: &VPKDirectoryEntryRespawn) -> (r: Result<VPKRespawnCamEntry, Error>)
        requires
            entry.file_parts@.len() > 0,
        ensures
            r == cam_of(self.cams(), entry@),
    {
        let first = &entry.file_parts[0];
        match self.archive_cams.get(&first.archive_index) {
            Some(cam) => match cam.find_entry(first.entry_offset) {
                Some(found) => return Ok(*found),
                None => {},
            },
            None => {},
        }
        VPKRespawnCamEntry::try_default(entry)
    }

    /// Reconstructs the file under `file_path`: gathers its bytes and, for a
    /// file that is no audio file, judges their checksum.
    pub fn assemble(&self, archives: &Archives<'_>, file_path: &str, mapped: bool) -> (r: Result<
        Vec<u8>,
        Error,
    >)
        ensures
            match self.content(
                archives.contents(),
                archives.inflated(),
                encode_utf8(file_path@),
                mapped,
            ) {
                Ok(bytes) => r matches Ok(found) && found@ == bytes,
                Err(e) => r matches Err(err) && err == e,
            },
    {
        let (bytes, expected) = match self.gather(archives, file_path, mapped) {
            Ok(gathered) => gathered,
            Err(e) => return Err(e),
        };
        match expected {
            Some(crc) => {
                let sum = crc32(bytes.as_slice());
                judge(bytes, sum, crc)
            },
            None => Ok(bytes),
        }
    }

    /// Gathers the bytes of the file under `file_path`, and the checksum
    /// that they are to be judged against, if any.
    pub fn gather(&self, archives: &Archives<'_>, file_path: &str, mapped: bool) -> (r: Result<
        (Vec<u8>, Option<u32>),
        Error,
    >)
        ensures
            match respawn_gathered(
                self.tree@,
                self.cams(),
                archives.contents(),
                archives.inflated(),
                encode_utf8(file_path@),
                mapped,
            ) {
                Ok((bytes, expected)) => r matches Ok((found, crc)) && found@ == bytes && crc
                    == expected,
                Err(e) => r matches Err(err) && err == e,
            },
    {
        let ghost path = encode_utf8(file_path@);
        let entry = match self.tree.files.get(file_path) {
            Some(entry) => entry,
            None => return Err(Error::FileNotFound),
        };
        let mut buf: Vec<u8> = Vec::new();
        if entry.preload_length > 0 {
            match self.tree.preload.get(file_path) {
                Some(bytes) => buf.write_bytes(bytes.as_slice()),
                None => return Err(Error::DataNotFound),
            }
        }
        let n = entry.file_parts.len();
        if n == 0 {
            return Err(Error::BadData(Violation::NoFileParts));
        }
        if archives.get(entry.file_parts[0].archive_index).is_none() {
            return Err(missing(mapped, entry.file_parts[0].archive_index));
        }
        let wav = path_is_wav(file_path);
        let mut original_size: u32 = 0;
        if wav {
            let cam = match self.find_cam(entry) {
                Ok(cam) => cam,
                Err(e) => return Err(e),
            };
            if !representable(&cam) {
                return Err(Error::DataTooLarge);
            }
            original_size = cam.original_size;
            let header = create_wav_header(&cam);
            buf.write_bytes(header.as_slice());
        }
        let ghost head = buf@;
        let ghost parts = entry.file_parts@;
        let ghost all = parts_bytes(
            parts,
            0,
            wav,
            archives.contents(),
            archives.inflated(),
            mapped,
        );
        let ghost goal = respawn_gathered(
            self.tree@,
            self.cams(),
            archives.contents(),
            archives.inflated(),
            path,
            mapped,
        );
        let crc = entry.crc;
        assert(goal == finished(head, all, wav, original_size, crc));
        assert(buf@.subrange(0, buf@.len() as int) =~= buf@);
        assert(buf@.subrange(buf@.len() as int, buf@.len() as int) =~= Seq::<u8>::empty());
        let mut i: usize = 0;
        while i < n
            invariant
                i <= n,
                n == parts.len(),
                parts == entry.file_parts@,
                path == encode_utf8(file_path@),
                goal == respawn_gathered(
                    self.tree@,
                    self.cams(),
                    archives.contents(),
                    archives.inflated(),
                    path,
                    mapped,
                ),
                goal == finished(head, all, wav, original_size, crc),
                head.len() <= buf@.len(),
                buf@.subrange(0, head.len() as int) == head,
                all == parts_bytes(parts, 0, wav, archives.contents(), archives.inflated(), mapped),
                all == continued(
                    buf@.subrange(head.len() as int, buf@.len() as int),
                    parts_bytes(
                        parts,
                        i as int,
                        wav,
                        archives.contents(),
                        archives.inflated(),
                        mapped,
                    ),
                ),
            decreases n - i,
        {
            let ghost so_far = buf@;
            let ghost data = so_far.subrange(head.len() as int, so_far.len() as int);
            match read_part(&entry.file_parts[i], wav && i == 0, archives, mapped, &mut buf) {
                Ok(_) => {},
                Err(e) => return Err(e),
            }
            proof {
                let added = part_bytes(
                    parts[i as int],
                    wav && i == 0,
                    archives.contents(),
                    archives.inflated(),
                    mapped,
                )->Ok_0;
                assert(buf@.subrange(0, head.len() as int) =~= head);
                assert(buf@.subrange(head.len() as int, buf@.len() as int) =~= data + added);
                match parts_bytes(
                    parts,
                    i + 1,
                    wav,
                    archives.contents(),
                    archives.inflated(),
                    mapped,
                ) {
                    Ok(rest) => {
                        assert(data + (added + rest) =~= (data + added) + rest);
                    },
                    Err(_) => {},
                }
            }
            i = i + 1;
        }
        proof {
            let data = buf@.subrange(head.len() as int, buf@.len() as int);
            assert(data + Seq::<u8>::empty() =~= data);
            assert(buf@ =~= head + data);
        }
        if wav {
            if original_size > 0 && buf.len() > original_size as usize {
                buf.truncate(original_size as usize);
            }
            Ok((buf, None))
        } else {
            Ok((buf, Some(crc)))
        }
    }
}

impl PakReader for VPKRespawn {
    /// The contents of a file: its preload bytes, for an audio file a WAV
    /// header, and the bytes of its parts.
    open spec fn content(
        &self,
        archives: Map<u16, Seq<u8>>,
        inflated: Map<u128, Seq<u8>>,
        path: Seq<u8>,
        mapped: bool,
    ) -> Result<Seq<u8>, Error> {
        respawn_content(self.tree@, self.cams(), archives, inflated, path, mapped)
    }

    /// The archive of the first part, and the archive of every part that
    /// has expanded bytes.
    open spec fn needed(&self, path: Seq<u8>) -> Set<u16> {
        Set::new(
            |index: u16|
                self.tree@.files.contains_key(path) && exists|i: int|
                    0 <= i < self.tree@.files[path].file_parts.len() && #[trigger] reads_part(
                        self.tree@.files[path].file_parts,
                        i,
                        index,
                    ),
        )
    }

    fn archives_of(&self, file_path: &str) -> (r: Vec<u16>) {
        let mut found: Vec<u16> = Vec::new();
        let entry = match self.tree.files.get(file_path) {
            Some(entry) => entry,
            None => return found,
        };
        let ghost parts = entry.file_parts@;
        let n = entry.file_parts.len();
        let mut i: usize = 0;
        while i < n
            invariant
                i <= n,
                n == parts.len(),
                parts == entry.file_parts@,
                found@.no_duplicates(),
                forall|index: u16|
                    found@.contains(index) <==> exists|k: int|
                        0 <= k < i && #[trigger] reads_part(parts, k, index),
            decreases n - i,
        {
            let part = &entry.file_parts[i];
            let ghost before = found@;
            let mut added = false;
            if (i == 0 || part.entry_length_uncompressed > 0) && !holds(
                &found,
                part.archive_index,
            ) {
                found.push(part.archive_index);
                added = true;
            }
            proof {
                assert forall|index: u16|
                    found@.contains(index) <==> exists|k: int|
                        0 <= k < i + 1 && #[trigger] reads_part(parts, k, index) by {
                    if added {
                        assert(found@ == before.push(found@.last()));
                        assert(found@[found@.len() - 1] == found@.last());
                    }
                    if found@.contains(index) {
                        if before.contains(index) {
                            let k = choose|k: int|
                                0 <= k < i && #[trigger] reads_part(parts, k, index);
                            assert(reads_part(parts, k, index));
                        } else {
                            assert(reads_part(parts, i as int, index));
                        }
                    }
                    if exists|k: int| 0 <= k < i + 1 && #[trigger] reads_part(parts, k, index) {
                        let k = choose|k: int|
                            0 <= k < i + 1 && #[trigger] reads_part(parts, k, index);
                        if k < i {
                            assert(before.contains(index));
                            let at = choose|at: int| 0 <= at < before.len() && before[at] == index;
                            assert(found@[at] == index);
                        } else if !before.contains(index) {
                            assert(added);
                            assert(found@[found@.len() - 1] == index);
                        } else {
                            let at = choose|at: int| 0 <= at < before.len() && before[at] == index;
                            assert(found@[at] == index);
                        }
                    }
                }
            }
            i = i + 1;
        }
        found
    }

    fn read_file(&self, archives: &Archives<'_>, file_path: &str) -> (r: Option<Vec<u8>>) {
        match self.assemble(archives, file_path, false) {
            Ok(bytes) => Some(bytes),
            Err(_) => None,
        }
    }

    fn extract_file(&self, archives: &Archives<'_>, file_path: &str, output: &mut Vec<u8>) -> (r:
        Result<(), Error>) {
        let bytes = match self.assemble(archives, file_path, false) {
            Ok(bytes) => bytes,
            Err(e) => return Err(e),
        };
        copy_in_chunks(bytes.as_slice(), output);
        Ok(())
    }

    fn extract_file_mem_map(
        &self,
        archive_mmaps: &Archives<'_>,
        file_path: &str,
        output: &mut Vec<u8>,
    ) -> (r: Result<(), Error>) {
        let bytes = match self.assemble(archive_mmaps, file_path, true) {
            Ok(bytes) => bytes,
            Err(e) => return Err(e),
        };
        output.reserve(bytes.len());
        output.write_bytes(bytes.as_slice());
        Ok(())
    }
}

/// Every Respawn entry can be written.
pub proof fn lemma_writable(items: Seq<crate::pak::tree::Item<RespawnEntryModel>>, from: int)
    ensures
        first_write_error::<VPKDirectoryEntryRespawn>(items, from) is None,
    decreases items.len() - from,
{
    if 0 <= from < items.len() {
        lemma_writable(items, from + 1);
    }
}

/// The failure of an operation that lacks the archive with the given index.
fn missing(mapped: bool, index: u16) -> (e: Error)
    ensures
        e == archive_missing(mapped, index),
{
    if mapped {
        Error::MemoryMappedFileNotFound(index)
    } else {
        Error::Io(IoError::NotFound)
    }
}

/// The stored bytes of a part, as a slice of its archive.
fn stored_slice<'a>(
    part: &VPKFilePartEntryRespawn,
    first_of_wav: bool,
    archives: &Archives<'a>,
    mapped: bool,
) -> (r: Result<&'a [u8], Error>)
    ensures
        match stored_bytes(*part, first_of_wav, archives.contents(), mapped) {
            Ok(bytes) => r matches Ok(found) && found@ == bytes,
            Err(e) => r matches Err(err) && err == e,
        },
{
    let archive = match archives.get(part.archive_index) {
        Some(archive) => archive,
        None => return Err(missing(mapped, part.archive_index)),
    };
    let until: u128 = part.entry_offset as u128 + part.entry_length as u128;
    if until > archive.len() as u128 {
        return Err(Error::BadData(Violation::ArchiveTooShort));
    }
    let raw = slice_subrange(archive, part.entry_offset as usize, until as usize);
    if first_of_wav {
        let skipped = seek_to_wav_data(raw);
        Ok(slice_subrange(raw, skipped, raw.len()))
    } else {
        Ok(raw)
    }
}

/// Appends the bytes that a part adds to its file.
fn read_part(
    part: &VPKFilePartEntryRespawn,
    first_of_wav: bool,
    archives: &Archives<'_>,
    mapped: bool,
    buf: &mut Vec<u8>,
) -> (r: Result<(), Error>)
    ensures
        match part_bytes(*part, first_of_wav, archives.contents(), archives.inflated(), mapped) {
            Ok(bytes) => r is Ok && final(buf)@ == old(buf)@ + bytes,
            Err(e) => r == Err::<(), Error>(e) && final(buf)@ == old(buf)@,
        },
{
    if part.entry_length_uncompressed == 0 {
        assert(buf@ + Seq::<u8>::empty() =~= buf@);
        return Ok(());
    }
    let widest: u64 = usize::MAX as u64;
    if part.entry_length > widest || part.entry_length_uncompressed > widest {
        return Err(Error::DataTooLarge);
    }
    let stored = match stored_slice(part, first_of_wav, archives, mapped) {
        Ok(stored) => stored,
        Err(e) => return Err(e),
    };
    if part.entry_length == part.entry_length_uncompressed {
        buf.write_bytes(stored);
    } else {
        match archives.get_expanded(part.archive_index, part.entry_offset) {
            Some(bytes) => buf.write_bytes(bytes.as_slice()),
            None => return Err(Error::DataNotFound),
        }
    }
    Ok(())
}

/// Whether the part at `i` is read from the archive with the given index:
/// it is the first part or has expanded bytes, and it stands in that archive.
pub open spec fn reads_part(parts: Seq<VPKFilePartEntryRespawn>, i: int, index: u16) -> bool {
    &&& i == 0 || parts[i].entry_length_uncompressed > 0
    &&& parts[i].archive_index == index
}

/// Whether a part is compressed: it has expanded bytes, and not as many as
/// it has bytes in its archive.
pub open spec fn is_compressed(part: VPKFilePartEntryRespawn) -> bool {
    part.entry_length_uncompressed > 0 && part.entry_length != part.entry_length_uncompressed
}

/// What a compressed part is, for the caller to expand.
pub struct CompressedPartModel {
    /// Index of the archive that holds the part.
    pub archive_index: u16,
    /// Offset of the part in its archive.
    pub entry_offset: u64,
    /// The bytes of the part as they stand in the archive.
    pub bytes: Seq<u8>,
    /// Number of bytes of the part when expanded.
    pub expanded_length: u64,
}

impl View for CompressedPart {
    type V = CompressedPartModel;

    open spec fn view(&self) -> CompressedPartModel {
        CompressedPartModel {
            archive_index: self.archive_index,
            entry_offset: self.entry_offset,
            bytes: self.bytes@,
            expanded_length: self.expanded_length,
        }
    }
}

/// Compressed parts found so far, followed by those that are found next.
pub open spec fn more_compressed(
    so_far: Seq<CompressedPartModel>,
    next: Result<Seq<CompressedPartModel>, Error>,
) -> Result<Seq<CompressedPartModel>, Error> {
    match next {
        Err(e) => Err(e),
        Ok(found) => Ok(so_far + found),
    }
}

/// The compressed parts among the parts from `i` on, in order, each with
/// its stored bytes, or the first failure to have these.
pub open spec fn compressed_from(
    parts: Seq<VPKFilePartEntryRespawn>,
    i: int,
    wav: bool,
    archives: Map<u16, Seq<u8>>,
    mapped: bool,
) -> Result<Seq<CompressedPartModel>, Error>
    decreases parts.len() - i,
{
    if i < 0 || i >= parts.len() {
        Ok(Seq::empty())
    } else if !is_compressed(parts[i]) {
        compressed_from(parts, i + 1, wav, archives, mapped)
    } else {
        match stored_bytes(parts[i], wav && i == 0, archives, mapped) {
            Err(e) => Err(e),
            Ok(bytes) => more_compressed(
                seq![
                    CompressedPartModel {
                        archive_index: parts[i].archive_index,
                        entry_offset: parts[i].entry_offset,
                        bytes,
                        expanded_length: parts[i].entry_length_uncompressed,
                    },
                ],
                compressed_from(parts, i + 1, wav, archives, mapped),
            ),
        }
    }
}

/// The views of the compressed parts.
pub open spec fn views_of(parts: Seq<CompressedPart>) -> Seq<CompressedPartModel> {
    Seq::new(parts.len(), |i: int| parts[i]@)
}

impl VPKRespawn {
    /// The compressed parts of the file under `file_path`, for the caller to
    /// expand and to supply with the archives.
    pub fn compressed_parts(&self, archives: &Archives<'_>, file_path: &str, mapped: bool) -> (r:
        Result<Vec<CompressedPart>, Error>)
        ensures
            match self.tree@.files.get(encode_utf8(file_path@)) {
                None => r matches Err(e) && e == Error::FileNotFound,
                Some(entry) => match compressed_from(
                    entry.file_parts,
                    0,
                    is_wav(encode_utf8(file_path@)),
                    archives.contents(),
                    mapped,
                ) {
                    Ok(found) => r matches Ok(parts) && views_of(parts@) == found,
                    Err(e) => r matches Err(err) && err == e,
                },
            },
    {
        let entry = match self.tree.files.get(file_path) {
            Some(entry) => entry,
            None => return Err(Error::FileNotFound),
        };
        let wav = path_is_wav(file_path);
        let n = entry.file_parts.len();
        let ghost parts = entry.file_parts@;
        let ghost all = compressed_from(parts, 0, wav, archives.contents(), mapped);
        let mut found: Vec<CompressedPart> = Vec::new();
        let mut i: usize = 0;
        assert(views_of(found@) =~= Seq::<CompressedPartModel>::empty());
        while i < n
            invariant
                i <= n,
                n == parts.len(),
                parts == entry.file_parts@,
                self.tree@.files.get(encode_utf8(file_path@)) == Some(entry@),
                wav == is_wav(encode_utf8(file_path@)),
                all == compressed_from(parts, 0, wav, archives.contents(), mapped),
                all == more_compressed(
                    views_of(found@),
                    compressed_from(parts, i as int, wav, archives.contents(), mapped),
                ),
            decreases n - i,
        {
            let part = &entry.file_parts[i];
            if part.entry_length_uncompressed > 0 && part.entry_length
                != part.entry_length_uncompressed {
                let stored = match stored_slice(part, wav && i == 0, archives, mapped) {
                    Ok(stored) => stored,
                    Err(e) => return Err(e),
                };
                let ghost before = views_of(found@);
                let mut bytes: Vec<u8> = Vec::new();
                bytes.write_bytes(stored);
                let next = CompressedPart {
                    archive_index: part.archive_index,
                    entry_offset: part.entry_offset,
                    bytes,
                    expanded_length: part.entry_length_uncompressed,
                };
                found.push(next);
                proof {
                    assert(views_of(found@) =~= before + seq![next@]);
                    match compressed_from(parts, i + 1, wav, archives.contents(), mapped) {
                        Ok(rest) => {
                            assert(before + (seq![next@] + rest) =~= (before + seq![next@]) + rest);
                        },
                        Err(_) => {},
                    }
                }
            }
            i = i + 1;
        }
        assert(views_of(found@) + Seq::<CompressedPartModel>::empty() =~= views_of(found@));
        Ok(found)
    }

    /// A written header and tree are read back as they were.
    proof fn lemma_join(
        header: VPKHeaderRespawn,
        tree: TreeModel<RespawnEntryModel>,
        data: Seq<u8>,
        taken: int,
    )
        requires
            VPKHeaderRespawn::parse_at(data, 0) == Ok::<VPKHeaderRespawn, Error>(header),
            parse_tree::<VPKDirectoryEntryRespawn>(data, 16, header.tree_size as int) == Ok::<
                (TreeModel<RespawnEntryModel>, int),
                Error,
            >((tree, 16 + taken)),
        ensures
            Self::parse_at(data, 0) == Ok::<
                (VPKHeaderRespawn, TreeModel<RespawnEntryModel>, int),
                Error,
            >((header, tree, 16 + taken)),
    {
    }

    /// A written header takes sixteen bytes.
    proof fn lemma_header_len(header: VPKHeaderRespawn)
        ensures
            header.wire().len() == 16,
    {
    }

    /// The header and the tree of a written package are read back from the
    /// places at which they were written.
    proof fn lemma_read_parts(vpk: VPKRespawn, head: Seq<u8>, rest: Seq<u8>)
        requires
            vpk.header.write_error() is None,
            faithful_tree(vpk.tree),
            vpk.header.tree_size >= vpk.tree.wire().len(),
            head == vpk.header.wire(),
            rest == vpk.tree.wire(),
            head.len() == 16,
        ensures
            VPKHeaderRespawn::parse_at(head + rest, 0) == Ok::<VPKHeaderRespawn, Error>(
                vpk.header,
            ),
            parse_tree::<VPKDirectoryEntryRespawn>(head + rest, 16, vpk.header.tree_size as int)
                == Ok::<(TreeModel<RespawnEntryModel>, int), Error>(
                (vpk.tree@, 16 + rest.len() as int),
            ),
    {
        let data = head + rest;
        lemma_layout(head, rest);
        VPKHeaderRespawn::lemma_roundtrip(vpk.header, data, 0);
        lemma_tree_roundtrip::<VPKDirectoryEntryRespawn>(
            vpk.tree,
            data,
            16,
            vpk.header.tree_size as int,
        );
    }

    /// A package whose tree is faithful, and whose header can be written and
    /// declares a tree size that is not less than the number of bytes of the
    /// written tree, can be written; and reading the directory file that
    /// `write_dir` gives for it yields the header and the tree of the
    /// package again.
    pub proof fn lemma_write_read(vpk: VPKRespawn)
        requires
            vpk.header.write_error() is None,
            faithful_tree(vpk.tree),
            vpk.header.tree_size >= vpk.tree.wire().len(),
        ensures
            vpk.write_error() is None,
            Self::parse_at(vpk.wire(), 0) == Ok::<
                (VPKHeaderRespawn, TreeModel<RespawnEntryModel>, int),
                Error,
            >((vpk.header, vpk.tree@, vpk.wire().len() as int)),
    {
        let head = vpk.header.wire();
        let rest = vpk.tree.wire();
        Self::lemma_header_len(vpk.header);
        Self::lemma_read_parts(vpk, head, rest);
        Self::lemma_join(vpk.header, vpk.tree@, head + rest, rest.len() as int);
    }

    /// A package that was read from a directory file can be written, and
    /// reading the directory file that `write_dir` gives for it yields the
    /// header and the tree of the package again. This holds where every
    /// path of the tree has a directory, a stem and an extension, every
    /// file has preload bytes exactly where its entry declares some, and
    /// the header declares a tree size that is not less than the number of
    /// bytes of the written tree.
    pub proof fn lemma_read_write_read(vpk: VPKRespawn, data: Seq<u8>, pos: int, end: int)
        requires
            Self::parse_at(data, pos) == Ok::<
                (VPKHeaderRespawn, TreeModel<RespawnEntryModel>, int),
                Error,
            >((vpk.header, vpk.tree@, end)),
            distinct_keys(vpk.tree.files.listing()),
            parted(vpk.tree),
            preload_matched(vpk.tree),
            vpk.header.tree_size >= vpk.tree.wire().len(),
        ensures
            vpk.write_error() is None,
            Self::parse_at(vpk.wire(), 0) == Ok::<
                (VPKHeaderRespawn, TreeModel<RespawnEntryModel>, int),
                Error,
            >((vpk.header, vpk.tree@, vpk.wire().len() as int)),
    {
        lemma_read_faithful::<VPKDirectoryEntryRespawn>(
            vpk.tree,
            data,
            pos + 16,
            vpk.header.tree_size as int,
        );
        Self::lemma_write_read(vpk);
    }
}

/// Whether the path ends in `.wav`, in lower case.
pub open spec fn ends_with_wav(path: Seq<u8>) -> bool {
    &&& path.len() >= 4
    &&& path[path.len() - 4] == 0x2E
    &&& path[path.len() - 3] == 0x77
    &&& path[path.len() - 2] == 0x61
    &&& path[path.len() - 1] == 0x76
}

/// Whether the file at `i` of the listing is an audio file whose first part
/// stands in the archive with the given index.
pub open spec fn is_audio_of(
    listing: Seq<(Seq<u8>, RespawnEntryModel)>,
    i: int,
    index: u16,
) -> bool {
    &&& ends_with_wav(listing[i].0)
    &&& listing[i].1.file_parts.len() > 0
    &&& listing[i].1.file_parts[0].archive_index == index
}

/// Whether the sidecar of the archive with the given index is yet to be
/// read: none was read for it, and one of the first `n` files of the listing
/// is an audio file whose first part stands in it.
pub open spec fn wants_cam(
    listing: Seq<(Seq<u8>, RespawnEntryModel)>,
    n: int,
    cams: Map<u16, Map<u64, VPKRespawnCamEntry>>,
    index: u16,
) -> bool {
    &&& !cams.contains_key(index)
    &&& exists|i: int| 0 <= i < n && #[trigger] is_audio_of(listing, i, index)
}

impl VPKRespawn {
    /// The indices of the archives whose sidecar is yet to be read, each
    /// once: the archives that hold the first part of a file whose path ends
    /// in `.wav`, and for which no audio metadata was read.
    pub fn missing_cams(&self) -> (r: Vec<u16>)
        ensures
            forall|index: u16|
                r@.contains(index) <==> wants_cam(
                    self.tree.files.listing(),
                    self.tree.files.listing().len() as int,
                    self.cams(),
                    index,
                ),
            r@.no_duplicates(),
    {
        let n = self.tree.files.len();
        let ghost listing = self.tree.files.listing();
        let mut found: Vec<u16> = Vec::new();
        let mut i: usize = 0;
        while i < n
            invariant
                i <= n,
                n == listing.len(),
                listing == self.tree.files.listing(),
                forall|index: u16|
                    found@.contains(index) <==> wants_cam(listing, i as int, self.cams(), index),
                found@.no_duplicates(),
            decreases n - i,
        {
            let path = self.tree.files.path(i).as_bytes();
            let entry = self.tree.files.value(i);
            let len = path.len();
            let ghost before = found@;
            let mut added = false;
            if len >= 4 && path[len - 4] == 0x2E && path[len - 3] == 0x77 && path[len - 2] == 0x61
                && path[len - 1] == 0x76 && entry.file_parts.len() > 0 {
                let index = entry.file_parts[0].archive_index;
                if !self.archive_cams.contains_key(&index) && !holds(&found, index) {
                    found.push(index);
                    added = true;
                }
            }
            proof {
                assert forall|index: u16|
                    found@.contains(index) <==> wants_cam(
                        listing,
                        i + 1,
                        self.cams(),
                        index,
                    ) by {
                    if added {
                        assert(found@ == before.push(found@.last()));
                        assert(found@[found@.len() - 1] == found@.last());
                    }
                    if found@.contains(index) {
                        if before.contains(index) {
                            let k = choose|k: int|
                                0 <= k < i && #[trigger] is_audio_of(listing, k, index);
                            assert(is_audio_of(listing, k, index));
                        } else {
                            assert(is_audio_of(listing, i as int, index));
                        }
                    }
                    if wants_cam(listing, i + 1, self.cams(), index) {
                        let k = choose|k: int|
                            0 <= k < i + 1 && #[trigger] is_audio_of(listing, k, index);
                        if k < i {
                            assert(wants_cam(listing, i as int, self.cams(), index));
                            assert(before.contains(index));
                            let at = choose|at: int| 0 <= at < before.len() && before[at] == index;
                            assert(found@[at] == index);
                        } else if !before.contains(index) {
                            assert(added);
                            assert(found@[found@.len() - 1] == index);
                        } else {
                            let at = choose|at: int| 0 <= at < before.len() && before[at] == index;
                            assert(found@[at] == index);
                        }
                    }
                }
            }
            i = i + 1;
        }
        found
    }
}

/// The bytes of the files that were supplied, by archive index.
pub open spec fn bytes_of(files: Map<u16, &[u8]>) -> Map<u16, Seq<u8>> {
    Map::new(|index: u16| files.contains_key(index), |index: u16| files[index]@)
}

/// What reading the sidecar file of the archive with the given index
/// yields, from the files that were supplied: a file that was not supplied
/// is not found.
pub open spec fn cam_read(sidecars: Map<u16, Seq<u8>>, index: u16) -> Result<
    Map<u64, VPKRespawnCamEntry>,
    Error,
> {
    if !sidecars.contains_key(index) {
        Err(Error::Io(IoError::NotFound))
    } else {
        parse_cam(sidecars[index], 0, Map::empty())
    }
}

/// The audio metadata that are kept when the sidecar files that are yet to
/// be read have been read: those that were kept before, and the records of
/// every sidecar file that was yet to be read and could be read.
pub open spec fn cams_read(
    listing: Seq<(Seq<u8>, RespawnEntryModel)>,
    cams: Map<u16, Map<u64, VPKRespawnCamEntry>>,
    sidecars: Map<u16, Seq<u8>>,
) -> Map<u16, Map<u64, VPKRespawnCamEntry>> {
    Map::new(
        |index: u16|
            cams.contains_key(index) || (wants_cam(listing, listing.len() as int, cams, index)
                && cam_read(sidecars, index) is Ok),
        |index: u16|
            if cams.contains_key(index) {
                cams[index]
            } else {
                cam_read(sidecars, index)->Ok_0
            },
    )
}

/// Whether the index is among the first `k` of the list.
pub open spec fn among_first(list: Seq<u16>, k: int, index: u16) -> bool {
    exists|j: int| 0 <= j < k && #[trigger] list[j] == index
}

impl VPKRespawn {
    /// Reads the sidecar files that are yet to be read, from the files that
    /// were supplied by archive index. A sidecar file that was not supplied
    /// or cannot be read is left out, and the others are read all the same;
    /// the failure of one such file is returned.
    pub fn read_all_cams(&mut self, sidecars: &HashMap<u16, &[u8]>) -> (r: Result<(), Error>)
        ensures
            final(self).header == old(self).header,
            final(self).tree == old(self).tree,
            final(self).cams() == cams_read(
                old(self).tree.files.listing(),
                old(self).cams(),
                bytes_of(sidecars@),
            ),
            match r {
                Ok(_) => forall|index: u16| #[trigger]
                    wants_cam(
                        old(self).tree.files.listing(),
                        old(self).tree.files.listing().len() as int,
                        old(self).cams(),
                        index,
                    ) ==> cam_read(bytes_of(sidecars@), index) is Ok,
                Err(e) => exists|index: u16| #[trigger]
                    wants_cam(
                        old(self).tree.files.listing(),
                        old(self).tree.files.listing().len() as int,
                        old(self).cams(),
                        index,
                    ) && cam_read(bytes_of(sidecars@), index) == Err::<
                        Map<u64, VPKRespawnCamEntry>,
                        Error,
                    >(e),
            },
    {
        let wanted = self.missing_cams();
        let ghost listing = self.tree.files.listing();
        let ghost before = self.cams();
        let ghost files = bytes_of(sidecars@);
        let mut failure: Option<Error> = None;
        let mut k: usize = 0;
        while k < wanted.len()
            invariant
                k <= wanted.len(),
                wanted@.no_duplicates(),
                self.header == old(self).header,
                self.tree == old(self).tree,
                files == bytes_of(sidecars@),
                forall|index: u16|
                    wanted@.contains(index) <==> wants_cam(
                        listing,
                        listing.len() as int,
                        before,
                        index,
                    ),
                forall|index: u16| #[trigger]
                    self.cams().contains_key(index) <==> before.contains_key(index) || (
                    among_first(wanted@, k as int, index) && cam_read(files, index) is Ok),
                forall|index: u16| #[trigger]
                    self.cams().contains_key(index) ==> self.cams()[index] == cams_read(
                        listing,
                        before,
                        files,
                    )[index],
                failure is None ==> forall|j: int|
                    0 <= j < k ==> cam_read(files, #[trigger] wanted@[j]) is Ok,
                failure matches Some(e) ==> exists|j: int|
                    0 <= j < k && cam_read(files, #[trigger] wanted@[j]) == Err::<
                        Map<u64, VPKRespawnCamEntry>,
                        Error,
                    >(e),
            decreases wanted.len() - k,
        {
            let index = wanted[k];
            let ghost kept = self.cams();
            let ghost failed = failure;
            assert(wanted@.contains(index));
            assert(!among_first(wanted@, k as int, index));
            let read = match sidecars.get(&index) {
                Some(bytes) => {
                    let mut file = ByteReader::new(*bytes);
                    self.read_cam(index, &mut file)
                },
                None => Err(Error::Io(IoError::NotFound)),
            };
            match read {
                Ok(_) => {},
                Err(e) => {
                    if failure.is_none() {
                        failure = Some(e);
                    }
                },
            }
            proof {
                assert(read is Ok <==> cam_read(files, index) is Ok);
                assert(read matches Err(e) ==> cam_read(files, index) == Err::<
                    Map<u64, VPKRespawnCamEntry>,
                    Error,
                >(e));
                assert(among_first(wanted@, k + 1, index)) by {
                    assert(wanted@[k as int] == index);
                }
                assert forall|other: u16|
                    among_first(wanted@, k + 1, other) <==> other == index || among_first(
                        wanted@,
                        k as int,
                        other,
                    ) by {
                    if among_first(wanted@, k + 1, other) {
                        let j = choose|j: int| 0 <= j < k + 1 && #[trigger] wanted@[j] == other;
                        if j < k {
                            assert(among_first(wanted@, k as int, other));
                        }
                    }
                    if among_first(wanted@, k as int, other) {
                        let j = choose|j: int| 0 <= j < k && #[trigger] wanted@[j] == other;
                        assert(wanted@[j] == other);
                    }
                }
                match failed {
                    Some(e) => {
                        let j = choose|j: int|
                            0 <= j < k && cam_read(files, #[trigger] wanted@[j]) == Err::<
                                Map<u64, VPKRespawnCamEntry>,
                                Error,
                            >(e);
                        assert(cam_read(files, wanted@[j]) == Err::<
                            Map<u64, VPKRespawnCamEntry>,
                            Error,
                        >(e));
                    },
                    None => match read {
                        Err(e) => {
                            assert(cam_read(files, wanted@[k as int]) == Err::<
                                Map<u64, VPKRespawnCamEntry>,
                                Error,
                            >(e));
                        },
                        Ok(_) => {},
                    },
                }
            }
            k = k + 1;
        }
        proof {
            let goal = cams_read(listing, before, files);
            assert forall|index: u16|
                among_first(wanted@, k as int, index) <==> wanted@.contains(index) by {
                if among_first(wanted@, k as int, index) {
                    let j = choose|j: int| 0 <= j < k && #[trigger] wanted@[j] == index;
                    assert(wanted@[j] == index);
                }
                if wanted@.contains(index) {
                    let j = choose|j: int| 0 <= j < wanted@.len() && wanted@[j] == index;
                    assert(wanted@[j] == index);
                }
            }
            assert forall|index: u16| self.cams().contains_key(index) <==> goal.contains_key(
                index,
            ) by {
                assert(among_first(wanted@, k as int, index) <==> wanted@.contains(index));
                assert(wanted@.contains(index) <==> wants_cam(
                    listing,
                    listing.len() as int,
                    before,
                    index,
                ));
            }
            assert(self.cams() =~= goal);
        }
        match failure {
            Some(e) => {
                proof {
                    let j = choose|j: int|
                        0 <= j < k && cam_read(files, #[trigger] wanted@[j]) == Err::<
                            Map<u64, VPKRespawnCamEntry>,
                            Error,
                        >(e);
                    assert(wanted@.contains(wanted@[j]));
                    assert(wants_cam(listing, listing.len() as int, before, wanted@[j]));
                }
                Err(e)
            },
            None => {
                proof {
                    assert forall|index: u16| #[trigger]
                        wants_cam(listing, listing.len() as int, before, index) implies cam_read(
                        files,
                        index,
                    ) is Ok by {
                        assert(wanted@.contains(index));
                        let j = choose|j: int| 0 <= j < wanted@.len() && wanted@[j] == index;
                        assert(cam_read(files, wanted@[j]) is Ok);
                    }
                }
                Ok(())
            },
        }
    }
}

/// Whether the list holds the index.
fn holds(list: &Vec<u16>, index: u16) -> (b: bool)
    ensures
        b == list@.contains(index),
{
    let mut k: usize = 0;
    while k < list.len()
        invariant
            k <= list@.len(),
            forall|m: int| 0 <= m < k ==> list@[m] != index,
        decreases list@.len() - k,
    {
        if list[k] == index {
            return true;
        }
        k = k + 1;
    }
    false
}

/// Whether the sidecars hold a record for the first part of the entry.
pub open spec fn has_cam(
    cams: Map<u16, Map<u64, VPKRespawnCamEntry>>,
    entry: RespawnEntryModel,
) -> bool {
    let first = entry.file_parts[0];
    cams.contains_key(first.archive_index) && cams[first.archive_index].contains_key(
        first.entry_offset,
    )
}

/// The contents of a file without a record in any sidecar do not depend on
/// the sidecars that were read: for an audio file the WAV header is the one
/// of the metadata that is made up for its entry.
pub proof fn lemma_content_without_cam(
    tree: TreeModel<RespawnEntryModel>,
    cams: Map<u16, Map<u64, VPKRespawnCamEntry>>,
    other_cams: Map<u16, Map<u64, VPKRespawnCamEntry>>,
    archives: Map<u16, Seq<u8>>,
    inflated: Map<u128, Seq<u8>>,
    path: Seq<u8>,
    mapped: bool,
)
    requires
        tree.files.contains_key(path),
        !has_cam(cams, tree.files[path]),
        !has_cam(other_cams, tree.files[path]),
    ensures
        respawn_content(tree, cams, archives, inflated, path, mapped) == respawn_content(
            tree,
            other_cams,
            archives,
            inflated,
            path,
            mapped,
        ),
        is_wav(path) ==> cam_of(cams, tree.files[path]) == match default_cam_error(
            tree.files[path],
        ) {
            Some(e) => Err::<VPKRespawnCamEntry, Error>(e),
            None => Ok::<VPKRespawnCamEntry, Error>(default_cam(tree.files[path])),
        },
{
}

/// The contents of a file that is no audio file carry the checksum of its
/// entry; bytes that are gathered for such a file and carry another
/// checksum are refused as such.
pub proof fn lemma_checksum_enforced(
    tree: TreeModel<RespawnEntryModel>,
    cams: Map<u16, Map<u64, VPKRespawnCamEntry>>,
    archives: Map<u16, Seq<u8>>,
    inflated: Map<u128, Seq<u8>>,
    path: Seq<u8>,
    mapped: bool,
)
    requires
        !is_wav(path),
    ensures
        respawn_content(tree, cams, archives, inflated, path, mapped) matches Ok(bytes)
            ==> crc32_iso_hdlc(bytes) == tree.files[path].crc,
        respawn_gathered(tree, cams, archives, inflated, path, mapped) matches Ok((bytes, _))
            && crc32_iso_hdlc(bytes) != tree.files[path].crc ==> respawn_content(
            tree,
            cams,
            archives,
            inflated,
            path,
            mapped,
        ) == Err::<Seq<u8>, Error>(Error::BadData(Violation::CrcMismatch)),
{
}

/// The sum of the expanded lengths of parts is the expanded length of the
/// first part and the sum of the others.
pub proof fn lemma_total_first(parts: Seq<VPKFilePartEntryRespawn>)
    requires
        parts.len() > 0,
    ensures
        total_uncompressed(parts) == parts[0].entry_length_uncompressed + total_uncompressed(
            parts.drop_first(),
        ),
    decreases parts.len(),
{
    if parts.len() == 1 {
        assert(parts.drop_last() =~= Seq::<VPKFilePartEntryRespawn>::empty());
        assert(parts.drop_first() =~= Seq::<VPKFilePartEntryRespawn>::empty());
        assert(total_uncompressed(parts.drop_last()) == 0);
    } else {
        lemma_total_first(parts.drop_last());
        assert(parts.drop_last().drop_first() =~= parts.drop_first().drop_last());
        assert(parts.drop_first().last() == parts.last());
        assert(parts.drop_last()[0] == parts[0]);
    }
}

/// What was supplied for a compressed part among the parts holds as many
/// bytes as the part declares expanded.
pub open spec fn fully_expanded(
    parts: Seq<VPKFilePartEntryRespawn>,
    inflated: Map<u128, Seq<u8>>,
) -> bool {
    forall|i: int|
        0 <= i < parts.len() && is_compressed(#[trigger] parts[i]) ==> inflated.contains_key(
            part_key(parts[i].archive_index, parts[i].entry_offset),
        ) ==> inflated[part_key(parts[i].archive_index, parts[i].entry_offset)].len()
            == parts[i].entry_length_uncompressed
}

/// The parts from `i` on of a file that is no audio file add as many bytes
/// as they declare expanded, where what was supplied for a compressed part
/// holds as many.
pub proof fn lemma_parts_length(
    parts: Seq<VPKFilePartEntryRespawn>,
    i: int,
    archives: Map<u16, Seq<u8>>,
    inflated: Map<u128, Seq<u8>>,
    mapped: bool,
)
    requires
        0 <= i <= parts.len(),
        fully_expanded(parts, inflated),
    ensures
        parts_bytes(parts, i, false, archives, inflated, mapped) matches Ok(bytes) ==> bytes.len()
            == total_uncompressed(parts.subrange(i, parts.len() as int)),
    decreases parts.len() - i,
{
    let tail = parts.subrange(i, parts.len() as int);
    if i < parts.len() {
        lemma_parts_length(parts, i + 1, archives, inflated, mapped);
        lemma_total_first(tail);
        assert(tail.drop_first() =~= parts.subrange(i + 1, parts.len() as int));
        assert(tail[0] == parts[i]);
    } else {
        assert(tail =~= Seq::<VPKFilePartEntryRespawn>::empty());
    }
}

/// The contents of a file that is no audio file are as long as its preload
/// bytes and the expanded lengths of its parts together, where what was
/// supplied for a compressed part holds as many bytes as the part declares.
pub proof fn lemma_content_length(
    tree: TreeModel<RespawnEntryModel>,
    cams: Map<u16, Map<u64, VPKRespawnCamEntry>>,
    archives: Map<u16, Seq<u8>>,
    inflated: Map<u128, Seq<u8>>,
    path: Seq<u8>,
    mapped: bool,
)
    requires
        !is_wav(path),
        tree.files.contains_key(path),
        fully_expanded(tree.files[path].file_parts, inflated),
    ensures
        respawn_content(tree, cams, archives, inflated, path, mapped) matches Ok(bytes)
            ==> bytes.len() == (if tree.files[path].preload_length > 0 {
            tree.preload[path].len()
        } else {
            0
        }) + total_uncompressed(tree.files[path].file_parts),
{
    let parts = tree.files[path].file_parts;
    lemma_parts_length(parts, 0, archives, inflated, mapped);
    assert(parts.subrange(0, parts.len() as int) =~= parts);
}

} // verus!
