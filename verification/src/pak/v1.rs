//! Version 1 of the format.

use crate::pak::archive::Archives;
use crate::pak::content::{archives_needed, assemble, content_of, copy_in_chunks, needed_of};
use crate::pak::entry::VPKDirectoryEntry;
use crate::pak::error::{eof_error, Error};
use crate::pak::map::distinct_keys;
use crate::pak::roundtrip::{
    faithful_tree, lemma_faithful_writable, lemma_read_faithful, lemma_tree_roundtrip, parted,
    preload_matched,
};
use crate::pak::tree::{first_write_error, parse_tree, TreeModel, VPKTree};
use crate::pak::worker::{PakReader, PakWorker, PakWriter};
use crate::util::file::{
    available, holds_at, lemma_holds_at_concat, lemma_layout, lemma_u32_roundtrip, u32_at,
    u32_bytes, ByteReader, VPKFileReader, VPKFileWriter,
};
use vstd::prelude::*;

verus! {

/// The signature that starts a version 1 directory file.
pub const VPK_SIGNATURE_V1: u32 = 0x55AA_1234;

/// The version that a version 1 header carries.
pub const VPK_VERSION_V1: u32 = 1;

/// Number of bytes of a version 1 header.
pub const VPK_HEADER_SIZE_V1: u64 = 12;

/// The header of a version 1 directory file.
#[derive(Debug, Clone, Copy, PartialEq, Eq, Structural)]
pub struct VPKHeaderV1 {
    /// The signature; `VPK_SIGNATURE_V1` in every valid header.
    pub signature: u32,
    /// The version; `VPK_VERSION_V1` in every valid header.
    pub version: u32,
    /// Number of bytes of the directory tree.
    pub tree_size: u32,
}

impl VPKHeaderV1 {
    /// What reading a header at `pos` yields. The signature is judged
    /// before the version is read, and the version before the tree size.
    pub open spec fn parse_at(data: Seq<u8>, pos: int) -> Result<VPKHeaderV1, Error> {
        if available(data, pos) < 4 {
            Err(eof_error())
        } else if u32_at(data, pos) != VPK_SIGNATURE_V1 {
            Err(Error::InvalidSignature(u32_at(data, pos)))
        } else if available(data, pos) < 8 {
            Err(eof_error())
        } else if u32_at(data, pos + 4) != VPK_VERSION_V1 {
            Err(Error::BadVersion(u32_at(data, pos + 4)))
        } else if available(data, pos) < 12 {
            Err(eof_error())
        } else {
            Ok(
                VPKHeaderV1 {
                    signature: u32_at(data, pos),
                    version: u32_at(data, pos + 4),
                    tree_size: u32_at(data, pos + 8),
                },
            )
        }
    }

    /// Why the header cannot be written, where it cannot.
    pub open spec fn write_error(self) -> Option<Error> {
        if self.signature != VPK_SIGNATURE_V1 {
            Some(Error::InvalidSignature(self.signature))
        } else if self.version != VPK_VERSION_V1 {
            Some(Error::BadVersion(self.version))
        } else {
            None
        }
    }

    /// The bytes of the header in a directory file.
    pub open spec fn wire(self) -> Seq<u8> {
        u32_bytes(self.signature) + u32_bytes(self.version) + u32_bytes(self.tree_size)
    }

    /// Whether a version 1 header stands at `pos`, as far as signature and
    /// version tell.
    pub open spec fn probe_at(data: Seq<u8>, pos: int) -> bool {
        &&& available(data, pos) >= 8
        &&& u32_at(data, pos) == VPK_SIGNATURE_V1
        &&& u32_at(data, pos + 4) == VPK_VERSION_V1
    }

    /// Reads a header from a stream.
    pub fn from(file: &mut ByteReader<'_>) -> (r: Result<Self, Error>)
        ensures
            final(file).data() == old(file).data(),
            r == Self::parse_at(old(file).data(), old(file).position()),
            r is Ok ==> final(file).position() == old(file).position() + VPK_HEADER_SIZE_V1,
    {
        let signature = match file.read_u32() {
            Ok(v) => v,
            Err(e) => return Err(Error::Util(e)),
        };
        if signature != VPK_SIGNATURE_V1 {
            return Err(Error::InvalidSignature(signature));
        }
        let version = match file.read_u32() {
            Ok(v) => v,
            Err(e) => return Err(Error::Util(e)),
        };
        if version != VPK_VERSION_V1 {
            return Err(Error::BadVersion(version));
        }
        let tree_size = match file.read_u32() {
            Ok(v) => v,
            Err(e) => return Err(Error::Util(e)),
        };
        Ok(VPKHeaderV1 { signature, version, tree_size })
    }

    /// Writes the header to a stream. A header with another signature or
    /// version leaves the stream as it was.
    pub fn write(&self, file: &mut Vec<u8>) -> (r: Result<(), Error>)
        ensures
            match r {
                Ok(_) => self.write_error() is None && final(file)@ == old(file)@ + self.wire(),
                Err(e) => self.write_error() == Some(e) && final(file)@ == old(file)@,
            },
    {
        if self.signature != VPK_SIGNATURE_V1 {
            return Err(Error::InvalidSignature(self.signature));
        }
        if self.version != VPK_VERSION_V1 {
            return Err(Error::BadVersion(self.version));
        }
        file.write_u32(self.signature);
        file.write_u32(self.version);
        file.write_u32(self.tree_size);
        assert(file@ =~= old(file)@ + self.wire());
        Ok(())
    }

    /// Whether the stream holds a version 1 header at the cursor. The cursor
    /// is left where it was.
    pub fn is_format(file: &mut ByteReader<'_>) -> (b: bool)
        ensures
            final(file).data() == old(file).data(),
            final(file).position() == old(file).position(),
            b == Self::probe_at(old(file).data(), old(file).position()),
    {
        let pos = file.stream_position();
        let signature = file.read_u32();
        let version = file.read_u32();
        file.seek(pos);
        match (signature, version) {
            (Ok(s), Ok(v)) => s == VPK_SIGNATURE_V1 && v == VPK_VERSION_V1,
            _ => false,
        }
    }
}

/// A version 1 package: the header and the tree of its directory file.
#[derive(Debug)]
pub struct VPKVersion1 {
    /// The header.
    pub header: VPKHeaderV1,
    /// The directory tree.
    pub tree: VPKTree<VPKDirectoryEntry>,
}

impl VPKVersion1 {
    /// What reading a directory file at `pos` yields: the header, the tree,
    /// and where the cursor then stands.
    pub open spec fn parse_at(data: Seq<u8>, pos: int) -> Result<
        (VPKHeaderV1, TreeModel<VPKDirectoryEntry>, int),
        Error,
    > {
        match VPKHeaderV1::parse_at(data, pos) {
            Err(e) => Err(e),
            Ok(header) => match parse_tree::<VPKDirectoryEntry>(
                data,
                pos + VPK_HEADER_SIZE_V1,
                header.tree_size as int,
            ) {
                Err(e) => Err(e),
                Ok((tree, end)) => Ok((header, tree, end)),
            },
        }
    }
}

impl PakReader for VPKVersion1 {
    /// The contents of a file: its preload bytes and its bytes in an
    /// archive. The offset of an entry of the directory file counts from the
    /// end of the tree.
    open spec fn content(
        &self,
        archives: Map<u16, Seq<u8>>,
        inflated: Map<u128, Seq<u8>>,
        path: Seq<u8>,
        mapped: bool,
    ) -> Result<Seq<u8>, Error> {
        content_of(
            self.tree@,
            VPK_HEADER_SIZE_V1 + self.header.tree_size,
            archives,
            path,
            mapped,
        )
    }

    open spec fn needed(&self, path: Seq<u8>) -> Set<u16> {
        needed_of(self.tree@, path)
    }

    fn archives_of(&self, file_path: &str) -> (r: Vec<u16>) {
        archives_needed(&self.tree, file_path)
    }

    fn read_file(&self, archives: &Archives<'_>, file_path: &str) -> (r: Option<Vec<u8>>) {
        let data_start = VPK_HEADER_SIZE_V1 + self.header.tree_size as u64;
        match assemble(&self.tree, data_start, archives, file_path, false) {
            Ok(bytes) => Some(bytes),
            Err(_) => None,
        }
    }

    fn extract_file(&self, archives: &Archives<'_>, file_path: &str, output: &mut Vec<u8>) -> (r:
        Result<(), Error>) {
        let data_start = VPK_HEADER_SIZE_V1 + self.header.tree_size as u64;
        let bytes = match assemble(&self.tree, data_start, archives, file_path, false) {
            Ok(bytes) => bytes,
            Err(e) => return Err(e),
        };
        copy_in_chunks(bytes.as_slice(), output);
        Ok(())
    }

    fn extract_file_mem_map(
        &self,
        archive_mmaps: &Archives<'_>,
        file_path: &str,
        output: &mut Vec<u8>,
    ) -> (r: Result<(), Error>) {
        let data_start = VPK_HEADER_SIZE_V1 + self.header.tree_size as u64;
        let bytes = match assemble(&self.tree, data_start, archive_mmaps, file_path, true) {
            Ok(bytes) => bytes,
            Err(e) => return Err(e),
        };
        output.reserve(bytes.len());
        output.write_bytes(bytes.as_slice());
        Ok(())
    }
}

impl PakWriter for VPKVersion1 {
    /// A package cannot be written for its header, or else for the first
    /// entry of the listing that cannot be written.
    open spec fn write_error(&self) -> Option<Error> {
        if self.header.write_error() is Some {
            self.header.write_error()
        } else {
            first_write_error::<VPKDirectoryEntry>(self.tree.items(), 0)
        }
    }

    open spec fn wire(&self) -> Seq<u8> {
        self.header.wire() + self.tree.wire()
    }

    fn write_dir(&self) -> (r: Result<Vec<u8>, Error>) {
        let mut out: Vec<u8> = Vec::new();
        match self.header.write(&mut out) {
            Ok(_) => {},
            Err(e) => return Err(e),
        }
        match self.tree.write(&mut out) {
            Ok(_) => {},
            Err(e) => return Err(e),
        }
        assert(out@ =~= self.wire());
        Ok(out)
    }
}

impl PakWorker for VPKVersion1 {
    open spec fn read_error(data: Seq<u8>, pos: int) -> Option<Error> {
        match Self::parse_at(data, pos) {
            Ok(_) => None,
            Err(e) => Some(e),
        }
    }

    open spec fn read_from(&self, data: Seq<u8>, pos: int, end: int) -> bool {
        Self::parse_at(data, pos) == Ok::<(VPKHeaderV1, TreeModel<VPKDirectoryEntry>, int), Error>(
            (self.header, self.tree@, end),
        )
    }

    open spec fn is_empty(&self) -> bool {
        &&& self.header == (VPKHeaderV1 {
            signature: VPK_SIGNATURE_V1,
            version: VPK_VERSION_V1,
            tree_size: 0,
        })
        &&& self.tree@ == TreeModel::<VPKDirectoryEntry>::empty()
    }

    fn new() -> (vpk: Self) {
        VPKVersion1 {
            header: VPKHeaderV1 {
                signature: VPK_SIGNATURE_V1,
                version: VPK_VERSION_V1,
                tree_size: 0,
            },
            tree: VPKTree::new(),
        }
    }

    fn from_file(file: &mut ByteReader<'_>) -> (r: Result<Self, Error>) {
        let header = match VPKHeaderV1::from(file) {
            Ok(header) => header,
            Err(e) => return Err(e),
        };
        let tree_start = file.stream_position();
        let tree = match VPKTree::from(file, tree_start, header.tree_size as u64) {
            Ok(tree) => tree,
            Err(e) => return Err(e),
        };
        Ok(VPKVersion1 { header, tree })
    }
}

impl VPKVersion1 {
    /// A written header is read back as it was.
    pub proof fn lemma_header_roundtrip(header: VPKHeaderV1, data: Seq<u8>, pos: int)
        requires
            header.write_error() is None,
            holds_at(data, pos, header.wire()),
        ensures
            VPKHeaderV1::parse_at(data, pos) == Ok::<VPKHeaderV1, Error>(header),
    {
        let a = u32_bytes(header.signature);
        let b = u32_bytes(header.version);
        let c = u32_bytes(header.tree_size);
        lemma_holds_at_concat(data, pos, a + b, c);
        lemma_holds_at_concat(data, pos, a, b);
        lemma_u32_roundtrip(data, pos, header.signature);
        lemma_u32_roundtrip(data, pos + 4, header.version);
        lemma_u32_roundtrip(data, pos + 8, header.tree_size);
    }

    /// A header and a tree that are read one behind the other make up what
    /// reading the directory file yields.
    proof fn lemma_join(
        header: VPKHeaderV1,
        tree: TreeModel<VPKDirectoryEntry>,
        data: Seq<u8>,
        taken: int,
    )
        requires
            VPKHeaderV1::parse_at(data, 0) == Ok::<VPKHeaderV1, Error>(header),
            parse_tree::<VPKDirectoryEntry>(data, 12, header.tree_size as int) == Ok::<
                (TreeModel<VPKDirectoryEntry>, int),
                Error,
            >((tree, 12 + taken)),
        ensures
            Self::parse_at(data, 0) == Ok::<
                (VPKHeaderV1, TreeModel<VPKDirectoryEntry>, int),
                Error,
            >((header, tree, 12 + taken)),
    {
    }

    /// A written header takes twelve bytes.
    proof fn lemma_header_len(header: VPKHeaderV1)
        ensures
            header.wire().len() == 12,
    {
    }

    /// A package with a faithful tree and a header that can be written can be
    /// written.
    proof fn lemma_can_write(vpk: VPKVersion1)
        requires
            vpk.header.write_error() is None,
            faithful_tree(vpk.tree),
        ensures
            vpk.write_error() is None,
    {
        reveal(faithful_tree);
        lemma_faithful_writable::<VPKDirectoryEntry>(vpk.tree.items(), 0);
    }

    /// The header and the tree of a written package are read back from the
    /// places at which they were written.
    proof fn lemma_read_parts(vpk: VPKVersion1, head: Seq<u8>, rest: Seq<u8>)
        requires
            vpk.header.write_error() is None,
            faithful_tree(vpk.tree),
            vpk.header.tree_size >= vpk.tree.wire().len(),
            head == vpk.header.wire(),
            rest == vpk.tree.wire(),
            head.len() == 12,
        ensures
            VPKHeaderV1::parse_at(head + rest, 0) == Ok::<VPKHeaderV1, Error>(vpk.header),
            parse_tree::<VPKDirectoryEntry>(head + rest, 12, vpk.header.tree_size as int) == Ok::<
                (TreeModel<VPKDirectoryEntry>, int),
                Error,
            >((vpk.tree@, 12 + rest.len() as int)),
    {
        let data = head + rest;
        lemma_layout(head, rest);
        Self::lemma_header_roundtrip(vpk.header, data, 0);
        lemma_tree_roundtrip::<VPKDirectoryEntry>(
            vpk.tree,
            data,
            12,
            vpk.header.tree_size as int,
        );
    }

    /// A package whose tree is faithful, and whose header can be written and
    /// declares a tree size that is not less than the number of bytes of the
    /// written tree, can be written; and reading the directory file that
    /// `write_dir` gives for it yields the header and the tree of the
    /// package again.
    pub proof fn lemma_write_read(vpk: VPKVersion1)
        requires
            vpk.header.write_error() is None,
            faithful_tree(vpk.tree),
            vpk.header.tree_size >= vpk.tree.wire().len(),
        ensures
            vpk.write_error() is None,
            Self::parse_at(vpk.wire(), 0) == Ok::<
                (VPKHeaderV1, TreeModel<VPKDirectoryEntry>, int),
                Error,
            >((vpk.header, vpk.tree@, vpk.wire().len() as int)),
    {
        let head = vpk.header.wire();
        let rest = vpk.tree.wire();
        Self::lemma_can_write(vpk);
        Self::lemma_header_len(vpk.header);
        Self::lemma_read_parts(vpk, head, rest);
        Self::lemma_join(vpk.header, vpk.tree@, head + rest, rest.len() as int);
    }

    /// A package that was read from a directory file can be written, and
    /// reading the directory file that `write_dir` gives for it yields the
    /// header and the tree of the package again. This holds where every
    /// path of the tree has a directory, a stem and an extension, every
    /// file has preload bytes exactly where its entry declares some, and
    /// the header declares a tree size that is not less than the number of
    /// bytes of the written tree.
    pub proof fn lemma_read_write_read(vpk: VPKVersion1, data: Seq<u8>, pos: int, end: int)
        requires
            Self::parse_at(data, pos) == Ok::<
                (VPKHeaderV1, TreeModel<VPKDirectoryEntry>, int),
                Error,
            >((vpk.header, vpk.tree@, end)),
            distinct_keys(vpk.tree.files.listing()),
            parted(vpk.tree),
            preload_matched(vpk.tree),
            vpk.header.tree_size >= vpk.tree.wire().len(),
        ensures
            vpk.write_error() is None,
            Self::parse_at(vpk.wire(), 0) == Ok::<
                (VPKHeaderV1, TreeModel<VPKDirectoryEntry>, int),
                Error,
            >((vpk.header, vpk.tree@, vpk.wire().len() as int)),
    {
        lemma_read_faithful::<VPKDirectoryEntry>(
            vpk.tree,
            data,
            pos + 12,
            vpk.header.tree_size as int,
        );
        Self::lemma_write_read(vpk);
    }
}

} // verus!
