//! The directory tree: the listing of the packaged files.
//!
//! In a directory file the listing is nested three levels deep: extension,
//! directory, file name. Every level is a run of zero-terminated strings; an
//! empty string closes the directory and the file-name level. The extension
//! level has no terminator of its own: the declared size of the tree bounds
//! it.

use crate::pak::entry::DirEntry;
use crate::pak::error::{eof_error, Error};
use crate::pak::map::PathMap;
use crate::pak::path::{bytes_eq, compose, dir_of, ext_of, join, split, stem_of, PathParts};
use crate::util;
use crate::util::error::IoError;
use crate::util::file::{
    available, bytes_at, cstr_at, cstr_end, lemma_cstr_bounds, ByteReader, VPKFileReader,
    VPKFileWriter,
};
use vstd::prelude::*;
use vstd::utf8::{encode_utf8, valid_utf8};

verus! {

/// What a directory tree lists: an entry for every file, and the preload
/// bytes of the files that have some. Keys are the UTF-8 bytes of the paths.
pub struct TreeModel<T> {
    /// The entry of each file.
    pub files: Map<Seq<u8>, T>,
    /// The preload bytes of each file that has some.
    pub preload: Map<Seq<u8>, Seq<u8>>,
}

impl<T> TreeModel<T> {
    /// The tree that lists nothing.
    pub open spec fn empty() -> Self {
        TreeModel { files: Map::empty(), preload: Map::empty() }
    }

    /// The tree with one more file listed.
    pub open spec fn with(self, path: Seq<u8>, entry: T, preload: Option<Seq<u8>>) -> Self {
        TreeModel {
            files: self.files.insert(path, entry),
            preload: match preload {
                Some(bytes) => self.preload.insert(path, bytes),
                None => self.preload,
            },
        }
    }
}

/// The failure of reading a string that starts at `pos` and is no UTF-8.
pub open spec fn utf8_error(pos: int) -> Error {
    Error::Util(util::error::Error::Utf8(pos as u64))
}

/// The preload bytes that are read behind an entry which ends at `pos`:
/// as many as the entry declares. A stream that holds fewer fails the read.
pub open spec fn preload_at(data: Seq<u8>, pos: int, declared: nat) -> Result<
    Option<Seq<u8>>,
    Error,
> {
    if declared == 0 {
        Ok(None)
    } else if declared <= available(data, pos) {
        Ok(Some(bytes_at(data, pos, declared as int)))
    } else {
        Err(eof_error())
    }
}

/// What reading the files of one directory yields, from the file name at
/// `pos` on: the tree with these files added to `acc`, and where the cursor
/// then stands. The run ends with an empty name, or with a name that ends
/// behind `limit`.
pub open spec fn parse_files<E: DirEntry>(
    data: Seq<u8>,
    pos: int,
    limit: int,
    dir: Seq<u8>,
    ext: Seq<u8>,
    acc: TreeModel<E::V>,
) -> Result<(TreeModel<E::V>, int), Error>
    decreases data.len() - pos,
{
    let name = cstr_at(data, pos);
    let after_name = cstr_end(data, pos);
    if !valid_utf8(name) {
        Err(utf8_error(pos))
    } else if name.len() == 0 || after_name > limit {
        Ok((acc, after_name))
    } else {
        match E::parse_at(data, after_name) {
            Err(e) => Err(e),
            Ok((entry, taken)) => match preload_at(
                data,
                after_name + taken,
                E::preload_len(entry),
            ) {
                Err(e) => Err(e),
                Ok(preload) => {
                    let next = after_name + taken + match preload {
                        Some(bytes) => bytes.len(),
                        None => 0,
                    };
                    proof {
                        lemma_cstr_bounds(data, pos);
                        E::lemma_parse_bounds(data, after_name);
                    }
                    parse_files::<E>(
                        data,
                        next,
                        limit,
                        dir,
                        ext,
                        acc.with(compose(dir, name, ext), entry, preload),
                    )
                },
            },
        }
    }
}

/// Reading the files of a directory moves the cursor on, and not behind the
/// end of a stream that it stood in.
pub proof fn lemma_parse_files_end<E: DirEntry>(
    data: Seq<u8>,
    pos: int,
    limit: int,
    dir: Seq<u8>,
    ext: Seq<u8>,
    acc: TreeModel<E::V>,
)
    ensures
        parse_files::<E>(data, pos, limit, dir, ext, acc) matches Ok((_, end)) ==> pos <= end && (0
            <= pos <= data.len() ==> end <= data.len()),
    decreases data.len() - pos,
{
    lemma_cstr_bounds(data, pos);
    let name = cstr_at(data, pos);
    let after_name = cstr_end(data, pos);
    if valid_utf8(name) && !(name.len() == 0 || after_name > limit) {
        if let Ok((entry, taken)) = E::parse_at(data, after_name) {
            E::lemma_parse_bounds(data, after_name);
            if let Ok(preload) = preload_at(data, after_name + taken, E::preload_len(entry)) {
                let next = after_name + taken + match preload {
                    Some(bytes) => bytes.len(),
                    None => 0,
                };
                lemma_parse_files_end::<E>(
                    data,
                    next,
                    limit,
                    dir,
                    ext,
                    acc.with(compose(dir, name, ext), entry, preload),
                );
            }
        }
    }
}

/// What reading the directories of one extension yields, from the directory
/// name at `pos` on. The run ends as a run of files does.
pub open spec fn parse_dirs<E: DirEntry>(
    data: Seq<u8>,
    pos: int,
    limit: int,
    ext: Seq<u8>,
    acc: TreeModel<E::V>,
) -> Result<(TreeModel<E::V>, int), Error>
    decreases data.len() - pos,
{
    let dir = cstr_at(data, pos);
    let after_dir = cstr_end(data, pos);
    if !valid_utf8(dir) {
        Err(utf8_error(pos))
    } else if dir.len() == 0 || after_dir > limit {
        Ok((acc, after_dir))
    } else {
        match parse_files::<E>(data, after_dir, limit, dir, ext, acc) {
            Err(e) => Err(e),
            Ok((more, next)) => {
                proof {
                    lemma_cstr_bounds(data, pos);
                    lemma_parse_files_end::<E>(data, after_dir, limit, dir, ext, acc);
                }
                parse_dirs::<E>(data, next, limit, ext, more)
            },
        }
    }
}

/// Reading the directories of an extension moves the cursor on, and not
/// behind the end of a stream that it stood in.
pub proof fn lemma_parse_dirs_end<E: DirEntry>(
    data: Seq<u8>,
    pos: int,
    limit: int,
    ext: Seq<u8>,
    acc: TreeModel<E::V>,
)
    ensures
        parse_dirs::<E>(data, pos, limit, ext, acc) matches Ok((_, end)) ==> pos <= end && (0
            <= pos <= data.len() ==> end <= data.len()),
    decreases data.len() - pos,
{
    lemma_cstr_bounds(data, pos);
    let dir = cstr_at(data, pos);
    let after_dir = cstr_end(data, pos);
    if valid_utf8(dir) && !(dir.len() == 0 || after_dir > limit) {
        if let Ok((more, next)) = parse_files::<E>(data, after_dir, limit, dir, ext, acc) {
            lemma_parse_files_end::<E>(data, after_dir, limit, dir, ext, acc);
            lemma_parse_dirs_end::<E>(data, next, limit, ext, more);
        }
    }
}

/// What reading the extensions of a tree yields, from the extension name at
/// `pos` on. The run ends at `limit`, or with an empty name.
pub open spec fn parse_exts<E: DirEntry>(
    data: Seq<u8>,
    pos: int,
    limit: int,
    acc: TreeModel<E::V>,
) -> Result<(TreeModel<E::V>, int), Error>
    decreases data.len() - pos,
{
    if pos >= limit {
        Ok((acc, pos))
    } else {
        let ext = cstr_at(data, pos);
        let after_ext = cstr_end(data, pos);
        if !valid_utf8(ext) {
            Err(utf8_error(pos))
        } else if ext.len() == 0 {
            Ok((acc, after_ext))
        } else {
            match parse_dirs::<E>(data, after_ext, limit, ext, acc) {
                Err(e) => Err(e),
                Ok((more, next)) => {
                    proof {
                        lemma_cstr_bounds(data, pos);
                        lemma_parse_dirs_end::<E>(data, after_ext, limit, ext, acc);
                    }
                    parse_exts::<E>(data, next, limit, more)
                },
            }
        }
    }
}

/// What reading a tree of `size` bytes at `start` yields: the tree, and
/// where the cursor then stands.
pub open spec fn parse_tree<E: DirEntry>(data: Seq<u8>, start: int, size: int) -> Result<
    (TreeModel<E::V>, int),
    Error,
> {
    parse_exts::<E>(data, start, start + size, TreeModel::empty())
}

/// One file of a tree, as the tree is written.
pub struct Item<T> {
    /// The bytes of the path.
    pub path: Seq<u8>,
    /// The entry.
    pub entry: T,
    /// The preload bytes, where the tree holds some for the path.
    pub preload: Option<Seq<u8>>,
}

/// The files of a tree in the order of its listing.
pub open spec fn items_of<T>(
    listing: Seq<(Seq<u8>, T)>,
    preload: Map<Seq<u8>, Seq<u8>>,
) -> Seq<Item<T>> {
    Seq::new(
        listing.len(),
        |i: int|
            Item {
                path: listing[i].0,
                entry: listing[i].1,
                preload: if preload.contains_key(listing[i].0) {
                    Some(preload[listing[i].0])
                } else {
                    None
                },
            },
    )
}

/// The first failure among the entries from `from` on, where one of them
/// cannot be written.
pub open spec fn first_write_error<E: DirEntry>(items: Seq<Item<E::V>>, from: int) -> Option<
    Error,
>
    decreases items.len() - from,
{
    if from < 0 || from >= items.len() {
        None
    } else if E::write_error(items[from].entry) is Some {
        E::write_error(items[from].entry)
    } else {
        first_write_error::<E>(items, from + 1)
    }
}

/// No file before `i` has the extension of the file at `i`.
pub open spec fn leads_ext<T>(items: Seq<Item<T>>, i: int) -> bool {
    forall|l: int| 0 <= l < i ==> ext_of((#[trigger] items[l]).path) != ext_of(items[i].path)
}

/// No file before `j` has the extension and the directory of the file at `j`.
pub open spec fn leads_dir<T>(items: Seq<Item<T>>, j: int) -> bool {
    forall|l: int|
        0 <= l < j ==> !(ext_of((#[trigger] items[l]).path) == ext_of(items[j].path) && dir_of(
            items[l].path,
        ) == dir_of(items[j].path))
}

/// The bytes of one file in a directory file: its stem, its entry and its
/// preload bytes.
pub open spec fn wire_file<E: DirEntry>(item: Item<E::V>) -> Seq<u8> {
    stem_of(item.path) + seq![0u8] + E::wire(item.entry) + match item.preload {
        Some(bytes) => bytes,
        None => Seq::empty(),
    }
}

/// The bytes of the files from `k` on that have the extension `ext` and the
/// directory `dir`, in the order of the listing.
pub open spec fn wire_files<E: DirEntry>(
    items: Seq<Item<E::V>>,
    k: int,
    ext: Seq<u8>,
    dir: Seq<u8>,
) -> Seq<u8>
    decreases items.len() - k,
{
    if k < 0 || k >= items.len() {
        Seq::empty()
    } else if ext_of(items[k].path) == ext && dir_of(items[k].path) == dir {
        wire_file::<E>(items[k]) + wire_files::<E>(items, k + 1, ext, dir)
    } else {
        wire_files::<E>(items, k + 1, ext, dir)
    }
}

/// The bytes of the directories that files from `j` on with the extension
/// `ext` are first to name, in the order of the listing: each directory's
/// name, its files and an empty string.
pub open spec fn wire_dirs<E: DirEntry>(items: Seq<Item<E::V>>, j: int, ext: Seq<u8>) -> Seq<u8>
    decreases items.len() - j,
{
    if j < 0 || j >= items.len() {
        Seq::empty()
    } else if ext_of(items[j].path) == ext && leads_dir(items, j) {
        dir_of(items[j].path) + seq![0u8] + wire_files::<E>(
            items,
            j,
            ext,
            dir_of(items[j].path),
        ) + seq![0u8] + wire_dirs::<E>(items, j + 1, ext)
    } else {
        wire_dirs::<E>(items, j + 1, ext)
    }
}

/// The bytes of the extensions that files from `i` on are first to name, in
/// the order of the listing: each extension's name, its directories and an
/// empty string.
pub open spec fn wire_exts<E: DirEntry>(items: Seq<Item<E::V>>, i: int) -> Seq<u8>
    decreases items.len() - i,
{
    if i < 0 || i >= items.len() {
        Seq::empty()
    } else if leads_ext(items, i) {
        ext_of(items[i].path) + seq![0u8] + wire_dirs::<E>(items, i, ext_of(items[i].path))
            + seq![0u8] + wire_exts::<E>(items, i + 1)
    } else {
        wire_exts::<E>(items, i + 1)
    }
}

/// The directory tree of a package.
#[derive(Debug)]
pub struct VPKTree<DirectoryEntry> {
    /// The entry of every file that the tree lists.
    pub files: PathMap<DirectoryEntry>,
    /// The preload bytes of every file that has some.
    pub preload: PathMap<Vec<u8>>,
}

impl<E: DirEntry> View for VPKTree<E> {
    type V = TreeModel<E::V>;

    open spec fn view(&self) -> TreeModel<E::V> {
        TreeModel { files: self.files@, preload: self.preload@ }
    }
}

impl<E: DirEntry> VPKTree<E> {
    /// The files of the tree in the order of its listing.
    pub open spec fn items(&self) -> Seq<Item<E::V>> {
        items_of(self.files.listing(), self.preload@)
    }

    /// The bytes of the tree in a directory file.
    pub open spec fn wire(&self) -> Seq<u8> {
        wire_exts::<E>(self.items(), 0)
    }

    /// A tree that lists nothing.
    pub fn new() -> (tree: Self)
        ensures
            tree@ == TreeModel::<E::V>::empty(),
            tree.files.listing().len() == 0,
    {
        VPKTree { files: PathMap::new(), preload: PathMap::new() }
    }

    /// Reads the files of one directory into the tree.
    fn read_files(&mut self, file: &mut ByteReader<'_>, limit: u128, dir: &str, ext: &str) -> (r:
        Result<(), Error>)
        ensures
            final(file).data() == old(file).data(),
            match parse_files::<E>(
                old(file).data(),
                old(file).position(),
                limit as int,
                encode_utf8(dir@),
                encode_utf8(ext@),
                old(self)@,
            ) {
                Ok((model, end)) => r is Ok && final(self)@ == model && final(file).position()
                    == end,
                Err(e) => r == Err::<(), Error>(e),
            },
    {
        let ghost data = file.data();
        let ghost goal = parse_files::<E>(
            data,
            file.position(),
            limit as int,
            encode_utf8(dir@),
            encode_utf8(ext@),
            self@,
        );
        loop
            invariant
                file.data() == data,
                data == old(file).data(),
                goal == parse_files::<E>(
                    data,
                    old(file).position(),
                    limit as int,
                    encode_utf8(dir@),
                    encode_utf8(ext@),
                    old(self)@,
                ),
                parse_files::<E>(
                    data,
                    file.position(),
                    limit as int,
                    encode_utf8(dir@),
                    encode_utf8(ext@),
                    self@,
                ) == goal,
            decreases data.len() - file.position(),
        {
            let ghost pos = file.position();
            proof {
                lemma_cstr_bounds(data, pos);
            }
            let name = match file.read_string() {
                Ok(s) => s,
                Err(e) => return Err(Error::Util(e)),
            };
            if name.as_str().is_empty() || file.stream_position() as u128 > limit {
                proof {
                    assert(name@.len() == 0 <==> cstr_at(data, pos).len() == 0) by {
                        if name@.len() == 0 {
                            assert(encode_utf8(name@) =~= Seq::<u8>::empty());
                        }
                    }
                }
                return Ok(());
            }
            proof {
                assert(cstr_at(data, pos).len() != 0) by {
                    if cstr_at(data, pos).len() == 0 {
                        assert(vstd::utf8::decode_utf8(cstr_at(data, pos)) =~= Seq::<
                            char,
                        >::empty());
                    }
                }
                E::lemma_parse_bounds(data, file.position());
            }
            let path = join(dir, name.as_str(), ext);
            let entry = match E::from(file) {
                Ok(entry) => entry,
                Err(e) => return Err(e),
            };
            let declared = entry.get_preload_length();
            if declared > 0 {
                let bytes = match file.read_bytes(declared) {
                    Ok(bytes) => bytes,
                    Err(e) => return Err(Error::Util(e)),
                };
                if bytes.len() != declared {
                    return Err(Error::Util(util::error::Error::Io(IoError::UnexpectedEof)));
                }
                self.preload.insert(path.clone(), bytes);
            }
            self.files.insert(path, entry);
        }
    }

    /// Reads the directories of one extension into the tree.
    fn read_dirs(&mut self, file: &mut ByteReader<'_>, limit: u128, ext: &str) -> (r: Result<
        (),
        Error,
    >)
        ensures
            final(file).data() == old(file).data(),
            match parse_dirs::<E>(
                old(file).data(),
                old(file).position(),
                limit as int,
                encode_utf8(ext@),
                old(self)@,
            ) {
                Ok((model, end)) => r is Ok && final(self)@ == model && final(file).position()
                    == end,
                Err(e) => r == Err::<(), Error>(e),
            },
    {
        let ghost data = file.data();
        let ghost goal = parse_dirs::<E>(
            data,
            file.position(),
            limit as int,
            encode_utf8(ext@),
            self@,
        );
        loop
            invariant
                file.data() == data,
                data == old(file).data(),
                goal == parse_dirs::<E>(
                    data,
                    old(file).position(),
                    limit as int,
                    encode_utf8(ext@),
                    old(self)@,
                ),
                parse_dirs::<E>(data, file.position(), limit as int, encode_utf8(ext@), self@)
                    == goal,
            decreases data.len() - file.position(),
        {
            let ghost pos = file.position();
            proof {
                lemma_cstr_bounds(data, pos);
            }
            let dir = match file.read_string() {
                Ok(s) => s,
                Err(e) => return Err(Error::Util(e)),
            };
            if dir.as_str().is_empty() || file.stream_position() as u128 > limit {
                proof {
                    assert(dir@.len() == 0 <==> cstr_at(data, pos).len() == 0) by {
                        if dir@.len() == 0 {
                            assert(encode_utf8(dir@) =~= Seq::<u8>::empty());
                        }
                    }
                }
                return Ok(());
            }
            proof {
                assert(cstr_at(data, pos).len() != 0) by {
                    if cstr_at(data, pos).len() == 0 {
                        assert(vstd::utf8::decode_utf8(cstr_at(data, pos)) =~= Seq::<
                            char,
                        >::empty());
                    }
                }
                lemma_parse_files_end::<E>(
                    data,
                    file.position(),
                    limit as int,
                    encode_utf8(dir@),
                    encode_utf8(ext@),
                    self@,
                );
            }
            match self.read_files(file, limit, dir.as_str(), ext) {
                Ok(_) => {},
                Err(e) => return Err(e),
            }
        }
    }

    /// Reads the tree that takes `size` bytes of the stream from `start` on.
    /// The cursor is moved to `start` first and is left behind the tree.
    pub fn from(file: &mut ByteReader<'_>, start: u64, size: u64) -> (r: Result<Self, Error>)
        ensures
            final(file).data() == old(file).data(),
            match parse_tree::<E>(old(file).data(), start as int, size as int) {
                Ok((model, end)) => r matches Ok(tree) && tree@ == model && final(file).position()
                    == end,
                Err(e) => r matches Err(err) && err == e,
            },
    {
        file.seek(start);
        let limit: u128 = start as u128 + size as u128;
        let mut tree = Self::new();
        let ghost data = file.data();
        let ghost goal = parse_tree::<E>(data, start as int, size as int);
        while (file.stream_position() as u128) < limit
            invariant_except_break
                parse_exts::<E>(data, file.position(), limit as int, tree@) == goal,
            invariant
                file.data() == data,
                data == old(file).data(),
                limit == start + size,
                goal == parse_tree::<E>(data, start as int, size as int),
            ensures
                file.data() == data,
                goal == Ok::<(TreeModel<E::V>, int), Error>((tree@, file.position())),
            decreases data.len() - file.position(),
        {
            let ghost pos = file.position();
            proof {
                lemma_cstr_bounds(data, pos);
            }
            let ext = match file.read_string() {
                Ok(s) => s,
                Err(e) => return Err(Error::Util(e)),
            };
            if ext.as_str().is_empty() {
                proof {
                    assert(encode_utf8(ext@) =~= Seq::<u8>::empty());
                }
                break ;
            }
            proof {
                assert(cstr_at(data, pos).len() != 0) by {
                    if cstr_at(data, pos).len() == 0 {
                        assert(vstd::utf8::decode_utf8(cstr_at(data, pos)) =~= Seq::<
                            char,
                        >::empty());
                    }
                }
                lemma_parse_dirs_end::<E>(
                    data,
                    file.position(),
                    limit as int,
                    encode_utf8(ext@),
                    tree@,
                );
            }
            match tree.read_dirs(file, limit, ext.as_str()) {
                Ok(_) => {},
                Err(e) => return Err(e),
            }
        }
        Ok(tree)
    }
}

impl<E: DirEntry> Default for VPKTree<E> {
    fn default() -> (tree: Self)
        ensures
            tree@ == TreeModel::<E::V>::empty(),
            tree.files.listing().len() == 0,
    {
        Self::new()
    }
}

/// The parts of the paths of a tree, one for each file of its listing.
pub open spec fn parts_match<T>(parts: Seq<PathParts<'_>>, items: Seq<Item<T>>) -> bool {
    &&& parts.len() == items.len()
    &&& forall|i: int|
        0 <= i < parts.len() ==> {
            &&& (#[trigger] parts[i]).dir@ == dir_of(items[i].path)
            &&& parts[i].stem@ == stem_of(items[i].path)
            &&& parts[i].extension@ == ext_of(items[i].path)
        }
}

/// Where no entry from `from` on fails to be written, none behind does.
pub proof fn lemma_no_write_error<E: DirEntry>(items: Seq<Item<E::V>>, from: int, k: int)
    requires
        first_write_error::<E>(items, from) is None,
        0 <= from <= k < items.len(),
    ensures
        E::write_error(items[k].entry) is None,
    decreases k - from,
{
    if from < k {
        lemma_no_write_error::<E>(items, from + 1, k);
    }
}

/// Whether no path before the one at `i` has its extension. The path next
/// before is looked at first: in a listing that is grouped by extension it
/// settles the question for all but the first path of a group.
fn leads_ext_at(parts: &Vec<PathParts<'_>>, i: usize) -> (b: bool)
    requires
        i < parts.len(),
    ensures
        b == forall|l: int|
            0 <= l < i ==> (#[trigger] parts[l]).extension@ != parts[i as int].extension@,
{
    if i > 0 && bytes_eq(parts[i - 1].extension, parts[i].extension) {
        assert(parts[i - 1].extension@ == parts[i as int].extension@);
        return false;
    }
    let mut l: usize = 0;
    while l < i
        invariant
            l <= i < parts.len(),
            forall|m: int|
                0 <= m < l ==> (#[trigger] parts[m]).extension@ != parts[i as int].extension@,
        decreases i - l,
    {
        if bytes_eq(parts[l].extension, parts[i].extension) {
            return false;
        }
        l = l + 1;
    }
    true
}

/// Whether no path before the one at `j` has its extension and directory.
/// The path next before is looked at first.
fn leads_dir_at(parts: &Vec<PathParts<'_>>, j: usize) -> (b: bool)
    requires
        j < parts.len(),
    ensures
        b == forall|l: int|
            0 <= l < j ==> !((#[trigger] parts[l]).extension@ == parts[j as int].extension@
                && parts[l].dir@ == parts[j as int].dir@),
{
    if j > 0 && bytes_eq(parts[j - 1].extension, parts[j].extension) && bytes_eq(
        parts[j - 1].dir,
        parts[j].dir,
    ) {
        assert(parts[j - 1].extension@ == parts[j as int].extension@ && parts[j - 1].dir@
            == parts[j as int].dir@);
        return false;
    }
    let mut l: usize = 0;
    while l < j
        invariant
            l <= j < parts.len(),
            forall|m: int|
                0 <= m < l ==> !((#[trigger] parts[m]).extension@ == parts[j as int].extension@
                    && parts[m].dir@ == parts[j as int].dir@),
        decreases j - l,
    {
        if bytes_eq(parts[l].extension, parts[j].extension) && bytes_eq(
            parts[l].dir,
            parts[j].dir,
        ) {
            return false;
        }
        l = l + 1;
    }
    true
}

impl<E: DirEntry> VPKTree<E> {
    /// The parts of every path of the listing.
    fn split_paths(&self) -> (parts: Vec<PathParts<'_>>)
        ensures
            parts_match(parts@, self.items()),
    {
        let n = self.files.len();
        let mut parts: Vec<PathParts<'_>> = Vec::new();
        let mut i: usize = 0;
        while i < n
            invariant
                i <= n,
                n == self.files.listing().len(),
                parts.len() == i,
                forall|m: int|
                    0 <= m < i ==> {
                        &&& (#[trigger] parts[m]).dir@ == dir_of(self.items()[m].path)
                        &&& parts[m].stem@ == stem_of(self.items()[m].path)
                        &&& parts[m].extension@ == ext_of(self.items()[m].path)
                    },
            decreases n - i,
        {
            let path = self.files.path(i);
            parts.push(split(path.as_bytes()));
            i = i + 1;
        }
        parts
    }

    /// Writes the files from `from` on that stand in the directory `dir`
    /// under the extension `ext`.
    fn write_files(
        &self,
        parts: &Vec<PathParts<'_>>,
        from: usize,
        ext: &[u8],
        dir: &[u8],
        file: &mut Vec<u8>,
    ) -> (r: Result<(), Error>)
        requires
            parts_match(parts@, self.items()),
            from <= parts.len(),
            first_write_error::<E>(self.items(), 0) is None,
        ensures
            r is Ok,
            final(file)@ == old(file)@ + wire_files::<E>(self.items(), from as int, ext@, dir@),
    {
        let n = parts.len();
        let ghost items = self.items();
        let ghost before = file@;
        let mut k: usize = from;
        while k < n
            invariant
                from <= k <= n,
                n == parts.len(),
                items == self.items(),
                parts_match(parts@, items),
                first_write_error::<E>(items, 0) is None,
                before + wire_files::<E>(items, from as int, ext@, dir@) == file@ + wire_files::<E>(
                    items,
                    k as int,
                    ext@,
                    dir@,
                ),
            decreases n - k,
        {
            let ghost so_far = file@;
            if bytes_eq(parts[k].extension, ext) && bytes_eq(parts[k].dir, dir) {
                proof {
                    lemma_no_write_error::<E>(items, 0, k as int);
                }
                file.write_bytes(parts[k].stem);
                file.write_u8(0);
                match self.files.value(k).write(file) {
                    Ok(_) => {},
                    Err(e) => return Err(e),
                }
                match self.preload.get(self.files.path(k)) {
                    Some(bytes) => file.write_bytes(bytes.as_slice()),
                    None => {},
                }
                assert(file@ =~= so_far + wire_file::<E>(items[k as int]));
                assert(file@ + wire_files::<E>(items, k + 1, ext@, dir@) =~= so_far + wire_files::<
                    E,
                >(items, k as int, ext@, dir@));
            }
            k = k + 1;
        }
        assert(file@ + wire_files::<E>(items, n as int, ext@, dir@) =~= file@);
        Ok(())
    }

    /// Writes the directories under the extension `ext` that files from
    /// `from` on are first to name.
    fn write_dirs(
        &self,
        parts: &Vec<PathParts<'_>>,
        from: usize,
        ext: &[u8],
        file: &mut Vec<u8>,
    ) -> (r: Result<(), Error>)
        requires
            parts_match(parts@, self.items()),
            from <= parts.len(),
            first_write_error::<E>(self.items(), 0) is None,
        ensures
            r is Ok,
            final(file)@ == old(file)@ + wire_dirs::<E>(self.items(), from as int, ext@),
    {
        let n = parts.len();
        let ghost items = self.items();
        let ghost before = file@;
        let mut j: usize = from;
        while j < n
            invariant
                from <= j <= n,
                n == parts.len(),
                items == self.items(),
                parts_match(parts@, items),
                first_write_error::<E>(items, 0) is None,
                before + wire_dirs::<E>(items, from as int, ext@) == file@ + wire_dirs::<E>(
                    items,
                    j as int,
                    ext@,
                ),
            decreases n - j,
        {
            let ghost so_far = file@;
            if bytes_eq(parts[j].extension, ext) && leads_dir_at(parts, j) {
                assert(leads_dir(items, j as int)) by {
                    assert forall|l: int| 0 <= l < j implies !(ext_of((#[trigger] items[l]).path)
                        == ext_of(items[j as int].path) && dir_of(items[l].path) == dir_of(
                        items[j as int].path,
                    )) by {
                        assert(parts[l].extension@ == ext_of(items[l].path));
                    }
                }
                file.write_bytes(parts[j].dir);
                file.write_u8(0);
                match self.write_files(parts, j, ext, parts[j].dir, file) {
                    Ok(_) => {},
                    Err(e) => return Err(e),
                }
                file.write_u8(0);
                assert(file@ + wire_dirs::<E>(items, j + 1, ext@) =~= so_far + wire_dirs::<E>(
                    items,
                    j as int,
                    ext@,
                ));
            } else {
                assert(!(ext_of(items[j as int].path) == ext@ && leads_dir(items, j as int))) by {
                    if ext_of(items[j as int].path) == ext@ && leads_dir(items, j as int) {
                        assert forall|l: int| 0 <= l < j implies !((#[trigger] parts[l]).extension@
                            == parts[j as int].extension@ && parts[l].dir@
                            == parts[j as int].dir@) by {
                            assert(ext_of(items[l].path) == parts[l].extension@);
                        }
                    }
                }
            }
            j = j + 1;
        }
        assert(file@ + wire_dirs::<E>(items, n as int, ext@) =~= file@);
        Ok(())
    }

    /// Writes the tree to a stream: for every extension its name, for every
    /// directory under it the directory's name, its files and an empty
    /// string, and behind the directories one more empty string. Extensions,
    /// directories and files come in the order in which the listing first
    /// names them. A tree with an entry that cannot be written leaves the
    /// stream as it was.
    pub fn write(&self, file: &mut Vec<u8>) -> (r: Result<(), Error>)
        ensures
            match first_write_error::<E>(self.items(), 0) {
                Some(e) => r == Err::<(), Error>(e) && final(file)@ == old(file)@,
                None => r is Ok && final(file)@ == old(file)@ + self.wire(),
            },
    {
        let n = self.files.len();
        let ghost items = self.items();
        let mut c: usize = 0;
        while c < n
            invariant
                c <= n,
                n == self.files.listing().len(),
                items == self.items(),
                file@ == old(file)@,
                first_write_error::<E>(items, 0) == first_write_error::<E>(items, c as int),
            decreases n - c,
        {
            match self.files.value(c).validate() {
                Ok(_) => {},
                Err(e) => return Err(e),
            }
            c = c + 1;
        }
        let parts = self.split_paths();
        let ghost before = file@;
        let mut i: usize = 0;
        while i < n
            invariant
                i <= n,
                n == parts.len(),
                items == self.items(),
                parts_match(parts@, items),
                first_write_error::<E>(items, 0) is None,
                before + wire_exts::<E>(items, 0) == file@ + wire_exts::<E>(items, i as int),
            decreases n - i,
        {
            let ghost so_far = file@;
            if leads_ext_at(&parts, i) {
                assert(leads_ext(items, i as int)) by {
                    assert forall|l: int| 0 <= l < i implies ext_of((#[trigger] items[l]).path)
                        != ext_of(items[i as int].path) by {
                        assert(parts[l].extension@ == ext_of(items[l].path));
                    }
                }
                file.write_bytes(parts[i].extension);
                file.write_u8(0);
                match self.write_dirs(&parts, i, parts[i].extension, file) {
                    Ok(_) => {},
                    Err(e) => return Err(e),
                }
                file.write_u8(0);
                assert(file@ + wire_exts::<E>(items, i + 1) =~= so_far + wire_exts::<E>(
                    items,
                    i as int,
                ));
            } else {
                assert(!leads_ext(items, i as int)) by {
                    if leads_ext(items, i as int) {
                        assert forall|l: int| 0 <= l < i implies (#[trigger] parts[l]).extension@
                            != parts[i as int].extension@ by {
                            assert(ext_of(items[l].path) == parts[l].extension@);
                        }
                    }
                }
            }
            i = i + 1;
        }
        assert(file@ + wire_exts::<E>(items, n as int) =~= file@);
        Ok(())
    }
}

} // verus!
