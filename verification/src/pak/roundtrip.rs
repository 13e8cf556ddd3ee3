//! A tree that was written is read back as it was.
//!
//! The proof follows the three levels of the written bytes. At every level
//! it keeps account of the files that the reader has met so far: the tree
//! read so far lists exactly these.

use crate::pak::entry::DirEntry;
use crate::pak::error::Error;
use crate::pak::map::{distinct_keys, index_of, lemma_as_map_at, listed};
use crate::pak::path::{
    compose, dir_of, ext_of, lemma_compose_parts, lemma_parts_valid, stem_of, storable,
    zero_free,
};
use crate::pak::tree::{
    first_write_error, leads_dir, leads_ext, lemma_parse_dirs_end, lemma_parse_files_end,
    parse_dirs, parse_exts, parse_files, parse_tree, preload_at, wire_dirs, wire_exts,
    wire_files, Item, TreeModel, VPKTree,
};
use crate::util::file::{
    cstr_at, cstr_end, holds_at, lemma_cstr_bounds, lemma_cstr_roundtrip, lemma_holds_at_concat,
};
use vstd::prelude::*;
use vstd::utf8::valid_utf8;

verus! {

/// A file that is read back as it was written: its path has a directory, a
/// stem and an extension and no zero byte, its entry can be written and is
/// faithful, and it has preload bytes exactly where its entry declares some,
/// and as many.
pub open spec fn faithful_item<E: DirEntry>(item: Item<E::V>) -> bool {
    &&& storable(item.path)
    &&& valid_utf8(item.path)
    &&& E::write_error(item.entry) is None
    &&& E::faithful(item.entry)
    &&& match item.preload {
        Some(bytes) => bytes.len() > 0 && bytes.len() == E::preload_len(item.entry),
        None => E::preload_len(item.entry) == 0,
    }
}

/// Files with distinct paths, each of which is read back as it was written.
pub open spec fn faithful_items<E: DirEntry>(items: Seq<Item<E::V>>) -> bool {
    &&& forall|a: int, b: int|
        0 <= a < b < items.len() ==> (#[trigger] items[a]).path != (#[trigger] items[b]).path
    &&& forall|m: int| 0 <= m < items.len() ==> faithful_item::<E>(#[trigger] items[m])
}

/// The tree lists the file as it is.
pub open spec fn lists<T>(model: TreeModel<T>, item: Item<T>) -> bool {
    &&& model.files.contains_key(item.path)
    &&& model.files[item.path] == item.entry
    &&& match item.preload {
        Some(bytes) => model.preload.contains_key(item.path) && model.preload[item.path] == bytes,
        None => !model.preload.contains_key(item.path),
    }
}

/// The tree lists the files whose indices are in `done`, and no others.
pub open spec fn covers<T>(model: TreeModel<T>, items: Seq<Item<T>>, done: Set<int>) -> bool {
    &&& forall|m: int|
        #![trigger done.contains(m)]
        0 <= m < items.len() && done.contains(m) ==> lists(model, items[m])
    &&& forall|p: Seq<u8>| #[trigger]
        model.files.contains_key(p) ==> exists|m: int|
            0 <= m < items.len() && done.contains(m) && (#[trigger] items[m]).path == p
    &&& forall|p: Seq<u8>| #[trigger]
        model.preload.contains_key(p) ==> model.files.contains_key(p)
}

/// The files from `k` on with the extension `ext` and the directory `dir`.
pub open spec fn files_set<T>(items: Seq<Item<T>>, k: int, ext: Seq<u8>, dir: Seq<u8>) -> Set<int> {
    Set::new(
        |m: int|
            k <= m < items.len() && ext_of(items[m].path) == ext && dir_of(items[m].path) == dir,
    )
}

/// No file before `j` has the extension `ext` and the directory of the file
/// at `m`.
pub open spec fn dir_unseen<T>(items: Seq<Item<T>>, j: int, ext: Seq<u8>, m: int) -> bool {
    forall|l: int|
        0 <= l < j ==> !(ext_of((#[trigger] items[l]).path) == ext && dir_of(items[l].path)
            == dir_of(items[m].path))
}

/// The files with the extension `ext` whose directory no file before `j`
/// with that extension has.
pub open spec fn dirs_set<T>(items: Seq<Item<T>>, j: int, ext: Seq<u8>) -> Set<int> {
    Set::new(
        |m: int|
            0 <= m < items.len() && ext_of(items[m].path) == ext && dir_unseen(items, j, ext, m),
    )
}

/// No file before `i` has the extension of the file at `m`.
pub open spec fn ext_unseen<T>(items: Seq<Item<T>>, i: int, m: int) -> bool {
    forall|l: int| 0 <= l < i ==> ext_of((#[trigger] items[l]).path) != ext_of(items[m].path)
}

/// The files whose extension no file before `i` has.
pub open spec fn exts_set<T>(items: Seq<Item<T>>, i: int) -> Set<int> {
    Set::new(|m: int| 0 <= m < items.len() && ext_unseen(items, i, m))
}

/// Listing one more file keeps the account.
pub proof fn lemma_covers_with<T>(model: TreeModel<T>, items: Seq<Item<T>>, done: Set<int>, k: int)
    requires
        covers(model, items, done),
        0 <= k < items.len(),
        forall|a: int, b: int|
            0 <= a < b < items.len() ==> (#[trigger] items[a]).path != (#[trigger] items[b]).path,
    ensures
        covers(
            model.with(items[k].path, items[k].entry, items[k].preload),
            items,
            done.insert(k),
        ),
{
    let item = items[k];
    let more = model.with(item.path, item.entry, item.preload);
    let wider = done.insert(k);
    assert(!done.contains(k) ==> !model.preload.contains_key(item.path)) by {
        if !done.contains(k) && model.preload.contains_key(item.path) {
            assert(model.files.contains_key(item.path));
            let m = choose|m: int|
                0 <= m < items.len() && done.contains(m) && (#[trigger] items[m]).path
                    == item.path;
            if m < k {
                assert(items[m].path != items[k].path);
            } else {
                assert(items[k].path != items[m].path);
            }
        }
    }
    assert forall|m: int| #![trigger wider.contains(m)] 0 <= m < items.len() && wider.contains(
        m,
    ) implies lists(more, items[m]) by {
        if m != k {
            assert(done.contains(m));
            assert(lists(model, items[m]));
            if m < k {
                assert(items[m].path != items[k].path);
            } else {
                assert(items[k].path != items[m].path);
            }
        } else if done.contains(k) {
            assert(lists(model, items[k]));
        }
    }
    assert forall|p: Seq<u8>| #[trigger] more.files.contains_key(p) implies exists|m: int|
        0 <= m < items.len() && wider.contains(m) && (#[trigger] items[m]).path == p by {
        if p == item.path {
            assert(wider.contains(k) && items[k].path == p);
        } else {
            assert(model.files.contains_key(p));
            let m = choose|m: int|
                0 <= m < items.len() && done.contains(m) && (#[trigger] items[m]).path == p;
            assert(wider.contains(m) && items[m].path == p);
        }
    }
    assert forall|p: Seq<u8>| #[trigger]
        more.preload.contains_key(p) implies more.files.contains_key(p) by {
        if p != item.path {
            assert(model.preload.contains_key(p));
        }
    }
}

/// The files of one directory are read back: the reader stops behind the
/// empty string that closes the run, and the tree then lists these files
/// besides the ones it listed before.
pub proof fn lemma_files_roundtrip<E: DirEntry>(
    items: Seq<Item<E::V>>,
    k: int,
    ext: Seq<u8>,
    dir: Seq<u8>,
    data: Seq<u8>,
    pos: int,
    limit: int,
    acc: TreeModel<E::V>,
    done: Set<int>,
)
    requires
        faithful_items::<E>(items),
        0 <= k <= items.len(),
        covers(acc, items, done),
        holds_at(data, pos, wire_files::<E>(items, k, ext, dir) + seq![0u8]),
        pos + wire_files::<E>(items, k, ext, dir).len() + 1 <= limit,
    ensures
        parse_files::<E>(data, pos, limit, dir, ext, acc) matches Ok((model, end)) && end == pos
            + wire_files::<E>(items, k, ext, dir).len() + 1 && covers(
            model,
            items,
            done.union(files_set(items, k, ext, dir)),
        ),
    decreases items.len() - k,
{
    let rest = wire_files::<E>(items, k, ext, dir);
    if k >= items.len() {
        lemma_cstr_roundtrip(data, pos, Seq::<u8>::empty());
        assert(rest + seq![0u8] =~= Seq::<u8>::empty() + seq![0u8]);
        assert(done.union(files_set(items, k, ext, dir)) =~= done);
    } else if ext_of(items[k].path) == ext && dir_of(items[k].path) == dir {
        let item = items[k];
        assert(faithful_item::<E>(item));
        let stem = stem_of(item.path);
        let entry_bytes = E::wire(item.entry);
        let preload_bytes = match item.preload {
            Some(bytes) => bytes,
            None => Seq::empty(),
        };
        let tail = wire_files::<E>(items, k + 1, ext, dir);
        lemma_compose_parts(item.path);
        lemma_parts_valid(item.path);
        let whole = rest + seq![0u8];
        let name = stem + seq![0u8];
        assert(whole =~= name + (entry_bytes + (preload_bytes + (tail + seq![0u8]))));
        lemma_holds_at_concat(data, pos, name, entry_bytes + (preload_bytes + (tail + seq![0u8])));
        let after_name = pos + name.len();
        lemma_holds_at_concat(data, after_name, entry_bytes, preload_bytes + (tail + seq![0u8]));
        let after_entry = after_name + entry_bytes.len();
        lemma_holds_at_concat(data, after_entry, preload_bytes, tail + seq![0u8]);
        let next = after_entry + preload_bytes.len();
        lemma_cstr_roundtrip(data, pos, stem);
        E::lemma_roundtrip(item.entry, data, after_name);
        E::lemma_parse_bounds(data, after_name);
        assert(preload_at(data, after_entry, E::preload_len(item.entry)) == Ok::<
            Option<Seq<u8>>,
            Error,
        >(item.preload));
        lemma_covers_with(acc, items, done, k);
        let more = acc.with(item.path, item.entry, item.preload);
        lemma_files_roundtrip::<E>(items, k + 1, ext, dir, data, next, limit, more, done.insert(k));
        assert(done.insert(k).union(files_set(items, k + 1, ext, dir)) =~= done.union(
            files_set(items, k, ext, dir),
        ));
    } else {
        lemma_files_roundtrip::<E>(items, k + 1, ext, dir, data, pos, limit, acc, done);
        assert(files_set(items, k + 1, ext, dir) =~= files_set(items, k, ext, dir));
    }
}

/// The directories of one extension are read back.
pub proof fn lemma_dirs_roundtrip<E: DirEntry>(
    items: Seq<Item<E::V>>,
    j: int,
    ext: Seq<u8>,
    data: Seq<u8>,
    pos: int,
    limit: int,
    acc: TreeModel<E::V>,
    done: Set<int>,
)
    requires
        faithful_items::<E>(items),
        0 <= j <= items.len(),
        covers(acc, items, done),
        holds_at(data, pos, wire_dirs::<E>(items, j, ext) + seq![0u8]),
        pos + wire_dirs::<E>(items, j, ext).len() + 1 <= limit,
    ensures
        parse_dirs::<E>(data, pos, limit, ext, acc) matches Ok((model, end)) && end == pos
            + wire_dirs::<E>(items, j, ext).len() + 1 && covers(
            model,
            items,
            done.union(dirs_set(items, j, ext)),
        ),
    decreases items.len() - j,
{
    let rest = wire_dirs::<E>(items, j, ext);
    if j >= items.len() {
        lemma_cstr_roundtrip(data, pos, Seq::<u8>::empty());
        assert(rest + seq![0u8] =~= Seq::<u8>::empty() + seq![0u8]);
        assert(dirs_set(items, j, ext) =~= Set::<int>::empty()) by {
            assert forall|m: int| !dirs_set(items, j, ext).contains(m) by {
                if 0 <= m < items.len() && ext_of(items[m].path) == ext && dir_unseen(
                    items,
                    j,
                    ext,
                    m,
                ) {
                    assert(ext_of(items[m].path) == ext && dir_of(items[m].path) == dir_of(
                        items[m].path,
                    ));
                }
            }
        }
        assert(done.union(dirs_set(items, j, ext)) =~= done);
    } else if ext_of(items[j].path) == ext && leads_dir(items, j) {
        let item = items[j];
        assert(faithful_item::<E>(item));
        let dir = dir_of(item.path);
        let files = wire_files::<E>(items, j, ext, dir);
        let tail = wire_dirs::<E>(items, j + 1, ext);
        lemma_compose_parts(item.path);
        lemma_parts_valid(item.path);
        let whole = rest + seq![0u8];
        let name = dir + seq![0u8];
        assert(whole =~= name + ((files + seq![0u8]) + (tail + seq![0u8])));
        lemma_holds_at_concat(data, pos, name, (files + seq![0u8]) + (tail + seq![0u8]));
        let after_name = pos + name.len();
        lemma_holds_at_concat(data, after_name, files + seq![0u8], tail + seq![0u8]);
        let next = after_name + files.len() + 1;
        lemma_cstr_roundtrip(data, pos, dir);
        lemma_files_roundtrip::<E>(items, j, ext, dir, data, after_name, limit, acc, done);
        let more = parse_files::<E>(data, after_name, limit, dir, ext, acc)->Ok_0.0;
        let wider = done.union(files_set(items, j, ext, dir));
        lemma_dirs_roundtrip::<E>(items, j + 1, ext, data, next, limit, more, wider);
        assert(wider.union(dirs_set(items, j + 1, ext)) =~= done.union(
            dirs_set(items, j, ext),
        )) by {
            assert forall|m: int|
                files_set(items, j, ext, dir).contains(m) || dirs_set(items, j + 1, ext).contains(
                    m,
                ) <==> dirs_set(items, j, ext).contains(m) by {
                if files_set(items, j, ext, dir).contains(m) {
                    assert(dir_unseen(items, j, ext, m));
                }
                if dirs_set(items, j, ext).contains(m) {
                    if dir_of(items[m].path) == dir {
                        if m < j {
                            assert(ext_of(items[m].path) == ext && dir_of(items[m].path) == dir_of(
                                items[m].path,
                            ));
                        }
                    } else {
                        assert(dir_unseen(items, j + 1, ext, m));
                    }
                }
            }
        }
    } else {
        lemma_dirs_roundtrip::<E>(items, j + 1, ext, data, pos, limit, acc, done);
        assert(dirs_set(items, j + 1, ext) =~= dirs_set(items, j, ext)) by {
            assert forall|m: int|
                dirs_set(items, j, ext).contains(m) implies dirs_set(items, j + 1, ext).contains(
                m,
            ) by {
                if !dir_unseen(items, j + 1, ext, m) {
                    assert(ext_of(items[j].path) == ext && dir_of(items[j].path) == dir_of(
                        items[m].path,
                    ));
                    assert(leads_dir(items, j)) by {
                        assert forall|l: int| 0 <= l < j implies !(ext_of(
                            (#[trigger] items[l]).path,
                        ) == ext_of(items[j].path) && dir_of(items[l].path) == dir_of(
                            items[j].path,
                        )) by {}
                    }
                }
            }
        }
    }
}

/// The extensions of a tree are read back, where the tree ends at the limit
/// or at the end of the stream.
pub proof fn lemma_exts_roundtrip<E: DirEntry>(
    items: Seq<Item<E::V>>,
    i: int,
    data: Seq<u8>,
    pos: int,
    limit: int,
    acc: TreeModel<E::V>,
    done: Set<int>,
)
    requires
        faithful_items::<E>(items),
        0 <= i <= items.len(),
        covers(acc, items, done),
        holds_at(data, pos, wire_exts::<E>(items, i)),
        pos + wire_exts::<E>(items, i).len() <= limit,
        pos + wire_exts::<E>(items, i).len() == limit || pos + wire_exts::<E>(items, i).len()
            == data.len(),
    ensures
        parse_exts::<E>(data, pos, limit, acc) matches Ok((model, end)) && end == pos + wire_exts::<
            E,
        >(items, i).len() && covers(model, items, done.union(exts_set(items, i))),
    decreases items.len() - i,
{
    let rest = wire_exts::<E>(items, i);
    if i >= items.len() {
        assert(exts_set(items, i) =~= Set::<int>::empty()) by {
            assert forall|m: int| !exts_set(items, i).contains(m) by {
                if 0 <= m < items.len() && ext_unseen(items, i, m) {
                    assert(ext_of(items[m].path) == ext_of(items[m].path));
                }
            }
        }
        assert(done.union(exts_set(items, i)) =~= done);
        if pos < limit {
            lemma_cstr_bounds(data, pos);
            assert(cstr_at(data, pos) =~= Seq::<u8>::empty());
        }
    } else if leads_ext(items, i) {
        let item = items[i];
        assert(faithful_item::<E>(item));
        let ext = ext_of(item.path);
        let dirs = wire_dirs::<E>(items, i, ext);
        let tail = wire_exts::<E>(items, i + 1);
        lemma_compose_parts(item.path);
        lemma_parts_valid(item.path);
        let name = ext + seq![0u8];
        assert(rest =~= name + ((dirs + seq![0u8]) + tail));
        lemma_holds_at_concat(data, pos, name, (dirs + seq![0u8]) + tail);
        let after_name = pos + name.len();
        lemma_holds_at_concat(data, after_name, dirs + seq![0u8], tail);
        let next = after_name + dirs.len() + 1;
        lemma_cstr_roundtrip(data, pos, ext);
        lemma_dirs_roundtrip::<E>(items, i, ext, data, after_name, limit, acc, done);
        let more = parse_dirs::<E>(data, after_name, limit, ext, acc)->Ok_0.0;
        let wider = done.union(dirs_set(items, i, ext));
        lemma_exts_roundtrip::<E>(items, i + 1, data, next, limit, more, wider);
        assert(wider.union(exts_set(items, i + 1)) =~= done.union(exts_set(items, i))) by {
            assert forall|m: int|
                dirs_set(items, i, ext).contains(m) || exts_set(items, i + 1).contains(m)
                    <==> exts_set(items, i).contains(m) by {
                if dirs_set(items, i, ext).contains(m) {
                    assert(ext_unseen(items, i, m));
                }
                if exts_set(items, i).contains(m) {
                    if ext_of(items[m].path) == ext {
                        assert(dir_unseen(items, i, ext, m));
                    } else {
                        assert(ext_unseen(items, i + 1, m));
                    }
                }
            }
        }
    } else {
        lemma_exts_roundtrip::<E>(items, i + 1, data, pos, limit, acc, done);
        assert(exts_set(items, i + 1) =~= exts_set(items, i)) by {
            assert forall|m: int| exts_set(items, i).contains(m) implies exts_set(
                items,
                i + 1,
            ).contains(m) by {
                if !ext_unseen(items, i + 1, m) {
                    assert(ext_of(items[i].path) == ext_of(items[m].path));
                    assert(leads_ext(items, i));
                }
            }
        }
    }
}

/// A tree that is read back as it was written: its files are faithful, and
/// it holds preload bytes for listed files only.
#[verifier::opaque]
pub open spec fn faithful_tree<E: DirEntry>(tree: VPKTree<E>) -> bool {
    &&& distinct_keys(tree.files.listing())
    &&& faithful_items::<E>(tree.items())
    &&& forall|p: Seq<u8>| #[trigger]
        tree.preload@.contains_key(p) ==> tree.files@.contains_key(p)
}

/// Reading the bytes that `write` gives for a faithful tree yields the tree
/// again, where the declared size of the tree is not less than the number
/// of these bytes and either equals it or nothing follows the tree in the
/// stream.
pub proof fn lemma_tree_roundtrip<E: DirEntry>(
    tree: VPKTree<E>,
    data: Seq<u8>,
    start: int,
    size: int,
)
    requires
        faithful_tree(tree),
        holds_at(data, start, tree.wire()),
        size >= tree.wire().len(),
        size == tree.wire().len() || data.len() == start + tree.wire().len(),
    ensures
        parse_tree::<E>(data, start, size) == Ok::<(TreeModel<E::V>, int), Error>(
            (tree@, start + tree.wire().len()),
        ),
{
    reveal(faithful_tree);
    let items = tree.items();
    let listing = tree.files.listing();
    let none = Set::<int>::empty();
    assert(covers(TreeModel::<E::V>::empty(), items, none));
    lemma_exts_roundtrip::<E>(
        items,
        0,
        data,
        start,
        start + size,
        TreeModel::<E::V>::empty(),
        none,
    );
    let model = parse_tree::<E>(data, start, size)->Ok_0.0;
    let all = none.union(exts_set(items, 0));
    assert forall|m: int| 0 <= m < items.len() implies all.contains(m) by {
        assert(ext_unseen(items, 0, m));
    }
    assert(model.files =~= tree.files@) by {
        assert forall|p: Seq<u8>| model.files.contains_key(p) <==> tree.files@.contains_key(p) by {
            if model.files.contains_key(p) {
                let m = choose|m: int|
                    0 <= m < items.len() && all.contains(m) && (#[trigger] items[m]).path == p;
                assert(listing[m].0 == p);
            }
            if tree.files@.contains_key(p) {
                let m = index_of(listing, p);
                assert(all.contains(m));
                assert(lists(model, items[m]));
            }
        }
        assert forall|p: Seq<u8>| model.files.contains_key(p) implies model.files[p]
            == tree.files@[p] by {
            let m = choose|m: int|
                0 <= m < items.len() && all.contains(m) && (#[trigger] items[m]).path == p;
            assert(lists(model, items[m]));
            lemma_as_map_at(listing, m);
        }
    }
    assert(model.preload =~= tree.preload@) by {
        assert forall|p: Seq<u8>|
            model.preload.contains_key(p) <==> tree.preload@.contains_key(p) by {
            if model.preload.contains_key(p) || tree.preload@.contains_key(p) {
                assert(model.files.contains_key(p));
                let m = choose|m: int|
                    0 <= m < items.len() && all.contains(m) && (#[trigger] items[m]).path == p;
                assert(lists(model, items[m]));
            }
        }
        assert forall|p: Seq<u8>| model.preload.contains_key(p) implies model.preload[p]
            == tree.preload@[p] by {
            assert(model.files.contains_key(p));
            let m = choose|m: int|
                0 <= m < items.len() && all.contains(m) && (#[trigger] items[m]).path == p;
            assert(lists(model, items[m]));
        }
    }
}

/// Every entry of faithful files can be written.
pub proof fn lemma_faithful_writable<E: DirEntry>(items: Seq<Item<E::V>>, from: int)
    requires
        faithful_items::<E>(items),
        0 <= from,
    ensures
        first_write_error::<E>(items, from) is None,
    decreases items.len() - from,
{
    if from < items.len() {
        assert(faithful_item::<E>(items[from]));
        lemma_faithful_writable::<E>(items, from + 1);
    }
}

/// What holds of every tree that was read: no path holds a zero byte, every
/// entry can be written and is faithful, and preload bytes are held for
/// listed files only.
pub open spec fn sound<E: DirEntry>(model: TreeModel<E::V>) -> bool {
    &&& forall|p: Seq<u8>| #[trigger]
        model.files.contains_key(p) ==> zero_free(p) && E::write_error(model.files[p]) is None
            && E::faithful(model.files[p])
    &&& forall|p: Seq<u8>| #[trigger]
        model.preload.contains_key(p) ==> model.files.contains_key(p)
}

/// Reading the files of a directory keeps a tree sound.
pub proof fn lemma_parse_files_sound<E: DirEntry>(
    data: Seq<u8>,
    pos: int,
    limit: int,
    dir: Seq<u8>,
    ext: Seq<u8>,
    acc: TreeModel<E::V>,
)
    requires
        sound::<E>(acc),
        zero_free(dir),
        zero_free(ext),
    ensures
        parse_files::<E>(data, pos, limit, dir, ext, acc) matches Ok((model, _)) ==> sound::<E>(
            model,
        ),
    decreases data.len() - pos,
{
    lemma_cstr_bounds(data, pos);
    let name = cstr_at(data, pos);
    let after_name = cstr_end(data, pos);
    if valid_utf8(name) && !(name.len() == 0 || after_name > limit) {
        if let Ok((entry, taken)) = E::parse_at(data, after_name) {
            E::lemma_parse_bounds(data, after_name);
            E::lemma_parsed_faithful(data, after_name);
            if let Ok(preload) = preload_at(data, after_name + taken, E::preload_len(entry)) {
                let next = after_name + taken + match preload {
                    Some(bytes) => bytes.len(),
                    None => 0,
                };
                let path = compose(dir, name, ext);
                let more = acc.with(path, entry, preload);
                assert(zero_free(path));
                assert(sound::<E>(more));
                lemma_parse_files_sound::<E>(data, next, limit, dir, ext, more);
            }
        }
    }
}

/// Reading the directories of an extension keeps a tree sound.
pub proof fn lemma_parse_dirs_sound<E: DirEntry>(
    data: Seq<u8>,
    pos: int,
    limit: int,
    ext: Seq<u8>,
    acc: TreeModel<E::V>,
)
    requires
        sound::<E>(acc),
        zero_free(ext),
    ensures
        parse_dirs::<E>(data, pos, limit, ext, acc) matches Ok((model, _)) ==> sound::<E>(model),
    decreases data.len() - pos,
{
    lemma_cstr_bounds(data, pos);
    let dir = cstr_at(data, pos);
    let after_dir = cstr_end(data, pos);
    if valid_utf8(dir) && !(dir.len() == 0 || after_dir > limit) {
        lemma_parse_files_sound::<E>(data, after_dir, limit, dir, ext, acc);
        if let Ok((more, next)) = parse_files::<E>(data, after_dir, limit, dir, ext, acc) {
            lemma_parse_files_end::<E>(data, after_dir, limit, dir, ext, acc);
            lemma_parse_dirs_sound::<E>(data, next, limit, ext, more);
        }
    }
}

/// Reading the extensions of a tree keeps a tree sound.
pub proof fn lemma_parse_exts_sound<E: DirEntry>(
    data: Seq<u8>,
    pos: int,
    limit: int,
    acc: TreeModel<E::V>,
)
    requires
        sound::<E>(acc),
    ensures
        parse_exts::<E>(data, pos, limit, acc) matches Ok((model, _)) ==> sound::<E>(model),
    decreases data.len() - pos,
{
    if pos < limit {
        lemma_cstr_bounds(data, pos);
        let ext = cstr_at(data, pos);
        let after_ext = cstr_end(data, pos);
        if valid_utf8(ext) && ext.len() != 0 {
            lemma_parse_dirs_sound::<E>(data, after_ext, limit, ext, acc);
            if let Ok((more, next)) = parse_dirs::<E>(data, after_ext, limit, ext, acc) {
                lemma_parse_dirs_end::<E>(data, after_ext, limit, ext, acc);
                lemma_parse_exts_sound::<E>(data, next, limit, more);
            }
        }
    }
}

/// Every path of the tree has a directory, a stem and an extension.
pub open spec fn parted<E: DirEntry>(tree: VPKTree<E>) -> bool {
    forall|m: int|
        0 <= m < tree.items().len() ==> {
            &&& dir_of((#[trigger] tree.items()[m]).path).len() > 0
            &&& stem_of(tree.items()[m].path).len() > 0
            &&& ext_of(tree.items()[m].path).len() > 0
        }
}

/// Every file of the tree has preload bytes exactly where its entry
/// declares some, and as many.
pub open spec fn preload_matched<E: DirEntry>(tree: VPKTree<E>) -> bool {
    forall|m: int|
        0 <= m < tree.items().len() ==> match (#[trigger] tree.items()[m]).preload {
            Some(bytes) => bytes.len() > 0 && bytes.len() == E::preload_len(tree.items()[m].entry),
            None => E::preload_len(tree.items()[m].entry) == 0,
        }
}

/// A tree that was read is faithful, where every path of it has a
/// directory, a stem and an extension, and every file has preload bytes
/// exactly where its entry declares some.
pub proof fn lemma_read_faithful<E: DirEntry>(
    tree: VPKTree<E>,
    data: Seq<u8>,
    start: int,
    size: int,
)
    requires
        parse_tree::<E>(data, start, size) matches Ok((model, _)) && model == tree@,
        distinct_keys(tree.files.listing()),
        parted(tree),
        preload_matched(tree),
    ensures
        faithful_tree(tree),
{
    reveal(faithful_tree);
    let items = tree.items();
    let listing = tree.files.listing();
    lemma_parse_exts_sound::<E>(data, start, start + size, TreeModel::<E::V>::empty());
    tree.files.lemma_keys_valid();
    assert forall|m: int| 0 <= m < items.len() implies faithful_item::<E>(
        #[trigger] items[m],
    ) by {
        lemma_as_map_at(listing, m);
        assert(tree@.files.contains_key(items[m].path));
        assert(valid_utf8(listing[m].0));
    }
    assert forall|a: int, b: int| 0 <= a < b < items.len() implies (#[trigger] items[a]).path != (
    #[trigger] items[b]).path by {
        assert(listing[a].0 != listing[b].0);
    }
    assert(sound::<E>(tree@));
    assert(faithful_items::<E>(items));
    assert forall|p: Seq<u8>| #[trigger]
        tree.preload@.contains_key(p) implies tree.files@.contains_key(p) by {
        assert(tree@.preload.contains_key(p));
    }
}

} // verus!
