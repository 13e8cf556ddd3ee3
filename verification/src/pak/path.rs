//! Paths of packaged files, as the directory tree stores them.
//!
//! A path is `directory/stem.extension`. The tree stores the three parts as
//! separate strings; the listing holds the whole path. Paths are compared
//! and split as UTF-8 bytes.

use vstd::prelude::*;
use vstd::slice::slice_subrange;
use vstd::string::{StringExecFns, StringSliceAdditionalSpecFns};
use vstd::utf8::{encode_utf8, valid_utf8};

verus! {

/// The byte that ends the directory part of a path.
pub const SLASH: u8 = 0x2F;

/// The byte that starts the extension of a path.
pub const DOT: u8 = 0x2E;

/// The path of the file `stem.ext` in the directory `dir`.
pub open spec fn compose(dir: Seq<u8>, stem: Seq<u8>, ext: Seq<u8>) -> Seq<u8> {
    dir + seq![SLASH] + stem + seq![DOT] + ext
}

/// Index of the last `b` in `s`, or -1 where `s` holds none.
pub open spec fn last_index_of(s: Seq<u8>, b: u8) -> int
    decreases s.len(),
{
    if s.len() == 0 {
        -1
    } else if s.last() == b {
        s.len() - 1
    } else {
        last_index_of(s.drop_last(), b)
    }
}

/// The directory of a path: what precedes its last slash, and nothing where
/// it has no slash.
pub open spec fn dir_of(path: Seq<u8>) -> Seq<u8> {
    let slash = last_index_of(path, SLASH);
    if slash < 0 {
        Seq::empty()
    } else {
        path.subrange(0, slash)
    }
}

/// The file name of a path: what follows its last slash.
pub open spec fn file_of(path: Seq<u8>) -> Seq<u8> {
    path.subrange(last_index_of(path, SLASH) + 1, path.len() as int)
}

/// The extension of a path: what follows the last dot of its file name.
/// A file name without a dot, or whose only dot comes first, has none.
pub open spec fn ext_of(path: Seq<u8>) -> Seq<u8> {
    let file = file_of(path);
    let dot = last_index_of(file, DOT);
    if dot <= 0 {
        Seq::empty()
    } else {
        file.subrange(dot + 1, file.len() as int)
    }
}

/// The stem of a path: its file name without the extension and its dot.
pub open spec fn stem_of(path: Seq<u8>) -> Seq<u8> {
    let file = file_of(path);
    let dot = last_index_of(file, DOT);
    if dot <= 0 {
        file
    } else {
        file.subrange(0, dot)
    }
}

/// No byte of `s` is zero.
pub open spec fn zero_free(s: Seq<u8>) -> bool {
    forall|k: int| 0 <= k < s.len() ==> s[k] != 0
}

/// A path that the tree can store and give back: it has a directory, a stem
/// and an extension, and no zero byte.
pub open spec fn storable(path: Seq<u8>) -> bool {
    &&& zero_free(path)
    &&& dir_of(path).len() > 0
    &&& stem_of(path).len() > 0
    &&& ext_of(path).len() > 0
}

/// Where the last `b` of `s` stands: at that index is a `b`, and behind it
/// is none.
pub proof fn lemma_last_index_of(s: Seq<u8>, b: u8)
    ensures
        -1 <= last_index_of(s, b) < s.len(),
        last_index_of(s, b) >= 0 ==> s[last_index_of(s, b)] == b,
        forall|k: int| last_index_of(s, b) < k < s.len() ==> s[k] != b,
    decreases s.len(),
{
    if s.len() > 0 && s.last() != b {
        lemma_last_index_of(s.drop_last(), b);
        assert forall|k: int| last_index_of(s, b) < k < s.len() implies s[k] != b by {
            if k < s.len() - 1 {
                assert(s.drop_last()[k] == s[k]);
            }
        }
    }
}

/// An index that holds a `b`, with none behind it, is the last index of `b`.
pub proof fn lemma_last_index_unique(s: Seq<u8>, b: u8, r: int)
    requires
        0 <= r < s.len(),
        s[r] == b,
        forall|k: int| r < k < s.len() ==> s[k] != b,
    ensures
        last_index_of(s, b) == r,
{
    lemma_last_index_of(s, b);
}

/// A sequence without a `b` has no last index of `b`.
pub proof fn lemma_last_index_none(s: Seq<u8>, b: u8)
    requires
        forall|k: int| 0 <= k < s.len() ==> s[k] != b,
    ensures
        last_index_of(s, b) == -1,
{
    lemma_last_index_of(s, b);
}

/// The parts of a path with a directory, a stem and an extension make up the
/// path again, and each part is free of zero bytes where the path is.
pub proof fn lemma_compose_parts(path: Seq<u8>)
    requires
        dir_of(path).len() > 0,
        ext_of(path).len() > 0,
    ensures
        compose(dir_of(path), stem_of(path), ext_of(path)) == path,
        zero_free(path) ==> zero_free(dir_of(path)) && zero_free(stem_of(path)) && zero_free(
            ext_of(path),
        ),
{
    lemma_last_index_of(path, SLASH);
    let file = file_of(path);
    lemma_last_index_of(file, DOT);
    assert(compose(dir_of(path), stem_of(path), ext_of(path)) =~= path);
    if zero_free(path) {
        let slash = last_index_of(path, SLASH);
        let dot = last_index_of(file, DOT);
        assert forall|k: int| 0 <= k < stem_of(path).len() implies stem_of(path)[k] != 0 by {
            assert(stem_of(path)[k] == path[slash + 1 + k]);
        }
        assert forall|k: int| 0 <= k < ext_of(path).len() implies ext_of(path)[k] != 0 by {
            assert(ext_of(path)[k] == path[slash + 1 + dot + 1 + k]);
        }
    }
}

/// Encoding distributes over concatenation.
pub proof fn lemma_encode_concat(a: Seq<char>, b: Seq<char>)
    ensures
        encode_utf8(a + b) == encode_utf8(a) + encode_utf8(b),
    decreases a.len(),
{
    if a.len() == 0 {
        assert(a + b =~= b);
        assert(encode_utf8(a) + encode_utf8(b) =~= encode_utf8(b));
    } else {
        lemma_encode_concat(a.drop_first(), b);
        assert((a + b).drop_first() =~= a.drop_first() + b);
        assert((a + b)[0] == a[0]);
        assert(encode_utf8(a + b) =~= encode_utf8(a) + encode_utf8(b));
    }
}

/// The parts on both sides of an ASCII byte of valid UTF-8 are valid UTF-8.
pub proof fn lemma_valid_around_ascii(a: Seq<u8>, c: u8, b: Seq<u8>)
    requires
        valid_utf8(a + seq![c] + b),
        c < 0x80,
    ensures
        valid_utf8(a),
        valid_utf8(b),
{
    let whole = a + seq![c] + b;
    let at = a.len() as int;
    assert(whole[at] == c);
    assert(!vstd::utf8::is_continuation_byte(c)) by (bit_vector)
        requires
            c < 0x80,
    ;
    vstd::utf8::is_char_boundary_iff_not_is_continuation_byte(whole, at);
    vstd::utf8::valid_utf8_split(whole, at);
    assert(whole.subrange(0, at) =~= a);
    let tail = whole.subrange(at, whole.len() as int);
    assert(tail =~= seq![c] + b);
    assert(vstd::utf8::is_leading_byte_width_1(c)) by (bit_vector)
        requires
            c < 0x80,
    ;
    assert(tail[0] == c);
    assert(vstd::utf8::pop_first_scalar(tail) =~= b);
}

/// The parts of a valid UTF-8 path are valid UTF-8.
pub proof fn lemma_parts_valid(path: Seq<u8>)
    requires
        valid_utf8(path),
        dir_of(path).len() > 0,
        ext_of(path).len() > 0,
    ensures
        valid_utf8(dir_of(path)),
        valid_utf8(stem_of(path)),
        valid_utf8(ext_of(path)),
{
    lemma_compose_parts(path);
    let d = dir_of(path);
    let s = stem_of(path);
    let e = ext_of(path);
    assert(path =~= d + seq![SLASH] + (s + seq![DOT] + e));
    lemma_valid_around_ascii(d, SLASH, s + seq![DOT] + e);
    lemma_valid_around_ascii(s, DOT, e);
}

/// Whether two byte strings are equal.
pub fn bytes_eq(a: &[u8], b: &[u8]) -> (r: bool)
    ensures
        r == (a@ == b@),
{
    if a.len() != b.len() {
        return false;
    }
    let mut i: usize = 0;
    while i < a.len()
        invariant
            i <= a@.len(),
            a@.len() == b@.len(),
            forall|k: int| 0 <= k < i ==> a@[k] == b@[k],
        decreases a@.len() - i,
    {
        if a[i] != b[i] {
            return false;
        }
        i = i + 1;
    }
    assert(a@ =~= b@);
    true
}

/// Index of the last `b` in `s`.
fn rfind(s: &[u8], b: u8) -> (r: Option<usize>)
    ensures
        match r {
            Some(i) => i < s@.len() && last_index_of(s@, b) == i,
            None => last_index_of(s@, b) == -1,
        },
{
    let mut i: usize = s.len();
    while i > 0
        invariant
            i <= s@.len(),
            forall|k: int| i <= k < s@.len() ==> s@[k] != b,
        decreases i,
    {
        i = i - 1;
        if s[i] == b {
            proof {
                lemma_last_index_unique(s@, b, i as int);
            }
            return Some(i);
        }
    }
    proof {
        lemma_last_index_none(s@, b);
    }
    None
}

/// The three parts of a path.
pub struct PathParts<'a> {
    /// What precedes the last slash.
    pub dir: &'a [u8],
    /// The file name without its extension.
    pub stem: &'a [u8],
    /// What follows the last dot of the file name.
    pub extension: &'a [u8],
}

/// Splits a path into directory, stem and extension.
pub fn split(path: &[u8]) -> (parts: PathParts<'_>)
    ensures
        parts.dir@ == dir_of(path@),
        parts.stem@ == stem_of(path@),
        parts.extension@ == ext_of(path@),
{
    let len = path.len();
    let (dir, file) = match rfind(path, SLASH) {
        Some(slash) => (slice_subrange(path, 0, slash), slice_subrange(path, slash + 1, len)),
        None => {
            let all = slice_subrange(path, 0, len);
            (slice_subrange(path, 0, 0), all)
        },
    };
    assert(file@ == file_of(path@));
    assert(dir@ =~= dir_of(path@));
    let file_len = file.len();
    match rfind(file, DOT) {
        Some(dot) => {
            if dot == 0 {
                PathParts { dir, stem: file, extension: slice_subrange(file, 0, 0) }
            } else {
                PathParts {
                    dir,
                    stem: slice_subrange(file, 0, dot),
                    extension: slice_subrange(file, dot + 1, file_len),
                }
            }
        },
        None => PathParts { dir, stem: file, extension: slice_subrange(file, 0, 0) },
    }
}

/// The path of the file `stem.ext` in the directory `dir`.
pub fn join(dir: &str, stem: &str, ext: &str) -> (path: String)
    ensures
        encode_utf8(path@) == compose(encode_utf8(dir@), encode_utf8(stem@), encode_utf8(ext@)),
{
    let mut path = String::from_str(dir);
    path.append("/");
    path.append(stem);
    path.append(".");
    path.append(ext);
    proof {
        reveal_strlit("/");
        reveal_strlit(".");
        let slash = "/"@;
        let dot = "."@;
        assert(slash =~= seq!['/']);
        assert(dot =~= seq!['.']);
        vstd::utf8::is_ascii_chars_encode_utf8(slash);
        vstd::utf8::is_ascii_chars_encode_utf8(dot);
        assert(encode_utf8(slash) =~= seq![SLASH]);
        assert(encode_utf8(dot) =~= seq![DOT]);
        lemma_encode_concat(dir@, slash);
        lemma_encode_concat(dir@ + slash, stem@);
        lemma_encode_concat(dir@ + slash + stem@, dot);
        lemma_encode_concat(dir@ + slash + stem@ + dot, ext@);
    }
    path
}

} // verus!
