//! The names of the files of a package.
//!
//! The files of the package `name` are its directory file `name_dir.vpk` and
//! its archives `name_000.vpk`, `name_001.vpk` and so on. The audio metadata
//! of an archive stands beside it in a file of the same name with `.cam`
//! appended.

use crate::pak::entry::VPK_ARCHIVE_INDEX_DIR;
use vstd::prelude::*;
use vstd::string::StringExecFns;

verus! {

/// The character of a decimal digit.
pub open spec fn digit_char(digit: u16) -> char {
    if digit == 0 {
        '0'
    } else if digit == 1 {
        '1'
    } else if digit == 2 {
        '2'
    } else if digit == 3 {
        '3'
    } else if digit == 4 {
        '4'
    } else if digit == 5 {
        '5'
    } else if digit == 6 {
        '6'
    } else if digit == 7 {
        '7'
    } else if digit == 8 {
        '8'
    } else {
        '9'
    }
}

/// The decimal digits of an archive index, at least three of them.
pub open spec fn index_digits(index: u16) -> Seq<char> {
    if index < 1000 {
        seq![digit_char(index / 100), digit_char(index / 10 % 10), digit_char(index % 10)]
    } else if index < 10000 {
        seq![
            digit_char(index / 1000),
            digit_char(index / 100 % 10),
            digit_char(index / 10 % 10),
            digit_char(index % 10),
        ]
    } else {
        seq![
            digit_char(index / 10000),
            digit_char(index / 1000 % 10),
            digit_char(index / 100 % 10),
            digit_char(index / 10 % 10),
            digit_char(index % 10),
        ]
    }
}

/// The name of the archive with the given index of the package `vpk_name`.
pub open spec fn archive_name(vpk_name: Seq<char>, index: u16) -> Seq<char> {
    vpk_name + seq!['_'] + index_digits(index) + seq!['.', 'v', 'p', 'k']
}

/// The name of the directory file of the package `vpk_name`.
pub open spec fn dir_name(vpk_name: Seq<char>) -> Seq<char> {
    vpk_name + seq!['_', 'd', 'i', 'r', '.', 'v', 'p', 'k']
}

/// The name of the sidecar file with the audio metadata of an archive.
pub open spec fn cam_name(archive_file: Seq<char>) -> Seq<char> {
    archive_file + seq!['.', 'c', 'a', 'm']
}

/// A decimal digit as a string.
fn digit_str(digit: u16) -> (s: &'static str)
    requires
        digit < 10,
    ensures
        s@ == seq![digit_char(digit)],
{
    proof {
        reveal_strlit("0");
        reveal_strlit("1");
        reveal_strlit("2");
        reveal_strlit("3");
        reveal_strlit("4");
        reveal_strlit("5");
        reveal_strlit("6");
        reveal_strlit("7");
        reveal_strlit("8");
        reveal_strlit("9");
    }
    let s = if digit == 0 {
        "0"
    } else if digit == 1 {
        "1"
    } else if digit == 2 {
        "2"
    } else if digit == 3 {
        "3"
    } else if digit == 4 {
        "4"
    } else if digit == 5 {
        "5"
    } else if digit == 6 {
        "6"
    } else if digit == 7 {
        "7"
    } else if digit == 8 {
        "8"
    } else {
        "9"
    };
    assert(s@ =~= seq![digit_char(digit)]);
    s
}

/// The name of the archive with the given index of the package `vpk_name`:
/// the name of the package, an underscore, the index in at least three
/// decimal digits, and `.vpk`.
pub fn archive_file_name(vpk_name: &str, archive_index: u16) -> (name: String)
    ensures
        name@ == archive_name(vpk_name@, archive_index),
{
    let mut name = String::from_str(vpk_name);
    name.append("_");
    let ghost head = name@;
    if archive_index >= 10000 {
        name.append(digit_str(archive_index / 10000));
    }
    if archive_index >= 1000 {
        name.append(digit_str(archive_index / 1000 % 10));
    }
    name.append(digit_str(archive_index / 100 % 10));
    name.append(digit_str(archive_index / 10 % 10));
    name.append(digit_str(archive_index % 10));
    assert(name@ =~= head + index_digits(archive_index));
    name.append(".vpk");
    proof {
        reveal_strlit("_");
        reveal_strlit(".vpk");
        assert("_"@ =~= seq!['_']);
        assert(".vpk"@ =~= seq!['.', 'v', 'p', 'k']);
        assert(name@ =~= archive_name(vpk_name@, archive_index));
    }
    name
}

/// The name of the directory file of the package `vpk_name`: the name of
/// the package and `_dir.vpk`.
pub fn dir_file_name(vpk_name: &str) -> (name: String)
    ensures
        name@ == dir_name(vpk_name@),
{
    let mut name = String::from_str(vpk_name);
    name.append("_dir.vpk");
    proof {
        reveal_strlit("_dir.vpk");
        assert("_dir.vpk"@ =~= seq!['_', 'd', 'i', 'r', '.', 'v', 'p', 'k']);
    }
    name
}

/// The name of the file that holds the data of the entries of a version 1
/// or version 2 package with the given archive index: the directory file for
/// the index that stands for it, else the archive with that index.
pub open spec fn data_name(vpk_name: Seq<char>, index: u16) -> Seq<char> {
    if index == VPK_ARCHIVE_INDEX_DIR {
        dir_name(vpk_name)
    } else {
        archive_name(vpk_name, index)
    }
}

/// The name of the file that holds the data of the entries of a version 1
/// or version 2 package with the given archive index.
pub fn data_file_name(vpk_name: &str, archive_index: u16) -> (name: String)
    ensures
        name@ == data_name(vpk_name@, archive_index),
{
    if archive_index == VPK_ARCHIVE_INDEX_DIR {
        dir_file_name(vpk_name)
    } else {
        archive_file_name(vpk_name, archive_index)
    }
}

/// The name of the sidecar file with the audio metadata of an archive: the
/// name of the archive and `.cam`.
pub fn cam_file_name(archive_file: &str) -> (name: String)
    ensures
        name@ == cam_name(archive_file@),
{
    let mut name = String::from_str(archive_file);
    name.append(".cam");
    proof {
        reveal_strlit(".cam");
        assert(".cam"@ =~= seq!['.', 'c', 'a', 'm']);
    }
    name
}

} // verus!
