use vpk_plumber::pak::archive::{checksum, Archives};
use vpk_plumber::pak::content::{assemble, gather, judge};
use vpk_plumber::pak::map::hash_bytes;
use vpk_plumber::pak::name::{archive_file_name, cam_file_name, data_file_name, dir_file_name};
use vpk_plumber::pak::path::{bytes_eq, join, split};
use vpk_plumber::pak::v1::VPKVersion1;
use vpk_plumber::pak::{
    Error, PakReader, PakWorker, PathMap, VPKDirectoryEntry, VPKTree, Violation,
};
use vpk_plumber::util::error;
use vpk_plumber::util::file::{ByteReader, VPKFileWriter};

#[test]
fn checksum_is_crc_32_iso_hdlc() {
    assert_eq!(checksum(b"123456789"), 0xCBF43926);
    assert_eq!(checksum(b"test text"), 0x4570FA16);
    assert_eq!(checksum(b""), 0);
}

#[test]
fn data_of_the_directory_index_are_in_the_directory_file() {
    assert_eq!(data_file_name("pak01", 0x7FFF), "pak01_dir.vpk");
    assert_eq!(data_file_name("pak01", 0x7FFE), "pak01_32766.vpk");
    assert_eq!(data_file_name("pak01", 3), "pak01_003.vpk");

    let mut vpk = VPKVersion1::new();
    let mut entry = VPKDirectoryEntry::new();
    entry.archive_index = 0x7FFF;
    vpk.tree.files.insert(String::from("a/empty.x"), entry);
    entry.entry_length = 2;
    vpk.tree.files.insert(String::from("a/two.x"), entry);
    assert!(vpk.archives_of("a/empty.x").is_empty());
    assert!(vpk.archives_of("a/none.x").is_empty());
    assert_eq!(vpk.archives_of("a/two.x"), vec![0x7FFF]);
}

#[test]
fn supplied_archives_are_found_by_index() {
    let mut archives = Archives::new();
    assert_eq!(archives.get(1), None);
    archives.insert(1, b"one");
    archives.insert(2, b"two");
    archives.insert(1, b"uno");
    assert_eq!(archives.get(1), Some(&b"uno"[..]));
    assert_eq!(archives.get(2), Some(&b"two"[..]));
    assert_eq!(archives.get_expanded(1, 0), None);
    archives.insert_expanded(1, 0, vec![1]);
    archives.insert_expanded(2, 0, vec![2]);
    archives.insert_expanded(1, 1 << 40, vec![3]);
    assert_eq!(archives.get_expanded(1, 0), Some(&vec![1]));
    assert_eq!(archives.get_expanded(2, 0), Some(&vec![2]));
    assert_eq!(archives.get_expanded(1, 1 << 40), Some(&vec![3]));
    assert_eq!(archives.get_expanded(0, 1 << 40), None);
}

#[test]
fn path_is_split_at_last_slash_and_last_dot() {
    let parts = split(b"materials/models/a.b.vtf");
    assert_eq!(parts.dir, b"materials/models");
    assert_eq!(parts.stem, b"a.b");
    assert_eq!(parts.extension, b"vtf");

    let parts = split(b"file.txt");
    assert_eq!(parts.dir, b"");
    assert_eq!(parts.stem, b"file");
    assert_eq!(parts.extension, b"txt");

    let parts = split(b"dir/.hidden");
    assert_eq!(parts.dir, b"dir");
    assert_eq!(parts.stem, b".hidden");
    assert_eq!(parts.extension, b"");

    let parts = split(b"dir.d/name");
    assert_eq!(parts.dir, b"dir.d");
    assert_eq!(parts.stem, b"name");
    assert_eq!(parts.extension, b"");

    let parts = split(b"dir/name.");
    assert_eq!(parts.stem, b"name");
    assert_eq!(parts.extension, b"");

    let parts = split(b"");
    assert_eq!(parts.dir, b"");
    assert_eq!(parts.stem, b"");
    assert_eq!(parts.extension, b"");
}

#[test]
fn parts_are_joined_to_a_path() {
    assert_eq!(join("test", "file", "txt"), "test/file.txt");
    assert_eq!(join("a/b", "c.d", "e"), "a/b/c.d.e");
    assert_eq!(join("\u{e4}", "\u{f6}", "\u{fc}"), "\u{e4}/\u{f6}.\u{fc}");
    assert!(bytes_eq(b"abc", b"abc"));
    assert!(!bytes_eq(b"abc", b"abd"));
    assert!(!bytes_eq(b"abc", b"ab"));
    assert!(bytes_eq(b"", b""));
}

#[test]
fn files_are_named_after_their_package() {
    assert_eq!(archive_file_name("pak01", 0), "pak01_000.vpk");
    assert_eq!(archive_file_name("pak01", 7), "pak01_007.vpk");
    assert_eq!(archive_file_name("pak01", 42), "pak01_042.vpk");
    assert_eq!(archive_file_name("pak01", 999), "pak01_999.vpk");
    assert_eq!(archive_file_name("pak01", 1000), "pak01_1000.vpk");
    assert_eq!(archive_file_name("pak01", 9999), "pak01_9999.vpk");
    assert_eq!(archive_file_name("pak01", 10000), "pak01_10000.vpk");
    assert_eq!(archive_file_name("pak01", 65535), "pak01_65535.vpk");
    assert_eq!(archive_file_name("", 120), "_120.vpk");
    assert_eq!(dir_file_name("single_file"), "single_file_dir.vpk");
    assert_eq!(cam_file_name("pak000_000.vpk"), "pak000_000.vpk.cam");
}

#[test]
fn map_keeps_the_order_of_first_insertion() {
    let mut map: PathMap<Vec<u8>> = PathMap::new();
    assert!(map.is_empty());
    assert_eq!(map.len(), 0);
    map.insert(String::from("b"), vec![1]);
    map.insert(String::from("a"), vec![2]);
    map.insert(String::from("b"), vec![3]);
    assert_eq!(map.len(), 2);
    assert!(!map.is_empty());
    assert_eq!(map.path(0), "b");
    assert_eq!(map.path(1), "a");
    assert_eq!(map.value(0), &vec![3]);
    assert_eq!(map.get("a"), Some(&vec![2]));
    assert_eq!(map.get("c"), None);
    assert!(map.contains_key("b"));
    assert!(!map.contains_key("B"));
    assert_eq!(map.position("a"), Some(1));
    assert_eq!(map.position(""), None);
}

#[test]
fn tree_is_read_within_its_declared_size() {
    let mut bytes = Vec::new();
    bytes.write_string("txt");
    bytes.write_string("d");
    bytes.write_string("one");
    bytes.write_bytes(&[0u8; 16]);
    bytes.write_u16(0xFFFF);
    bytes.write_u8(0);
    bytes.write_u8(0);
    let first = bytes.len() as u64;
    bytes.write_string("bin");
    bytes.write_string("d");
    bytes.write_string("two");
    bytes.write_bytes(&[0u8; 16]);
    bytes.write_u16(0xFFFF);
    bytes.write_u8(0);
    bytes.write_u8(0);

    let mut file = ByteReader::new(&bytes);
    let tree: VPKTree<VPKDirectoryEntry> = VPKTree::from(&mut file, 0, first).unwrap();
    assert_eq!(tree.files.len(), 1);
    assert!(tree.files.contains_key("d/one.txt"));
    assert_eq!(file.stream_position(), first);

    let tree: VPKTree<VPKDirectoryEntry> = VPKTree::from(&mut file, 0, first + 1).unwrap();
    assert_eq!(tree.files.len(), 1);
    assert_eq!(file.stream_position(), first + 6);

    let tree: VPKTree<VPKDirectoryEntry> = VPKTree::from(&mut file, 0, first + 10).unwrap();
    assert_eq!(tree.files.len(), 2);
    assert!(tree.files.contains_key("d/two.bin"));
    assert_eq!(file.stream_position(), bytes.len() as u64);

    let tree: VPKTree<VPKDirectoryEntry> = VPKTree::from(&mut file, 0, 0).unwrap();
    assert_eq!(tree.files.len(), 0);
    assert_eq!(file.stream_position(), 0);

    let tree: VPKTree<VPKDirectoryEntry> = VPKTree::from(&mut file, 0, 5).unwrap();
    assert_eq!(tree.files.len(), 0);
    assert_eq!(file.stream_position(), 6);

    let tree: VPKTree<VPKDirectoryEntry> =
        VPKTree::from(&mut file, first, u64::MAX).unwrap();
    assert_eq!(tree.files.len(), 1);
    assert_eq!(tree.files.path(0), "d/two.bin");
}

#[test]
fn tree_with_a_short_preload_is_rejected() {
    let mut bytes = Vec::new();
    bytes.write_string("txt");
    bytes.write_string("d");
    bytes.write_string("one");
    bytes.write_u32(7);
    bytes.write_u16(5);
    bytes.write_bytes(&[0u8; 10]);
    bytes.write_u16(0xFFFF);
    bytes.write_bytes(&[1, 2, 3]);
    let mut file = ByteReader::new(&bytes);
    assert_eq!(
        VPKTree::<VPKDirectoryEntry>::from(&mut file, 0, 1000).err(),
        Some(Error::Util(error::Error::Io(error::IoError::UnexpectedEof)))
    );
    bytes.write_bytes(&[4, 5]);
    let mut file = ByteReader::new(&bytes);
    let tree: VPKTree<VPKDirectoryEntry> = VPKTree::from(&mut file, 0, 1000).unwrap();
    assert_eq!(tree.files.len(), 1);
    assert_eq!(tree.preload.get("d/one.txt"), Some(&vec![1, 2, 3, 4, 5]));
    assert_eq!(tree.files.get("d/one.txt").unwrap().preload_length, 5);
}

#[test]
fn tree_failures_are_told_apart() {
    let mut bytes = Vec::new();
    bytes.write_string("txt");
    bytes.write_string("d");
    bytes.write_string("one");
    bytes.write_bytes(&[0u8; 16]);
    bytes.write_u16(0x1234);
    let mut file = ByteReader::new(&bytes);
    assert_eq!(
        VPKTree::<VPKDirectoryEntry>::from(&mut file, 0, 100).err(),
        Some(Error::InvalidEntryTerminator(0x1234))
    );
    let mut file = ByteReader::new(&bytes[..bytes.len() - 1]);
    assert_eq!(
        VPKTree::<VPKDirectoryEntry>::from(&mut file, 0, 100).err(),
        Some(Error::Util(error::Error::Io(error::IoError::UnexpectedEof)))
    );
    let mut bad = Vec::new();
    bad.write_string("txt");
    bad.write_bytes(&[b'd', 0xFF, 0]);
    let mut file = ByteReader::new(&bad);
    assert_eq!(
        VPKTree::<VPKDirectoryEntry>::from(&mut file, 0, 100).err(),
        Some(Error::Util(error::Error::Utf8(4)))
    );
}

#[test]
fn second_listing_of_a_path_replaces_the_first() {
    let mut bytes = Vec::new();
    for crc in [1u32, 2u32] {
        bytes.write_string("txt");
        bytes.write_string("d");
        bytes.write_string("one");
        bytes.write_u32(crc);
        bytes.write_bytes(&[0u8; 12]);
        bytes.write_u16(0xFFFF);
        bytes.write_u8(0);
        bytes.write_u8(0);
    }
    let mut file = ByteReader::new(&bytes);
    let tree: VPKTree<VPKDirectoryEntry> =
        VPKTree::from(&mut file, 0, bytes.len() as u64).unwrap();
    assert_eq!(tree.files.len(), 1);
    assert_eq!(tree.files.get("d/one.txt").unwrap().crc, 2);
}

#[test]
fn bytes_are_gathered_and_then_judged() {
    let mut tree: VPKTree<VPKDirectoryEntry> = VPKTree::new();
    let mut entry = VPKDirectoryEntry::new();
    entry.crc = 0x4570FA16;
    entry.preload_length = 5;
    entry.archive_index = 0x7FFF;
    entry.entry_offset = 2;
    entry.entry_length = 4;
    tree.files.insert(String::from("d/f.x"), entry);
    tree.preload.insert(String::from("d/f.x"), b"test ".to_vec());
    let file = b"....--text!";
    let mut archives = Archives::new();
    archives.insert(0x7FFF, file);

    assert_eq!(
        gather(&tree, 4, &archives, "d/f.x", false),
        Ok((b"test text".to_vec(), 0x4570FA16))
    );
    assert_eq!(assemble(&tree, 4, &archives, "d/f.x", false), Ok(b"test text".to_vec()));
    assert_eq!(
        gather(&tree, 3, &archives, "d/f.x", false),
        Ok((b"test -tex".to_vec(), 0x4570FA16))
    );
    assert_eq!(
        assemble(&tree, 3, &archives, "d/f.x", false),
        Err(Error::BadData(Violation::CrcMismatch))
    );
    assert_eq!(
        gather(&tree, 6, &archives, "d/f.x", true),
        Err(Error::BadData(Violation::ArchiveTooShort))
    );
    assert_eq!(gather(&tree, 4, &archives, "d/g.x", false), Err(Error::FileNotFound));

    assert_eq!(judge(vec![1, 2, 3], 7, 7), Ok(vec![1, 2, 3]));
    assert_eq!(judge(Vec::new(), 0, 0), Ok(Vec::new()));
    assert_eq!(
        judge(vec![1, 2, 3], 7, 8),
        Err(Error::BadData(Violation::CrcMismatch))
    );
}

#[test]
fn hash_of_a_path_is_made_byte_by_byte() {
    assert_eq!(hash_bytes(b""), 0xCBF2_9CE4_8422_2325);
    assert_eq!(hash_bytes(b"a"), 0xAF63_BD4C_8601_B841);
    assert_eq!(hash_bytes(b"test/file.txt"), 0xCF37_B5FC_A06A_C13F);
    assert_ne!(hash_bytes(b"ab"), hash_bytes(b"ba"));
}

#[test]
fn many_paths_are_found_again() {
    let mut map: PathMap<Vec<u8>> = PathMap::new();
    let count: usize = 20000;
    for i in 0..count {
        map.insert(format!("models/props/part{}.mdl", i), vec![(i % 251) as u8]);
    }
    assert_eq!(map.len(), count);
    for i in (0..count).step_by(7) {
        let path = format!("models/props/part{}.mdl", i);
        assert_eq!(map.position(&path), Some(i));
        assert_eq!(map.get(&path), Some(&vec![(i % 251) as u8]));
        assert_eq!(map.path(i), path);
    }
    assert_eq!(map.get("models/props/part20000.mdl"), None);
    map.insert(String::from("models/props/part5.mdl"), vec![1, 2]);
    assert_eq!(map.len(), count);
    assert_eq!(map.position("models/props/part5.mdl"), Some(5));
    assert_eq!(map.value(5), &vec![1, 2]);
}
