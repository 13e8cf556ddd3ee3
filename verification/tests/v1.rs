use vpk_plumber::pak::archive::Archives;
use vpk_plumber::pak::v1::{VPKHeaderV1, VPKVersion1, VPK_SIGNATURE_V1, VPK_VERSION_V1};
use vpk_plumber::pak::{
    DirEntry, Error, PakReader, PakWorker, PakWriter, VPKDirectoryEntry, VPKTree, Violation,
    VPK_ARCHIVE_INDEX_DIR, VPK_ENTRY_TERMINATOR,
};
use vpk_plumber::util::error::IoError;
use vpk_plumber::util::file::{ByteReader, VPKFileWriter};

const TEST_TEXT: &[u8] = b"test text";
const TEST_TEXT_CRC: u32 = 0x4570FA16;

fn entry_bytes(entry: &VPKDirectoryEntry) -> Vec<u8> {
    let mut out = Vec::new();
    out.write_u32(entry.crc);
    out.write_u16(entry.preload_length);
    out.write_u16(entry.archive_index);
    out.write_u32(entry.entry_offset);
    out.write_u32(entry.entry_length);
    out.write_u16(entry.terminator);
    out
}

fn header_bytes(tree_size: u32) -> Vec<u8> {
    let mut out = Vec::new();
    out.write_u32(0x55AA1234);
    out.write_u32(1);
    out.write_u32(tree_size);
    out
}

fn single_entry(archive_index: u16) -> VPKDirectoryEntry {
    VPKDirectoryEntry {
        crc: TEST_TEXT_CRC,
        preload_length: 0,
        archive_index,
        entry_offset: 0,
        entry_length: 9,
        terminator: 0xFFFF,
    }
}

/// A directory file with the one file "test/file.txt", with the terminator
/// of the extension level that shipped files have.
fn single_file_dir(archive_index: u16) -> Vec<u8> {
    let mut tree = Vec::new();
    tree.write_string("txt");
    tree.write_string("test");
    tree.write_string("file");
    tree.write_bytes(&entry_bytes(&single_entry(archive_index)));
    tree.write_u8(0);
    tree.write_u8(0);
    tree.write_u8(0);
    let mut out = header_bytes(tree.len() as u32);
    out.write_bytes(&tree);
    out
}

fn empty_dir() -> Vec<u8> {
    let mut out = header_bytes(1);
    out.write_u8(0);
    out
}

fn large_package(count: usize) -> VPKVersion1 {
    let mut vpk = VPKVersion1::new();
    for i in 0..count {
        let path = format!("dir{}/sub{}/file{}.e{}", i % 7, i % 13, i, i % 5);
        let preload = (i % 4) as u16;
        vpk.tree.files.insert(
            path.clone(),
            VPKDirectoryEntry {
                crc: i as u32,
                preload_length: preload,
                archive_index: (i % 3) as u16,
                entry_offset: (i * 10) as u32,
                entry_length: 10,
                terminator: 0xFFFF,
            },
        );
        if preload > 0 {
            vpk.tree.preload.insert(path, vec![i as u8; preload as usize]);
        }
    }
    let mut tree = Vec::new();
    vpk.tree.write(&mut tree).unwrap();
    vpk.header.tree_size = tree.len() as u32;
    vpk
}

fn assert_same_package(a: &VPKVersion1, b: &VPKVersion1) {
    assert_eq!(a.header, b.header, "Signatures do not match");
    assert_eq!(a.tree.files.len(), b.tree.files.len(), "VPK sizes don't match");
    assert_eq!(
        a.tree.preload.len(),
        b.tree.preload.len(),
        "Preload sizes don't match"
    );
    for i in 0..a.tree.files.len() {
        let key = a.tree.files.path(i);
        assert!(b.tree.files.contains_key(key), "VPK files don't match");
        assert_eq!(
            a.tree.files.get(key),
            b.tree.files.get(key),
            "VPK file data doesn't match"
        );
    }
    for i in 0..a.tree.preload.len() {
        let key = a.tree.preload.path(i);
        assert!(b.tree.preload.contains_key(key), "VPK preloads don't match");
        assert_eq!(
            a.tree.preload.get(key),
            b.tree.preload.get(key),
            "VPK preload data doesn't match"
        );
    }
}

fn roundtrip(bytes: &[u8]) {
    let mut file = ByteReader::new(bytes);
    let vpk = VPKVersion1::from_file(&mut file).unwrap();
    let written = vpk.write_dir().unwrap();
    let mut file = ByteReader::new(&written);
    let vpk_result = VPKVersion1::from_file(&mut file).unwrap();
    assert_same_package(&vpk, &vpk_result);
}

#[test]
fn read_empty_vpk_v1() {
    let bytes = empty_dir();
    let mut file = ByteReader::new(&bytes);
    let vpk = VPKVersion1::from_file(&mut file).expect("Failed to read VPK file");
    assert_eq!(vpk.tree.files.len(), 0, "VPK tree should have 0 entries");
    assert_eq!(
        vpk.tree.files.get("test/file.txt"),
        None,
        "File \"test/file.txt\" shouldn't exist"
    );
    assert!(
        file.stream_position() >= file.len() - 1,
        "Should be at end of file"
    );
}

#[test]
fn read_invalid_vpk_v1() {
    let mut file = ByteReader::new(TEST_TEXT);
    let vpk = VPKVersion1::from_file(&mut file);
    assert_eq!(
        vpk.err(),
        Some(Error::InvalidSignature(0x74736574)),
        "VPK file should be invalid"
    );
}

#[test]
fn read_single_file_vpk_v1() {
    let bytes = single_file_dir(0);
    let mut file = ByteReader::new(&bytes);
    let vpk = VPKVersion1::from_file(&mut file).expect("Failed to read VPK file");
    assert_eq!(vpk.tree.files.len(), 1, "VPK tree should have 1 entry");
    assert_eq!(
        vpk.tree.files.get("test/file.txt"),
        Some(&VPKDirectoryEntry {
            crc: 0x4570FA16,
            preload_length: 0,
            archive_index: 0,
            entry_offset: 0,
            entry_length: 9,
            terminator: 0xFFFF,
        }),
        "File \"test/file.txt\" should exist"
    );
    assert!(
        file.stream_position() >= file.len() - 1,
        "Should be at end of file"
    );

    let mut archives = Archives::new();
    archives.insert(0, TEST_TEXT);
    let test_file = vpk.read_file(&archives, "test/file.txt");
    assert_eq!(
        test_file,
        Some(Vec::from("test text")),
        "File contents should be \"test text\""
    );

    let mut out = Vec::new();
    vpk.extract_file(&archives, "test/file.txt", &mut out).unwrap();
    assert_eq!(out, b"test text", "File contents should match");
}

#[test]
fn read_single_file_eof_data_vpk_v1() {
    let mut bytes = single_file_dir(VPK_ARCHIVE_INDEX_DIR);
    bytes.write_bytes(TEST_TEXT);
    let mut file = ByteReader::new(&bytes);
    let vpk = VPKVersion1::from_file(&mut file).expect("Failed to read VPK file");
    assert_eq!(vpk.tree.files.len(), 1, "VPK tree should have 1 entry");
    assert_eq!(
        vpk.tree.files.get("test/file.txt"),
        Some(&VPKDirectoryEntry {
            crc: 0x4570FA16,
            preload_length: 0,
            archive_index: 0x7FFF,
            entry_offset: 0,
            entry_length: 9,
            terminator: 0xFFFF,
        }),
        "File \"test/file.txt\" should exist"
    );

    let mut archives = Archives::new();
    archives.insert(0x7FFF, &bytes);
    archives.insert(0, b"wrong data, not to be read");
    let test_file = vpk.read_file(&archives, "test/file.txt");
    assert_eq!(
        test_file,
        Some(Vec::from("test text")),
        "File contents should be \"test text\""
    );

    let mut out = Vec::new();
    vpk.extract_file(&archives, "test/file.txt", &mut out).unwrap();
    assert_eq!(out, b"test text", "File contents should match");
}

#[test]
fn extract_mem_map_single_file_vpk_v1() {
    let bytes = single_file_dir(0);
    let mut file = ByteReader::new(&bytes);
    let vpk = VPKVersion1::from_file(&mut file).expect("Failed to read VPK file");

    let mut archive_mmaps = Archives::new();
    archive_mmaps.insert(0, TEST_TEXT);
    let mut out = Vec::new();
    vpk.extract_file_mem_map(&archive_mmaps, "test/file.txt", &mut out)
        .unwrap();
    assert_eq!(out, b"test text", "File contents should match");
}

#[test]
fn read_big_vpk_v1() {
    let bytes = large_package(449).write_dir().unwrap();
    let mut file = ByteReader::new(&bytes);
    let vpk = VPKVersion1::from_file(&mut file).expect("Failed to read VPK file");
    assert_eq!(vpk.tree.files.len(), 449, "VPK tree should have 449 entries");
    assert!(
        file.stream_position() >= file.len() - 1,
        "Should be at end of file"
    );
}

#[test]
fn write_parity_vpk_v1() {
    let bytes = large_package(449).write_dir().unwrap();
    let mut file = ByteReader::new(&bytes);
    let vpk = VPKVersion1::from_file(&mut file).expect("Failed to read VPK file");
    assert_eq!(vpk.tree.files.len(), 449, "VPK tree should have 449 entries");

    let written = vpk.write_dir().unwrap();
    let mut file = ByteReader::new(&written);
    let new_vpk = VPKVersion1::from_file(&mut file).expect("Failed to read VPK file");
    assert_eq!(
        new_vpk.tree.files.len(),
        449,
        "VPK tree should have 449 entries"
    );
    assert!(
        file.stream_position() >= file.len() - 1,
        "Should be at end of file"
    );
    assert_same_package(&vpk, &new_vpk);
    assert_eq!(written, bytes, "Written VPK did not contain the same data as the one that was read");
}

#[test]
fn data_vpk_empty() {
    let bytes = empty_dir();
    let mut file = ByteReader::new(&bytes);
    let vpk = VPKVersion1::from_file(&mut file).unwrap();
    let archives = Archives::new();
    let result = vpk.read_file(&archives, "test/file.txt");
    assert!(result.is_none(), "File should not exist in empty archive");
    let mut out = Vec::new();
    assert_eq!(
        vpk.extract_file(&archives, "test/file.txt", &mut out),
        Err(Error::FileNotFound)
    );
}

#[test]
fn data_vpk_single_file() {
    let bytes = single_file_dir(0);
    let mut file = ByteReader::new(&bytes);
    let vpk = VPKVersion1::from_file(&mut file).unwrap();
    let mut archives = Archives::new();
    archives.insert(0, TEST_TEXT);
    let result = vpk.read_file(&archives, "test/file.txt").unwrap();
    assert_eq!(result, TEST_TEXT, "Content does not match expected");
}

#[test]
fn data_vpk_large() {
    let bytes = large_package(2000).write_dir().unwrap();
    let mut file = ByteReader::new(&bytes);
    let vpk = VPKVersion1::from_file(&mut file).unwrap();
    assert_eq!(vpk.tree.files.len(), 2000, "Tree size does not match");
}

#[test]
fn extract_vpk_single_file() {
    let bytes = single_file_dir(0);
    let mut file = ByteReader::new(&bytes);
    let vpk = VPKVersion1::from_file(&mut file).unwrap();
    let mut archive_mmaps = Archives::new();
    archive_mmaps.insert(0, TEST_TEXT);
    let mut out = vec![1u8, 2, 3];
    vpk.extract_file_mem_map(&archive_mmaps, "test/file.txt", &mut out)
        .unwrap();
    assert_eq!(&out[..3], &[1, 2, 3]);
    assert_eq!(&out[3..], TEST_TEXT, "File contents should match");
}

#[test]
fn read_valid_vpk_empty() {
    let bytes = empty_dir();
    let mut file = ByteReader::new(&bytes);
    let _vpk = VPKVersion1::from_file(&mut file).unwrap();
}

#[test]
fn read_valid_vpk_single_file() {
    let bytes = single_file_dir(0);
    let mut file = ByteReader::new(&bytes);
    let _vpk = VPKVersion1::from_file(&mut file).unwrap();
}

#[test]
fn valid_vpk_eof() {
    let mut bytes = single_file_dir(VPK_ARCHIVE_INDEX_DIR);
    bytes.write_bytes(TEST_TEXT);
    let mut file = ByteReader::new(&bytes);
    let _vpk = VPKVersion1::from_file(&mut file).unwrap();
}

#[test]
fn read_valid_vpk_large() {
    let bytes = large_package(449).write_dir().unwrap();
    let mut file = ByteReader::new(&bytes);
    let _vpk = VPKVersion1::from_file(&mut file).unwrap();
}

#[test]
fn read_invalid_vpk() {
    let mut file = ByteReader::new(TEST_TEXT);
    let vpk = VPKVersion1::from_file(&mut file);
    assert!(
        vpk.is_err_and(|x| matches!(x, Error::InvalidSignature(_))),
        "VPK file should be invalid",
    );
}

#[test]
fn read_vpk_v2_empty() {
    let mut bytes = Vec::new();
    bytes.write_u32(0x55AA1234);
    bytes.write_u32(2);
    bytes.write_u32(1);
    let mut file = ByteReader::new(&bytes);
    let vpk = VPKVersion1::from_file(&mut file);
    assert!(
        vpk.is_err_and(|x| matches!(x, Error::BadVersion(_))),
        "VPK file should be invalid",
    );
}

#[test]
fn read_vpk_revpk_empty() {
    let mut bytes = Vec::new();
    bytes.write_u32(0x55AA1234);
    bytes.write_u32(196610);
    bytes.write_u32(1);
    bytes.write_u32(0);
    let mut file = ByteReader::new(&bytes);
    let vpk = VPKVersion1::from_file(&mut file);
    assert_eq!(vpk.err(), Some(Error::BadVersion(196610)), "VPK file should be invalid");
}

#[test]
fn roundtrip_empty() {
    roundtrip(&empty_dir());
}

#[test]
fn roundtrip_single_file() {
    roundtrip(&single_file_dir(0));
}

#[test]
fn single_file_eof() {
    let mut bytes = single_file_dir(VPK_ARCHIVE_INDEX_DIR);
    bytes.write_bytes(TEST_TEXT);
    roundtrip(&bytes);
}

#[test]
fn roundtrip_large() {
    roundtrip(&large_package(3000).write_dir().unwrap());
}

#[test]
fn written_directory_has_the_expected_bytes() {
    let mut vpk = VPKVersion1::new();
    vpk.header.tree_size = 35;
    vpk.tree
        .files
        .insert(String::from("test/file.txt"), single_entry(0));
    let written = vpk.write_dir().unwrap();
    let shipped = single_file_dir(0);
    assert_eq!(written.len(), shipped.len() - 1);
    assert_eq!(written, &shipped[..shipped.len() - 1]);
}

#[test]
fn tree_groups_files_by_extension_and_directory() {
    let mut tree: VPKTree<VPKDirectoryEntry> = VPKTree::new();
    for path in ["a/one.txt", "b/two.txt", "a/three.bin", "a/four.txt"] {
        tree.files.insert(String::from(path), VPKDirectoryEntry::new());
    }
    let mut out = Vec::new();
    tree.write(&mut out).unwrap();
    let entry = entry_bytes(&VPKDirectoryEntry::new());
    let mut expected = Vec::new();
    expected.write_string("txt");
    expected.write_string("a");
    expected.write_string("one");
    expected.write_bytes(&entry);
    expected.write_string("four");
    expected.write_bytes(&entry);
    expected.write_u8(0);
    expected.write_string("b");
    expected.write_string("two");
    expected.write_bytes(&entry);
    expected.write_u8(0);
    expected.write_u8(0);
    expected.write_string("bin");
    expected.write_string("a");
    expected.write_string("three");
    expected.write_bytes(&entry);
    expected.write_u8(0);
    expected.write_u8(0);
    assert_eq!(out, expected);
}

#[test]
fn preload_bytes_follow_their_entry() {
    let mut vpk = VPKVersion1::new();
    let mut entry = VPKDirectoryEntry::new();
    entry.preload_length = 3;
    entry.entry_length = 4;
    entry.crc = 0x6D3B3F43;
    vpk.tree.files.insert(String::from("d/f.x"), entry);
    vpk.tree.preload.insert(String::from("d/f.x"), vec![1, 2, 3]);
    vpk.header.tree_size = 100;
    let written = vpk.write_dir().unwrap();
    let mut expected = header_bytes(100);
    expected.write_string("x");
    expected.write_string("d");
    expected.write_string("f");
    expected.write_bytes(&entry_bytes(&entry));
    expected.write_bytes(&[1, 2, 3]);
    expected.write_u8(0);
    expected.write_u8(0);
    assert_eq!(written, expected);

    let mut file = ByteReader::new(&written);
    let back = VPKVersion1::from_file(&mut file).unwrap();
    assert_eq!(back.tree.preload.get("d/f.x"), Some(&vec![1, 2, 3]));
    assert_eq!(back.tree.files.get("d/f.x"), Some(&entry));
    assert_eq!(file.stream_position(), written.len() as u64);
}

#[test]
fn content_is_preload_then_archive_data() {
    let mut vpk = VPKVersion1::new();
    let data = b"0123456789";
    let mut whole = vec![b'a', b'b'];
    whole.extend_from_slice(&data[3..7]);
    let crc = crc::Crc::<u32>::new(&crc::CRC_32_ISO_HDLC).checksum(&whole);
    let entry = VPKDirectoryEntry {
        crc,
        preload_length: 2,
        archive_index: 5,
        entry_offset: 3,
        entry_length: 4,
        terminator: VPK_ENTRY_TERMINATOR,
    };
    vpk.tree.files.insert(String::from("d/f.x"), entry);
    vpk.tree.preload.insert(String::from("d/f.x"), vec![b'a', b'b']);
    let mut archives = Archives::new();
    archives.insert(5, data);
    assert_eq!(vpk.read_file(&archives, "d/f.x"), Some(whole.clone()));
    let mut out = Vec::new();
    assert_eq!(vpk.extract_file(&archives, "d/f.x", &mut out), Ok(()));
    assert_eq!(out, whole);
}

#[test]
fn changed_byte_fails_the_checksum() {
    let bytes = single_file_dir(0);
    let mut file = ByteReader::new(&bytes);
    let vpk = VPKVersion1::from_file(&mut file).unwrap();
    for at in 0..TEST_TEXT.len() {
        let mut changed = TEST_TEXT.to_vec();
        changed[at] ^= 0x01;
        let mut archives = Archives::new();
        archives.insert(0, &changed);
        assert_eq!(vpk.read_file(&archives, "test/file.txt"), None);
        let mut out = vec![9u8];
        assert_eq!(
            vpk.extract_file(&archives, "test/file.txt", &mut out),
            Err(Error::BadData(Violation::CrcMismatch))
        );
        assert_eq!(out, vec![9u8]);
        assert_eq!(
            vpk.extract_file_mem_map(&archives, "test/file.txt", &mut out),
            Err(Error::BadData(Violation::CrcMismatch))
        );
    }
}

#[test]
fn missing_archive_is_told_apart() {
    let bytes = single_file_dir(3);
    let mut file = ByteReader::new(&bytes);
    let vpk = VPKVersion1::from_file(&mut file).unwrap();
    let mut archives = Archives::new();
    archives.insert(0, TEST_TEXT);
    let mut out = Vec::new();
    assert_eq!(vpk.read_file(&archives, "test/file.txt"), None);
    assert_eq!(
        vpk.extract_file(&archives, "test/file.txt", &mut out),
        Err(Error::Io(IoError::NotFound))
    );
    assert_eq!(
        vpk.extract_file_mem_map(&archives, "test/file.txt", &mut out),
        Err(Error::MemoryMappedFileNotFound(3))
    );
}

#[test]
fn short_archive_is_rejected() {
    let bytes = single_file_dir(0);
    let mut file = ByteReader::new(&bytes);
    let vpk = VPKVersion1::from_file(&mut file).unwrap();
    let mut archives = Archives::new();
    archives.insert(0, &TEST_TEXT[..8]);
    let mut out = Vec::new();
    assert_eq!(
        vpk.extract_file(&archives, "test/file.txt", &mut out),
        Err(Error::BadData(Violation::ArchiveTooShort))
    );
}

#[test]
fn missing_preload_is_reported() {
    let mut vpk = VPKVersion1::new();
    let mut entry = VPKDirectoryEntry::new();
    entry.preload_length = 2;
    vpk.tree.files.insert(String::from("d/f.x"), entry);
    let archives = Archives::new();
    let mut out = Vec::new();
    assert_eq!(
        vpk.extract_file(&archives, "d/f.x", &mut out),
        Err(Error::DataNotFound)
    );
    assert_eq!(vpk.read_file(&archives, "d/f.x"), None);
}

#[test]
fn file_of_preload_only_needs_no_archive() {
    let mut vpk = VPKVersion1::new();
    let mut entry = VPKDirectoryEntry::new();
    entry.preload_length = 9;
    entry.crc = TEST_TEXT_CRC;
    vpk.tree.files.insert(String::from("d/f.x"), entry);
    vpk.tree.preload.insert(String::from("d/f.x"), TEST_TEXT.to_vec());
    let archives = Archives::new();
    assert_eq!(vpk.read_file(&archives, "d/f.x"), Some(TEST_TEXT.to_vec()));
}

#[test]
fn large_file_is_copied_whole() {
    let data: Vec<u8> = (0..3_000_000u32).map(|i| (i % 251) as u8).collect();
    let crc = crc::Crc::<u32>::new(&crc::CRC_32_ISO_HDLC).checksum(&data);
    let mut vpk = VPKVersion1::new();
    vpk.tree.files.insert(
        String::from("big/file.bin"),
        VPKDirectoryEntry {
            crc,
            preload_length: 0,
            archive_index: 1,
            entry_offset: 0,
            entry_length: data.len() as u32,
            terminator: 0xFFFF,
        },
    );
    let mut archives = Archives::new();
    archives.insert(1, &data);
    let mut out = Vec::new();
    vpk.extract_file(&archives, "big/file.bin", &mut out).unwrap();
    assert_eq!(out, data);
}

#[test]
fn header_is_judged_field_by_field() {
    let mut file = ByteReader::new(&[0x34, 0x12, 0xAA]);
    assert!(matches!(VPKHeaderV1::from(&mut file), Err(Error::Util(_))));

    let bytes = header_bytes(7);
    let mut file = ByteReader::new(&bytes[..8]);
    assert!(matches!(VPKHeaderV1::from(&mut file), Err(Error::Util(_))));

    let mut file = ByteReader::new(&bytes);
    assert_eq!(
        VPKHeaderV1::from(&mut file),
        Ok(VPKHeaderV1 {
            signature: VPK_SIGNATURE_V1,
            version: VPK_VERSION_V1,
            tree_size: 7
        })
    );
    assert_eq!(file.stream_position(), 12);
}

#[test]
fn header_with_wrong_fields_is_not_written() {
    let mut out = vec![1u8];
    let header = VPKHeaderV1 { signature: 1, version: 1, tree_size: 0 };
    assert_eq!(header.write(&mut out), Err(Error::InvalidSignature(1)));
    let header = VPKHeaderV1 { signature: VPK_SIGNATURE_V1, version: 3, tree_size: 0 };
    assert_eq!(header.write(&mut out), Err(Error::BadVersion(3)));
    assert_eq!(out, vec![1u8]);
}

#[test]
fn entry_with_wrong_terminator_is_rejected() {
    let mut entry = single_entry(0);
    entry.terminator = 0x1234;
    let bytes = entry_bytes(&entry);
    let mut file = ByteReader::new(&bytes);
    assert_eq!(
        <VPKDirectoryEntry as DirEntry>::from(&mut file).err(),
        Some(Error::InvalidEntryTerminator(0x1234))
    );
    let mut out = Vec::new();
    assert_eq!(
        DirEntry::write(&entry, &mut out),
        Err(Error::InvalidEntryTerminator(0x1234))
    );
    assert!(out.is_empty());

    let mut vpk = VPKVersion1::new();
    vpk.tree.files.insert(String::from("a/b.c"), single_entry(0));
    vpk.tree.files.insert(String::from("a/d.c"), entry);
    assert_eq!(vpk.write_dir().err(), Some(Error::InvalidEntryTerminator(0x1234)));
}

#[test]
fn truncated_entry_is_rejected() {
    let bytes = single_file_dir(0);
    let cut = &bytes[..bytes.len() - 10];
    let mut file = ByteReader::new(cut);
    assert!(matches!(
        VPKVersion1::from_file(&mut file),
        Err(Error::Util(_))
    ));
}

#[test]
fn probe_leaves_the_cursor() {
    let mut bytes = vec![0u8; 5];
    bytes.write_bytes(&single_file_dir(0));
    let mut file = ByteReader::new(&bytes);
    assert!(!VPKHeaderV1::is_format(&mut file));
    assert_eq!(file.stream_position(), 0);
    file.seek(5);
    assert!(VPKHeaderV1::is_format(&mut file));
    assert_eq!(file.stream_position(), 5);
    file.seek(bytes.len() as u64 - 3);
    assert!(!VPKHeaderV1::is_format(&mut file));
    assert_eq!(file.stream_position(), bytes.len() as u64 - 3);
}

#[test]
fn new_package_is_empty() {
    let vpk = VPKVersion1::new();
    assert_eq!(vpk.header.signature, 0x55AA1234);
    assert_eq!(vpk.header.version, 1);
    assert_eq!(vpk.header.tree_size, 0);
    assert!(vpk.tree.files.is_empty());
    assert_eq!(vpk.write_dir().unwrap(), header_bytes(0));
    assert_eq!(VPKDirectoryEntry::new().terminator, 0xFFFF);
    assert_eq!(VPKDirectoryEntry::default(), VPKDirectoryEntry::new());
}

#[test]
fn read_vpk_v2_single_file() {
    let mut bytes = Vec::new();
    bytes.write_u32(0x55AA1234);
    bytes.write_u32(196610);
    bytes.write_u32(56);
    bytes.write_u32(0);
    bytes.write_string("txt");
    bytes.write_string("test");
    bytes.write_string("file");
    bytes.write_u32(0x4570FA16);
    bytes.write_u16(0);
    bytes.write_u16(0);
    bytes.write_u16(0);
    bytes.write_u32(0);
    bytes.write_u64(0);
    bytes.write_u64(9);
    bytes.write_u64(9);
    bytes.write_u16(0xFFFF);
    bytes.write_bytes(&[0, 0, 0]);
    let mut file = ByteReader::new(&bytes);
    let vpk = VPKVersion1::from_file(&mut file);
    assert!(
        vpk.is_err_and(|x| matches!(x, Error::BadVersion(_))),
        "VPK file should be invalid",
    );
}

#[test]
fn tree_of_many_files_is_written_and_read_back() {
    let vpk = large_package(20000);
    let bytes = vpk.write_dir().unwrap();
    let mut file = ByteReader::new(&bytes);
    let back = VPKVersion1::from_file(&mut file).unwrap();
    assert_eq!(file.stream_position(), bytes.len() as u64);
    assert_same_package(&vpk, &back);
    assert_eq!(back.write_dir().unwrap(), bytes);
}
