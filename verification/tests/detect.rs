use vpk_plumber::detect::{detect_pak_format, find_pak_worker, Error, Pak, PakFormat};
use vpk_plumber::pak;
use vpk_plumber::pak::archive::Archives;
use vpk_plumber::pak::revpk::{VPKDirectoryEntryRespawn, VPKFilePartEntryRespawn, VPKRespawn};
use vpk_plumber::pak::v1::VPKVersion1;
use vpk_plumber::pak::{PakReader, PakWorker, PakWriter, VPKDirectoryEntry};
use vpk_plumber::util::file::{ByteReader, VPKFileWriter};

const TEST_TEXT: &[u8] = b"test text";

fn v1_package(files: usize, archive_index: u16) -> Vec<u8> {
    let mut vpk = VPKVersion1::new();
    for i in 0..files {
        vpk.tree.files.insert(
            if i == 0 { String::from("test/file.txt") } else { format!("test/file{}.txt", i) },
            VPKDirectoryEntry {
                crc: 0x4570FA16,
                preload_length: 0,
                archive_index,
                entry_offset: 0,
                entry_length: 9,
                terminator: 0xFFFF,
            },
        );
    }
    let mut tree = Vec::new();
    vpk.tree.write(&mut tree).unwrap();
    vpk.header.tree_size = tree.len() as u32 + 1;
    let mut out = vpk.write_dir().unwrap();
    out.write_u8(0);
    out
}

fn v2_package(files: usize) -> Vec<u8> {
    let mut tree = Vec::new();
    if files > 0 {
        tree.write_string("txt");
        tree.write_string("test");
        for i in 0..files {
            tree.write_string(&format!("file{}", i));
            tree.write_u32(0x4570FA16);
            tree.write_u16(0);
            tree.write_u16(0);
            tree.write_u32(0);
            tree.write_u32(9);
            tree.write_u16(0xFFFF);
        }
        tree.write_u8(0);
        tree.write_u8(0);
    }
    tree.write_u8(0);
    let mut out = Vec::new();
    out.write_u32(0x55AA1234);
    out.write_u32(2);
    out.write_u32(tree.len() as u32);
    out.write_u32(0);
    out.write_u32(0);
    out.write_u32(48);
    out.write_u32(0);
    out.write_bytes(&tree);
    out.write_bytes(&[0u8; 48]);
    out
}

fn revpk_package(files: usize) -> Vec<u8> {
    let mut vpk = VPKRespawn::new();
    for i in 0..files {
        let mut entry = VPKDirectoryEntryRespawn::new();
        entry.crc = 0x4570FA16;
        entry.file_parts.push(VPKFilePartEntryRespawn {
            archive_index: 0,
            load_flags: 0,
            texture_flags: 0,
            entry_offset: 0,
            entry_length: 9,
            entry_length_uncompressed: 9,
        });
        vpk.tree.files.insert(
            if i == 0 { String::from("test/file.txt") } else { format!("test/file{}.txt", i) },
            entry,
        );
    }
    let mut tree = Vec::new();
    vpk.tree.write(&mut tree).unwrap();
    vpk.header.tree_size = tree.len() as u32;
    vpk.write_dir().unwrap()
}

fn assert_format(bytes: &[u8], expected_format: &PakFormat) {
    let mut file = ByteReader::new(bytes);
    let format = detect_pak_format(&mut file);
    assert_eq!(
        format, *expected_format,
        "Format does not match expected format!"
    );
    assert_eq!(file.stream_position(), 0);
}

fn roundtrip(bytes: &[u8]) {
    let mut file = ByteReader::new(bytes);
    let vpk = find_pak_worker(&mut file).unwrap();
    let written = match &vpk {
        Pak::Version1(vpk) => vpk.write_dir().unwrap(),
        Pak::Respawn(vpk) => vpk.write_dir().unwrap(),
        Pak::Version2(_) => panic!("no writing of this format"),
    };
    let mut file = ByteReader::new(&written);
    let back = find_pak_worker(&mut file).unwrap();
    assert_eq!(back.format(), vpk.format());
    match (&vpk, &back) {
        (Pak::Version1(a), Pak::Version1(b)) => {
            assert_eq!(a.header, b.header);
            assert_eq!(a.tree.files.len(), b.tree.files.len());
            for i in 0..a.tree.files.len() {
                let key = a.tree.files.path(i);
                assert_eq!(a.tree.files.get(key), b.tree.files.get(key));
            }
        }
        (Pak::Respawn(a), Pak::Respawn(b)) => {
            assert_eq!(a.header, b.header);
            assert_eq!(a.tree.files.len(), b.tree.files.len());
            for i in 0..a.tree.files.len() {
                let key = a.tree.files.path(i);
                assert_eq!(a.tree.files.get(key), b.tree.files.get(key));
            }
        }
        _ => panic!("formats differ"),
    }
}

#[test]
fn invalid() {
    assert_format(TEST_TEXT, &PakFormat::Unknown);
    assert_format(&[], &PakFormat::Unknown);
    assert_format(&[0x34, 0x12, 0xAA, 0x55, 1, 0, 0], &PakFormat::Unknown);
    assert_format(&[0x34, 0x12, 0xAA, 0x55, 3, 0, 0, 0], &PakFormat::Unknown);
    assert_format(&[0x35, 0x12, 0xAA, 0x55, 1, 0, 0, 0], &PakFormat::Unknown);
}

#[test]
fn read_empty_v1() {
    assert_format(&v1_package(0, 0), &PakFormat::VPKVersion1);
}

#[test]
fn read_single_file_v1() {
    assert_format(&v1_package(1, 0), &PakFormat::VPKVersion1);
}

#[test]
fn read_single_file_eof_v1() {
    let mut bytes = v1_package(1, 0x7FFF);
    bytes.write_bytes(TEST_TEXT);
    assert_format(&bytes, &PakFormat::VPKVersion1);
}

#[test]
fn read_large_v1() {
    assert_format(&v1_package(600, 1), &PakFormat::VPKVersion1);
}

#[test]
fn read_empty_v2() {
    assert_format(&v2_package(0), &PakFormat::VPKVersion2);
}

#[test]
fn read_single_file_v2() {
    assert_format(&v2_package(1), &PakFormat::VPKVersion2);
}

#[test]
fn read_large_v2() {
    assert_format(&v2_package(600), &PakFormat::VPKVersion2);
}

#[test]
fn read_single_file_revpk() {
    assert_format(&revpk_package(1), &PakFormat::VPKRespawn);
}

#[test]
fn read_large_revpk() {
    assert_format(&revpk_package(600), &PakFormat::VPKRespawn);
}

#[test]
fn roundtrip_empty_v1() {
    roundtrip(&v1_package(0, 0));
}

#[test]
fn roundtrip_single_file_v1() {
    roundtrip(&v1_package(1, 0));
}

#[test]
fn roundtrip_single_file_eof_v1() {
    let mut bytes = v1_package(1, 0x7FFF);
    bytes.write_bytes(TEST_TEXT);
    roundtrip(&bytes);
}

#[test]
fn roundtrip_large_v1() {
    roundtrip(&v1_package(800, 2));
}

#[test]
fn roundtrip_single_file_revpk() {
    roundtrip(&revpk_package(1));
}

#[test]
fn roundtrip_large_revpk() {
    roundtrip(&revpk_package(800));
}

#[test]
fn worker_of_the_detected_format_reads_files() {
    let mut archives = Archives::new();
    archives.insert(0, TEST_TEXT);
    for (bytes, format) in [
        (v1_package(1, 0), PakFormat::VPKVersion1),
        (revpk_package(1), PakFormat::VPKRespawn),
    ] {
        let mut file = ByteReader::new(&bytes);
        let vpk = find_pak_worker(&mut file).unwrap();
        assert_eq!(vpk.format(), format);
        assert_eq!(vpk.read_file(&archives, "test/file.txt"), Some(TEST_TEXT.to_vec()));
        let mut out = Vec::new();
        assert_eq!(vpk.extract_file(&archives, "test/file.txt", &mut out), Ok(()));
        assert_eq!(
            vpk.extract_file_mem_map(&archives, "test/none.txt", &mut out),
            Err(pak::Error::FileNotFound)
        );
        assert_eq!(out, TEST_TEXT);
    }
    let bytes = v2_package(2);
    let mut file = ByteReader::new(&bytes);
    let vpk = find_pak_worker(&mut file).unwrap();
    assert_eq!(vpk.format(), PakFormat::VPKVersion2);
    assert_eq!(vpk.read_file(&archives, "test/file1.txt"), Some(TEST_TEXT.to_vec()));
}

#[test]
fn unknown_format_is_no_worker() {
    let mut file = ByteReader::new(TEST_TEXT);
    assert_eq!(find_pak_worker(&mut file).err(), Some(Error::UnknownFormat));
    assert_eq!(file.stream_position(), 0);

    let mut broken = v1_package(1, 0);
    broken.truncate(30);
    let mut file = ByteReader::new(&broken);
    assert!(matches!(
        find_pak_worker(&mut file),
        Err(Error::Pak(pak::Error::Util(_)))
    ));
}

#[test]
fn formats_have_names() {
    assert_eq!(PakFormat::Unknown.to_string(), "Unknown");
    assert_eq!(PakFormat::VPKVersion1.to_string(), "VPK Version 1");
    assert_eq!(PakFormat::VPKVersion2.to_string(), "VPK Version 2");
    assert_eq!(PakFormat::VPKRespawn.to_string(), "VPK Respawn");
}

#[test]
fn detection_does_not_depend_on_the_cursor_start() {
    let mut bytes = vec![9u8; 7];
    bytes.write_bytes(&revpk_package(1));
    let mut file = ByteReader::new(&bytes);
    file.seek(7);
    assert_eq!(detect_pak_format(&mut file), PakFormat::VPKRespawn);
    assert_eq!(file.stream_position(), 7);
    file.seek(3);
    assert_eq!(detect_pak_format(&mut file), PakFormat::Unknown);
    assert_eq!(file.stream_position(), 3);
}
