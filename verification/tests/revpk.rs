use vpk_plumber::pak::archive::Archives;
use vpk_plumber::pak::revpk::cam::{
    representable, seek_to_wav_data, VPKRespawnCam, VPKRespawnCamEntry,
};
use vpk_plumber::pak::revpk::package::path_is_wav;
use vpk_plumber::pak::revpk::{
    create_wav_header, EPackedLoadFlags, EPackedTextureFlags, VPKDirectoryEntryRespawn,
    VPKFilePartEntryRespawn, VPKHeaderRespawn, VPKRespawn, RESPAWN_CAM_ENTRY_MAGIC,
};
use vpk_plumber::pak::{DirEntry, Error, PakReader, PakWorker, PakWriter, Violation};
use vpk_plumber::util::error::IoError;
use vpk_plumber::util::file::{ByteReader, VPKFileWriter};

const TEST_TEXT: &[u8] = b"test text";

fn crc_of(bytes: &[u8]) -> u32 {
    crc::Crc::<u32>::new(&crc::CRC_32_ISO_HDLC).checksum(bytes)
}

fn part(archive_index: u16, entry_offset: u64, length: u64, uncompressed: u64) -> VPKFilePartEntryRespawn {
    VPKFilePartEntryRespawn {
        archive_index,
        load_flags: 0,
        texture_flags: 0,
        entry_offset,
        entry_length: length,
        entry_length_uncompressed: uncompressed,
    }
}

fn part_bytes(part: &VPKFilePartEntryRespawn) -> Vec<u8> {
    let mut out = Vec::new();
    out.write_u16(part.archive_index);
    out.write_u16(part.load_flags);
    out.write_u32(part.texture_flags);
    out.write_u64(part.entry_offset);
    out.write_u64(part.entry_length);
    out.write_u64(part.entry_length_uncompressed);
    out
}

fn header_bytes(tree_size: u32) -> Vec<u8> {
    let mut out = Vec::new();
    out.write_u32(0x55AA1234);
    out.write_u32(196610);
    out.write_u32(tree_size);
    out.write_u32(0);
    out
}

fn single_file_dir() -> Vec<u8> {
    let mut tree = Vec::new();
    tree.write_string("txt");
    tree.write_string("test");
    tree.write_string("file");
    tree.write_u32(0x4570FA16);
    tree.write_u16(0);
    tree.write_bytes(&part_bytes(&part(0, 0, 9, 9)));
    tree.write_u16(0xFFFF);
    tree.write_u8(0);
    tree.write_u8(0);
    tree.write_u8(0);
    let mut out = header_bytes(tree.len() as u32);
    out.write_bytes(&tree);
    out
}

fn large_package(count: usize) -> VPKRespawn {
    let mut vpk = VPKRespawn::new();
    for i in 0..count {
        let path = format!("dir{}/sub{}/file{}.e{}", i % 11, i % 3, i, i % 4);
        let mut entry = VPKDirectoryEntryRespawn::new();
        entry.crc = i as u32;
        for k in 0..(i % 3) {
            entry
                .file_parts
                .push(part((k % 2) as u16, (i * 100 + k) as u64, 50, 50 + k as u64));
        }
        vpk.tree.files.insert(path, entry);
    }
    let mut tree = Vec::new();
    vpk.tree.write(&mut tree).unwrap();
    vpk.header.tree_size = tree.len() as u32;
    vpk
}

fn assert_same_package(a: &VPKRespawn, b: &VPKRespawn) {
    assert_eq!(a.header, b.header, "Signatures do not match");
    assert_eq!(a.tree.files.len(), b.tree.files.len(), "VPK sizes don't match");
    assert_eq!(a.tree.preload.len(), b.tree.preload.len(), "Preload sizes don't match");
    for i in 0..a.tree.files.len() {
        let key = a.tree.files.path(i);
        assert_eq!(a.tree.files.get(key), b.tree.files.get(key), "VPK file data doesn't match");
    }
    for i in 0..a.tree.preload.len() {
        let key = a.tree.preload.path(i);
        assert_eq!(a.tree.preload.get(key), b.tree.preload.get(key));
    }
}

fn cam_record(entry: &VPKRespawnCamEntry) -> Vec<u8> {
    let mut out = Vec::new();
    out.write_u32(entry.magic);
    out.write_u32(entry.original_size);
    out.write_u32(entry.compressed_size);
    out.write_u24(entry.sample_rate);
    out.write_u8(entry.channels);
    out.write_u32(entry.sample_count);
    out.write_u32(entry.header_size);
    out.write_u64(entry.vpk_content_offset);
    out
}

fn shipped_cam_entry() -> VPKRespawnCamEntry {
    VPKRespawnCamEntry {
        magic: 3302889984,
        original_size: 315436,
        compressed_size: 29547,
        sample_rate: 44100,
        channels: 1,
        sample_count: 157658,
        header_size: 44,
        vpk_content_offset: 10688756183,
    }
}

/// A sidecar file of `count` records, one of them the shipped record, and
/// one record with another magic number that is to be left out.
fn cam_file(count: usize) -> Vec<u8> {
    let mut out = Vec::new();
    for i in 0..count - 1 {
        let mut entry = VPKRespawnCamEntry::new();
        entry.vpk_content_offset = i as u64;
        entry.sample_count = i as u32;
        out.write_bytes(&cam_record(&entry));
    }
    let mut stray = VPKRespawnCamEntry::new();
    stray.magic = 7;
    stray.vpk_content_offset = 1_000_000;
    out.write_bytes(&cam_record(&stray));
    out.write_bytes(&cam_record(&shipped_cam_entry()));
    out
}

const SHIPPED_WAV_HEADER: [u8; 44] = [
    82, 73, 70, 70, 216, 207, 4, 0, 87, 65, 86, 69, 102, 109, 116, 32, 16, 0, 0, 0, 1, 0, 1, 0, 68,
    172, 0, 0, 136, 88, 1, 0, 2, 0, 16, 0, 100, 97, 116, 97, 180, 207, 4, 0,
];

#[test]
fn read_single_file_vpk_revpk() {
    let bytes = single_file_dir();
    let mut file = ByteReader::new(&bytes);
    let vpk = VPKRespawn::from_file(&mut file).expect("Failed to read VPK file");

    assert_eq!(vpk.tree.files.len(), 1, "VPK tree should have 1 entry");

    let mut dir_entry = VPKDirectoryEntryRespawn {
        crc: 0x4570FA16,
        preload_length: 0,
        file_parts: Vec::new(),
    };
    dir_entry.file_parts.push(VPKFilePartEntryRespawn {
        archive_index: 0,
        load_flags: 0,
        texture_flags: 0,
        entry_offset: 0,
        entry_length: 9,
        entry_length_uncompressed: 9,
    });
    assert_eq!(
        vpk.tree.files.get("test/file.txt"),
        Some(&dir_entry),
        "File \"test/file.txt\" should exist"
    );
    assert!(
        file.stream_position() >= file.len() - 1,
        "Should be at end of file"
    );

    let mut archives = Archives::new();
    archives.insert(0, TEST_TEXT);
    let test_file = vpk.read_file(&archives, "test/file.txt");
    assert_eq!(
        test_file,
        Some(Vec::from("test text")),
        "File contents should be \"test text\""
    );

    let mut out = Vec::new();
    vpk.extract_file(&archives, "test/file.txt", &mut out).unwrap();
    assert_eq!(out, b"test text", "File contents should match");
}

#[test]
fn extract_mem_map_single_file_vpk_revpk() {
    let bytes = single_file_dir();
    let mut file = ByteReader::new(&bytes);
    let vpk = VPKRespawn::from_file(&mut file).expect("Failed to read VPK file");

    let mut archive_mmaps = Archives::new();
    archive_mmaps.insert(0, TEST_TEXT);
    let mut out = Vec::new();
    vpk.extract_file_mem_map(&archive_mmaps, "test/file.txt", &mut out)
        .unwrap();
    assert_eq!(out, b"test text", "File contents should match");
}

#[test]
fn read_big_vpk_revpk() {
    let bytes = large_package(5723).write_dir().unwrap();
    let mut file = ByteReader::new(&bytes);
    let vpk = VPKRespawn::from_file(&mut file).expect("Failed to read VPK file");
    assert_eq!(vpk.tree.files.len(), 5723, "VPK tree should have 5723 entries");
    assert!(
        file.stream_position() >= file.len() - 1,
        "Should be at end of file"
    );
}

#[test]
fn revpk_read_cam() {
    let bytes = cam_file(17852);
    let cam = VPKRespawnCam::from_file(&mut ByteReader::new(&bytes)).unwrap();

    assert_eq!(cam.entries.len(), 17852, "Should have 17852 entries");

    assert_eq!(
        cam.find_entry(10688756183),
        Some(&VPKRespawnCamEntry {
            magic: 3302889984,
            original_size: 315436,
            compressed_size: 29547,
            sample_rate: 44100,
            channels: 1,
            sample_count: 157658,
            header_size: 44,
            vpk_content_offset: 10688756183,
        }),
        "Entry with vpk content offset 10688756183 should exist",
    );

    let wav_header = create_wav_header(cam.find_entry(10688756183).unwrap());

    assert_eq!(
        wav_header,
        [
            82, 73, 70, 70, 216, 207, 4, 0, 87, 65, 86, 69, 102, 109, 116, 32, 16, 0, 0, 0, 1, 0,
            1, 0, 68, 172, 0, 0, 136, 88, 1, 0, 2, 0, 16, 0, 100, 97, 116, 97, 180, 207, 4, 0,
        ]
        .to_vec(),
        "WAV header should match",
    );
}

#[test]
fn revpk_read_cam_for_vpk() {
    let mut vpk = VPKRespawn::new();

    let bytes = cam_file(17852);
    vpk.read_cam(0, &mut ByteReader::new(&bytes)).unwrap();

    let cam_archive0_opt = vpk.archive_cams.get(&0);
    let cam_archive1_opt = vpk.archive_cams.get(&1);

    assert!(cam_archive0_opt.is_some());
    assert!(cam_archive1_opt.is_none());

    let cam = cam_archive0_opt.unwrap();

    assert_eq!(cam.entries.len(), 17852, "Should have 17852 entries");

    assert_eq!(
        cam.find_entry(10688756183),
        Some(&VPKRespawnCamEntry {
            magic: 3302889984,
            original_size: 315436,
            compressed_size: 29547,
            sample_rate: 44100,
            channels: 1,
            sample_count: 157658,
            header_size: 44,
            vpk_content_offset: 10688756183,
        }),
        "Entry with vpk content offset 10688756183 should exist",
    );

    let wav_header = create_wav_header(cam.find_entry(10688756183).unwrap());

    assert_eq!(
        wav_header,
        [
            82, 73, 70, 70, 216, 207, 4, 0, 87, 65, 86, 69, 102, 109, 116, 32, 16, 0, 0, 0, 1, 0,
            1, 0, 68, 172, 0, 0, 136, 88, 1, 0, 2, 0, 16, 0, 100, 97, 116, 97, 180, 207, 4, 0,
        ]
        .to_vec(),
        "WAV header should match",
    );
}

#[test]
fn write_parity_vpk_revpk() {
    let bytes = large_package(5723).write_dir().unwrap();
    let mut file = ByteReader::new(&bytes);
    let vpk = VPKRespawn::from_file(&mut file).expect("Failed to read VPK file");
    assert_eq!(vpk.tree.files.len(), 5723, "VPK tree should have 5723 entries");
    assert!(
        file.stream_position() >= file.len() - 1,
        "Should be at end of file"
    );

    let written = vpk.write_dir().unwrap();

    let mut file = ByteReader::new(&written);
    let new_vpk = VPKRespawn::from_file(&mut file).expect("Failed to read VPK file");
    assert_eq!(
        new_vpk.tree.files.len(),
        5723,
        "VPK tree should have 5723 entries"
    );
    assert!(
        file.stream_position() >= file.len() - 1,
        "Should be at end of file"
    );
    assert_same_package(&vpk, &new_vpk);
    assert!(
        written == bytes,
        "Written VPK did not contain the same data as the one that was read"
    );
}

#[test]
fn data_vpk_single_file_revpk() {
    let bytes = single_file_dir();
    let mut file = ByteReader::new(&bytes);
    let vpk = VPKRespawn::from_file(&mut file).unwrap();
    let mut archives = Archives::new();
    archives.insert(0, TEST_TEXT);
    let result = vpk.read_file(&archives, "test/file.txt").unwrap();
    assert_eq!(result, TEST_TEXT, "Content does not match expected");
}

#[test]
fn data_vpk_large_revpk() {
    let bytes = large_package(1500).write_dir().unwrap();
    let mut file = ByteReader::new(&bytes);
    let vpk = VPKRespawn::from_file(&mut file).unwrap();
    assert_eq!(vpk.tree.files.len(), 1500, "Tree size does not match");
}

#[test]
fn extract_vpk_single_file_mem_map() {
    let bytes = single_file_dir();
    let mut file = ByteReader::new(&bytes);
    let vpk = VPKRespawn::from_file(&mut file).unwrap();
    let mut archive_mmaps = Archives::new();
    archive_mmaps.insert(0, TEST_TEXT);
    let mut out = Vec::new();
    vpk.extract_file_mem_map(&archive_mmaps, "test/file.txt", &mut out)
        .unwrap();
    assert_eq!(out, TEST_TEXT, "File contents should match");
}

#[test]
fn read_valid_vpk_single_file_revpk() {
    let bytes = single_file_dir();
    let mut file = ByteReader::new(&bytes);
    let _vpk = VPKRespawn::from_file(&mut file).unwrap();
}

#[test]
fn read_valid_vpk_large_revpk() {
    let bytes = large_package(500).write_dir().unwrap();
    let mut file = ByteReader::new(&bytes);
    let _vpk = VPKRespawn::from_file(&mut file).unwrap();
}

#[test]
fn read_invalid_vpk_revpk() {
    let mut file = ByteReader::new(TEST_TEXT);
    let vpk = VPKRespawn::from_file(&mut file);
    assert!(
        vpk.is_err_and(|x| matches!(x, Error::InvalidSignature(_))),
        "VPK file should be invalid",
    );
}

#[test]
fn vpk_v1_empty() {
    let mut bytes = Vec::new();
    bytes.write_u32(0x55AA1234);
    bytes.write_u32(1);
    bytes.write_u32(1);
    bytes.write_u8(0);
    let mut file = ByteReader::new(&bytes);
    let vpk = VPKRespawn::from_file(&mut file);
    assert!(
        vpk.is_err_and(|x| matches!(x, Error::BadVersion(_))),
        "VPK file should be invalid",
    );
}

#[test]
fn vpk_v1_single_file() {
    let mut bytes = Vec::new();
    bytes.write_u32(0x55AA1234);
    bytes.write_u32(1);
    bytes.write_u32(35);
    bytes.write_string("txt");
    bytes.write_string("test");
    bytes.write_string("file");
    let mut file = ByteReader::new(&bytes);
    let vpk = VPKRespawn::from_file(&mut file);
    assert_eq!(vpk.err(), Some(Error::BadVersion(1)), "VPK file should be invalid");
}

#[test]
fn vpk_v1_eof() {
    let mut bytes = Vec::new();
    bytes.write_u32(0x55AA1234);
    bytes.write_u32(1);
    let mut file = ByteReader::new(&bytes);
    let vpk = VPKRespawn::from_file(&mut file);
    assert!(
        vpk.is_err_and(|x| matches!(x, Error::BadVersion(_))),
        "VPK file should be invalid",
    );
}

#[test]
fn vpk_v2_empty_revpk() {
    let mut bytes = Vec::new();
    bytes.write_u32(0x55AA1234);
    bytes.write_u32(2);
    bytes.write_u32(0);
    let mut file = ByteReader::new(&bytes);
    let vpk = VPKRespawn::from_file(&mut file);
    assert_eq!(vpk.err(), Some(Error::BadVersion(2)), "VPK file should be invalid");
}

#[test]
fn roundtrip_single_file_respawn() {
    let bytes = single_file_dir();
    let mut file = ByteReader::new(&bytes);
    let vpk = VPKRespawn::from_file(&mut file).unwrap();
    let written = vpk.write_dir().unwrap();
    let mut file = ByteReader::new(&written);
    let back = VPKRespawn::from_file(&mut file).unwrap();
    assert_same_package(&vpk, &back);
    assert_eq!(written, &bytes[..bytes.len() - 1]);
}

#[test]
fn roundtrip_large_respawn() {
    let vpk = large_package(2500);
    let written = vpk.write_dir().unwrap();
    let mut file = ByteReader::new(&written);
    let back = VPKRespawn::from_file(&mut file).unwrap();
    assert_same_package(&vpk, &back);
}

#[test]
fn header_reserved_field_must_be_zero() {
    let mut bytes = Vec::new();
    bytes.write_u32(0x55AA1234);
    bytes.write_u32(196610);
    bytes.write_u32(0);
    bytes.write_u32(5);
    let mut file = ByteReader::new(&bytes);
    assert_eq!(
        VPKHeaderRespawn::from(&mut file),
        Err(Error::BadData(Violation::ReservedField(5)))
    );
    let mut file = ByteReader::new(&bytes[..15]);
    assert!(matches!(VPKHeaderRespawn::from(&mut file), Err(Error::Util(_))));
    let mut file = ByteReader::new(&bytes);
    assert!(VPKHeaderRespawn::is_format(&mut file));
    assert_eq!(file.stream_position(), 0);
}

#[test]
fn header_with_wrong_fields_is_not_written_revpk() {
    let mut out = Vec::new();
    let header = VPKHeaderRespawn { signature: 9, version: 196610, tree_size: 0, unknown: 0 };
    assert_eq!(header.write(&mut out), Err(Error::InvalidSignature(9)));
    let header = VPKHeaderRespawn { signature: 0x55AA1234, version: 1, tree_size: 0, unknown: 0 };
    assert_eq!(header.write(&mut out), Err(Error::BadVersion(1)));
    assert!(out.is_empty());
    let header = VPKHeaderRespawn { signature: 0x55AA1234, version: 196610, tree_size: 3, unknown: 0 };
    assert_eq!(header.write(&mut out), Ok(()));
    assert_eq!(out, header_bytes(3));
}

#[test]
fn entry_is_written_with_its_parts_and_terminator() {
    let mut entry = VPKDirectoryEntryRespawn::new();
    entry.crc = 0x01020304;
    entry.preload_length = 0x0506;
    entry.file_parts.push(VPKFilePartEntryRespawn {
        archive_index: 0x0708,
        load_flags: 0x090A,
        texture_flags: 0x0B0C0D0E,
        entry_offset: 0x1112131415161718,
        entry_length: 0x2122232425262728,
        entry_length_uncompressed: 0x3132333435363738,
    });
    let mut out = Vec::new();
    entry.write(&mut out).unwrap();
    assert_eq!(
        out,
        vec![
            4, 3, 2, 1, 6, 5, 8, 7, 0x0A, 9, 0x0E, 0x0D, 0x0C, 0x0B, 0x18, 0x17, 0x16, 0x15, 0x14,
            0x13, 0x12, 0x11, 0x28, 0x27, 0x26, 0x25, 0x24, 0x23, 0x22, 0x21, 0x38, 0x37, 0x36,
            0x35, 0x34, 0x33, 0x32, 0x31, 0xFF, 0xFF
        ]
    );
    let mut file = ByteReader::new(&out);
    let back = <VPKDirectoryEntryRespawn as DirEntry>::from(&mut file).unwrap();
    assert_eq!(back, entry);
    assert_eq!(file.stream_position(), 40);
    assert_eq!(entry.get_preload_length(), 0x0506);
}

#[test]
fn parts_may_end_with_the_stream() {
    let mut head = Vec::new();
    head.write_u32(1);
    head.write_u16(0);

    // Whole parts, then the end of the stream: no terminator is asked for.
    let mut bytes = head.clone();
    bytes.write_bytes(&part_bytes(&part(1, 2, 3, 3)));
    bytes.write_bytes(&part_bytes(&part(4, 5, 6, 7)));
    let mut file = ByteReader::new(&bytes);
    let entry = <VPKDirectoryEntryRespawn as DirEntry>::from(&mut file).unwrap();
    assert_eq!(entry.crc, 1);
    assert_eq!(entry.preload_length, 0);
    assert_eq!(entry.file_parts, vec![part(1, 2, 3, 3), part(4, 5, 6, 7)]);
    assert_eq!(file.stream_position(), bytes.len() as u64);

    let mut file = ByteReader::new(&bytes[..6 + 32]);
    let entry = <VPKDirectoryEntryRespawn as DirEntry>::from(&mut file).unwrap();
    assert_eq!(entry.file_parts, vec![part(1, 2, 3, 3)]);
    assert_eq!(file.stream_position(), 38);

    // The stream ends behind the head of the entry: an entry without parts.
    let mut file = ByteReader::new(&head);
    let entry = <VPKDirectoryEntryRespawn as DirEntry>::from(&mut file).unwrap();
    assert!(entry.file_parts.is_empty());
    assert_eq!(file.stream_position(), 6);

    // The terminator ends the run wherever it stands.
    let mut ended = bytes[..6 + 32].to_vec();
    ended.write_u16(0xFFFF);
    ended.write_bytes(&[9, 9, 9]);
    let mut file = ByteReader::new(&ended);
    let entry = <VPKDirectoryEntryRespawn as DirEntry>::from(&mut file).unwrap();
    assert_eq!(entry.file_parts, vec![part(1, 2, 3, 3)]);
    assert_eq!(file.stream_position(), 40);

    // Two bytes that end the stream are taken for a terminator.
    let mut stray = bytes[..6 + 32].to_vec();
    stray.write_u16(7);
    let mut file = ByteReader::new(&stray);
    let entry = <VPKDirectoryEntryRespawn as DirEntry>::from(&mut file).unwrap();
    assert_eq!(entry.file_parts, vec![part(1, 2, 3, 3)]);
    assert_eq!(file.stream_position(), stray.len() as u64);

    // A stream that ends within a part, or within the head, fails the read.
    for cut in [3usize, 5, 7, 20, 37, 39, 69] {
        let mut file = ByteReader::new(&bytes[..cut]);
        assert_eq!(
            <VPKDirectoryEntryRespawn as DirEntry>::from(&mut file).err(),
            Some(Error::Util(vpk_plumber::util::error::Error::Io(IoError::UnexpectedEof))),
            "cut at {cut}"
        );
    }
}

#[test]
fn parts_of_two_archives_are_assembled() {
    let first = b"....head of the file".to_vec();
    let second = b"tail..".to_vec();
    let expanded = b" and an expanded middle,".to_vec();
    let mut whole = b"preload:".to_vec();
    whole.extend_from_slice(&first[4..]);
    whole.extend_from_slice(&expanded);
    whole.extend_from_slice(&second[..4]);

    let mut vpk = VPKRespawn::new();
    let mut entry = VPKDirectoryEntryRespawn::new();
    entry.crc = crc_of(&whole);
    entry.preload_length = 8;
    entry.file_parts.push(part(0, 4, 16, 16));
    entry.file_parts.push(part(1, 6, 5, expanded.len() as u64));
    entry.file_parts.push(part(0, 0, 0, 0));
    entry.file_parts.push(part(1, 0, 4, 4));
    vpk.tree.files.insert(String::from("maps/level.bsp"), entry);
    vpk.tree
        .preload
        .insert(String::from("maps/level.bsp"), b"preload:".to_vec());

    let mut archives = Archives::new();
    archives.insert(0, &first);
    archives.insert(1, b"tail..PACKD");
    let mut out = Vec::new();
    assert_eq!(
        vpk.extract_file(&archives, "maps/level.bsp", &mut out),
        Err(Error::DataNotFound)
    );

    let compressed = vpk.compressed_parts(&archives, "maps/level.bsp", false).unwrap();
    assert_eq!(compressed.len(), 1);
    assert_eq!(compressed[0].archive_index, 1);
    assert_eq!(compressed[0].entry_offset, 6);
    assert_eq!(compressed[0].bytes, b"PACKD");
    assert_eq!(compressed[0].expanded_length, expanded.len() as u64);

    archives.insert_expanded(1, 6, expanded.clone());
    assert_eq!(vpk.read_file(&archives, "maps/level.bsp"), Some(whole.clone()));
    assert_eq!(vpk.extract_file(&archives, "maps/level.bsp", &mut out), Ok(()));
    assert_eq!(out, whole);
    assert_eq!(out.len(), 8 + 16 + expanded.len() + 0 + 4);
    let mut mapped = Vec::new();
    assert_eq!(
        vpk.extract_file_mem_map(&archives, "maps/level.bsp", &mut mapped),
        Ok(())
    );
    assert_eq!(mapped, whole);
}

#[test]
fn changed_byte_fails_the_checksum_revpk() {
    let bytes = single_file_dir();
    let mut file = ByteReader::new(&bytes);
    let vpk = VPKRespawn::from_file(&mut file).unwrap();
    let mut archives = Archives::new();
    archives.insert(0, b"test_text");
    assert_eq!(vpk.read_file(&archives, "test/file.txt"), None);
    let mut out = Vec::new();
    assert_eq!(
        vpk.extract_file(&archives, "test/file.txt", &mut out),
        Err(Error::BadData(Violation::CrcMismatch))
    );
    assert!(out.is_empty());
}

#[test]
fn failures_of_reconstruction_are_told_apart() {
    let mut vpk = VPKRespawn::new();
    vpk.tree
        .files
        .insert(String::from("a/none.txt"), VPKDirectoryEntryRespawn::new());
    let mut needs_preload = VPKDirectoryEntryRespawn::new();
    needs_preload.preload_length = 1;
    vpk.tree.files.insert(String::from("a/preload.txt"), needs_preload);
    let mut far = VPKDirectoryEntryRespawn::new();
    far.file_parts.push(part(2, 0, 4, 4));
    far.file_parts.push(part(3, 0, 4, 4));
    vpk.tree.files.insert(String::from("a/far.txt"), far);
    let mut long = VPKDirectoryEntryRespawn::new();
    long.file_parts.push(part(2, 2, 3, 3));
    vpk.tree.files.insert(String::from("a/long.txt"), long);

    let mut archives = Archives::new();
    let mut out = Vec::new();
    assert_eq!(
        vpk.extract_file(&archives, "a/absent.txt", &mut out),
        Err(Error::FileNotFound)
    );
    assert_eq!(
        vpk.extract_file(&archives, "a/none.txt", &mut out),
        Err(Error::BadData(Violation::NoFileParts))
    );
    assert_eq!(
        vpk.extract_file(&archives, "a/preload.txt", &mut out),
        Err(Error::DataNotFound)
    );
    assert_eq!(
        vpk.extract_file(&archives, "a/far.txt", &mut out),
        Err(Error::Io(IoError::NotFound))
    );
    assert_eq!(
        vpk.extract_file_mem_map(&archives, "a/far.txt", &mut out),
        Err(Error::MemoryMappedFileNotFound(2))
    );
    archives.insert(2, b"abcd");
    assert_eq!(
        vpk.extract_file_mem_map(&archives, "a/far.txt", &mut out),
        Err(Error::MemoryMappedFileNotFound(3))
    );
    assert_eq!(
        vpk.extract_file(&archives, "a/long.txt", &mut out),
        Err(Error::BadData(Violation::ArchiveTooShort))
    );
    assert_eq!(vpk.read_file(&archives, "a/long.txt"), None);
    assert!(out.is_empty());
}

#[test]
fn audio_file_gets_a_header_and_loses_its_filler() {
    let mut samples = vec![0xCBu8; 10];
    samples.extend((0..90u8).map(|i| i.wrapping_mul(3).wrapping_add(1)));
    let mut vpk = VPKRespawn::new();
    let mut entry = VPKDirectoryEntryRespawn::new();
    entry.crc = 12345;
    entry.file_parts.push(part(0, 5, 100, 100));
    vpk.tree.files.insert(String::from("sound/beep.WAV"), entry.clone());

    let mut archive = vec![0xCBu8; 5];
    archive.extend_from_slice(&samples);
    archive.extend_from_slice(&[0xCB, 0xCB]);
    let mut archives = Archives::new();
    archives.insert(0, &archive);

    let made_up = VPKRespawnCamEntry::default(&entry);
    assert_eq!(
        made_up,
        VPKRespawnCamEntry {
            magic: RESPAWN_CAM_ENTRY_MAGIC,
            original_size: 100,
            compressed_size: 100,
            sample_rate: 44100,
            channels: 1,
            sample_count: 32,
            header_size: 44,
            vpk_content_offset: 5,
        }
    );
    assert_eq!(VPKRespawnCamEntry::try_default(&entry), Ok(made_up));

    let first = vpk.read_file(&archives, "sound/beep.WAV").unwrap();
    let second = vpk.read_file(&archives, "sound/beep.WAV").unwrap();
    assert_eq!(first, second);
    assert_eq!(first.len(), 100);
    let header = create_wav_header(&made_up);
    assert_eq!(&first[..44], &header[..]);
    assert_eq!(&first[44..], &samples[10..66]);
    assert_eq!(
        header,
        vec![
            82, 73, 70, 70, 100, 0, 0, 0, 87, 65, 86, 69, 102, 109, 116, 32, 16, 0, 0, 0, 1, 0, 1,
            0, 68, 172, 0, 0, 136, 88, 1, 0, 2, 0, 16, 0, 100, 97, 116, 97, 64, 0, 0, 0
        ]
    );

    let mut out = Vec::new();
    vpk.extract_file(&archives, "sound/beep.WAV", &mut out).unwrap();
    assert_eq!(out, first);
    let mut mapped = Vec::new();
    vpk.extract_file_mem_map(&archives, "sound/beep.WAV", &mut mapped)
        .unwrap();
    assert_eq!(mapped, first);
}

#[test]
fn audio_file_uses_the_record_of_its_sidecar() {
    let samples: Vec<u8> = (0..60u8).collect();
    let mut vpk = VPKRespawn::new();
    let mut entry = VPKDirectoryEntryRespawn::new();
    entry.file_parts.push(part(4, 0, 60, 60));
    vpk.tree.files.insert(String::from("sound/beep.wav"), entry);
    let record = VPKRespawnCamEntry {
        magic: RESPAWN_CAM_ENTRY_MAGIC,
        original_size: 80,
        compressed_size: 0,
        sample_rate: 22050,
        channels: 2,
        sample_count: 9,
        header_size: 44,
        vpk_content_offset: 0,
    };
    let sidecar = cam_record(&record);
    vpk.read_cam(4, &mut ByteReader::new(&sidecar)).unwrap();
    let mut archives = Archives::new();
    archives.insert(4, &samples);
    let content = vpk.read_file(&archives, "sound/beep.wav").unwrap();
    assert_eq!(content.len(), 80);
    assert_eq!(&content[..44], &create_wav_header(&record)[..]);
    assert_eq!(&content[44..], &samples[..36]);
    assert_eq!(&content[22..24], &[2, 0]);
    assert_eq!(&content[24..28], &[0x22, 0x56, 0, 0]);
    assert_eq!(&content[28..32], &[0x88, 0x58, 1, 0]);
    assert_eq!(&content[32..34], &[4, 0]);
    assert_eq!(&content[40..44], &[36, 0, 0, 0]);
}

#[test]
fn audio_metadata_must_fit_a_header() {
    let mut vpk = VPKRespawn::new();
    let mut short = VPKDirectoryEntryRespawn::new();
    short.file_parts.push(part(0, 0, 10, 10));
    vpk.tree.files.insert(String::from("s/short.wav"), short.clone());
    let mut huge = VPKDirectoryEntryRespawn::new();
    huge.file_parts.push(part(0, 0, 10, 0xFFFF_FFFF));
    huge.file_parts.push(part(0, 0, 10, 1));
    vpk.tree.files.insert(String::from("s/huge.wav"), huge.clone());
    let mut loud = VPKDirectoryEntryRespawn::new();
    loud.file_parts.push(part(0, 8, 0, 0));
    vpk.tree.files.insert(String::from("s/loud.wav"), loud);
    let mut record = VPKRespawnCamEntry::new();
    record.vpk_content_offset = 8;
    record.sample_count = 0xFFFF_FFFF;
    record.channels = 2;
    let sidecar = cam_record(&record);
    vpk.read_cam(0, &mut ByteReader::new(&sidecar)).unwrap();

    let mut archives = Archives::new();
    archives.insert(0, b"0123456789");
    let mut out = Vec::new();
    assert_eq!(
        VPKRespawnCamEntry::try_default(&short),
        Err(Error::BadData(Violation::AudioTooShort))
    );
    assert_eq!(
        vpk.extract_file(&archives, "s/short.wav", &mut out),
        Err(Error::BadData(Violation::AudioTooShort))
    );
    assert_eq!(VPKRespawnCamEntry::try_default(&huge), Err(Error::DataTooLarge));
    assert_eq!(
        vpk.extract_file(&archives, "s/huge.wav", &mut out),
        Err(Error::DataTooLarge)
    );
    assert_eq!(
        vpk.extract_file(&archives, "s/loud.wav", &mut out),
        Err(Error::DataTooLarge)
    );
    assert_eq!(
        VPKRespawnCamEntry::try_default(&VPKDirectoryEntryRespawn::new()),
        Err(Error::BadData(Violation::NoFileParts))
    );
}

#[test]
fn filler_is_counted_to_its_end() {
    assert_eq!(seek_to_wav_data(&[]), 0);
    assert_eq!(seek_to_wav_data(&[1, 0xCB]), 0);
    assert_eq!(seek_to_wav_data(&[0xCB, 0xCB, 0xCB]), 3);
    assert_eq!(seek_to_wav_data(&[0xCB, 0xCB, 7, 0xCB]), 2);
}

#[test]
fn audio_files_are_known_by_extension() {
    assert!(path_is_wav("sound/a.wav"));
    assert!(path_is_wav("sound/a.WaV"));
    assert!(path_is_wav("a.b.WAV"));
    assert!(!path_is_wav("sound/a.wave"));
    assert!(!path_is_wav("sound/wav"));
    assert!(!path_is_wav("sound.wav/a.txt"));
    assert!(!path_is_wav("sound/.wav"));
}

#[test]
fn truncated_sidecar_is_rejected() {
    let bytes = cam_file(3);
    let mut vpk = VPKRespawn::new();
    assert!(matches!(
        vpk.read_cam(0, &mut ByteReader::new(&bytes[..bytes.len() - 1])),
        Err(Error::Util(_))
    ));
    assert!(vpk.archive_cams.is_empty());
    let cam = VPKRespawnCam::from_file(&mut ByteReader::new(&bytes)).unwrap();
    assert_eq!(cam.entries.len(), 3);
    assert_eq!(cam.find_entry(1_000_000), None);
    let empty = VPKRespawnCam::from_file(&mut ByteReader::new(&[])).unwrap();
    assert!(empty.entries.is_empty());
}

#[test]
fn later_record_of_a_sidecar_stays() {
    let mut first = VPKRespawnCamEntry::new();
    first.vpk_content_offset = 9;
    first.channels = 1;
    let mut second = first;
    second.channels = 2;
    let mut bytes = cam_record(&first);
    bytes.write_bytes(&cam_record(&second));
    let cam = VPKRespawnCam::from_file(&mut ByteReader::new(&bytes)).unwrap();
    assert_eq!(cam.entries.len(), 1);
    assert_eq!(cam.find_entry(9), Some(&second));
}

#[test]
fn new_values_are_empty() {
    let vpk = VPKRespawn::new();
    assert_eq!(vpk.header.signature, 0x55AA1234);
    assert_eq!(vpk.header.version, 196610);
    assert_eq!(vpk.header.unknown, 0);
    assert!(vpk.tree.files.is_empty());
    assert!(vpk.archive_cams.is_empty());
    assert_eq!(vpk.write_dir().unwrap(), header_bytes(0));
    assert_eq!(VPKFilePartEntryRespawn::new(), part(0, 0, 0, 0));
    assert_eq!(VPKFilePartEntryRespawn::default(), part(0, 0, 0, 0));
    assert_eq!(VPKDirectoryEntryRespawn::new().file_parts.len(), 0);
    assert_eq!(VPKDirectoryEntryRespawn::default(), VPKDirectoryEntryRespawn::new());
    let cam = VPKRespawnCamEntry::new();
    assert_eq!(cam.magic, 3302889984);
    assert_eq!(cam.original_size, 0);
    assert_eq!(SHIPPED_WAV_HEADER.len(), 44);
    assert_eq!(create_wav_header(&shipped_cam_entry()), SHIPPED_WAV_HEADER.to_vec());
}

#[test]
fn flags_have_their_bits() {
    assert_eq!(EPackedLoadFlags::LoadNone.bits(), 0);
    assert_eq!(EPackedLoadFlags::LoadVisible.bits(), 1 << 0);
    assert_eq!(EPackedLoadFlags::LoadCache.bits(), 1 << 8);
    assert_eq!(EPackedLoadFlags::LoadAcacheUnk0.bits(), 1 << 10);
    assert_eq!(EPackedLoadFlags::LoadTextureUnk0.bits(), 1 << 18);
    assert_eq!(EPackedLoadFlags::LoadTextureUnk1.bits(), 1 << 19);
    assert_eq!(EPackedLoadFlags::LoadTextureUnk2.bits(), 1 << 20);
    assert_eq!(EPackedTextureFlags::TextureNone.bits(), 0);
    assert_eq!(EPackedTextureFlags::TextureDefault.bits(), 1 << 3);
    assert_eq!(EPackedTextureFlags::TextureEnvironmentMap.bits(), 1 << 10);
}

#[test]
fn sidecars_of_audio_archives_are_wanted_once() {
    let mut vpk = VPKRespawn::new();
    let mut add = |path: &str, parts: Vec<VPKFilePartEntryRespawn>| {
        let mut entry = VPKDirectoryEntryRespawn::new();
        entry.file_parts = parts;
        vpk.tree.files.insert(String::from(path), entry);
    };
    add("sound/a.wav", vec![part(3, 0, 1, 1), part(9, 0, 1, 1)]);
    add("sound/b.wav", vec![part(1, 0, 1, 1)]);
    add("sound/c.wav", vec![part(3, 5, 1, 1)]);
    add("sound/d.WAV", vec![part(4, 0, 1, 1)]);
    add("sound/e.txt", vec![part(5, 0, 1, 1)]);
    add("sound/f.wav", vec![]);
    add("wav", vec![part(6, 0, 1, 1)]);
    assert_eq!(vpk.missing_cams(), vec![3, 1]);

    let sidecar = cam_record(&shipped_cam_entry());
    assert_eq!(vpk.read_cam_once(3, &mut ByteReader::new(&sidecar)), Ok(true));
    assert_eq!(vpk.missing_cams(), vec![1]);
    assert_eq!(vpk.read_cam_once(3, &mut ByteReader::new(&[1, 2, 3])), Ok(false));
    assert_eq!(vpk.archive_cams.get(&3).unwrap().entries.len(), 1);
    assert!(matches!(
        vpk.read_cam_once(1, &mut ByteReader::new(&[1, 2, 3])),
        Err(Error::Util(_))
    ));
    assert_eq!(vpk.missing_cams(), vec![1]);
    assert_eq!(vpk.read_cam_once(1, &mut ByteReader::new(&[])), Ok(true));
    assert!(vpk.missing_cams().is_empty());
}

#[test]
fn archives_of_a_file_are_listed_once() {
    let mut vpk = VPKRespawn::new();
    let mut entry = VPKDirectoryEntryRespawn::new();
    entry.file_parts = vec![
        part(7, 0, 1, 0),
        part(2, 0, 1, 1),
        part(7, 9, 1, 1),
        part(8, 0, 1, 0),
        part(2, 4, 1, 5),
    ];
    vpk.tree.files.insert(String::from("a/b.c"), entry);
    assert_eq!(vpk.archives_of("a/b.c"), vec![7, 2]);
    assert!(vpk.archives_of("a/none.c").is_empty());
}

#[test]
fn header_with_a_reserved_field_is_not_written() {
    let mut vpk = VPKRespawn::new();
    vpk.header.unknown = 3;
    assert_eq!(
        vpk.write_dir().err(),
        Some(Error::BadData(Violation::ReservedField(3)))
    );
}

#[test]
fn gathered_bytes_come_with_the_checksum_to_judge() {
    let mut vpk = VPKRespawn::new();
    let mut entry = VPKDirectoryEntryRespawn::new();
    entry.crc = 0xDEADBEEF;
    entry.file_parts.push(part(0, 2, 4, 4));
    vpk.tree.files.insert(String::from("cfg/a.txt"), entry.clone());
    entry.file_parts[0] = part(0, 0, 60, 60);
    vpk.tree.files.insert(String::from("sound/a.wav"), entry.clone());

    let archive: Vec<u8> = (1..=60u8).collect();
    let mut archives = Archives::new();
    archives.insert(0, &archive);

    assert_eq!(
        vpk.gather(&archives, "cfg/a.txt", false),
        Ok((vec![3, 4, 5, 6], Some(0xDEADBEEF)))
    );
    assert_eq!(
        vpk.assemble(&archives, "cfg/a.txt", false),
        Err(Error::BadData(Violation::CrcMismatch))
    );

    let (bytes, expected) = vpk.gather(&archives, "sound/a.wav", true).unwrap();
    assert_eq!(expected, None);
    assert_eq!(bytes.len(), 60);
    assert_eq!(&bytes[44..], &archive[..16]);
    assert_eq!(vpk.assemble(&archives, "sound/a.wav", true), Ok(bytes));

    assert_eq!(
        vpk.gather(&archives, "cfg/b.txt", false),
        Err(Error::FileNotFound)
    );
}

#[test]
fn header_fields_must_fit_32_bits() {
    let mut cam = VPKRespawnCamEntry::new();
    assert!(representable(&cam));
    cam.channels = 1;
    cam.sample_count = (u32::MAX - 36) / 2;
    assert!(representable(&cam));
    cam.sample_count += 1;
    assert!(!representable(&cam));
    cam.sample_count = 1;
    cam.channels = 255;
    cam.sample_rate = u32::MAX / (16 * 255);
    assert!(representable(&cam));
    assert_eq!(create_wav_header(&cam).len(), 44);
    cam.sample_rate += 1;
    assert!(!representable(&cam));
}

#[test]
fn sidecars_that_are_wanted_are_read_together() {
    let mut vpk = VPKRespawn::new();
    for (path, archive) in [("s/a.wav", 1u16), ("s/b.wav", 2), ("s/c.wav", 3), ("s/d.wav", 4), ("s/e.txt", 5)] {
        let mut entry = VPKDirectoryEntryRespawn::new();
        entry.file_parts.push(part(archive, 0, 40, 40));
        vpk.tree.files.insert(String::from(path), entry);
    }
    let mut record = VPKRespawnCamEntry::new();
    record.vpk_content_offset = 7;
    record.channels = 2;
    let good = cam_record(&record);
    let short = good[..20].to_vec();
    let kept = cam_file(3);
    vpk.read_cam(4, &mut ByteReader::new(&kept)).unwrap();

    let mut sidecars: std::collections::HashMap<u16, &[u8]> = std::collections::HashMap::new();
    sidecars.insert(1, &good);
    sidecars.insert(2, &short);
    sidecars.insert(4, &good);
    sidecars.insert(5, &good);
    assert_eq!(
        vpk.read_all_cams(&sidecars),
        Err(Error::Util(vpk_plumber::util::error::Error::Io(IoError::UnexpectedEof)))
    );
    assert_eq!(vpk.archive_cams.len(), 2);
    assert_eq!(vpk.archive_cams.get(&1).unwrap().find_entry(7), Some(&record));
    assert_eq!(vpk.archive_cams.get(&4).unwrap().entries.len(), 3);
    assert_eq!(vpk.missing_cams().len(), 2);

    sidecars.insert(2, &good);
    assert_eq!(vpk.read_all_cams(&sidecars), Err(Error::Io(IoError::NotFound)));
    assert_eq!(vpk.archive_cams.len(), 3);
    assert_eq!(vpk.missing_cams(), vec![3]);

    sidecars.insert(3, &[]);
    assert_eq!(vpk.read_all_cams(&sidecars), Ok(()));
    assert_eq!(vpk.archive_cams.len(), 4);
    assert!(vpk.archive_cams.get(&3).unwrap().entries.is_empty());
    assert!(vpk.missing_cams().is_empty());
    assert_eq!(vpk.read_all_cams(&sidecars), Ok(()));
    assert!(vpk.archive_cams.get(&5).is_none());
}

#[test]
fn read_vpk_v2_single_file_revpk() {
    let mut bytes = Vec::new();
    bytes.write_u32(0x55AA1234);
    bytes.write_u32(1);
    bytes.write_u32(35);
    bytes.write_string("txt");
    bytes.write_string("test");
    bytes.write_string("file");
    bytes.write_u32(0x4570FA16);
    bytes.write_u16(0);
    bytes.write_u16(0);
    bytes.write_u32(0);
    bytes.write_u32(9);
    bytes.write_u16(0xFFFF);
    bytes.write_bytes(&[0, 0, 0]);
    let mut file = ByteReader::new(&bytes);
    let vpk = VPKRespawn::from_file(&mut file);
    assert!(
        vpk.is_err_and(|x| matches!(x, Error::BadVersion(_))),
        "VPK file should be invalid",
    );
}

#[test]
fn extract_vpk_single_file_revpk() {
    let bytes = single_file_dir();
    let mut file = ByteReader::new(&bytes);
    let vpk = VPKRespawn::from_file(&mut file).unwrap();
    let mut archives = Archives::new();
    archives.insert(0, TEST_TEXT);
    let mut out = Vec::new();
    vpk.extract_file(&archives, "test/file.txt", &mut out).unwrap();
    assert_eq!(out, TEST_TEXT, "File contents should match");
}

#[test]
fn tree_may_end_behind_the_last_part() {
    let mut tree = Vec::new();
    tree.write_string("txt");
    tree.write_string("test");
    tree.write_string("file");
    tree.write_u32(0x4570FA16);
    tree.write_u16(0);
    tree.write_bytes(&part_bytes(&part(0, 0, 9, 9)));
    let mut bytes = header_bytes(tree.len() as u32);
    bytes.write_bytes(&tree);

    let mut file = ByteReader::new(&bytes);
    let vpk = VPKRespawn::from_file(&mut file).unwrap();
    assert_eq!(file.stream_position(), bytes.len() as u64);
    assert_eq!(vpk.tree.files.len(), 1);
    let entry = vpk.tree.files.get("test/file.txt").unwrap();
    assert_eq!(entry.file_parts, vec![part(0, 0, 9, 9)]);
    let mut archives = Archives::new();
    archives.insert(0, TEST_TEXT);
    assert_eq!(vpk.read_file(&archives, "test/file.txt"), Some(TEST_TEXT.to_vec()));

    // Written, the entry has its terminator, and an empty string closes the
    // files and another the directories; the tree reads back the same.
    assert_eq!(vpk.write_dir().unwrap().len(), bytes.len() + 2 + 2);
    let mut whole = vpk;
    whole.header.tree_size += 4;
    let written = whole.write_dir().unwrap();
    let back = VPKRespawn::from_file(&mut ByteReader::new(&written)).unwrap();
    assert_same_package(&whole, &back);
}
