//! Audio metadata of Respawn packages, and the WAV header made from it.
//!
//! A sidecar file beside an archive holds one record for each audio file of
//! the archive. The record is found by the offset, in the archive, of the
//! first part of the file.

use crate::pak::error::{eof_error, Error, Violation};
use crate::pak::revpk::format::{
    RespawnEntryModel, VPKDirectoryEntryRespawn, VPKFilePartEntryRespawn,
};
use crate::util::file::{
    available, u16_bytes, u24_at, u32_at, u32_bytes, u64_at, ByteReader, VPKFileReader,
    VPKFileWriter,
};
use std::collections::HashMap;
use vstd::prelude::*;

verus! {

/// The magic number that starts every valid record of a sidecar file.
pub const RESPAWN_CAM_ENTRY_MAGIC: u32 = 3_302_889_984;

/// Number of bytes of a WAV header.
pub const WAV_HEADER_SIZE: u32 = 44;

/// Number of bits of a sample.
pub const SAMPLE_DEPTH: u16 = 16;

/// The byte that fills the space before the samples of an audio file.
pub const WAV_FILLER: u8 = 0xCB;

/// The metadata of one audio file.
#[derive(Debug, Clone, Copy, PartialEq, Eq, Structural)]
pub struct VPKRespawnCamEntry {
    /// The magic number; `RESPAWN_CAM_ENTRY_MAGIC` in every valid record.
    pub magic: u32,
    /// Number of bytes of the WAV file, its header included.
    pub original_size: u32,
    /// Number of bytes of the file as it was shipped.
    pub compressed_size: u32,
    /// Samples per second; 24 bits in the sidecar file.
    pub sample_rate: u32,
    /// Number of channels.
    pub channels: u8,
    /// Number of samples of each channel.
    pub sample_count: u32,
    /// Number of bytes of the header of the WAV file.
    pub header_size: u32,
    /// Offset, in the archive, of the first part of the file.
    pub vpk_content_offset: u64,
}

/// Sum of the expanded lengths of the parts.
pub open spec fn total_uncompressed(parts: Seq<VPKFilePartEntryRespawn>) -> int
    decreases parts.len(),
{
    if parts.len() == 0 {
        0
    } else {
        total_uncompressed(parts.drop_last()) + parts.last().entry_length_uncompressed
    }
}

/// Sum of the lengths of the parts in their archives.
pub open spec fn total_stored(parts: Seq<VPKFilePartEntryRespawn>) -> int
    decreases parts.len(),
{
    if parts.len() == 0 {
        0
    } else {
        total_stored(parts.drop_last()) + parts.last().entry_length
    }
}

/// Number of bytes of a WAV file that are no samples of a channel pair: the
/// header without its first eight bytes.
pub open spec fn wav_overhead() -> int {
    36
}

/// The metadata that is made up for an audio file without a record: one
/// channel at 44100 samples per second, and as many samples as the expanded
/// parts of the file hold behind a WAV header.
pub open spec fn default_cam(entry: RespawnEntryModel) -> VPKRespawnCamEntry {
    VPKRespawnCamEntry {
        magic: RESPAWN_CAM_ENTRY_MAGIC,
        original_size: total_uncompressed(entry.file_parts) as u32,
        compressed_size: total_stored(entry.file_parts) as u32,
        sample_rate: 44100,
        channels: 1,
        sample_count: ((total_uncompressed(entry.file_parts) - wav_overhead()) / 2) as u32,
        header_size: WAV_HEADER_SIZE,
        vpk_content_offset: entry.file_parts[0].entry_offset,
    }
}

/// Why no metadata can be made up for the entry, where none can: the entry
/// has no parts, or the lengths of its parts do not fit 32 bits, or they
/// hold less than a WAV header accounts for.
pub open spec fn default_cam_error(entry: RespawnEntryModel) -> Option<Error> {
    if entry.file_parts.len() == 0 {
        Some(Error::BadData(Violation::NoFileParts))
    } else if total_uncompressed(entry.file_parts) > u32::MAX || total_stored(entry.file_parts)
        > u32::MAX {
        Some(Error::DataTooLarge)
    } else if total_uncompressed(entry.file_parts) < wav_overhead() {
        Some(Error::BadData(Violation::AudioTooShort))
    } else {
        None
    }
}

/// Number of bytes of the samples of an audio file.
pub open spec fn wav_data_size(cam: VPKRespawnCamEntry) -> int {
    2 * cam.sample_count * cam.channels
}

/// Whether the fields of a WAV header for the metadata fit their 32 bits.
pub open spec fn wav_representable(cam: VPKRespawnCamEntry) -> bool {
    &&& wav_data_size(cam) + wav_overhead() <= u32::MAX
    &&& cam.sample_rate * SAMPLE_DEPTH * cam.channels <= u32::MAX
}

/// The 44 bytes of the WAV header for the metadata: `RIFF`, the number of
/// bytes that follow in the file, `WAVE`, `fmt `, 16, the format 1 for PCM,
/// the channels, the sample rate, the bytes per second, the bytes per sample
/// of all channels, the bits per sample, `data`, and the number of bytes of
/// the samples.
pub open spec fn wav_header(cam: VPKRespawnCamEntry) -> Seq<u8> {
    seq![0x52u8, 0x49, 0x46, 0x46] + u32_bytes((wav_data_size(cam) + wav_overhead()) as u32)
        + seq![0x57u8, 0x41, 0x56, 0x45] + seq![0x66u8, 0x6D, 0x74, 0x20] + u32_bytes(16)
        + u16_bytes(1) + u16_bytes(cam.channels as u16) + u32_bytes(cam.sample_rate) + u32_bytes(
        (cam.sample_rate * SAMPLE_DEPTH * cam.channels / 8) as u32,
    ) + u16_bytes((SAMPLE_DEPTH * cam.channels / 8) as u16) + u16_bytes(SAMPLE_DEPTH) + seq![
        0x64u8,
        0x61,
        0x74,
        0x61,
    ] + u32_bytes(wav_data_size(cam) as u32)
}

/// Whether the fields of a WAV header for the metadata fit their 32 bits:
/// whether a header can be made for it.
pub fn representable(cam: &VPKRespawnCamEntry) -> (b: bool)
    ensures
        b == wav_representable(*cam),
{
    let channels = cam.channels as u64;
    let samples = cam.sample_count as u64;
    let per_second = cam.sample_rate as u64;
    assert(2 * samples * channels <= 2 * 0xFFFF_FFFF * 0xFF && per_second * 16 * channels
        <= 0xFFFF_FFFF * 16 * 0xFF) by (nonlinear_arith)
        requires
            samples <= 0xFFFF_FFFF,
            per_second <= 0xFFFF_FFFF,
            channels <= 0xFF,
    ;
    let data_size: u64 = 2 * samples * channels;
    let rate: u64 = per_second * 16 * channels;
    assert(data_size == 2 * cam.sample_count * cam.channels && rate == cam.sample_rate * 16
        * cam.channels) by (nonlinear_arith)
        requires
            data_size == 2 * samples * channels,
            rate == per_second * 16 * channels,
            samples == cam.sample_count,
            per_second == cam.sample_rate,
            channels == cam.channels,
    ;
    data_size + 36 <= u32::MAX as u64 && rate <= u32::MAX as u64
}

/// The WAV header for the metadata.
pub fn create_wav_header(cam_entry: &VPKRespawnCamEntry) -> (header: Vec<u8>)
    requires
        wav_representable(*cam_entry),
    ensures
        header@ == wav_header(*cam_entry),
        header@.len() == 44,
{
    let channels = cam_entry.channels as u64;
    let data_size: u64 = 2 * (cam_entry.sample_count as u64) * channels;
    let byte_rate: u64 = cam_entry.sample_rate as u64 * SAMPLE_DEPTH as u64 * channels / 8;
    let block: u16 = SAMPLE_DEPTH * cam_entry.channels as u16 / 8;
    assert(data_size == wav_data_size(*cam_entry)) by (nonlinear_arith)
        requires
            data_size == 2 * (cam_entry.sample_count as u64) * (cam_entry.channels as u64),
            wav_data_size(*cam_entry) == 2 * cam_entry.sample_count * cam_entry.channels,
    ;
    assert(byte_rate == cam_entry.sample_rate * SAMPLE_DEPTH * cam_entry.channels / 8) by (
        nonlinear_arith)
        requires
            byte_rate == (cam_entry.sample_rate as u64) * 16 * (cam_entry.channels as u64) / 8,
            SAMPLE_DEPTH == 16,
    ;
    let mut header: Vec<u8> = Vec::new();
    header.write_u8(0x52);
    header.write_u8(0x49);
    header.write_u8(0x46);
    header.write_u8(0x46);
    let ghost riff = seq![0x52u8, 0x49, 0x46, 0x46];
    assert(header@ =~= riff);
    header.write_u32((data_size + 36) as u32);
    let ghost sized = header@;
    header.write_u8(0x57);
    header.write_u8(0x41);
    header.write_u8(0x56);
    header.write_u8(0x45);
    assert(header@ =~= sized + seq![0x57u8, 0x41, 0x56, 0x45]);
    let ghost waved = header@;
    header.write_u8(0x66);
    header.write_u8(0x6D);
    header.write_u8(0x74);
    header.write_u8(0x20);
    assert(header@ =~= waved + seq![0x66u8, 0x6D, 0x74, 0x20]);
    header.write_u32(16);
    header.write_u16(1);
    header.write_u16(cam_entry.channels as u16);
    header.write_u32(cam_entry.sample_rate);
    header.write_u32(byte_rate as u32);
    header.write_u16(block);
    header.write_u16(SAMPLE_DEPTH);
    let ghost formatted = header@;
    header.write_u8(0x64);
    header.write_u8(0x61);
    header.write_u8(0x74);
    header.write_u8(0x61);
    assert(header@ =~= formatted + seq![0x64u8, 0x61, 0x74, 0x61]);
    header.write_u32(data_size as u32);
    assert(header@ =~= wav_header(*cam_entry));
    header
}

/// Number of filler bytes at the start of `bytes`.
pub open spec fn filler_run(bytes: Seq<u8>) -> nat
    decreases bytes.len(),
{
    if bytes.len() > 0 && bytes[0] == WAV_FILLER {
        1 + filler_run(bytes.drop_first())
    } else {
        0
    }
}

/// The run of filler ends within the bytes, and ends where the first other
/// byte stands.
pub proof fn lemma_filler_run(bytes: Seq<u8>, n: int)
    requires
        0 <= n <= bytes.len(),
        forall|k: int| 0 <= k < n ==> bytes[k] == WAV_FILLER,
        n < bytes.len() ==> bytes[n] != WAV_FILLER,
    ensures
        filler_run(bytes) == n,
    decreases n,
{
    if n > 0 {
        let rest = bytes.drop_first();
        assert forall|k: int| 0 <= k < n - 1 implies rest[k] == WAV_FILLER by {
            assert(rest[k] == bytes[k + 1]);
        }
        if n - 1 < rest.len() {
            assert(rest[n - 1] == bytes[n]);
        }
        lemma_filler_run(rest, n - 1);
    }
}

/// Number of filler bytes that stand before the samples at the start of the
/// first part of an audio file.
pub fn seek_to_wav_data(part: &[u8]) -> (skipped: usize)
    ensures
        skipped == filler_run(part@),
        skipped <= part@.len(),
{
    let mut n: usize = 0;
    while n < part.len() && part[n] == WAV_FILLER
        invariant
            n <= part@.len(),
            forall|k: int| 0 <= k < n ==> part@[k] == WAV_FILLER,
        decreases part@.len() - n,
    {
        n = n + 1;
    }
    proof {
        lemma_filler_run(part@, n as int);
    }
    n
}

impl VPKRespawnCamEntry {
    /// A record without data.
    pub fn new() -> (entry: Self)
        ensures
            entry == (VPKRespawnCamEntry {
                magic: RESPAWN_CAM_ENTRY_MAGIC,
                original_size: 0,
                compressed_size: 0,
                sample_rate: 0,
                channels: 0,
                sample_count: 0,
                header_size: 0,
                vpk_content_offset: 0,
            }),
    {
        VPKRespawnCamEntry {
            magic: RESPAWN_CAM_ENTRY_MAGIC,
            original_size: 0,
            compressed_size: 0,
            sample_rate: 0,
            channels: 0,
            sample_count: 0,
            header_size: 0,
            vpk_content_offset: 0,
        }
    }

    /// The record whose fields stand at `pos`.
    pub open spec fn fields_at(data: Seq<u8>, pos: int) -> VPKRespawnCamEntry {
        VPKRespawnCamEntry {
            magic: u32_at(data, pos),
            original_size: u32_at(data, pos + 4),
            compressed_size: u32_at(data, pos + 8),
            sample_rate: u24_at(data, pos + 12),
            channels: data[pos + 15],
            sample_count: u32_at(data, pos + 16),
            header_size: u32_at(data, pos + 20),
            vpk_content_offset: u64_at(data, pos + 24),
        }
    }

    /// The metadata that is made up for the audio file of an entry without a
    /// record, where some can be made up.
    pub fn try_default(entry: &VPKDirectoryEntryRespawn) -> (r: Result<Self, Error>)
        ensures
            match default_cam_error(entry@) {
                Some(e) => r == Err::<Self, Error>(e),
                None => r == Ok::<Self, Error>(default_cam(entry@)),
            },
    {
        let n = entry.file_parts.len();
        if n == 0 {
            return Err(Error::BadData(Violation::NoFileParts));
        }
        let mut expanded: u128 = 0;
        let mut stored: u128 = 0;
        let mut i: usize = 0;
        while i < n
            invariant
                i <= n,
                n == entry.file_parts@.len(),
                expanded == total_uncompressed(entry.file_parts@.subrange(0, i as int)),
                stored == total_stored(entry.file_parts@.subrange(0, i as int)),
                expanded <= i * 0x1_0000_0000_0000_0000,
                stored <= i * 0x1_0000_0000_0000_0000,
            decreases n - i,
        {
            proof {
                let next = entry.file_parts@.subrange(0, i + 1);
                assert(next.drop_last() =~= entry.file_parts@.subrange(0, i as int));
                assert(next.last() == entry.file_parts@[i as int]);
            }
            expanded = expanded + entry.file_parts[i].entry_length_uncompressed as u128;
            stored = stored + entry.file_parts[i].entry_length as u128;
            i = i + 1;
        }
        assert(entry.file_parts@.subrange(0, n as int) =~= entry.file_parts@);
        if expanded > u32::MAX as u128 || stored > u32::MAX as u128 {
            return Err(Error::DataTooLarge);
        }
        if expanded < 36 {
            return Err(Error::BadData(Violation::AudioTooShort));
        }
        Ok(
            VPKRespawnCamEntry {
                magic: RESPAWN_CAM_ENTRY_MAGIC,
                original_size: expanded as u32,
                compressed_size: stored as u32,
                sample_rate: 44100,
                channels: 1,
                sample_count: ((expanded - 36) / 2) as u32,
                header_size: WAV_HEADER_SIZE,
                vpk_content_offset: entry.file_parts[0].entry_offset,
            },
        )
    }

    /// The metadata that is made up for the audio file of an entry without a
    /// record.
    pub fn default(entry: &VPKDirectoryEntryRespawn) -> (cam: Self)
        requires
            default_cam_error(entry@) is None,
        ensures
            cam == default_cam(entry@),
    {
        match Self::try_default(entry) {
            Ok(cam) => cam,
            Err(_) => Self::new(),
        }
    }
}

/// What reading the records of a sidecar file yields, from `pos` on: the
/// records with the magic number, by the offset that each holds. Of two
/// records with the same offset the later one stays.
pub open spec fn parse_cam(
    data: Seq<u8>,
    pos: int,
    acc: Map<u64, VPKRespawnCamEntry>,
) -> Result<Map<u64, VPKRespawnCamEntry>, Error>
    decreases data.len() - pos,
{
    if pos < 0 || pos >= data.len() {
        Ok(acc)
    } else if available(data, pos) < 32 {
        Err(eof_error())
    } else {
        let entry = VPKRespawnCamEntry::fields_at(data, pos);
        parse_cam(
            data,
            pos + 32,
            if entry.magic == RESPAWN_CAM_ENTRY_MAGIC {
                acc.insert(entry.vpk_content_offset, entry)
            } else {
                acc
            },
        )
    }
}

/// The metadata of the audio files of one archive.
#[derive(Debug)]
pub struct VPKRespawnCam {
    /// The records, by the offset of the first part of their file.
    pub entries: HashMap<u64, VPKRespawnCamEntry>,
}

impl View for VPKRespawnCam {
    type V = Map<u64, VPKRespawnCamEntry>;

    open spec fn view(&self) -> Map<u64, VPKRespawnCamEntry> {
        self.entries@
    }
}

impl VPKRespawnCam {
    /// Reads a sidecar file from its start to its end.
    pub fn from_file(file: &mut ByteReader<'_>) -> (r: Result<Self, Error>)
        ensures
            final(file).data() == old(file).data(),
            match parse_cam(old(file).data(), 0, Map::empty()) {
                Ok(entries) => r matches Ok(cam) && cam@ == entries,
                Err(e) => r matches Err(err) && err == e,
            },
    {
        let ghost data = file.data();
        let file_len = file.len();
        file.seek(0);
        let mut entries: HashMap<u64, VPKRespawnCamEntry> = HashMap::new();
        while file.stream_position() < file_len
            invariant
                file.data() == data,
                data == old(file).data(),
                file_len == data.len(),
                parse_cam(data, file.position(), entries@) == parse_cam(data, 0, Map::empty()),
            decreases data.len() - file.position(),
        {
            let ghost at = file.position();
            let magic = match file.read_u32() {
                Ok(v) => v,
                Err(e) => return Err(Error::Util(e)),
            };
            let original_size = match file.read_u32() {
                Ok(v) => v,
                Err(e) => return Err(Error::Util(e)),
            };
            let compressed_size = match file.read_u32() {
                Ok(v) => v,
                Err(e) => return Err(Error::Util(e)),
            };
            let sample_rate = match file.read_u24() {
                Ok(v) => v,
                Err(e) => return Err(Error::Util(e)),
            };
            let channels = match file.read_u8() {
                Ok(v) => v,
                Err(e) => return Err(Error::Util(e)),
            };
            let sample_count = match file.read_u32() {
                Ok(v) => v,
                Err(e) => return Err(Error::Util(e)),
            };
            let header_size = match file.read_u32() {
                Ok(v) => v,
                Err(e) => return Err(Error::Util(e)),
            };
            let vpk_content_offset = match file.read_u64() {
                Ok(v) => v,
                Err(e) => return Err(Error::Util(e)),
            };
            let entry = VPKRespawnCamEntry {
                magic,
                original_size,
                compressed_size,
                sample_rate,
                channels,
                sample_count,
                header_size,
                vpk_content_offset,
            };
            assert(entry == VPKRespawnCamEntry::fields_at(data, at));
            if entry.magic == RESPAWN_CAM_ENTRY_MAGIC {
                entries.insert(entry.vpk_content_offset, entry);
            }
        }
        Ok(VPKRespawnCam { entries })
    }

    /// The record of the audio file whose first part stands at the given
    /// offset of the archive.
    pub fn find_entry(&self, vpk_content_offset: u64) -> (r: Option<&VPKRespawnCamEntry>)
        ensures
            match r {
                Some(entry) => self@.contains_key(vpk_content_offset) && *entry
                    == self@[vpk_content_offset],
                None => !self@.contains_key(vpk_content_offset),
            },
    {
        self.entries.get(&vpk_content_offset)
    }
}

} // verus!
