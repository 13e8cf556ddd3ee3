//! The archives of a package, and the checksum of their contents.

use std::collections::HashMap;
use vstd::prelude::*;

verus! {

/// The CRC-32/ISO-HDLC checksum of a run of bytes.
pub uninterp spec fn crc32_iso_hdlc(data: Seq<u8>) -> u32;

/// `Crc::<u32>::checksum` of the crc crate, for the algorithm
/// `CRC_32_ISO_HDLC`: the checksum of `data`. The checksum depends on the
/// bytes alone.
#[verifier::external_body]
pub(crate) fn crc32(data: &[u8]) -> (sum: u32)
    ensures
        sum == crc32_iso_hdlc(data@),
{
    crc::Crc::<u32>::new(&crc::CRC_32_ISO_HDLC).checksum(data)
}

/// The CRC-32/ISO-HDLC checksum of a run of bytes: what the entry of a file
/// with these contents holds.
pub fn checksum(data: &[u8]) -> (sum: u32)
    ensures
        sum == crc32_iso_hdlc(data@),
{
    crc32(data)
}

/// The key under which the expanded bytes of a compressed file part are
/// held: the index of its archive and its offset there.
pub open spec fn part_key(archive_index: u16, entry_offset: u64) -> u128 {
    (archive_index as int * 0x1_0000_0000_0000_0000 + entry_offset as int) as u128
}

/// What a caller supplies for the reconstruction of files: the bytes of the
/// archives, and the expanded bytes of the compressed file parts.
///
/// The archive with the index `VPK_ARCHIVE_INDEX_DIR` is the directory file
/// itself.
pub struct Archives<'a> {
    /// The bytes of the archives, by archive index.
    pub files: HashMap<u16, &'a [u8]>,
    /// The expanded bytes of compressed file parts, by `part_key`.
    pub expanded: HashMap<u128, Vec<u8>>,
}

impl<'a> Archives<'a> {
    /// The bytes of each archive that was supplied.
    pub open spec fn contents(&self) -> Map<u16, Seq<u8>> {
        Map::new(|index: u16| self.files@.contains_key(index), |index: u16| self.files@[index]@)
    }

    /// The expanded bytes of each compressed file part that was supplied.
    pub open spec fn inflated(&self) -> Map<u128, Seq<u8>> {
        Map::new(|key: u128| self.expanded@.contains_key(key), |key: u128| self.expanded@[key]@)
    }

    /// Nothing supplied.
    pub fn new() -> (archives: Self)
        ensures
            archives.contents() == Map::<u16, Seq<u8>>::empty(),
            archives.inflated() == Map::<u128, Seq<u8>>::empty(),
    {
        let archives = Archives { files: HashMap::new(), expanded: HashMap::new() };
        assert(archives.contents() =~= Map::<u16, Seq<u8>>::empty());
        assert(archives.inflated() =~= Map::<u128, Seq<u8>>::empty());
        archives
    }

    /// Supplies the bytes of the archive with the given index.
    pub fn insert(&mut self, index: u16, bytes: &'a [u8])
        ensures
            final(self).contents() == old(self).contents().insert(index, bytes@),
            final(self).inflated() == old(self).inflated(),
    {
        self.files.insert(index, bytes);
        assert(self.contents() =~= old(self).contents().insert(index, bytes@));
    }

    /// Supplies the expanded bytes of the compressed file part that stands
    /// at `entry_offset` of the archive with the index `archive_index`.
    pub fn insert_expanded(&mut self, archive_index: u16, entry_offset: u64, bytes: Vec<u8>)
        ensures
            final(self).inflated() == old(self).inflated().insert(
                part_key(archive_index, entry_offset),
                bytes@,
            ),
            final(self).contents() == old(self).contents(),
    {
        let key: u128 = archive_index as u128 * 0x1_0000_0000_0000_0000 + entry_offset as u128;
        self.expanded.insert(key, bytes);
        assert(self.inflated() =~= old(self).inflated().insert(
            part_key(archive_index, entry_offset),
            bytes@,
        ));
    }

    /// The bytes of the archive with the given index.
    pub fn get(&self, index: u16) -> (r: Option<&'a [u8]>)
        ensures
            match r {
                Some(bytes) => self.contents().contains_key(index) && bytes@
                    == self.contents()[index],
                None => !self.contents().contains_key(index),
            },
    {
        match self.files.get(&index) {
            Some(bytes) => Some(*bytes),
            None => None,
        }
    }

    /// The expanded bytes of the compressed file part that stands at
    /// `entry_offset` of the archive with the index `archive_index`.
    pub fn get_expanded(&self, archive_index: u16, entry_offset: u64) -> (r: Option<&Vec<u8>>)
        ensures
            match r {
                Some(bytes) => self.inflated().contains_key(part_key(archive_index, entry_offset))
                    && bytes@ == self.inflated()[part_key(archive_index, entry_offset)],
                None => !self.inflated().contains_key(part_key(archive_index, entry_offset)),
            },
    {
        let key: u128 = archive_index as u128 * 0x1_0000_0000_0000_0000 + entry_offset as u128;
        self.expanded.get(&key)
    }
}

} // verus!
