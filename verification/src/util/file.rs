//! Little-endian reading and writing of integers, strings and byte runs.
//!
//! A stream is a sequence of bytes with a cursor. Reading is specified over
//! the pair of the stream's bytes and the cursor's position; writing appends
//! to the bytes written so far.

use crate::util::error::{Error, IoError};
use vstd::prelude::*;
use vstd::slice::{slice_subrange, slice_to_vec};
use vstd::string::StringSliceAdditionalSpecFns;
use vstd::utf8::{decode_utf8, encode_utf8, valid_utf8};

verus! {

/// Number of bytes between `pos` and the end of `data`; none when the cursor
/// stands behind the end.
pub open spec fn available(data: Seq<u8>, pos: int) -> int {
    if 0 <= pos <= data.len() {
        data.len() - pos
    } else {
        0
    }
}

/// The 16-bit little-endian integer at `pos`.
pub open spec fn u16_at(data: Seq<u8>, pos: int) -> u16 {
    (data[pos] as int + data[pos + 1] as int * 0x100) as u16
}

/// The 24-bit little-endian integer at `pos`, widened to 32 bits.
pub open spec fn u24_at(data: Seq<u8>, pos: int) -> u32 {
    (data[pos] as int + data[pos + 1] as int * 0x100 + data[pos + 2] as int * 0x1_0000) as u32
}

/// The 32-bit little-endian integer at `pos`.
pub open spec fn u32_at(data: Seq<u8>, pos: int) -> u32 {
    (data[pos] as int + data[pos + 1] as int * 0x100 + data[pos + 2] as int * 0x1_0000
        + data[pos + 3] as int * 0x100_0000) as u32
}

/// The 64-bit little-endian integer at `pos`.
pub open spec fn u64_at(data: Seq<u8>, pos: int) -> u64 {
    (u32_at(data, pos) as int + u32_at(data, pos + 4) as int * 0x1_0000_0000) as u64
}

/// The `n` bytes that start at `pos`; none where `data` does not hold them.
pub open spec fn bytes_at(data: Seq<u8>, pos: int, n: int) -> Seq<u8> {
    if 0 <= pos && 0 <= n && pos + n <= data.len() {
        data.subrange(pos, pos + n)
    } else {
        Seq::empty()
    }
}

/// The bytes of `window` stand in `data` from `pos` on.
pub open spec fn holds_at(data: Seq<u8>, pos: int, window: Seq<u8>) -> bool {
    &&& 0 <= pos
    &&& pos + window.len() <= data.len()
    &&& data.subrange(pos, pos + window.len()) == window
}

/// Number of bytes from `pos` up to, and without, the next zero byte, or up
/// to the end of `data` where no zero byte follows.
pub open spec fn cstr_len(data: Seq<u8>, pos: int) -> nat
    decreases data.len() - pos,
{
    if pos < 0 || pos >= data.len() || data[pos] == 0 {
        0
    } else {
        1 + cstr_len(data, pos + 1)
    }
}

/// The bytes of the zero-terminated string at `pos`, without the terminator.
pub open spec fn cstr_at(data: Seq<u8>, pos: int) -> Seq<u8> {
    if 0 <= pos <= data.len() {
        data.subrange(pos, pos + cstr_len(data, pos))
    } else {
        Seq::empty()
    }
}

/// Where the cursor stands after the zero-terminated string at `pos` was
/// read: behind the terminator, or at the end where the stream ended first.
pub open spec fn cstr_end(data: Seq<u8>, pos: int) -> int {
    if pos + cstr_len(data, pos) < data.len() {
        pos + cstr_len(data, pos) + 1
    } else {
        pos + cstr_len(data, pos)
    }
}

/// Little-endian encoding of a 16-bit integer.
pub open spec fn u16_bytes(v: u16) -> Seq<u8> {
    seq![(v % 0x100) as u8, (v / 0x100) as u8]
}

/// Little-endian encoding of the low 24 bits of `v`.
pub open spec fn u24_bytes(v: u32) -> Seq<u8> {
    seq![(v % 0x100) as u8, (v / 0x100 % 0x100) as u8, (v / 0x1_0000 % 0x100) as u8]
}

/// Little-endian encoding of a 32-bit integer.
pub open spec fn u32_bytes(v: u32) -> Seq<u8> {
    seq![
        (v % 0x100) as u8,
        (v / 0x100 % 0x100) as u8,
        (v / 0x1_0000 % 0x100) as u8,
        (v / 0x100_0000) as u8,
    ]
}

/// Little-endian encoding of a 64-bit integer.
pub open spec fn u64_bytes(v: u64) -> Seq<u8> {
    u32_bytes((v % 0x1_0000_0000) as u32) + u32_bytes((v / 0x1_0000_0000) as u32)
}

/// A read of `n` bytes succeeded: the cursor moved on by `n`.
pub open spec fn advanced(
    data: Seq<u8>,
    pos: int,
    n: int,
    data_after: Seq<u8>,
    pos_after: int,
) -> bool {
    &&& available(data, pos) >= n
    &&& data_after == data
    &&& pos_after == pos + n
}

/// A read of `n` bytes failed for want of bytes: the cursor stayed.
pub open spec fn starved(
    data: Seq<u8>,
    pos: int,
    n: int,
    data_after: Seq<u8>,
    pos_after: int,
    error: Error,
) -> bool {
    &&& available(data, pos) < n
    &&& data_after == data
    &&& pos_after == pos
    &&& error == Error::Io(IoError::UnexpectedEof)
}

/// Reading from a byte stream, little-endian. A read moves the cursor on.
pub trait VPKFileReader {
    /// All bytes of the stream.
    spec fn data(&self) -> Seq<u8>;

    /// The cursor's position, counted from the start of the stream.
    spec fn position(&self) -> int;

    /// Reads one byte.
    fn read_u8(&mut self) -> (r: Result<u8, Error>)
        ensures
            match r {
                Ok(v) => advanced(
                    old(self).data(),
                    old(self).position(),
                    1,
                    final(self).data(),
                    final(self).position(),
                ) && v == old(self).data()[old(self).position() as int],
                Err(e) => starved(
                    old(self).data(),
                    old(self).position(),
                    1,
                    final(self).data(),
                    final(self).position(),
                    e,
                ),
            },
    ;

    /// Reads two bytes as a 16-bit integer.
    fn read_u16(&mut self) -> (r: Result<u16, Error>)
        ensures
            match r {
                Ok(v) => advanced(
                    old(self).data(),
                    old(self).position(),
                    2,
                    final(self).data(),
                    final(self).position(),
                ) && v == u16_at(old(self).data(), old(self).position()),
                Err(e) => starved(
                    old(self).data(),
                    old(self).position(),
                    2,
                    final(self).data(),
                    final(self).position(),
                    e,
                ),
            },
    ;

    /// Reads three bytes as an integer of 24 bits.
    fn read_u24(&mut self) -> (r: Result<u32, Error>)
        ensures
            match r {
                Ok(v) => advanced(
                    old(self).data(),
                    old(self).position(),
                    3,
                    final(self).data(),
                    final(self).position(),
                ) && v == u24_at(old(self).data(), old(self).position()),
                Err(e) => starved(
                    old(self).data(),
                    old(self).position(),
                    3,
                    final(self).data(),
                    final(self).position(),
                    e,
                ),
            },
    ;

    /// Reads four bytes as a 32-bit integer.
    fn read_u32(&mut self) -> (r: Result<u32, Error>)
        ensures
            match r {
                Ok(v) => advanced(
                    old(self).data(),
                    old(self).position(),
                    4,
                    final(self).data(),
                    final(self).position(),
                ) && v == u32_at(old(self).data(), old(self).position()),
                Err(e) => starved(
                    old(self).data(),
                    old(self).position(),
                    4,
                    final(self).data(),
                    final(self).position(),
                    e,
                ),
            },
    ;

    /// Reads eight bytes as a 64-bit integer.
    fn read_u64(&mut self) -> (r: Result<u64, Error>)
        ensures
            match r {
                Ok(v) => advanced(
                    old(self).data(),
                    old(self).position(),
                    8,
                    final(self).data(),
                    final(self).position(),
                ) && v == u64_at(old(self).data(), old(self).position()),
                Err(e) => starved(
                    old(self).data(),
                    old(self).position(),
                    8,
                    final(self).data(),
                    final(self).position(),
                    e,
                ),
            },
    ;

    /// Reads a string up to its zero terminator, which is consumed and not
    /// returned. A string that runs into the end of the stream ends there.
    /// The bytes are consumed also where they are no valid UTF-8.
    fn read_string(&mut self) -> (r: Result<String, Error>)
        ensures
            final(self).data() == old(self).data(),
            final(self).position() == cstr_end(old(self).data(), old(self).position()),
            match r {
                Ok(s) => valid_utf8(cstr_at(old(self).data(), old(self).position()))
                    && s@ == decode_utf8(cstr_at(old(self).data(), old(self).position()))
                    && encode_utf8(s@) == cstr_at(old(self).data(), old(self).position()),
                Err(e) => !valid_utf8(cstr_at(old(self).data(), old(self).position()))
                    && e == Error::Utf8(old(self).position() as u64),
            },
    ;

    /// Reads `count` bytes, or as many as the stream still holds.
    fn read_bytes(&mut self, count: usize) -> (r: Result<Vec<u8>, Error>)
        ensures
            final(self).data() == old(self).data(),
            r matches Ok(bytes) && ({
                let n = if count <= available(old(self).data(), old(self).position()) {
                    count as int
                } else {
                    available(old(self).data(), old(self).position())
                };
                &&& final(self).position() == old(self).position() + n
                &&& bytes@ == bytes_at(old(self).data(), old(self).position(), n)
            }),
    ;
}

/// A cursor over bytes held in memory. The cursor may stand behind the end
/// of the bytes, where every read finds the stream exhausted.
pub struct ByteReader<'a> {
    bytes: &'a [u8],
    cursor: u64,
}

/// `String::from_utf8` of std: the string that `bytes` encode, where they
/// are valid UTF-8, and nothing where they are not.
#[verifier::external_body]
fn string_from_utf8(bytes: Vec<u8>) -> (r: Option<String>)
    ensures
        r is Some <==> valid_utf8(bytes@),
        r matches Some(s) ==> s@ == decode_utf8(bytes@),
{
    String::from_utf8(bytes).ok()
}

/// The string at `pos` extends over the nonzero bytes that precede `mid`.
proof fn lemma_cstr_len_step(data: Seq<u8>, pos: int, mid: int)
    requires
        0 <= pos <= mid <= data.len(),
        forall|k: int| pos <= k < mid ==> data[k] != 0,
    ensures
        cstr_len(data, pos) == (mid - pos) + cstr_len(data, mid),
    decreases mid - pos,
{
    if pos < mid {
        lemma_cstr_len_step(data, pos + 1, mid);
    }
}

impl<'a> ByteReader<'a> {
    /// A cursor at the start of `bytes`.
    pub fn new(bytes: &'a [u8]) -> (r: Self)
        ensures
            r.data() == bytes@,
            r.position() == 0,
    {
        ByteReader { bytes, cursor: 0 }
    }

    /// The cursor's position.
    pub fn stream_position(&self) -> (p: u64)
        ensures
            p == self.position(),
    {
        self.cursor
    }

    /// Moves the cursor to `pos`, which may lie behind the end of the stream.
    pub fn seek(&mut self, pos: u64)
        ensures
            final(self).data() == old(self).data(),
            final(self).position() == pos,
    {
        self.cursor = pos;
    }

    /// Number of bytes in the stream.
    pub fn len(&self) -> (n: u64)
        ensures
            n == self.data().len(),
    {
        self.bytes.len() as u64
    }

    /// Number of bytes between the cursor and the end of the stream.
    pub fn remaining(&self) -> (n: u64)
        ensures
            n == available(self.data(), self.position()),
    {
        let len = self.bytes.len() as u64;
        if self.cursor <= len {
            len - self.cursor
        } else {
            0
        }
    }
}

impl<'a> VPKFileReader for ByteReader<'a> {
    closed spec fn data(&self) -> Seq<u8> {
        self.bytes@
    }

    closed spec fn position(&self) -> int {
        self.cursor as int
    }

    fn read_u8(&mut self) -> (r: Result<u8, Error>) {
        if self.remaining() < 1 {
            return Err(Error::Io(IoError::UnexpectedEof));
        }
        let p = self.cursor as usize;
        let v = self.bytes[p];
        self.cursor = self.cursor + 1;
        Ok(v)
    }

    fn read_u16(&mut self) -> (r: Result<u16, Error>) {
        if self.remaining() < 2 {
            return Err(Error::Io(IoError::UnexpectedEof));
        }
        let p = self.cursor as usize;
        let v = self.bytes[p] as u16 + self.bytes[p + 1] as u16 * 0x100;
        self.cursor = self.cursor + 2;
        Ok(v)
    }

    fn read_u24(&mut self) -> (r: Result<u32, Error>) {
        if self.remaining() < 3 {
            return Err(Error::Io(IoError::UnexpectedEof));
        }
        let p = self.cursor as usize;
        let v = self.bytes[p] as u32 + self.bytes[p + 1] as u32 * 0x100 + self.bytes[p + 2] as u32
            * 0x1_0000;
        self.cursor = self.cursor + 3;
        Ok(v)
    }

    fn read_u32(&mut self) -> (r: Result<u32, Error>) {
        if self.remaining() < 4 {
            return Err(Error::Io(IoError::UnexpectedEof));
        }
        let p = self.cursor as usize;
        let v = self.bytes[p] as u32 + self.bytes[p + 1] as u32 * 0x100 + self.bytes[p + 2] as u32
            * 0x1_0000 + self.bytes[p + 3] as u32 * 0x100_0000;
        self.cursor = self.cursor + 4;
        Ok(v)
    }

    fn read_u64(&mut self) -> (r: Result<u64, Error>) {
        if self.remaining() < 8 {
            return Err(Error::Io(IoError::UnexpectedEof));
        }
        let p = self.cursor as usize;
        let low = self.bytes[p] as u32 + self.bytes[p + 1] as u32 * 0x100 + self.bytes[p + 2] as u32
            * 0x1_0000 + self.bytes[p + 3] as u32 * 0x100_0000;
        let high = self.bytes[p + 4] as u32 + self.bytes[p + 5] as u32 * 0x100 + self.bytes[p
            + 6] as u32 * 0x1_0000 + self.bytes[p + 7] as u32 * 0x100_0000;
        self.cursor = self.cursor + 8;
        Ok(low as u64 + high as u64 * 0x1_0000_0000)
    }

    fn read_string(&mut self) -> (r: Result<String, Error>) {
        let start64 = self.cursor;
        let len = self.bytes.len();
        if self.remaining() == 0 {
            proof {
                assert(cstr_at(self.data(), self.position()) =~= Seq::<u8>::empty());
                assert(decode_utf8(Seq::<u8>::empty()) =~= Seq::<char>::empty());
            }
            let text = string_from_utf8(Vec::new());
            return match text {
                Some(s) => {
                    proof {
                        vstd::utf8::decode_utf8_encode_utf8(Seq::<u8>::empty());
                    }
                    Ok(s)
                },
                None => Err(Error::Utf8(start64)),
            };
        }
        let start = self.cursor as usize;
        let mut end = start;
        while end < len && self.bytes[end] != 0
            invariant
                start <= end <= len,
                len == self.bytes@.len(),
                forall|k: int| start <= k < end ==> self.bytes@[k] != 0,
            decreases len - end,
        {
            end = end + 1;
        }
        proof {
            lemma_cstr_len_step(self.bytes@, start as int, end as int);
        }
        let raw = slice_to_vec(slice_subrange(self.bytes, start, end));
        if end < len {
            self.cursor = (end + 1) as u64;
        } else {
            self.cursor = end as u64;
        }
        match string_from_utf8(raw) {
            Some(s) => {
                proof {
                    vstd::utf8::decode_utf8_encode_utf8(raw@);
                }
                Ok(s)
            },
            None => Err(Error::Utf8(start64)),
        }
    }

    fn read_bytes(&mut self, count: usize) -> (r: Result<Vec<u8>, Error>) {
        let len = self.bytes.len();
        if self.cursor >= len as u64 {
            return Ok(Vec::new());
        }
        let start = self.cursor as usize;
        let left = len - start;
        let n = if count <= left {
            count
        } else {
            left
        };
        let bytes = slice_to_vec(slice_subrange(self.bytes, start, start + n));
        self.cursor = self.cursor + n as u64;
        Ok(bytes)
    }
}

/// Writing to a byte stream, little-endian. A write appends to the stream.
pub trait VPKFileWriter {
    /// All bytes written so far.
    spec fn written(&self) -> Seq<u8>;

    /// Writes one byte.
    fn write_u8(&mut self, val: u8)
        ensures
            final(self).written() == old(self).written() + seq![val],
    ;

    /// Writes a 16-bit integer as two bytes.
    fn write_u16(&mut self, val: u16)
        ensures
            final(self).written() == old(self).written() + u16_bytes(val),
    ;

    /// Writes the low 24 bits of an integer as three bytes.
    fn write_u24(&mut self, val: u32)
        ensures
            final(self).written() == old(self).written() + u24_bytes(val),
    ;

    /// Writes a 32-bit integer as four bytes.
    fn write_u32(&mut self, val: u32)
        ensures
            final(self).written() == old(self).written() + u32_bytes(val),
    ;

    /// Writes a 64-bit integer as eight bytes.
    fn write_u64(&mut self, val: u64)
        ensures
            final(self).written() == old(self).written() + u64_bytes(val),
    ;

    /// Writes the UTF-8 bytes of a string and a zero terminator.
    fn write_string(&mut self, str: &str)
        ensures
            final(self).written() == old(self).written() + str.spec_bytes() + seq![0u8],
    ;

    /// Writes a run of bytes as it is.
    fn write_bytes(&mut self, bytes: &[u8])
        ensures
            final(self).written() == old(self).written() + bytes@,
    ;
}

impl VPKFileWriter for Vec<u8> {
    open spec fn written(&self) -> Seq<u8> {
        self@
    }

    fn write_u8(&mut self, val: u8) {
        self.push(val);
    }

    fn write_u16(&mut self, val: u16) {
        let ghost before = self@;
        let low = (val % 0x100) as u8;
        let high = (val / 0x100) as u8;
        self.push(low);
        self.push(high);
        assert(u16_bytes(val) =~= seq![low, high]);
        assert(self@ =~= before + seq![low, high]);
        assert(self.written() == old(self).written() + u16_bytes(val));
    }

    fn write_u24(&mut self, val: u32) {
        let ghost before = self@;
        let low = (val % 0x100) as u8;
        let mid = (val / 0x100 % 0x100) as u8;
        let high = (val / 0x1_0000 % 0x100) as u8;
        self.push(low);
        self.push(mid);
        self.push(high);
        assert(u24_bytes(val) =~= seq![low, mid, high]);
        assert(self@ =~= before + seq![low, mid, high]);
        assert(self.written() == old(self).written() + u24_bytes(val));
    }

    fn write_u32(&mut self, val: u32) {
        let ghost before = self@;
        let b0 = (val % 0x100) as u8;
        let b1 = (val / 0x100 % 0x100) as u8;
        let b2 = (val / 0x1_0000 % 0x100) as u8;
        let b3 = (val / 0x100_0000) as u8;
        self.push(b0);
        self.push(b1);
        self.push(b2);
        self.push(b3);
        assert(u32_bytes(val) =~= seq![b0, b1, b2, b3]);
        assert(self@ =~= before + seq![b0, b1, b2, b3]);
        assert(self.written() == old(self).written() + u32_bytes(val));
    }

    fn write_u64(&mut self, val: u64) {
        let ghost before = self@;
        let low = (val % 0x1_0000_0000) as u32;
        let high = (val / 0x1_0000_0000) as u32;
        self.write_u32(low);
        assert(self@ == before + u32_bytes(low));
        self.write_u32(high);
        assert(self@ == before + u32_bytes(low) + u32_bytes(high));
        assert(self@ =~= before + u64_bytes(val));
    }

    fn write_string(&mut self, str: &str) {
        let ghost before = self@;
        self.write_bytes(str.as_bytes());
        self.push(0u8);
        assert(self@ =~= before + str.spec_bytes() + seq![0u8]);
    }

    fn write_bytes(&mut self, bytes: &[u8]) {
        let ghost before = self@;
        let mut i: usize = 0;
        while i < bytes.len()
            invariant
                i <= bytes@.len(),
                self@ == before + bytes@.subrange(0, i as int),
            decreases bytes@.len() - i,
        {
            self.push(bytes[i]);
            i = i + 1;
            assert(self@ =~= before + bytes@.subrange(0, i as int));
        }
        assert(bytes@.subrange(0, i as int) =~= bytes@);
    }
}

/// A string lies within the stream, holds no zero byte, and reading it moves
/// the cursor on unless the string is empty and the stream exhausted.
pub proof fn lemma_cstr_bounds(data: Seq<u8>, pos: int)
    ensures
        pos <= cstr_end(data, pos),
        cstr_len(data, pos) > 0 ==> 0 <= pos < data.len() && pos < cstr_end(data, pos),
        0 <= pos <= data.len() ==> cstr_end(data, pos) <= data.len(),
        cstr_at(data, pos).len() == cstr_len(data, pos),
        forall|k: int| 0 <= k < cstr_at(data, pos).len() ==> cstr_at(data, pos)[k] != 0,
    decreases data.len() - pos,
{
    if 0 <= pos < data.len() && data[pos] != 0 {
        lemma_cstr_bounds(data, pos + 1);
        assert forall|k: int| 0 <= k < cstr_at(data, pos).len() implies cstr_at(data, pos)[k]
            != 0 by {
            if k > 0 {
                assert(cstr_at(data, pos)[k] == cstr_at(data, pos + 1)[k - 1]);
            }
        }
    }
}

/// Where two windows stand in `data` one behind the other, each stands there
/// by itself, and the other way round.
pub proof fn lemma_holds_at_concat(data: Seq<u8>, pos: int, first: Seq<u8>, second: Seq<u8>)
    ensures
        holds_at(data, pos, first + second) <==> holds_at(data, pos, first) && holds_at(
            data,
            pos + first.len(),
            second,
        ),
{
    let both = first + second;
    if holds_at(data, pos, both) {
        let w = data.subrange(pos, pos + both.len());
        assert(data.subrange(pos, pos + first.len()) =~= first) by {
            assert forall|k: int| 0 <= k < first.len() implies data[pos + k] == first[k] by {
                assert(w[k] == both[k]);
            }
        }
        assert(data.subrange(pos + first.len(), pos + first.len() + second.len()) =~= second) by {
            assert forall|k: int| 0 <= k < second.len() implies data[pos + first.len() + k]
                == second[k] by {
                assert(w[first.len() + k] == both[first.len() + k]);
            }
        }
    }
    if holds_at(data, pos, first) && holds_at(data, pos + first.len(), second) {
        let a = data.subrange(pos, pos + first.len());
        let b = data.subrange(pos + first.len(), pos + first.len() + second.len());
        assert(data.subrange(pos, pos + both.len()) =~= both) by {
            assert forall|k: int| 0 <= k < both.len() implies data[pos + k] == both[k] by {
                if k < first.len() {
                    assert(a[k] == first[k]);
                } else {
                    assert(b[k - first.len()] == second[k - first.len()]);
                }
            }
        }
    }
}

/// Two runs of bytes written one behind the other stand in the stream one
/// behind the other.
pub proof fn lemma_layout(head: Seq<u8>, rest: Seq<u8>)
    ensures
        holds_at(head + rest, 0, head),
        holds_at(head + rest, head.len() as int, rest),
{
    let data = head + rest;
    assert(data.subrange(0, data.len() as int) =~= data);
    lemma_holds_at_concat(data, 0, head, rest);
}

/// What was written as a 16-bit integer is read back as that integer.
pub proof fn lemma_u16_roundtrip(data: Seq<u8>, pos: int, v: u16)
    requires
        holds_at(data, pos, u16_bytes(v)),
    ensures
        u16_at(data, pos) == v,
{
    let w = data.subrange(pos, pos + 2);
    assert(w == u16_bytes(v));
    let low: u16 = v % 0x100;
    let high: u16 = v / 0x100;
    assert(low < 0x100 && high < 0x100 && low + high * 0x100 == v) by (bit_vector)
        requires
            low == v % 0x100,
            high == v / 0x100,
    ;
    assert(data[pos] == w[0] && w[0] == low as u8);
    assert(data[pos + 1] == w[1] && w[1] == high as u8);
}

/// What was written as a 24-bit integer is read back as its low 24 bits.
pub proof fn lemma_u24_roundtrip(data: Seq<u8>, pos: int, v: u32)
    requires
        holds_at(data, pos, u24_bytes(v)),
    ensures
        u24_at(data, pos) == v % 0x100_0000,
{
    let w = data.subrange(pos, pos + 3);
    assert(w == u24_bytes(v));
    let b0: u32 = v % 0x100;
    let b1: u32 = v / 0x100 % 0x100;
    let b2: u32 = v / 0x1_0000 % 0x100;
    assert(b0 < 0x100 && b1 < 0x100 && b2 < 0x100 && b0 + b1 * 0x100 + b2 * 0x1_0000 == v
        % 0x100_0000) by (bit_vector)
        requires
            b0 == v % 0x100,
            b1 == v / 0x100 % 0x100,
            b2 == v / 0x1_0000 % 0x100,
    ;
    assert(data[pos] == w[0] && w[0] == b0 as u8);
    assert(data[pos + 1] == w[1] && w[1] == b1 as u8);
    assert(data[pos + 2] == w[2] && w[2] == b2 as u8);
}

/// What was written as a 32-bit integer is read back as that integer.
pub proof fn lemma_u32_roundtrip(data: Seq<u8>, pos: int, v: u32)
    requires
        holds_at(data, pos, u32_bytes(v)),
    ensures
        u32_at(data, pos) == v,
{
    let w = data.subrange(pos, pos + 4);
    assert(w == u32_bytes(v));
    let b0: u32 = v % 0x100;
    let b1: u32 = v / 0x100 % 0x100;
    let b2: u32 = v / 0x1_0000 % 0x100;
    let b3: u32 = v / 0x100_0000;
    assert(b0 < 0x100 && b1 < 0x100 && b2 < 0x100 && b3 < 0x100 && b0 + b1 * 0x100 + b2
        * 0x1_0000 + b3 * 0x100_0000 == v) by (bit_vector)
        requires
            b0 == v % 0x100,
            b1 == v / 0x100 % 0x100,
            b2 == v / 0x1_0000 % 0x100,
            b3 == v / 0x100_0000,
    ;
    assert(data[pos] == w[0] && w[0] == b0 as u8);
    assert(data[pos + 1] == w[1] && w[1] == b1 as u8);
    assert(data[pos + 2] == w[2] && w[2] == b2 as u8);
    assert(data[pos + 3] == w[3] && w[3] == b3 as u8);
}

/// What was written as a 64-bit integer is read back as that integer.
pub proof fn lemma_u64_roundtrip(data: Seq<u8>, pos: int, v: u64)
    requires
        holds_at(data, pos, u64_bytes(v)),
    ensures
        u64_at(data, pos) == v,
{
    let low = (v % 0x1_0000_0000) as u32;
    let high = (v / 0x1_0000_0000) as u32;
    lemma_holds_at_concat(data, pos, u32_bytes(low), u32_bytes(high));
    lemma_u32_roundtrip(data, pos, low);
    lemma_u32_roundtrip(data, pos + 4, high);
    assert(u32_at(data, pos) == low && u32_at(data, pos + 4) == high);
    assert(low + high * 0x1_0000_0000 == v);
}

/// A string without a zero byte, written with its terminator, is read back
/// whole, and the cursor then stands behind the terminator.
pub proof fn lemma_cstr_roundtrip(data: Seq<u8>, pos: int, s: Seq<u8>)
    requires
        holds_at(data, pos, s + seq![0u8]),
        forall|k: int| 0 <= k < s.len() ==> s[k] != 0,
    ensures
        cstr_len(data, pos) == s.len(),
        cstr_at(data, pos) == s,
        cstr_end(data, pos) == pos + s.len() + 1,
{
    lemma_holds_at_concat(data, pos, s, seq![0u8]);
    let mid = pos + s.len();
    let head = data.subrange(pos, mid);
    assert forall|k: int| pos <= k < mid implies data[k] != 0 by {
        assert(head[k - pos] == data[k]);
    }
    lemma_cstr_len_step(data, pos, mid);
    let last = data.subrange(mid, mid + 1);
    assert(last[0] == data[mid]);
    assert(cstr_len(data, mid) == 0);
}

} // verus!
