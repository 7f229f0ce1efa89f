//! A seekable, readable byte stream held in memory, and the big-endian
//! decoding of the fixed-size fields read from it.

use vstd::prelude::*;
use vstd::slice::slice_subrange;
use vstd::slice::slice_to_vec;

verus! {

/// Big-endian value of the two bytes of `bytes` that start at `at`.
pub open spec fn be_u16(bytes: Seq<u8>, at: int) -> int {
    bytes[at] as int * 256 + bytes[at + 1] as int
}

/// Big-endian value of the four bytes of `bytes` that start at `at`.
pub open spec fn be_u32(bytes: Seq<u8>, at: int) -> int {
    bytes[at] as int * 16777216 + bytes[at + 1] as int * 65536 + bytes[at + 2] as int * 256
        + bytes[at + 3] as int
}

/// Whether `count` bytes can be read from `bytes` starting at `at`.
pub open spec fn readable(bytes: Seq<u8>, at: int, count: int) -> bool {
    0 <= at && 0 <= count && at + count <= bytes.len()
}

/// The `count` bytes of `bytes` that start at `start`.
pub open spec fn region(bytes: Seq<u8>, start: int, count: int) -> Seq<u8> {
    Seq::new(count as nat, |i: int| bytes[start + i])
}

/// Decodes a big-endian `u16` at `at`, or `None` if fewer than two bytes are left there.
pub fn read_u16_be(bytes: &[u8], at: usize) -> (value: Option<u16>)
    ensures
        value.is_some() <==> readable(bytes@, at as int, 2),
        value.is_some() ==> value.unwrap() as int == be_u16(bytes@, at as int),
{
    if at > bytes.len() || bytes.len() - at < 2 {
        return None;
    }
    let high: u16 = bytes[at] as u16;
    let low: u16 = bytes[at + 1] as u16;
    Some(high * 256 + low)
}

/// Decodes a big-endian `u32` at `at`, or `None` if fewer than four bytes are left there.
pub fn read_u32_be(bytes: &[u8], at: usize) -> (value: Option<u32>)
    ensures
        value.is_some() <==> readable(bytes@, at as int, 4),
        value.is_some() ==> value.unwrap() as int == be_u32(bytes@, at as int),
{
    if at > bytes.len() || bytes.len() - at < 4 {
        return None;
    }
    let b0: u32 = bytes[at] as u32;
    let b1: u32 = bytes[at + 1] as u32;
    let b2: u32 = bytes[at + 2] as u32;
    let b3: u32 = bytes[at + 3] as u32;
    Some(b0 * 16777216 + b1 * 65536 + b2 * 256 + b3)
}

/// Copies the `count` bytes at `at`, or returns `None` if fewer are left there.
pub fn read_bytes(bytes: &[u8], at: usize, count: usize) -> (taken: Option<Vec<u8>>)
    ensures
        taken.is_some() <==> readable(bytes@, at as int, count as int),
        taken.is_some() ==> taken.unwrap()@ == bytes@.subrange(at as int, at + count),
{
    if at > bytes.len() || bytes.len() - at < count {
        return None;
    }
    Some(slice_to_vec(slice_subrange(bytes, at, at + count)))
}

/// An archive's bytes together with a read cursor. The cursor may stand
/// anywhere, also past the end, where nothing is left to read.
pub struct ByteSource {
    data: Vec<u8>,
    pos: u64,
}

impl ByteSource {
    /// All the bytes of the stream, whatever the cursor.
    pub closed spec fn bytes(&self) -> Seq<u8> {
        self.data@
    }

    /// The absolute position of the next byte to read.
    pub closed spec fn cursor(&self) -> int {
        self.pos as int
    }

    /// How many bytes are left between the cursor and the end.
    pub open spec fn left(&self) -> int {
        if self.cursor() <= self.bytes().len() {
            self.bytes().len() - self.cursor()
        } else {
            0
        }
    }

    /// A stream over `data` with the cursor at byte 0.
    pub fn new(data: Vec<u8>) -> (source: ByteSource)
        ensures
            source.bytes() == data@,
            source.cursor() == 0,
    {
        ByteSource { data, pos: 0 }
    }

    /// The whole content as a slice.
    pub fn as_slice(&self) -> (slice: &[u8])
        ensures
            slice@ == self.bytes(),
    {
        self.data.as_slice()
    }

    /// The total length of the stream in bytes.
    pub fn len(&self) -> (length: usize)
        ensures
            length == self.bytes().len(),
    {
        self.data.len()
    }

    /// The cursor's absolute position.
    pub fn position(&self) -> (position: u64)
        ensures
            position as int == self.cursor(),
    {
        self.pos
    }

    /// Moves the cursor to the absolute position `position`; the bytes stay.
    pub fn seek(&mut self, position: u64)
        ensures
            final(self).bytes() == old(self).bytes(),
            final(self).cursor() == position as int,
    {
        self.pos = position;
    }

    /// The number of bytes left to read.
    pub fn remaining(&self) -> (count: u64)
        ensures
            count as int == self.left(),
    {
        let length: u64 = self.data.len() as u64;
        if self.pos <= length {
            length - self.pos
        } else {
            0
        }
    }
}

} // verus!
