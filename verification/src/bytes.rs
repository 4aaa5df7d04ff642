use vstd::prelude::*;

use crate::types::VoxError;

verus! {

/// The `u32` whose little-endian bytes are `b0`, `b1`, `b2`, `b3`.
pub open spec fn le_u32(b0: u8, b1: u8, b2: u8, b3: u8) -> u32 {
    (b0 + 256 * b1 + 65536 * b2 + 16777216 * b3) as u32
}

/// The `u32` stored little-endian at `s[i..i + 4]`.
pub open spec fn u32_at(s: Seq<u8>, i: int) -> u32 {
    le_u32(s[i], s[i + 1], s[i + 2], s[i + 3])
}

/// The four little-endian bytes of `v`.
pub open spec fn le_bytes(v: u32) -> Seq<u8> {
    seq![(v % 256) as u8, ((v / 256) % 256) as u8, ((v / 65536) % 256) as u8, (v / 16777216) as u8]
}

/// The `i32` whose two's-complement bits are `v`.
pub open spec fn i32_from_bits(v: u32) -> i32 {
    if v < 0x8000_0000 {
        v as i32
    } else {
        (v - 0x1_0000_0000) as i32
    }
}

/// Law: reading back the little-endian bytes of a `u32` gives the `u32`.
pub proof fn le_bytes_round_trip(v: u32)
    ensures
        u32_at(le_bytes(v), 0) == v,
        le_bytes(v).len() == 4,
{
    let s = le_bytes(v);
    assert(s[0] + 256 * s[1] + 65536 * s[2] + 16777216 * s[3] == v) by (nonlinear_arith)
        requires
            s[0] == v % 256,
            s[1] == (v / 256) % 256,
            s[2] == (v / 65536) % 256,
            s[3] == v / 16777216,
            v < 0x1_0000_0000,
    {
    }
}

/// Law: the little-endian bytes of the `u32` stored in four bytes are those bytes.
pub proof fn u32_at_round_trip(s: Seq<u8>)
    requires
        s.len() == 4,
    ensures
        le_bytes(u32_at(s, 0)) == s,
{
    let v: int = s[0] + 256 * s[1] + 65536 * s[2] + 16777216 * s[3];
    assert(0 <= v < 0x1_0000_0000);
    assert(v % 256 == s[0] && (v / 256) % 256 == s[1] && (v / 65536) % 256 == s[2]
        && v / 16777216 == s[3]) by (nonlinear_arith)
        requires
            v == s[0] + 256 * s[1] + 65536 * s[2] + 16777216 * s[3],
            0 <= s[0] < 256,
            0 <= s[1] < 256,
            0 <= s[2] < 256,
            0 <= s[3] < 256,
    {
    }
    assert(le_bytes(u32_at(s, 0)) =~= s);
}

/// Combines four little-endian bytes into a `u32`.
pub fn chunk_id(bytes: [u8; 4]) -> (id: u32)
    ensures
        id == le_u32(bytes@[0], bytes@[1], bytes@[2], bytes@[3]),
{
    bytes[0] as u32 + (bytes[1] as u32) * 256 + (bytes[2] as u32) * 65536 + (bytes[3] as u32)
        * 16777216
}

fn u32_from_le(b0: u8, b1: u8, b2: u8, b3: u8) -> (v: u32)
    ensures
        v == le_u32(b0, b1, b2, b3),
{
    b0 as u32 + (b1 as u32) * 256 + (b2 as u32) * 65536 + (b3 as u32) * 16777216
}

/// The `i32` with the two's-complement bits `v`.
pub fn i32_from_u32_bits(v: u32) -> (x: i32)
    ensures
        x == i32_from_bits(v),
{
    if v < 0x8000_0000 {
        v as i32
    } else {
        (v - 0x8000_0000) as i32 + i32::MIN
    }
}

/// Reads little-endian values from an in-memory byte slice.
pub struct ByteReader<'a> {
    data: &'a [u8],
    offset: usize,
}

impl<'a> ByteReader<'a> {
    /// Whether the read position lies inside the data.
    pub closed spec fn wf(&self) -> bool {
        self.offset <= self.data@.len()
    }

    /// The bytes not read yet.
    pub closed spec fn rest(&self) -> Seq<u8> {
        self.data@.subrange(self.offset as int, self.data@.len() as int)
    }

    /// Starts reading at the first byte of `data`.
    pub fn new(data: &'a [u8]) -> (reader: Self)
        ensures
            reader.wf(),
            reader.rest() == data@,
    {
        let reader = ByteReader { data, offset: 0 };
        assert(reader.rest() =~= data@);
        reader
    }

    /// The number of bytes not read yet.
    pub fn remaining(&self) -> (n: usize)
        requires
            self.wf(),
        ensures
            n == self.rest().len(),
    {
        self.data.len() - self.offset
    }

    /// Reads the next `len` bytes.
    pub fn read_exact(&mut self, len: usize) -> (bytes: Result<&'a [u8], VoxError>)
        requires
            old(self).wf(),
        ensures
            final(self).wf(),
            len <= old(self).rest().len() ==> (bytes matches Ok(b) && b@ == old(self).rest().take(
                len as int,
            ) && final(self).rest() == old(self).rest().skip(len as int)),
            len > old(self).rest().len() ==> bytes == Err::<&[u8], VoxError>(VoxError::UnexpectedEof)
                && final(self).rest() == old(self).rest(),
    {
        if self.remaining() < len {
            return Err(VoxError::UnexpectedEof);
        }
        let start = self.offset;
        let total = self.data.len();
        assert(start + len <= total);
        self.offset = self.offset + len;
        let bytes = &self.data[start..start + len];
        assert(bytes@ =~= old(self).rest().take(len as int));
        assert(self.rest() =~= old(self).rest().skip(len as int));
        Ok(bytes)
    }

    /// Reads a little-endian `u32`.
    pub fn read_u32(&mut self) -> (value: Result<u32, VoxError>)
        requires
            old(self).wf(),
        ensures
            final(self).wf(),
            old(self).rest().len() >= 4 ==> value == Ok::<u32, VoxError>(u32_at(old(self).rest(), 0))
                && final(self).rest() == old(self).rest().skip(4),
            old(self).rest().len() < 4 ==> value == Err::<u32, VoxError>(VoxError::UnexpectedEof),
    {
        let bytes = self.read_exact(4)?;
        Ok(u32_from_le(bytes[0], bytes[1], bytes[2], bytes[3]))
    }

    /// Reads a little-endian `u32`, or returns `None` when no byte is left.
    pub fn read_u32_or_eof(&mut self) -> (value: Result<Option<u32>, VoxError>)
        requires
            old(self).wf(),
        ensures
            final(self).wf(),
            old(self).rest().len() == 0 ==> value == Ok::<Option<u32>, VoxError>(None)
                && final(self).rest() == old(self).rest(),
            old(self).rest().len() >= 4 ==> value == Ok::<Option<u32>, VoxError>(
                Some(u32_at(old(self).rest(), 0)),
            ) && final(self).rest() == old(self).rest().skip(4),
            0 < old(self).rest().len() < 4 ==> value == Err::<Option<u32>, VoxError>(
                VoxError::UnexpectedEof,
            ),
    {
        if self.remaining() == 0 {
            return Ok(None);
        }
        let value = self.read_u32()?;
        Ok(Some(value))
    }

    /// A reader over the next `len` bytes; reading past them, or past the end of
    /// the data, fails.
    pub fn limited(&self, len: usize) -> (reader: LimitedReader<'a>)
        requires
            self.wf(),
        ensures
            reader.wf(),
            reader.avail() == self.rest().take(min_int(len as int, self.rest().len() as int)),
            reader.budget() == len,
    {
        let reader = LimitedReader { data: self.data, offset: self.offset, remaining: len };
        assert(reader.avail() =~= self.rest().take(min_int(len as int, self.rest().len() as int)));
        reader
    }

    /// Skips the next `len` bytes, failing when fewer are left.
    pub fn skip(&mut self, len: usize) -> (r: Result<(), VoxError>)
        requires
            old(self).wf(),
        ensures
            final(self).wf(),
            len <= old(self).rest().len() ==> r is Ok && final(self).rest() == old(self).rest().skip(
                len as int,
            ),
            len > old(self).rest().len() ==> r == Err::<(), VoxError>(VoxError::UnexpectedEof),
    {
        if self.remaining() < len {
            return Err(VoxError::UnexpectedEof);
        }
        let total = self.data.len();
        assert(self.offset + len <= total);
        self.offset = self.offset + len;
        assert(self.rest() =~= old(self).rest().skip(len as int));
        Ok(())
    }
}

/// The smaller of two integers.
pub open spec fn min_int(a: int, b: int) -> int {
    if a <= b {
        a
    } else {
        b
    }
}

/// Reads the payload of one chunk: at most a budget of bytes, and no more than
/// the data holds.
pub struct LimitedReader<'a> {
    data: &'a [u8],
    offset: usize,
    remaining: usize,
}

impl<'a> LimitedReader<'a> {
    /// Whether the read position lies inside the data.
    pub closed spec fn wf(&self) -> bool {
        self.offset <= self.data@.len()
    }

    /// The bytes that can still be read: the rest of the data, cut to the budget.
    pub closed spec fn avail(&self) -> Seq<u8> {
        let end = min_int(self.data@.len() as int, self.offset + self.remaining);
        self.data@.subrange(self.offset as int, end)
    }

    /// The number of bytes the reader may still read.
    pub closed spec fn budget(&self) -> nat {
        self.remaining as nat
    }

    /// Limits reading to `remaining` bytes of `data` from `offset` on.
    pub fn new(data: &'a [u8], offset: usize, remaining: usize) -> (reader: Self)
        requires
            offset <= data@.len(),
        ensures
            reader.wf(),
            reader.budget() == remaining,
            reader.avail() == data@.subrange(
                offset as int,
                min_int(data@.len() as int, offset + remaining),
            ),
    {
        LimitedReader { data, offset, remaining }
    }

    fn available(&self) -> (n: usize)
        requires
            self.wf(),
        ensures
            n == self.avail().len(),
    {
        let in_data = self.data.len() - self.offset;
        if in_data < self.remaining {
            in_data
        } else {
            self.remaining
        }
    }

    /// Reads the next `len` bytes.
    pub fn read_exact(&mut self, len: usize) -> (bytes: Result<&'a [u8], VoxError>)
        requires
            old(self).wf(),
        ensures
            final(self).wf(),
            len <= old(self).avail().len() ==> (bytes matches Ok(b) && b@ == old(self).avail().take(
                len as int,
            ) && final(self).avail() == old(self).avail().skip(len as int) && final(self).budget()
                == old(self).budget() - len),
            len > old(self).avail().len() ==> bytes == Err::<&[u8], VoxError>(VoxError::UnexpectedEof),
    {
        if self.available() < len {
            return Err(VoxError::UnexpectedEof);
        }
        let start = self.offset;
        let total = self.data.len();
        assert(start + len <= total);
        self.offset = self.offset + len;
        self.remaining = self.remaining - len;
        let bytes = &self.data[start..start + len];
        assert(bytes@ =~= old(self).avail().take(len as int));
        assert(self.avail() =~= old(self).avail().skip(len as int));
        Ok(bytes)
    }

    /// Reads one byte.
    pub fn read_u8(&mut self) -> (value: Result<u8, VoxError>)
        requires
            old(self).wf(),
        ensures
            final(self).wf(),
            old(self).avail().len() >= 1 ==> value == Ok::<u8, VoxError>(old(self).avail()[0])
                && final(self).avail() == old(self).avail().skip(1) && final(self).budget()
                == old(self).budget() - 1,
            old(self).avail().len() < 1 ==> value == Err::<u8, VoxError>(VoxError::UnexpectedEof),
    {
        let bytes = self.read_exact(1)?;
        Ok(bytes[0])
    }

    /// Reads a little-endian `u32`.
    pub fn read_u32(&mut self) -> (value: Result<u32, VoxError>)
        requires
            old(self).wf(),
        ensures
            final(self).wf(),
            old(self).avail().len() >= 4 ==> value == Ok::<u32, VoxError>(u32_at(old(self).avail(), 0))
                && final(self).avail() == old(self).avail().skip(4) && final(self).budget()
                == old(self).budget() - 4,
            old(self).avail().len() < 4 ==> value == Err::<u32, VoxError>(VoxError::UnexpectedEof),
    {
        let bytes = self.read_exact(4)?;
        Ok(u32_from_le(bytes[0], bytes[1], bytes[2], bytes[3]))
    }

    /// Reads a little-endian two's-complement `i32`.
    pub fn read_i32(&mut self) -> (value: Result<i32, VoxError>)
        requires
            old(self).wf(),
        ensures
            final(self).wf(),
            old(self).avail().len() >= 4 ==> value == Ok::<i32, VoxError>(
                i32_from_bits(u32_at(old(self).avail(), 0)),
            ) && final(self).avail() == old(self).avail().skip(4) && final(self).budget()
                == old(self).budget() - 4,
            old(self).avail().len() < 4 ==> value == Err::<i32, VoxError>(VoxError::UnexpectedEof),
    {
        let bits = self.read_u32()?;
        Ok(i32_from_u32_bits(bits))
    }

    /// Reads a `u32` length followed by that many bytes.
    pub fn read_bytes_with_length(&mut self) -> (bytes: Result<&'a [u8], VoxError>)
        requires
            old(self).wf(),
        ensures
            final(self).wf(),
            match length_prefixed(old(self).avail()) {
                Some((s, n)) => bytes matches Ok(b) && b@ == s && final(self).avail() == old(
                    self,
                ).avail().skip(n) && final(self).budget() == old(self).budget() - n,
                None => bytes == Err::<&[u8], VoxError>(VoxError::UnexpectedEof),
            },
    {
        let len = self.read_u32()?;
        let ghost after_len = self.avail();
        let bytes = self.read_exact(len as usize)?;
        assert(old(self).avail().subrange(4, 4 + len) =~= after_len.take(len as int));
        assert(self.avail() =~= old(self).avail().skip(4 + len));
        Ok(bytes)
    }

    /// Skips what is left of the budget, failing when the data ends first.
    pub fn skip_remaining(&mut self) -> (r: Result<(), VoxError>)
        requires
            old(self).wf(),
        ensures
            old(self).avail().len() == old(self).budget() ==> r is Ok,
            old(self).avail().len() < old(self).budget() ==> r == Err::<(), VoxError>(
                VoxError::UnexpectedEof,
            ),
    {
        let remaining = self.remaining;
        self.read_exact(remaining)?;
        Ok(())
    }
}

/// A `u32` length followed by that many bytes at the start of `s`: the bytes and
/// the number of bytes taken in all, or `None` when `s` ends first.
pub open spec fn length_prefixed(s: Seq<u8>) -> Option<(Seq<u8>, int)> {
    if s.len() < 4 {
        None
    } else {
        let n = u32_at(s, 0) as int;
        if 4 + n <= s.len() {
            Some((s.subrange(4, 4 + n), 4 + n))
        } else {
            None
        }
    }
}

/// Collects little-endian output.
pub struct ByteWriter {
    data: Vec<u8>,
}

impl ByteWriter {
    /// The bytes written so far.
    pub closed spec fn bytes(&self) -> Seq<u8> {
        self.data@
    }

    /// Starts with no bytes.
    pub fn new() -> (writer: Self)
        ensures
            writer.bytes() == Seq::<u8>::empty(),
    {
        ByteWriter { data: Vec::new() }
    }

    /// The number of bytes written so far.
    pub fn len(&self) -> (n: usize)
        ensures
            n == self.bytes().len(),
    {
        self.data.len()
    }

    /// Hands out the bytes written.
    pub fn into_inner(self) -> (data: Vec<u8>)
        ensures
            data@ == self.bytes(),
    {
        self.data
    }

    /// Appends one byte.
    pub fn write_u8(&mut self, value: u8)
        ensures
            final(self).bytes() == old(self).bytes().push(value),
    {
        self.data.push(value);
    }

    /// Appends the little-endian bytes of `value`.
    pub fn write_u32(&mut self, value: u32)
        ensures
            final(self).bytes() == old(self).bytes() + le_bytes(value),
    {
        self.data.push((value % 256) as u8);
        self.data.push(((value / 256) % 256) as u8);
        self.data.push(((value / 65536) % 256) as u8);
        self.data.push((value / 16777216) as u8);
        assert(self.data@ =~= old(self).bytes() + le_bytes(value));
    }

    /// Appends `value`.
    pub fn write_bytes(&mut self, value: &[u8])
        ensures
            final(self).bytes() == old(self).bytes() + value@,
    {
        let mut index: usize = 0;
        while index < value.len()
            invariant
                index <= value@.len(),
                self.data@ == old(self).bytes() + value@.take(index as int),
            decreases value@.len() - index,
        {
            self.data.push(value[index]);
            index += 1;
            assert(self.data@ =~= old(self).bytes() + value@.take(index as int));
        }
        assert(value@.take(index as int) =~= value@);
    }

    /// Appends the length of `value` as a `u32`, then `value`.
    pub fn write_string(&mut self, value: &[u8]) -> (r: Result<(), VoxError>)
        ensures
            value@.len() <= u32::MAX ==> r is Ok && final(self).bytes() == old(self).bytes()
                + le_bytes(value@.len() as u32) + value@,
            value@.len() > u32::MAX ==> (r matches Err(VoxError::InvalidData(_)) && final(self).bytes()
                == old(self).bytes()),
    {
        if value.len() > 0xffff_ffff {
            return Err(VoxError::InvalidData("string length exceeds u32".to_string()));
        }
        self.write_u32(value.len() as u32);
        self.write_bytes(value);
        Ok(())
    }

    /// Overwrites the four bytes at `offset` with the little-endian bytes of `value`.
    pub fn patch_u32(&mut self, offset: usize, value: u32)
        requires
            offset + 4 <= old(self).bytes().len(),
        ensures
            final(self).bytes() == old(self).bytes().subrange(0, offset as int) + le_bytes(value)
                + old(self).bytes().subrange(offset + 4, old(self).bytes().len() as int),
    {
        let total = self.data.len();
        assert(offset + 4 <= total);
        self.data.set(offset, (value % 256) as u8);
        self.data.set(offset + 1, ((value / 256) % 256) as u8);
        self.data.set(offset + 2, ((value / 65536) % 256) as u8);
        self.data.set(offset + 3, (value / 16777216) as u8);
        assert(self.data@ =~= old(self).bytes().subrange(0, offset as int) + le_bytes(value)
            + old(self).bytes().subrange(offset + 4, old(self).bytes().len() as int));
    }

    /// Starts a chunk: writes its id and two placeholder sizes, and returns the
    /// offset of the chunk.
    pub fn begin_chunk(&mut self, id: u32) -> (offset: usize)
        ensures
            offset == old(self).bytes().len(),
            final(self).bytes() == old(self).bytes() + le_bytes(id) + le_bytes(0) + le_bytes(0),
    {
        let offset = self.data.len();
        self.write_u32(id);
        self.write_u32(0);
        self.write_u32(0);
        offset
    }

    /// Ends the chunk begun at `offset`: stores the size of what follows its
    /// header in its content-size field.
    pub fn finish_chunk(&mut self, offset: usize) -> (r: Result<(), VoxError>)
        requires
            offset + CHUNK_HEADER_LEN <= old(self).bytes().len(),
        ensures
            final(self).bytes().len() == old(self).bytes().len(),
            old(self).bytes().len() - offset - CHUNK_HEADER_LEN <= u32::MAX ==> r is Ok
                && final(self).bytes() == old(self).bytes().subrange(0, offset + 4) + le_bytes(
                (old(self).bytes().len() - offset - CHUNK_HEADER_LEN) as u32,
            ) + old(self).bytes().subrange(offset + 8, old(self).bytes().len() as int),
            old(self).bytes().len() - offset - CHUNK_HEADER_LEN > u32::MAX ==> r
                == Err::<(), VoxError>(VoxError::FileTooLarge),
    {
        let chunk_size = self.data.len() - (offset + CHUNK_HEADER_LEN);
        if chunk_size > 0xffff_ffff {
            return Err(VoxError::FileTooLarge);
        }
        self.patch_u32(offset + 4, chunk_size as u32);
        Ok(())
    }
}

/// The length of a chunk header: id, content size, children size.
pub const CHUNK_HEADER_LEN: usize = 12;

} // verus!
