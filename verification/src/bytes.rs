//! Integers in byte order, and an in-memory source of bytes with a read
//! position.

use byteorder::{BigEndian, ByteOrder, LittleEndian};
use vstd::arithmetic::div_mod::lemma_fundamental_div_mod_converse;
use vstd::prelude::*;
use vstd::slice::slice_subrange;

use crate::error::MpqError;

verus! {

/// The 16-bit value whose little-endian form is the first two bytes of `b`.
pub open spec fn le_u16(b: Seq<u8>) -> u16 {
    (b[0] + b[1] * 0x100) as u16
}

/// The 32-bit value whose little-endian form is the first four bytes of `b`.
pub open spec fn le_u32(b: Seq<u8>) -> u32 {
    (b[0] + b[1] * 0x100 + b[2] * 0x1_0000 + b[3] * 0x100_0000) as u32
}

/// The 32-bit value whose big-endian form is the first four bytes of `b`.
pub open spec fn be_u32(b: Seq<u8>) -> u32 {
    (b[3] + b[2] * 0x100 + b[1] * 0x1_0000 + b[0] * 0x100_0000) as u32
}

/// The four bytes of the little-endian form of `n`.
pub open spec fn le_bytes(n: u32) -> Seq<u8> {
    seq![
        (n % 0x100) as u8,
        (n / 0x100 % 0x100) as u8,
        (n / 0x1_0000 % 0x100) as u8,
        (n / 0x100_0000) as u8,
    ]
}

/// Reading back the little-endian form of a word gives the word.
pub proof fn lemma_le_bytes_read_back(n: u32)
    ensures
        le_bytes(n).len() == 4,
        le_u32(le_bytes(n)) == n,
{
}

/// Writing out the word read from four bytes gives the four bytes.
pub proof fn lemma_le_u32_write_back(b: Seq<u8>)
    requires
        b.len() == 4,
    ensures
        le_bytes(le_u32(b)) =~= b,
{
    let n = le_u32(b) as int;
    let upper2 = b[2] + b[3] * 0x100;
    let upper1 = b[1] + upper2 * 0x100;
    assert(n == b[0] + upper1 * 0x100);
    lemma_fundamental_div_mod_converse(n, 0x100, upper1, b[0] as int);
    lemma_fundamental_div_mod_converse(upper1, 0x100, upper2, b[1] as int);
    lemma_fundamental_div_mod_converse(upper2, 0x100, b[3] as int, b[2] as int);
    assert(n / 0x1_0000 == upper2) by {
        lemma_fundamental_div_mod_converse(n, 0x1_0000, upper2, b[0] + b[1] * 0x100);
    }
    assert(n / 0x100_0000 == b[3]) by {
        lemma_fundamental_div_mod_converse(
            n,
            0x100_0000,
            b[3] as int,
            b[0] + b[1] * 0x100 + b[2] * 0x1_0000,
        );
    }
}

/// `byteorder::LittleEndian::read_u16`, which panics on fewer than two
/// bytes: the value of the first two bytes of `buf`, low byte first.
#[verifier::external_body]
fn read_u16_le(buf: &[u8]) -> (n: u16)
    requires
        buf@.len() >= 2,
    ensures
        n == le_u16(buf@),
{
    LittleEndian::read_u16(buf)
}

/// `byteorder::LittleEndian::read_u32`, which panics on fewer than four
/// bytes: the value of the first four bytes of `buf`, low byte first.
#[verifier::external_body]
fn read_u32_le(buf: &[u8]) -> (n: u32)
    requires
        buf@.len() >= 4,
    ensures
        n == le_u32(buf@),
{
    LittleEndian::read_u32(buf)
}

/// `byteorder::BigEndian::read_u32`, which panics on fewer than four bytes:
/// the value of the first four bytes of `buf`, high byte first.
#[verifier::external_body]
fn read_u32_be(buf: &[u8]) -> (n: u32)
    requires
        buf@.len() >= 4,
    ensures
        n == be_u32(buf@),
{
    BigEndian::read_u32(buf)
}

/// `byteorder::LittleEndian::write_u32` into a fresh buffer of four bytes:
/// the bytes of `n`, low byte first.
#[verifier::external_body]
fn write_u32_le(n: u32) -> (out: [u8; 4])
    ensures
        out@ == le_bytes(n),
{
    let mut out = [0u8; 4];
    LittleEndian::write_u32(&mut out, n);
    out
}

/// The little-endian word that starts at byte `at` of `buf`.
pub fn u32_le_at(buf: &[u8], at: usize) -> (n: u32)
    requires
        at + 4 <= buf.len(),
    ensures
        n == le_u32(buf@.subrange(at as int, at + 4)),
{
    read_u32_le(slice_subrange(buf, at, at + 4))
}

/// Appends the little-endian form of `n` to `out`.
pub fn push_u32_le(out: &mut Vec<u8>, n: u32)
    ensures
        final(out)@ == old(out)@ + le_bytes(n),
{
    let bytes = write_u32_le(n);
    out.push(bytes[0]);
    out.push(bytes[1]);
    out.push(bytes[2]);
    out.push(bytes[3]);
    proof {
        assert(out@ =~= old(out)@ + le_bytes(n));
    }
}

/// A sequence of bytes with a read position, in memory. The position may
/// lie past the end; nothing can be read there.
pub struct ByteSource {
    pub data: Vec<u8>,
    pub pos: usize,
}

impl ByteSource {
    /// The bytes from the read position to the end.
    pub open spec fn rest(&self) -> Seq<u8> {
        if self.pos <= self.data@.len() {
            self.data@.subrange(self.pos as int, self.data@.len() as int)
        } else {
            Seq::empty()
        }
    }

    /// A source over `data`, positioned at its first byte.
    pub fn new(data: Vec<u8>) -> (source: ByteSource)
        ensures
            source.data@ == data@,
            source.pos == 0,
    {
        ByteSource { data, pos: 0 }
    }

    /// Moves the read position to `pos`, counted from the first byte.
    pub fn seek(&mut self, pos: usize)
        ensures
            final(self).data@ == old(self).data@,
            final(self).pos == pos,
    {
        self.pos = pos;
    }

    /// Number of bytes from the read position to the end.
    pub fn remaining(&self) -> (n: usize)
        ensures
            n == self.rest().len(),
    {
        if self.pos <= self.data.len() {
            self.data.len() - self.pos
        } else {
            0
        }
    }

    /// Reads a little-endian `u16` and moves past it; `Truncated`, with the
    /// position kept, if fewer than two bytes are left.
    pub fn read_u16_le(&mut self) -> (out: Result<u16, MpqError>)
        ensures
            final(self).data@ == old(self).data@,
            old(self).rest().len() >= 2 ==> out == Ok::<u16, MpqError>(le_u16(old(self).rest()))
                && final(self).pos == old(self).pos + 2,
            old(self).rest().len() < 2 ==> out == Err::<u16, MpqError>(MpqError::Truncated)
                && final(self).pos == old(self).pos,
    {
        if self.remaining() < 2 {
            return Err(MpqError::Truncated);
        }
        let at = self.pos;
        assert(at + 2 <= self.data.len());
        let n = read_u16_le(slice_subrange(self.data.as_slice(), at, at + 2));
        proof {
            assert(self.data@.subrange(at as int, at + 2).subrange(0, 2) =~= self.rest().subrange(
                0,
                2,
            ));
        }
        self.pos = at + 2;
        Ok(n)
    }

    /// Reads a little-endian `u32` and moves past it; `Truncated`, with the
    /// position kept, if fewer than four bytes are left.
    pub fn read_u32_le(&mut self) -> (out: Result<u32, MpqError>)
        ensures
            final(self).data@ == old(self).data@,
            old(self).rest().len() >= 4 ==> out == Ok::<u32, MpqError>(le_u32(old(self).rest()))
                && final(self).pos == old(self).pos + 4,
            old(self).rest().len() < 4 ==> out == Err::<u32, MpqError>(MpqError::Truncated)
                && final(self).pos == old(self).pos,
    {
        if self.remaining() < 4 {
            return Err(MpqError::Truncated);
        }
        let at = self.pos;
        assert(at + 4 <= self.data.len());
        let n = u32_le_at(self.data.as_slice(), at);
        self.pos = at + 4;
        Ok(n)
    }

    /// Reads a big-endian `u32` and moves past it; `Truncated`, with the
    /// position kept, if fewer than four bytes are left.
    pub fn read_u32_be(&mut self) -> (out: Result<u32, MpqError>)
        ensures
            final(self).data@ == old(self).data@,
            old(self).rest().len() >= 4 ==> out == Ok::<u32, MpqError>(be_u32(old(self).rest()))
                && final(self).pos == old(self).pos + 4,
            old(self).rest().len() < 4 ==> out == Err::<u32, MpqError>(MpqError::Truncated)
                && final(self).pos == old(self).pos,
    {
        if self.remaining() < 4 {
            return Err(MpqError::Truncated);
        }
        let at = self.pos;
        assert(at + 4 <= self.data.len());
        let n = read_u32_be(slice_subrange(self.data.as_slice(), at, at + 4));
        self.pos = at + 4;
        Ok(n)
    }
}

/// Fills `buf` with the next `buf.len()` bytes of the source and moves past
/// them; `Truncated`, with buffer and position kept, if fewer are left.
pub fn read_exact(rdr: &mut ByteSource, buf: &mut Vec<u8>) -> (out: Result<(), MpqError>)
    ensures
        final(rdr).data@ == old(rdr).data@,
        final(buf)@.len() == old(buf)@.len(),
        old(rdr).rest().len() >= old(buf)@.len() ==> {
            &&& out is Ok
            &&& final(buf)@ == old(rdr).rest().take(old(buf)@.len() as int)
            &&& final(rdr).pos == old(rdr).pos + old(buf)@.len()
        },
        old(rdr).rest().len() < old(buf)@.len() ==> out == Err::<(), MpqError>(MpqError::Truncated)
            && final(buf)@ == old(buf)@ && final(rdr).pos == old(rdr).pos,
{
    let to_read = buf.len();
    if rdr.remaining() < to_read {
        return Err(MpqError::Truncated);
    }
    if to_read == 0 {
        proof {
            assert(buf@ =~= old(rdr).rest().take(0));
        }
        return Ok(());
    }
    let start = rdr.pos;
    assert(start + to_read <= rdr.data.len());
    let mut offset: usize = 0;
    while offset < to_read
        invariant
            offset <= to_read,
            to_read == buf@.len(),
            start + to_read <= rdr.data.len(),
            rdr.pos == start,
            rdr.data@ == old(rdr).data@,
            forall|j: int| 0 <= j < offset ==> buf@[j] == rdr.data@[start + j],
        decreases to_read - offset,
    {
        buf.set(offset, rdr.data[start + offset]);
        offset = offset + 1;
    }
    rdr.pos = start + to_read;
    proof {
        assert(buf@ =~= old(rdr).rest().take(to_read as int));
    }
    Ok(())
}

} // verus!
