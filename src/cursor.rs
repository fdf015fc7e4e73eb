//! Sequential little-endian reader over an in-memory byte buffer.
use vstd::prelude::*;

verus! {

/// Failures of decoding a container.
#[derive(Debug, Clone, Copy, PartialEq, Eq, Structural)]
pub enum FormatError {
    /// The underlying byte source could not be read.
    IoError,
    /// Fewer bytes remain than a read asked for.
    Truncated { expected: u64, available: u64 },
    /// The header signature is not the format's constant.
    BadMagic,
    /// A seek target lies past the end of the buffer.
    SeekOutOfRange,
    /// Arrays are nested deeper than the configured bound.
    TooDeep,
    /// No tensor carries the requested name.
    TensorNotFound,
}

/// Outcome of a spec-level read: the value and the position after it.
pub type Step<T> = Result<(T, int), FormatError>;

/// Relates an executable result and the cursor position after it to a `Step`.
pub open spec fn outcome<T>(r: Result<T, FormatError>, pos: usize) -> Step<T> {
    match r {
        Ok(v) => Ok((v, pos as int)),
        Err(e) => Err(e),
    }
}

pub open spec fn le_u16(b: Seq<u8>) -> u16 {
    (b[0] as u16) | ((b[1] as u16) << 8u16)
}

pub open spec fn le_u32(b: Seq<u8>) -> u32 {
    (b[0] as u32) | ((b[1] as u32) << 8u32) | ((b[2] as u32) << 16u32) | ((b[3] as u32) << 24u32)
}

pub open spec fn le_u64(b: Seq<u8>) -> u64 {
    (b[0] as u64) | ((b[1] as u64) << 8u64) | ((b[2] as u64) << 16u64) | ((b[3] as u64) << 24u64)
        | ((b[4] as u64) << 32u64) | ((b[5] as u64) << 40u64) | ((b[6] as u64) << 48u64) | ((
    b[7] as u64) << 56u64)
}

/// Little-endian bytes of a 16-bit value.
pub open spec fn u16_bytes(x: u16) -> Seq<u8> {
    seq![(x & 0xff) as u8, ((x >> 8u16) & 0xff) as u8]
}

/// Little-endian bytes of a 32-bit value.
pub open spec fn u32_bytes(x: u32) -> Seq<u8> {
    seq![
        (x & 0xff) as u8,
        ((x >> 8u32) & 0xff) as u8,
        ((x >> 16u32) & 0xff) as u8,
        ((x >> 24u32) & 0xff) as u8,
    ]
}

/// Little-endian bytes of a 64-bit value.
pub open spec fn u64_bytes(x: u64) -> Seq<u8> {
    seq![
        (x & 0xff) as u8,
        ((x >> 8u64) & 0xff) as u8,
        ((x >> 16u64) & 0xff) as u8,
        ((x >> 24u64) & 0xff) as u8,
        ((x >> 32u64) & 0xff) as u8,
        ((x >> 40u64) & 0xff) as u8,
        ((x >> 48u64) & 0xff) as u8,
        ((x >> 56u64) & 0xff) as u8,
    ]
}

/// The error for a read of `n` bytes at `p`.
pub open spec fn short_read(b: Seq<u8>, p: int, n: int) -> FormatError {
    FormatError::Truncated { expected: n as u64, available: (b.len() - p) as u64 }
}

/// The `n` bytes at `p`, or the truncation error.
pub open spec fn bytes_at(b: Seq<u8>, p: int, n: int) -> Step<Seq<u8>> {
    if n <= b.len() - p {
        Ok((b.subrange(p, p + n), p + n))
    } else {
        Err(short_read(b, p, n))
    }
}

pub open spec fn u8_at(b: Seq<u8>, p: int) -> Step<u8> {
    if 1 <= b.len() - p {
        Ok((b[p], p + 1))
    } else {
        Err(short_read(b, p, 1))
    }
}

pub open spec fn u16_at(b: Seq<u8>, p: int) -> Step<u16> {
    if 2 <= b.len() - p {
        Ok((le_u16(b.subrange(p, p + 2)), p + 2))
    } else {
        Err(short_read(b, p, 2))
    }
}

pub open spec fn u32_at(b: Seq<u8>, p: int) -> Step<u32> {
    if 4 <= b.len() - p {
        Ok((le_u32(b.subrange(p, p + 4)), p + 4))
    } else {
        Err(short_read(b, p, 4))
    }
}

pub open spec fn u64_at(b: Seq<u8>, p: int) -> Step<u64> {
    if 8 <= b.len() - p {
        Ok((le_u64(b.subrange(p, p + 8)), p + 8))
    } else {
        Err(short_read(b, p, 8))
    }
}

pub proof fn lemma_u16_bytes(x: u16)
    ensures
        le_u16(u16_bytes(x)) == x,
{
    let b = u16_bytes(x);
    assert(b[0] == (x & 0xff) as u8 && b[1] == ((x >> 8u16) & 0xff) as u8);
    assert(((x & 0xff) as u8 as u16) | ((((x >> 8u16) & 0xff) as u8 as u16) << 8u16) == x)
        by (bit_vector);
}

pub proof fn lemma_u32_bytes(x: u32)
    ensures
        le_u32(u32_bytes(x)) == x,
{
    let b = u32_bytes(x);
    assert(b[0] == (x & 0xff) as u8 && b[1] == ((x >> 8u32) & 0xff) as u8 && b[2] == ((x
        >> 16u32) & 0xff) as u8 && b[3] == ((x >> 24u32) & 0xff) as u8);
    assert(((x & 0xff) as u8 as u32) | ((((x >> 8u32) & 0xff) as u8 as u32) << 8u32) | ((((x
        >> 16u32) & 0xff) as u8 as u32) << 16u32) | ((((x >> 24u32) & 0xff) as u8 as u32)
        << 24u32) == x) by (bit_vector);
}

pub proof fn lemma_u64_bytes(x: u64)
    ensures
        le_u64(u64_bytes(x)) == x,
{
    let b = u64_bytes(x);
    assert(b[0] == (x & 0xff) as u8 && b[1] == ((x >> 8u64) & 0xff) as u8 && b[2] == ((x
        >> 16u64) & 0xff) as u8 && b[3] == ((x >> 24u64) & 0xff) as u8 && b[4] == ((x
        >> 32u64) & 0xff) as u8 && b[5] == ((x >> 40u64) & 0xff) as u8 && b[6] == ((x
        >> 48u64) & 0xff) as u8 && b[7] == ((x >> 56u64) & 0xff) as u8);
    assert(((x & 0xff) as u8 as u64) | ((((x >> 8u64) & 0xff) as u8 as u64) << 8u64) | ((((x
        >> 16u64) & 0xff) as u8 as u64) << 16u64) | ((((x >> 24u64) & 0xff) as u8 as u64)
        << 24u64) | ((((x >> 32u64) & 0xff) as u8 as u64) << 32u64) | ((((x >> 40u64) & 0xff)
        as u8 as u64) << 40u64) | ((((x >> 48u64) & 0xff) as u8 as u64) << 48u64) | ((((x
        >> 56u64) & 0xff) as u8 as u64) << 56u64) == x) by (bit_vector);
}

/// A read position over a borrowed byte buffer.
pub struct ByteCursor<'a> {
    pub data: &'a [u8],
    pub pos: usize,
}

impl<'a> ByteCursor<'a> {
    pub open spec fn wf(&self) -> bool {
        self.pos <= self.data@.len()
    }

    pub fn new(data: &'a [u8]) -> (r: Self)
        ensures
            r.wf(),
            r.data@ == data@,
            r.pos == 0,
    {
        ByteCursor { data, pos: 0 }
    }

    /// Number of bytes left after the position.
    pub fn remaining(&self) -> (r: usize)
        requires
            self.wf(),
        ensures
            r == self.data@.len() - self.pos,
    {
        self.data.len() - self.pos
    }

    /// Moves to an absolute offset, which may be the end of the buffer.
    pub fn seek(&mut self, offset: u64) -> (r: Result<(), FormatError>)
        requires
            old(self).wf(),
        ensures
            final(self).wf(),
            final(self).data@ == old(self).data@,
            offset <= old(self).data@.len() ==> r is Ok && final(self).pos == offset,
            offset > old(self).data@.len() ==> r == Err::<(), FormatError>(
                FormatError::SeekOutOfRange,
            ) && final(self).pos == old(self).pos,
    {
        if offset > self.data.len() as u64 {
            return Err(FormatError::SeekOutOfRange);
        }
        self.pos = offset as usize;
        Ok(())
    }

    /// Takes the next `n` bytes.
    pub fn read_exact(&mut self, n: u64) -> (r: Result<&'a [u8], FormatError>)
        requires
            old(self).wf(),
        ensures
            final(self).wf(),
            final(self).data@ == old(self).data@,
            match r {
                Ok(s) => bytes_at(old(self).data@, old(self).pos as int, n as int) == Ok::<
                    (Seq<u8>, int),
                    FormatError,
                >((s@, final(self).pos as int)),
                Err(e) => bytes_at(old(self).data@, old(self).pos as int, n as int) == Err::<
                    (Seq<u8>, int),
                    FormatError,
                >(e) && final(self).pos == old(self).pos,
            },
    {
        let available = self.data.len() - self.pos;
        if n > available as u64 {
            return Err(FormatError::Truncated { expected: n, available: available as u64 });
        }
        let end = self.pos + n as usize;
        let s = &self.data[self.pos..end];
        self.pos = end;
        Ok(s)
    }

    pub fn read_u8(&mut self) -> (r: Result<u8, FormatError>)
        requires
            old(self).wf(),
        ensures
            final(self).wf(),
            final(self).data@ == old(self).data@,
            outcome(r, final(self).pos) == u8_at(old(self).data@, old(self).pos as int),
    {
        let s = self.read_exact(1)?;
        Ok(s[0])
    }

    pub fn read_u16_le(&mut self) -> (r: Result<u16, FormatError>)
        requires
            old(self).wf(),
        ensures
            final(self).wf(),
            final(self).data@ == old(self).data@,
            outcome(r, final(self).pos) == u16_at(old(self).data@, old(self).pos as int),
    {
        let s = self.read_exact(2)?;
        Ok((s[0] as u16) | ((s[1] as u16) << 8u16))
    }

    pub fn read_u32_le(&mut self) -> (r: Result<u32, FormatError>)
        requires
            old(self).wf(),
        ensures
            final(self).wf(),
            final(self).data@ == old(self).data@,
            outcome(r, final(self).pos) == u32_at(old(self).data@, old(self).pos as int),
    {
        let s = self.read_exact(4)?;
        Ok((s[0] as u32) | ((s[1] as u32) << 8u32) | ((s[2] as u32) << 16u32) | ((s[3] as u32)
            << 24u32))
    }

    pub fn read_u64_le(&mut self) -> (r: Result<u64, FormatError>)
        requires
            old(self).wf(),
        ensures
            final(self).wf(),
            final(self).data@ == old(self).data@,
            outcome(r, final(self).pos) == u64_at(old(self).data@, old(self).pos as int),
    {
        let s = self.read_exact(8)?;
        Ok((s[0] as u64) | ((s[1] as u64) << 8u64) | ((s[2] as u64) << 16u64) | ((s[3] as u64)
            << 24u64) | ((s[4] as u64) << 32u64) | ((s[5] as u64) << 40u64) | ((s[6] as u64)
            << 48u64) | ((s[7] as u64) << 56u64))
    }
}

} // verus!
