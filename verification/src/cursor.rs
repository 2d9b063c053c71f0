//! Bounds-checked sequential reading over an immutable byte buffer.
//!
//! [`ByteCursor`] wraps a borrowed byte slice and a read position.  Every
//! read either returns the requested bytes and advances the position, or
//! fails with [`DecodeError::BufferTooShort`] and leaves the cursor
//! untouched; no read ever goes out of bounds.
//!
//! The spec-level readers ([`spec_read_exact`], [`spec_read_u32`],
//! [`spec_read_u64`], [`spec_skip`]) say exactly what each operation
//! returns; the container model is built from them.

use crate::errors::DecodeError;
use vstd::prelude::*;
use vstd::slice::{slice_index_get, slice_subrange, slice_to_vec};

verus! {

/// The unsigned little-endian value of a byte string: byte `i` carries
/// weight `256^i`.
pub open spec fn le_value(s: Seq<u8>) -> nat
    decreases s.len(),
{
    if s.len() == 0 {
        0
    } else {
        (s[0] as nat) + 256 * le_value(s.subrange(1, s.len() as int))
    }
}

/// `256^n`: the number of byte strings of length `n`, and the bound on
/// their little-endian values.
pub open spec fn pow256(n: nat) -> nat
    decreases n,
{
    if n == 0 {
        1
    } else {
        256 * pow256((n - 1) as nat)
    }
}

/// A little-endian value is bounded by `256^len`.
pub proof fn lemma_le_value_bound(s: Seq<u8>)
    ensures
        le_value(s) < pow256(s.len()),
    decreases s.len(),
{
    if s.len() == 0 {
    } else {
        lemma_le_value_bound(s.subrange(1, s.len() as int));
    }
}

/// `pow256` is monotonic.
pub proof fn lemma_pow256_monotonic(a: nat, b: nat)
    requires
        a <= b,
    ensures
        pow256(a) <= pow256(b),
    decreases b,
{
    if a < b {
        lemma_pow256_monotonic(a, (b - 1) as nat);
        assert(pow256(b) == 256 * pow256((b - 1) as nat));
    }
}

/// The error a read of `requested` bytes reports when only `available`
/// bytes remain.
pub open spec fn too_short(requested: int, available: int) -> DecodeError {
    DecodeError::BufferTooShort { requested: requested as u64, available: available as u64 }
}

/// What reading `n` bytes at `pos` returns: the bytes themselves, or
/// `BufferTooShort` when fewer than `n` remain.
pub open spec fn spec_read_exact(buf: Seq<u8>, pos: int, n: int) -> Result<Seq<u8>, DecodeError> {
    if pos + n <= buf.len() {
        Ok(buf.subrange(pos, pos + n))
    } else {
        Err(too_short(n, buf.len() - pos))
    }
}

/// What reading a little-endian `u32` at `pos` returns.
pub open spec fn spec_read_u32(buf: Seq<u8>, pos: int) -> Result<u32, DecodeError> {
    match spec_read_exact(buf, pos, 4) {
        Ok(bytes) => Ok(le_value(bytes) as u32),
        Err(e) => Err(e),
    }
}

/// What reading a little-endian `u64` at `pos` returns.
pub open spec fn spec_read_u64(buf: Seq<u8>, pos: int) -> Result<u64, DecodeError> {
    match spec_read_exact(buf, pos, 8) {
        Ok(bytes) => Ok(le_value(bytes) as u64),
        Err(e) => Err(e),
    }
}

/// What skipping `n` bytes at `pos` returns: the new position, or
/// `BufferTooShort` when fewer than `n` remain.
pub open spec fn spec_skip(buf: Seq<u8>, pos: int, n: int) -> Result<int, DecodeError> {
    if pos + n <= buf.len() {
        Ok(pos + n)
    } else {
        Err(too_short(n, buf.len() - pos))
    }
}

/// A bounds-checked sequential reader over an immutable byte buffer.
pub struct ByteCursor<'a> {
    buf: &'a [u8],
    pos: usize,
}

impl<'a> ByteCursor<'a> {
    /// The whole underlying buffer.
    pub closed spec fn bytes(&self) -> Seq<u8> {
        self.buf@
    }

    /// The current read position.
    pub closed spec fn position(&self) -> int {
        self.pos as int
    }

    /// The position never runs past the end of the buffer.
    pub open spec fn wf(&self) -> bool {
        0 <= self.position() <= self.bytes().len()
    }

    /// A fresh cursor over `buf`, positioned at the start.
    pub fn new(buf: &'a [u8]) -> (c: ByteCursor<'a>)
        ensures
            c.bytes() == buf@,
            c.position() == 0,
            c.wf(),
    {
        ByteCursor { buf, pos: 0 }
    }

    /// Read the next `n` bytes as a copy and advance past them.
    pub fn read_exact(&mut self, n: u64) -> (r: Result<Vec<u8>, DecodeError>)
        requires
            old(self).wf(),
        ensures
            final(self).wf(),
            final(self).bytes() == old(self).bytes(),
            match spec_read_exact(old(self).bytes(), old(self).position(), n as int) {
                Ok(bytes) => {
                    &&& r matches Ok(v) && v@ == bytes
                    &&& final(self).position() == old(self).position() + n
                },
                Err(e) => r == Err::<Vec<u8>, DecodeError>(e) && *final(self) == *old(self),
            },
    {
        let remaining = self.buf.len() - self.pos;
        if n > remaining as u64 {
            return Err(DecodeError::BufferTooShort { requested: n, available: remaining as u64 });
        }
        let part = slice_subrange(self.buf, self.pos, self.pos + (n as usize));
        let out = slice_to_vec(part);
        self.pos = self.pos + (n as usize);
        Ok(out)
    }

    /// Advance past the next `n` bytes without interpreting them.
    pub fn skip(&mut self, n: u64) -> (r: Result<(), DecodeError>)
        requires
            old(self).wf(),
        ensures
            final(self).wf(),
            final(self).bytes() == old(self).bytes(),
            match spec_skip(old(self).bytes(), old(self).position(), n as int) {
                Ok(new_pos) => r matches Ok(_) && final(self).position() == new_pos,
                Err(e) => r == Err::<(), DecodeError>(e) && *final(self) == *old(self),
            },
    {
        let remaining: u64 = (self.buf.len() - self.pos) as u64;
        if n > remaining {
            return Err(DecodeError::BufferTooShort { requested: n, available: remaining });
        }
        self.pos = self.pos + (n as usize);
        Ok(())
    }

    /// Read up to eight little-endian bytes as an unsigned integer and
    /// advance past them.
    fn read_le_uint(&mut self, n: usize) -> (r: Result<u64, DecodeError>)
        requires
            old(self).wf(),
            n <= 8,
        ensures
            final(self).wf(),
            final(self).bytes() == old(self).bytes(),
            match spec_read_exact(old(self).bytes(), old(self).position(), n as int) {
                Ok(bytes) => {
                    &&& r matches Ok(v) && v == le_value(bytes)
                    &&& final(self).position() == old(self).position() + n
                },
                Err(e) => r == Err::<u64, DecodeError>(e) && *final(self) == *old(self),
            },
    {
        let remaining = self.buf.len() - self.pos;
        if n > remaining {
            return Err(DecodeError::BufferTooShort {
                requested: n as u64,
                available: remaining as u64,
            });
        }
        proof {
            lemma_pow256_small();
        }
        let ghost start = self.pos as int;
        let mut value: u64 = 0;
        let mut i: usize = n;
        while i > 0
            invariant
                self.wf(),
                self.bytes() == old(self).bytes(),
                self.position() == start,
                start + n <= self.bytes().len(),
                start + n <= usize::MAX,
                n <= 8,
                0 <= i <= n,
                value == le_value(self.bytes().subrange(start + i, start + n)),
                pow256(8) == 0x1_0000_0000_0000_0000,
            decreases i,
        {
            i = i - 1;
            let b = *slice_index_get(self.buf, self.pos + i);
            proof {
                let whole = self.bytes().subrange(start + i, start + n);
                let tail = self.bytes().subrange(start + i + 1, start + n);
                assert(whole.subrange(1, whole.len() as int) =~= tail);
                assert(whole[0] == self.bytes()[start + i]);
                assert(le_value(whole) == (whole[0] as nat) + 256 * le_value(tail));
                lemma_le_value_bound(tail);
                lemma_pow256_monotonic(tail.len(), 7);
                lemma_pow256_small();
            }
            value = (b as u64) + 256 * value;
        }
        self.pos = self.pos + n;
        Ok(value)
    }

    /// Read the next four bytes as an unsigned little-endian 32-bit integer
    /// and advance past them.
    pub fn read_u32_le(&mut self) -> (r: Result<u32, DecodeError>)
        requires
            old(self).wf(),
        ensures
            final(self).wf(),
            final(self).bytes() == old(self).bytes(),
            match spec_read_u32(old(self).bytes(), old(self).position()) {
                Ok(v) => {
                    &&& r matches Ok(x) && x == v
                    &&& final(self).position() == old(self).position() + 4
                },
                Err(e) => r == Err::<u32, DecodeError>(e) && *final(self) == *old(self),
            },
    {
        match self.read_le_uint(4) {
            Ok(value) => {
                proof {
                    match spec_read_exact(old(self).bytes(), old(self).position(), 4) {
                        Ok(bytes) => {
                            lemma_le_value_bound(bytes);
                            lemma_pow256_small();
                        },
                        Err(_) => {},
                    }
                }
                Ok(value as u32)
            },
            Err(e) => Err(e),
        }
    }

    /// Read the next eight bytes as an unsigned little-endian 64-bit integer
    /// and advance past them.
    pub fn read_u64_le(&mut self) -> (r: Result<u64, DecodeError>)
        requires
            old(self).wf(),
        ensures
            final(self).wf(),
            final(self).bytes() == old(self).bytes(),
            match spec_read_u64(old(self).bytes(), old(self).position()) {
                Ok(v) => {
                    &&& r matches Ok(x) && x == v
                    &&& final(self).position() == old(self).position() + 8
                },
                Err(e) => r == Err::<u64, DecodeError>(e) && *final(self) == *old(self),
            },
    {
        match self.read_le_uint(8) {
            Ok(value) => {
                proof {
                    match spec_read_exact(old(self).bytes(), old(self).position(), 8) {
                        Ok(bytes) => {
                            lemma_le_value_bound(bytes);
                            lemma_pow256_small();
                        },
                        Err(_) => {},
                    }
                }
                Ok(value)
            },
            Err(e) => Err(e),
        }
    }
}

/// The concrete values of the small powers of 256 the reads rely on.
pub proof fn lemma_pow256_small()
    ensures
        pow256(4) == 0x1_0000_0000,
        pow256(7) == 0x100_0000_0000_0000,
        pow256(8) == 0x1_0000_0000_0000_0000,
{
    assert(pow256(0) == 1);
    assert(pow256(1) == 256);
    assert(pow256(2) == 0x1_0000);
    assert(pow256(3) == 0x100_0000);
    assert(pow256(4) == 0x1_0000_0000);
    assert(pow256(5) == 0x100_0000_0000);
    assert(pow256(6) == 0x1_0000_0000_0000);
    assert(pow256(7) == 0x100_0000_0000_0000);
    assert(pow256(8) == 0x1_0000_0000_0000_0000);
}

} // verus!
