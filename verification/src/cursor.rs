//! A bounds-checked sequential reader over a byte buffer, and the
//! mathematical reading of the fixed-width little-endian fields.

use vstd::prelude::*;
use vstd::slice::slice_subrange;
use vstd::slice::slice_to_vec;
use crate::error::DecodeError;
use crate::error::Field;

verus! {

/// The outcome of reading one item at a position: the item and the position
/// after it, or the failure.
pub type Parsed<T> = Result<(T, int), DecodeError>;

/// True when `n` bytes can be read from `s` at `pos`.
pub open spec fn has_bytes(s: Seq<u8>, pos: int, n: int) -> bool {
    0 <= pos && 0 <= n && pos + n <= s.len()
}

/// The unsigned value of the two bytes at `pos`, least significant first.
pub open spec fn le16(s: Seq<u8>, pos: int) -> int {
    s[pos] as int + 0x100 * (s[pos + 1] as int)
}

/// The unsigned value of the four bytes at `pos`, least significant first.
pub open spec fn le32(s: Seq<u8>, pos: int) -> int {
    le16(s, pos) + 0x1_0000 * le16(s, pos + 2)
}

/// The unsigned value of the eight bytes at `pos`, least significant first.
pub open spec fn le64(s: Seq<u8>, pos: int) -> int {
    le32(s, pos) + 0x1_0000_0000 * le32(s, pos + 4)
}

/// One byte at `pos`.
pub open spec fn take_u8(s: Seq<u8>, pos: int, field: Field) -> Parsed<u8> {
    if has_bytes(s, pos, 1) {
        Ok((s[pos], pos + 1))
    } else {
        Err(DecodeError::TruncatedInput { field })
    }
}

/// A 16-bit little-endian value at `pos`.
pub open spec fn take_u16(s: Seq<u8>, pos: int, field: Field) -> Parsed<u16> {
    if has_bytes(s, pos, 2) {
        Ok((le16(s, pos) as u16, pos + 2))
    } else {
        Err(DecodeError::TruncatedInput { field })
    }
}

/// A 32-bit little-endian value at `pos`.
pub open spec fn take_u32(s: Seq<u8>, pos: int, field: Field) -> Parsed<u32> {
    if has_bytes(s, pos, 4) {
        Ok((le32(s, pos) as u32, pos + 4))
    } else {
        Err(DecodeError::TruncatedInput { field })
    }
}

/// A 64-bit little-endian value at `pos`.
pub open spec fn take_u64(s: Seq<u8>, pos: int, field: Field) -> Parsed<u64> {
    if has_bytes(s, pos, 8) {
        Ok((le64(s, pos) as u64, pos + 8))
    } else {
        Err(DecodeError::TruncatedInput { field })
    }
}

/// The `n` bytes at `pos`.
pub open spec fn take_bytes(s: Seq<u8>, pos: int, n: int, field: Field) -> Parsed<Seq<u8>> {
    if has_bytes(s, pos, n) {
        Ok((s.subrange(pos, pos + n), pos + n))
    } else {
        Err(DecodeError::TruncatedInput { field })
    }
}

/// True when `r` is the item `value` and the position `end` after it.
pub open spec fn gives<T>(r: Parsed<T>, value: T, end: int) -> bool {
    r == Ok::<(T, int), DecodeError>((value, end))
}

/// True when `r` is the failure `e`.
pub open spec fn fails<T>(r: Parsed<T>, e: DecodeError) -> bool {
    r == Err::<(T, int), DecodeError>(e)
}

/// A read's result, paired with the position that the read left.
pub open spec fn reading<T>(r: Result<T, DecodeError>, end: int) -> Parsed<T> {
    match r {
        Ok(v) => Ok((v, end)),
        Err(e) => Err(e),
    }
}

/// A position in an immutable byte buffer. Every read checks the bytes that
/// remain before it advances; a failed read leaves the position unchanged.
pub struct ByteCursor<'a> {
    bytes: &'a [u8],
    position: usize,
}

impl<'a> ByteCursor<'a> {
    /// The buffer that is being read.
    pub closed spec fn buffer(&self) -> Seq<u8> {
        self.bytes@
    }

    /// The number of bytes consumed so far.
    pub closed spec fn offset(&self) -> int {
        self.position as int
    }

    #[verifier::type_invariant]
    spec fn in_bounds(&self) -> bool {
        self.position <= self.bytes@.len()
    }

    /// A cursor at the start of `bytes`.
    pub fn new(bytes: &'a [u8]) -> (cursor: Self)
        ensures
            cursor.buffer() == bytes@,
            cursor.offset() == 0,
    {
        ByteCursor { bytes, position: 0 }
    }

    /// The number of bytes not yet consumed.
    pub fn remaining(&self) -> (n: usize)
        ensures
            n == self.buffer().len() - self.offset(),
            0 <= self.offset() <= self.buffer().len(),
    {
        proof {
            use_type_invariant(self);
        }
        self.bytes.len() - self.position
    }

    /// The number of bytes consumed so far.
    pub fn position(&self) -> (n: usize)
        ensures
            n == self.offset(),
            0 <= self.offset() <= self.buffer().len(),
    {
        proof {
            use_type_invariant(self);
        }
        self.position
    }

    /// The byte `ahead` places after the position, if the buffer has one
    /// there. The position does not move.
    pub fn peek(&self, ahead: usize) -> (r: Option<u8>)
        ensures
            0 <= self.offset() <= self.buffer().len(),
            r == if self.offset() + ahead < self.buffer().len() {
                Some(self.buffer()[self.offset() + ahead])
            } else {
                None
            },
    {
        proof {
            use_type_invariant(self);
        }
        if ahead < self.bytes.len() - self.position {
            Some(self.bytes[self.position + ahead])
        } else {
            None
        }
    }

    /// Moves past `n` bytes when that many remain, and says whether it did.
    pub fn skip(&mut self, n: usize) -> (moved: bool)
        ensures
            final(self).buffer() == old(self).buffer(),
            moved == has_bytes(old(self).buffer(), old(self).offset(), n as int),
            final(self).offset() == if moved {
                old(self).offset() + n
            } else {
                old(self).offset()
            },
    {
        proof {
            use_type_invariant(&*self);
        }
        if n <= self.bytes.len() - self.position {
            self.position = self.position + n;
            true
        } else {
            false
        }
    }

    /// Reads one byte.
    pub fn read_u8(&mut self, field: Field) -> (r: Result<u8, DecodeError>)
        ensures
            final(self).buffer() == old(self).buffer(),
            reading(r, final(self).offset()) == take_u8(
                old(self).buffer(),
                old(self).offset(),
                field,
            ),
            r is Err ==> final(self).offset() == old(self).offset(),
    {
        proof {
            use_type_invariant(&*self);
        }
        if self.bytes.len() - self.position < 1 {
            return Err(DecodeError::TruncatedInput { field });
        }
        let v = self.bytes[self.position];
        self.position = self.position + 1;
        Ok(v)
    }

    /// Reads a 16-bit little-endian value.
    pub fn read_u16_le(&mut self, field: Field) -> (r: Result<u16, DecodeError>)
        ensures
            final(self).buffer() == old(self).buffer(),
            reading(r, final(self).offset()) == take_u16(
                old(self).buffer(),
                old(self).offset(),
                field,
            ),
            r is Err ==> final(self).offset() == old(self).offset(),
    {
        proof {
            use_type_invariant(&*self);
        }
        if self.bytes.len() - self.position < 2 {
            return Err(DecodeError::TruncatedInput { field });
        }
        let b0 = self.bytes[self.position] as u16;
        let b1 = self.bytes[self.position + 1] as u16;
        self.position = self.position + 2;
        Ok(b0 + 0x100 * b1)
    }

    /// The 32-bit little-endian value of the four bytes at `at`.
    fn le32_at(&self, at: usize) -> (v: u32)
        requires
            at + 4 <= self.buffer().len(),
        ensures
            v == le32(self.buffer(), at as int),
    {
        let b0 = self.bytes[at] as u32;
        let b1 = self.bytes[at + 1] as u32;
        let b2 = self.bytes[at + 2] as u32;
        let b3 = self.bytes[at + 3] as u32;
        b0 + 0x100 * b1 + 0x1_0000 * b2 + 0x100_0000 * b3
    }

    /// Reads a 32-bit little-endian value.
    pub fn read_u32_le(&mut self, field: Field) -> (r: Result<u32, DecodeError>)
        ensures
            final(self).buffer() == old(self).buffer(),
            reading(r, final(self).offset()) == take_u32(
                old(self).buffer(),
                old(self).offset(),
                field,
            ),
            r is Err ==> final(self).offset() == old(self).offset(),
    {
        proof {
            use_type_invariant(&*self);
        }
        if self.bytes.len() - self.position < 4 {
            return Err(DecodeError::TruncatedInput { field });
        }
        let v = self.le32_at(self.position);
        self.position = self.position + 4;
        Ok(v)
    }

    /// Reads a 64-bit little-endian value.
    pub fn read_u64_le(&mut self, field: Field) -> (r: Result<u64, DecodeError>)
        ensures
            final(self).buffer() == old(self).buffer(),
            reading(r, final(self).offset()) == take_u64(
                old(self).buffer(),
                old(self).offset(),
                field,
            ),
            r is Err ==> final(self).offset() == old(self).offset(),
    {
        proof {
            use_type_invariant(&*self);
        }
        if self.bytes.len() - self.position < 8 {
            return Err(DecodeError::TruncatedInput { field });
        }
        let low = self.le32_at(self.position) as u64;
        let high = self.le32_at(self.position + 4) as u64;
        self.position = self.position + 8;
        Ok(low + 0x1_0000_0000 * high)
    }

    /// Reads `len` raw bytes. The length is held against the bytes that
    /// remain before anything is allocated.
    pub fn read_bytes(&mut self, len: u64, field: Field) -> (r: Result<Vec<u8>, DecodeError>)
        ensures
            final(self).buffer() == old(self).buffer(),
            match r {
                Ok(v) => gives(
                    take_bytes(old(self).buffer(), old(self).offset(), len as int, field),
                    v@,
                    final(self).offset(),
                ),
                Err(e) => fails(
                    take_bytes(old(self).buffer(), old(self).offset(), len as int, field),
                    e,
                ),
            },
            r is Err ==> final(self).offset() == old(self).offset(),
    {
        proof {
            use_type_invariant(&*self);
        }
        let left = self.bytes.len() - self.position;
        if len > left as u64 {
            return Err(DecodeError::TruncatedInput { field });
        }
        let end = self.position + len as usize;
        let v = slice_to_vec(slice_subrange(self.bytes, self.position, end));
        self.position = end;
        Ok(v)
    }

    /// Reads 32 raw bytes.
    pub fn read_array_32(&mut self, field: Field) -> (r: Result<[u8; 32], DecodeError>)
        ensures
            final(self).buffer() == old(self).buffer(),
            match r {
                Ok(a) => gives(
                    take_bytes(old(self).buffer(), old(self).offset(), 32, field),
                    a@,
                    final(self).offset(),
                ),
                Err(e) => fails(
                    take_bytes(old(self).buffer(), old(self).offset(), 32, field),
                    e,
                ),
            },
            r is Err ==> final(self).offset() == old(self).offset(),
    {
        proof {
            use_type_invariant(&*self);
        }
        if self.bytes.len() - self.position < 32 {
            return Err(DecodeError::TruncatedInput { field });
        }
        let mut a = [0u8; 32];
        let start = self.position;
        let mut i: usize = 0;
        while i < 32
            invariant
                i <= 32,
                start + 32 <= self.bytes@.len() <= usize::MAX,
                forall|k: int| 0 <= k < i ==> a@[k] == self.bytes@[start + k],
            decreases 32 - i,
        {
            a[i] = self.bytes[start + i];
            i = i + 1;
        }
        self.position = start + 32;
        assert(a@ =~= self.bytes@.subrange(start as int, start + 32));
        Ok(a)
    }
}

} // verus!
