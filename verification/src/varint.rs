//! The compact variable-length unsigned integer: one prefix byte, followed by
//! two, four or eight little-endian bytes when the prefix is 0xfd, 0xfe or
//! 0xff. Any of the four forms is accepted for any value that fits it.

use vstd::prelude::*;
use crate::cursor::reading;
use crate::cursor::take_u16;
use crate::cursor::take_u32;
use crate::cursor::take_u64;
use crate::cursor::take_u8;
use crate::cursor::ByteCursor;
use crate::cursor::Parsed;
use crate::error::DecodeError;
use crate::error::Field;

verus! {

/// A compact integer at `pos`.
#[verifier::opaque]
pub open spec fn take_compact(s: Seq<u8>, pos: int, field: Field) -> Parsed<u64> {
    match take_u8(s, pos, field) {
        Err(e) => Err(e),
        Ok((prefix, next)) => if prefix < 0xfd {
            Ok((prefix as u64, next))
        } else if prefix == 0xfd {
            match take_u16(s, next, field) {
                Err(e) => Err(e),
                Ok((v, end)) => Ok((v as u64, end)),
            }
        } else if prefix == 0xfe {
            match take_u32(s, next, field) {
                Err(e) => Err(e),
                Ok((v, end)) => Ok((v as u64, end)),
            }
        } else {
            take_u64(s, next, field)
        },
    }
}

/// The two little-endian bytes of `v`.
#[verifier::opaque]
pub open spec fn bytes16(v: int) -> Seq<u8> {
    seq![(v % 0x100) as u8, (v / 0x100 % 0x100) as u8]
}

/// The four little-endian bytes of `v`.
#[verifier::opaque]
pub open spec fn bytes32(v: int) -> Seq<u8> {
    bytes16(v % 0x1_0000) + bytes16(v / 0x1_0000 % 0x1_0000)
}

/// The eight little-endian bytes of `v`.
#[verifier::opaque]
pub open spec fn bytes64(v: int) -> Seq<u8> {
    bytes32(v % 0x1_0000_0000) + bytes32(v / 0x1_0000_0000 % 0x1_0000_0000)
}

/// The number of bytes of the shortest compact form of `n`.
pub open spec fn compact_len(n: int) -> int {
    if n < 0xfd {
        1
    } else if n <= 0xffff {
        3
    } else if n <= 0xffff_ffff {
        5
    } else {
        9
    }
}

/// The shortest compact form of `n`.
#[verifier::opaque]
pub open spec fn compact_bytes(n: int) -> Seq<u8> {
    if n < 0xfd {
        seq![n as u8]
    } else if n <= 0xffff {
        seq![0xfdu8] + bytes16(n)
    } else if n <= 0xffff_ffff {
        seq![0xfeu8] + bytes32(n)
    } else {
        seq![0xffu8] + bytes64(n)
    }
}

/// Reads a compact integer. A form longer than the value needs is accepted.
pub fn read_compact(cursor: &mut ByteCursor, field: Field) -> (r: Result<u64, DecodeError>)
    ensures
        final(cursor).buffer() == old(cursor).buffer(),
        reading(r, final(cursor).offset()) == take_compact(
            old(cursor).buffer(),
            old(cursor).offset(),
            field,
        ),
{
    proof {
        reveal(take_compact);
    }
    let prefix = cursor.read_u8(field)?;
    if prefix < 0xfd {
        Ok(prefix as u64)
    } else if prefix == 0xfd {
        Ok(cursor.read_u16_le(field)? as u64)
    } else if prefix == 0xfe {
        Ok(cursor.read_u32_le(field)? as u64)
    } else {
        cursor.read_u64_le(field)
    }
}

/// The length of the shortest compact form of `n`.
pub fn compact_size(n: u64) -> (len: usize)
    ensures
        len == compact_len(n as int),
        len == compact_bytes(n as int).len(),
{
    proof {
        reveal(compact_bytes);
        reveal(bytes16);
        reveal(bytes32);
        reveal(bytes64);
    }
    if n < 0xfd {
        1
    } else if n <= 0xffff {
        3
    } else if n <= 0xffff_ffff {
        5
    } else {
        9
    }
}

} // verus!
