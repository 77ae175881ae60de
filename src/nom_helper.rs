//! Byte-cursor primitives: fixed-width reads that hand back the value and the
//! bytes that follow it.
use crate::error::ParseError;
use vstd::prelude::*;

verus! {

/// Byte order of a multi-byte read.
#[derive(Debug, Clone, Copy, PartialEq, Eq, Structural)]
pub enum Endian {
    /// Little endian
    Le,
}

/// The unsigned value of little-endian bytes.
pub open spec fn le_value(s: Seq<u8>) -> nat
    decreases s.len(),
{
    if s.len() == 0 {
        0
    } else {
        s[0] as nat + 256 * le_value(s.drop_first())
    }
}

/// An unsigned value of `bits` bits read as two's complement.
pub open spec fn twos_complement(v: nat, bits: nat) -> int {
    if v < pow2(bits) / 2 {
        v as int
    } else {
        v - pow2(bits)
    }
}

pub open spec fn pow2(bits: nat) -> nat
    decreases bits,
{
    if bits == 0 {
        1
    } else {
        2 * pow2((bits - 1) as nat)
    }
}

/// What a read of `width` bytes at the start of `data` yields: the bytes read
/// and the bytes after them.
pub open spec fn split_width(data: Seq<u8>, width: nat) -> Result<(Seq<u8>, Seq<u8>), ParseError> {
    if data.len() < width {
        Err(ParseError::InsufficientBytes)
    } else {
        Ok((data.take(width as int), data.skip(width as int)))
    }
}

proof fn lemma_le4(s: Seq<u8>)
    requires
        s.len() == 4,
    ensures
        le_value(s) == s[0] + 256 * (s[1] + 256 * (s[2] + 256 * s[3] as nat)),
{
    reveal_with_fuel(le_value, 5);
    assert(s.drop_first().drop_first().drop_first().drop_first().len() == 0);
}

proof fn lemma_le8(s: Seq<u8>)
    requires
        s.len() == 8,
    ensures
        le_value(s) == s[0] + 256 * (s[1] + 256 * (s[2] + 256 * (s[3] + 256 * (s[4] + 256 * (s[5]
            + 256 * (s[6] + 256 * s[7] as nat)))))),
{
    lemma_le4(s.skip(4));
    reveal_with_fuel(le_value, 5);
    assert(s.drop_first().drop_first().drop_first().drop_first() =~= s.skip(4));
}

/// Reads one byte.
pub fn nom_unsigned_one_byte(data: &[u8], endian: Endian) -> (r: Result<(&[u8], u8), ParseError>)
    ensures
        match r {
            Ok((rest, v)) => split_width(data@, 1) == Ok::<(Seq<u8>, Seq<u8>), ParseError>(
                (seq![v], rest@),
            ),
            Err(e) => split_width(data@, 1) == Err::<(Seq<u8>, Seq<u8>), ParseError>(e),
        },
{
    if data.len() < 1 {
        return Err(ParseError::InsufficientBytes);
    }
    let v = match endian {
        Endian::Le => data[0],
    };
    let rest = &data[1..data.len()];
    assert(data@.take(1) =~= seq![v]);
    assert(rest@ =~= data@.skip(1));
    Ok((rest, v))
}

/// Reads four bytes as `u32`.
pub fn nom_unsigned_four_bytes(data: &[u8], endian: Endian) -> (r: Result<(&[u8], u32), ParseError>)
    ensures
        match r {
            Ok((rest, v)) => data@.len() >= 4 && v == le_value(data@.take(4)) && rest@ == data@.skip(
                4,
            ),
            Err(e) => data@.len() < 4 && e == ParseError::InsufficientBytes,
        },
{
    if data.len() < 4 {
        return Err(ParseError::InsufficientBytes);
    }
    let v = match endian {
        Endian::Le => data[0] as u32 + 256 * (data[1] as u32 + 256 * (data[2] as u32 + 256
            * data[3] as u32)),
    };
    proof {
        lemma_le4(data@.take(4));
    }
    Ok((&data[4..data.len()], v))
}

/// Reads eight bytes as `u64`.
pub fn nom_unsigned_eight_bytes(data: &[u8], endian: Endian) -> (r: Result<(&[u8], u64), ParseError>)
    ensures
        match r {
            Ok((rest, v)) => data@.len() >= 8 && v == le_value(data@.take(8)) && rest@ == data@.skip(
                8,
            ),
            Err(e) => data@.len() < 8 && e == ParseError::InsufficientBytes,
        },
{
    if data.len() < 8 {
        return Err(ParseError::InsufficientBytes);
    }
    let v = match endian {
        Endian::Le => data[0] as u64 + 256 * (data[1] as u64 + 256 * (data[2] as u64 + 256 * (
        data[3] as u64 + 256 * (data[4] as u64 + 256 * (data[5] as u64 + 256 * (data[6] as u64
            + 256 * data[7] as u64)))))),
    };
    proof {
        lemma_le8(data@.take(8));
    }
    Ok((&data[8..data.len()], v))
}

/// Reads four bytes as `i32` (two's complement).
pub fn nom_signed_four_bytes(data: &[u8], endian: Endian) -> (r: Result<(&[u8], i32), ParseError>)
    ensures
        match r {
            Ok((rest, v)) => data@.len() >= 4 && v == twos_complement(le_value(data@.take(4)), 32)
                && rest@ == data@.skip(4),
            Err(e) => data@.len() < 4 && e == ParseError::InsufficientBytes,
        },
{
    let (rest, u) = nom_unsigned_four_bytes(data, endian)?;
    assert(pow2(32) == 0x1_0000_0000) by {
        reveal_with_fuel(pow2, 33);
    }
    let v: i32 = if u < 0x8000_0000 {
        u as i32
    } else {
        (u - 0x8000_0000) as i32 - 0x4000_0000 - 0x4000_0000
    };
    Ok((rest, v))
}

/// Reads eight bytes as `i64` (two's complement).
pub fn nom_signed_eight_bytes(data: &[u8], endian: Endian) -> (r: Result<(&[u8], i64), ParseError>)
    ensures
        match r {
            Ok((rest, v)) => data@.len() >= 8 && v == twos_complement(le_value(data@.take(8)), 64)
                && rest@ == data@.skip(8),
            Err(e) => data@.len() < 8 && e == ParseError::InsufficientBytes,
        },
{
    let (rest, u) = nom_unsigned_eight_bytes(data, endian)?;
    assert(pow2(64) == 0x1_0000_0000_0000_0000) by {
        reveal_with_fuel(pow2, 65);
    }
    let v: i64 = if u < 0x8000_0000_0000_0000 {
        u as i64
    } else {
        (u - 0x8000_0000_0000_0000) as i64 - 0x4000_0000_0000_0000 - 0x4000_0000_0000_0000
    };
    Ok((rest, v))
}

} // verus!
