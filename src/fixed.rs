use crate::error::ParseError;
use crate::light::{Fixed32, Fixed64};
use crate::nom_helper::{
    le_value, nom_signed_eight_bytes, nom_signed_four_bytes, nom_unsigned_eight_bytes,
    nom_unsigned_four_bytes, twos_complement, Endian,
};
use vstd::prelude::*;

verus! {

/// A double's bits stand for a finite number (the exponent is not all ones).
pub open spec fn double_is_finite(bits: u64) -> bool {
    (bits >> 52) & 0x7ff != 0x7ff
}

/// A float's bits stand for a finite number (the exponent is not all ones).
pub open spec fn float_is_finite(bits: u32) -> bool {
    (bits >> 23) & 0xff != 0xff
}

/// The three readings of eight little-endian bytes.
pub open spec fn fixed64_of(s: Seq<u8>) -> Fixed64 {
    let u = le_value(s) as u64;
    Fixed64 {
        signed: twos_complement(le_value(s), 64) as i64,
        unsigned: u,
        double_bits: if double_is_finite(u) {
            Some(u)
        } else {
            None
        },
    }
}

/// The three readings of four little-endian bytes.
pub open spec fn fixed32_of(s: Seq<u8>) -> Fixed32 {
    let u = le_value(s) as u32;
    Fixed32 {
        signed: twos_complement(le_value(s), 32) as i32,
        unsigned: u,
        float_bits: if float_is_finite(u) {
            Some(u)
        } else {
            None
        },
    }
}

/// Parses a fixed 8-byte value, read as signed, unsigned and double (the
/// double is the likely meaning).
pub fn parse_fixed64(data: &[u8]) -> (r: Result<(&[u8], Fixed64), ParseError>)
    ensures
        match r {
            Ok((rest, v)) => data@.len() >= 8 && v == fixed64_of(data@.take(8)) && rest@
                == data@.skip(8),
            Err(e) => data@.len() < 8 && e == ParseError::InsufficientBytes,
        },
{
    let (_, signed) = nom_signed_eight_bytes(data, Endian::Le)?;
    let (input, unsigned) = nom_unsigned_eight_bytes(data, Endian::Le)?;
    let double_bits = if (unsigned >> 52) & 0x7ff != 0x7ff {
        Some(unsigned)
    } else {
        None
    };
    Ok((input, Fixed64 { signed, unsigned, double_bits }))
}

/// Parses a fixed 4-byte value, read as signed, unsigned and float (the float
/// is the likely meaning).
pub fn parse_fixed32(data: &[u8]) -> (r: Result<(&[u8], Fixed32), ParseError>)
    ensures
        match r {
            Ok((rest, v)) => data@.len() >= 4 && v == fixed32_of(data@.take(4)) && rest@
                == data@.skip(4),
            Err(e) => data@.len() < 4 && e == ParseError::InsufficientBytes,
        },
{
    let (_, signed) = nom_signed_four_bytes(data, Endian::Le)?;
    let (input, unsigned) = nom_unsigned_four_bytes(data, Endian::Le)?;
    let float_bits = if (unsigned >> 23) & 0xff != 0xff {
        Some(unsigned)
    } else {
        None
    };
    Ok((input, Fixed32 { signed, unsigned, float_bits }))
}

} // verus!
