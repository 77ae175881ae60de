use crate::error::ParseError;
use crate::nom_helper::{nom_unsigned_one_byte, Endian};
use crate::tag::{chain_len, lemma_chain_len_prefix};
use vstd::prelude::*;

verus! {

/// The seven data bits of the `i`-th byte of a varint, in place. Groups past
/// the 64th bit are dropped.
pub open spec fn varint_group(b: u8, i: nat) -> u64 {
    if i < 10 {
        ((b & 0x7f) as u64) << ((7 * i) as u64)
    } else {
        0
    }
}

/// The accumulated groups of the bytes of a varint. The groups never overlap,
/// so this is also their sum.
pub open spec fn varint_bits(s: Seq<u8>) -> u64
    decreases s.len(),
{
    if s.len() == 0 {
        0
    } else {
        varint_bits(s.drop_last()) | varint_group(s.last(), (s.len() - 1) as nat)
    }
}

/// The varint at the start of `data` and how many bytes it takes. An empty
/// buffer reads as 0; a buffer that ends inside a varint is an error.
pub open spec fn spec_varint(data: Seq<u8>) -> Result<(i64, nat), ParseError> {
    if data.len() == 0 {
        Ok((0, 0))
    } else {
        match chain_len(data) {
            Some(n) => Ok((varint_bits(data.take(n as int)) as i64, n)),
            None => Err(ParseError::InsufficientBytes),
        }
    }
}

/// Parses a varint: a number representing one of int32, int64, uint32,
/// uint64, sint32, sint64, bool or enum, without zig-zag decoding.
pub fn parse_var(data: &[u8]) -> (r: Result<(&[u8], i64), ParseError>)
    ensures
        match r {
            Ok((rest, v)) => spec_varint(data@) matches Ok((w, n)) && w == v && rest@ == data@.skip(
                n as int,
            ),
            Err(e) => spec_varint(data@) == Err::<(i64, nat), ParseError>(e),
        },
{
    let mut proto_data = data;
    let mut var_value: u64 = 0;
    let mut shift: usize = 0;
    if data.len() == 0 {
        assert(data@.skip(0) =~= data@);
        return Ok((data, 0));
    }
    assert(data@.take(0) =~= seq![]);
    let len = data.len();
    loop
        invariant_except_break
            forall|j: int| 0 <= j < shift ==> data@[j] >= 0x80,
        invariant
            shift <= data@.len(),
            len == data@.len(),
            data@.len() > 0,
            proto_data@ == data@.skip(shift as int),
            var_value == varint_bits(data@.take(shift as int)),
        ensures
            chain_len(data@) == Some(shift as nat),
        decreases data@.len() - shift,
    {
        proof {
            lemma_chain_len_prefix(data@, shift as nat);
        }
        let (input, value) = nom_unsigned_one_byte(proto_data, Endian::Le)?;
        assert(proto_data@.take(1)[0] == value);
        assert(data@[shift as int] == value);
        assert(shift < data@.len());
        let group: u64 = if shift < 10 {
            ((value & 0x7f) as u64) << ((shift as u64) * 7)
        } else {
            0
        };
        assert(data@.take(shift + 1).drop_last() =~= data@.take(shift as int));
        var_value = var_value | group;
        shift = shift + 1;
        proto_data = input;
        assert(proto_data@ =~= data@.skip(shift as int));
        if (value & 0x80) == 0 {
            assert(value < 0x80) by (bit_vector)
                requires
                    (value & 0x80u8) == 0,
            ;
            break ;
        }
        assert(value >= 0x80) by (bit_vector)
            requires
                (value & 0x80u8) != 0,
        ;
    }
    Ok((proto_data, #[verifier::truncate] (var_value as i64)))
}

} // verus!
