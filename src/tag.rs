use crate::error::ParseError;
use crate::light::{Tag, WireType};
use crate::nom_helper::{nom_unsigned_one_byte, Endian};
use vstd::prelude::*;

verus! {

/// The wire type named by the low three bits of a tag byte.
pub open spec fn wire_type_of(value: u8) -> WireType {
    let low = value & 7;
    if low == 0 {
        WireType::VarInt
    } else if low == 1 {
        WireType::Fixed64
    } else if low == 2 {
        WireType::Len
    } else if low == 3 {
        WireType::StartGroup
    } else if low == 4 {
        WireType::EndGroup
    } else if low == 5 {
        WireType::Fixed32
    } else {
        WireType::Unknown
    }
}

/// Number of bytes up to and including the first one whose high bit is
/// clear; `None` when no such byte exists.
pub open spec fn chain_len(s: Seq<u8>) -> Option<nat>
    decreases s.len(),
{
    if s.len() == 0 {
        None
    } else if s[0] < 0x80 {
        Some(1)
    } else {
        match chain_len(s.drop_first()) {
            Some(n) => Some(n + 1),
            None => None,
        }
    }
}

/// `field` multiplied by each byte of `rest` in turn.
pub open spec fn field_product(field: nat, rest: Seq<u8>) -> nat
    decreases rest.len(),
{
    if rest.len() == 0 {
        field
    } else {
        field_product(field, rest.drop_last()) * rest.last() as nat
    }
}

/// The tag at the start of `data` and how many bytes it takes. The field
/// number is the high five bits of the first byte times each later byte of
/// the tag; a tag whose field number exceeds `usize::MAX` is an error.
pub open spec fn spec_tag(data: Seq<u8>) -> Result<(Tag, nat), ParseError> {
    match chain_len(data) {
        None => Err(ParseError::InsufficientBytes),
        Some(n) => {
            let field = field_product((data[0] >> 3) as nat, data.subrange(1, n as int));
            if field > usize::MAX {
                Err(ParseError::FieldOverflow)
            } else {
                Ok(
                    (
                        Tag { tag_byte: data[0], wire_type: wire_type_of(data[0]), field: field as usize },
                        n,
                    ),
                )
            }
        },
    }
}

pub proof fn lemma_chain_len_bounds(s: Seq<u8>)
    ensures
        chain_len(s) matches Some(n) ==> 1 <= n <= s.len() && s[n - 1] < 0x80 && forall|j: int|
            0 <= j < n - 1 ==> s[j] >= 0x80,
    decreases s.len(),
{
    if s.len() > 0 && s[0] >= 0x80 {
        lemma_chain_len_bounds(s.drop_first());
        if let Some(n) = chain_len(s.drop_first()) {
            assert forall|j: int| 0 <= j < n implies s[j] >= 0x80 by {
                if j > 0 {
                    assert(s[j] == s.drop_first()[j - 1]);
                }
            }
        }
    }
}

/// `chain_len` of a buffer whose first `k` bytes have the high bit set.
pub proof fn lemma_chain_len_prefix(s: Seq<u8>, k: nat)
    requires
        k <= s.len(),
        forall|j: int| 0 <= j < k ==> s[j] >= 0x80,
    ensures
        k < s.len() && s[k as int] < 0x80 ==> chain_len(s) == Some(k + 1),
        k == s.len() ==> chain_len(s) is None,
        k < s.len() && s[k as int] >= 0x80 ==> chain_len(s) == match chain_len(s.skip((k + 1) as int)) {
            Some(n) => Some(n + k + 1),
            None => None::<nat>,
        },
    decreases k,
{
    if k > 0 {
        lemma_chain_len_prefix(s.drop_first(), (k - 1) as nat);
        if k < s.len() {
            assert(s.drop_first().skip(k as int) =~= s.skip((k + 1) as int));
        }
    }
}

/// Determines the Protobuf tag at the start of `data`.
pub fn get_tag_type(data: &[u8]) -> (r: Result<(&[u8], Tag), ParseError>)
    ensures
        match r {
            Ok((rest, tag)) => spec_tag(data@) matches Ok((t, n)) && t == tag && rest@ == data@.skip(
                n as int,
            ),
            Err(e) => spec_tag(data@) == Err::<(Tag, nat), ParseError>(e),
        },
{
    proof {
        reveal_with_fuel(chain_len, 2);
    }
    let (mut input, tag_byte) = nom_unsigned_one_byte(data, Endian::Le)?;
    let field_number: u8 = 3;
    let field = (tag_byte >> field_number) as usize;
    assert(data@.take(1)[0] == tag_byte);
    let mut tag = Tag { tag_byte, wire_type: get_wire_type(&tag_byte), field };
    let mut check_msb = tag_byte;
    // Set while the product so far exceeds `usize::MAX`; a later zero byte
    // brings it back to 0.
    let mut overflow = false;
    let ghost mut k: nat = 1;
    let ghost mut product: nat = (data@[0] >> 3) as nat;
    assert(data@.subrange(1, 1) =~= seq![]);
    // While the most significant bit is set, the next byte is part of the tag.
    while (check_msb >> 7) & 1 != 0
        invariant
            1 <= k <= data@.len(),
            input@ == data@.skip(k as int),
            check_msb == data@[k - 1],
            forall|j: int| 0 <= j < k - 1 ==> data@[j] >= 0x80,
            tag.tag_byte == data@[0],
            tag.wire_type == wire_type_of(data@[0]),
            product == field_product((data@[0] >> 3) as nat, data@.subrange(1, k as int)),
            overflow ==> product > usize::MAX,
            !overflow ==> product == tag.field,
        decreases data@.len() - k,
    {
        assert(check_msb >= 0x80) by (bit_vector)
            requires
                (check_msb >> 7u8) & 1 != 0,
        ;
        proof {
            lemma_chain_len_prefix(data@, k);
        }
        let (remaining, check) = nom_unsigned_one_byte(input, Endian::Le)?;
        assert(input@.take(1)[0] == check);
        assert(input@[0] == data@[k as int]);
        if check == 0 {
            assert(product * check == 0) by (nonlinear_arith)
                requires
                    check == 0,
            ;
            tag.field = 0;
            overflow = false;
        } else if !overflow {
            match tag.field.checked_mul(check as usize) {
                Some(p) => {
                    assert(p == product * check) by (nonlinear_arith)
                        requires
                            p == tag.field * check,
                            product == tag.field,
                    ;
                    tag.field = p;
                },
                None => {
                    assert(product * check > usize::MAX) by (nonlinear_arith)
                        requires
                            tag.field * check > usize::MAX,
                            product == tag.field,
                    ;
                    overflow = true;
                },
            }
        } else {
            assert(product * check >= product) by (nonlinear_arith)
                requires
                    check >= 1,
            ;
        }
        check_msb = check;
        input = remaining;
        proof {
            assert(data@.subrange(1, (k + 1) as int).drop_last() =~= data@.subrange(1, k as int));
            product = product * check as nat;
            assert(input@ =~= data@.skip((k + 1) as int));
            k = k + 1;
        }
    }
    assert(check_msb < 0x80) by (bit_vector)
        requires
            (check_msb >> 7u8) & 1 == 0,
    ;
    proof {
        lemma_chain_len_prefix(data@, (k - 1) as nat);
    }
    if overflow {
        return Err(ParseError::FieldOverflow);
    }
    Ok((input, tag))
}

/// Determines the tag's wire type from its low three bits.
pub fn get_wire_type(value: &u8) -> (r: WireType)
    ensures
        r == wire_type_of(*value),
{
    let wire: u8 = 7;
    let low = *value & wire;
    if low == 0 {
        WireType::VarInt
    } else if low == 1 {
        WireType::Fixed64
    } else if low == 2 {
        WireType::Len
    } else if low == 3 {
        WireType::StartGroup
    } else if low == 4 {
        WireType::EndGroup
    } else if low == 5 {
        WireType::Fixed32
    } else {
        WireType::Unknown
    }
}

} // verus!
