use crate::encoding::{base64_encode_standard, base64_of};
use crate::error::ParseError;
use crate::fixed::{fixed32_of, fixed64_of, parse_fixed32, parse_fixed64};
use crate::light::{
    appended, fields_model, merge_all, merge_field, values_model, FieldModel, ProtoTag, Tag, Value,
    ValueModel, WireType,
};
use crate::nom_helper::{nom_unsigned_one_byte, Endian};
use crate::strings::{utf8_text, utf8_text_of};
use crate::tag::{get_tag_type, lemma_chain_len_bounds, spec_tag};
use crate::var::{parse_var, spec_varint};
use std::collections::HashMap;
use vstd::prelude::*;
use vstd::std_specs::hash::group_hash_axioms;
use vstd::utf8::valid_utf8;

verus! {

/// `e` followed by the entries of `r`, or the failure of `r`.
pub open spec fn prepend(e: FieldModel, r: Result<Seq<FieldModel>, ParseError>) -> Result<
    Seq<FieldModel>,
    ParseError,
> {
    match r {
        Ok(es) => Ok(seq![e] + es),
        Err(x) => Err(x),
    }
}

/// `seen` followed by the entries of `r`, or the failure of `r`.
pub open spec fn join(seen: Seq<FieldModel>, r: Result<Seq<FieldModel>, ParseError>) -> Result<
    Seq<FieldModel>,
    ParseError,
> {
    match r {
        Ok(es) => Ok(seen + es),
        Err(x) => Err(x),
    }
}

/// Every field occurrence of `data`, in stream order, before repeated field
/// numbers are merged.
pub open spec fn spec_entries(data: Seq<u8>) -> Result<Seq<FieldModel>, ParseError>
    decreases data.len(), 1nat,
{
    if data.len() == 0 {
        Ok(seq![])
    } else {
        proof {
            lemma_chain_len_bounds(data);
        }
        match spec_tag(data) {
            Err(e) => Err(e),
            Ok((tag, n)) => {
                let rest = data.skip(n as int);
                match tag.wire_type {
                    WireType::VarInt => {
                        proof {
                            lemma_chain_len_bounds(rest);
                        }
                        match spec_varint(rest) {
                            Err(e) => Err(e),
                            Ok((v, m)) => prepend(
                                FieldModel { tag, value: ValueModel::Number(v) },
                                spec_entries(rest.skip(m as int)),
                            ),
                        }
                    },
                    WireType::Fixed64 => if rest.len() < 8 {
                        Err(ParseError::InsufficientBytes)
                    } else {
                        prepend(
                            FieldModel { tag, value: ValueModel::Fixed64(fixed64_of(rest.take(8))) },
                            spec_entries(rest.skip(8)),
                        )
                    },
                    WireType::Fixed32 => if rest.len() < 4 {
                        Err(ParseError::InsufficientBytes)
                    } else {
                        prepend(
                            FieldModel { tag, value: ValueModel::Fixed32(fixed32_of(rest.take(4))) },
                            spec_entries(rest.skip(4)),
                        )
                    },
                    WireType::Len => if rest.len() == 0 || rest.len() < 1 + rest[0] {
                        Err(ParseError::InsufficientBytes)
                    } else {
                        let end = 1 + rest[0];
                        prepend(
                            FieldModel { tag, value: payload_value(rest.subrange(1, end)) },
                            spec_entries(rest.skip(end)),
                        )
                    },
                    _ => Ok(seq![FieldModel { tag, value: ValueModel::Text(base64_of(rest)) }]),
                }
            },
        }
    }
}

/// The value of a length-delimited payload: its text when it is valid UTF-8,
/// else the message it encodes, else the base64 text of its bytes.
pub open spec fn payload_value(payload: Seq<u8>) -> ValueModel
    decreases payload.len(), 2nat,
{
    if valid_utf8(payload) {
        ValueModel::Text(utf8_text_of(payload))
    } else {
        match spec_entries(payload) {
            Ok(es) => ValueModel::Message(merge_all(es)),
            Err(_) => ValueModel::Text(base64_of(payload)),
        }
    }
}

/// The decoded fields of `data`, repeated field numbers merged.
pub open spec fn spec_message(data: Seq<u8>) -> Result<Map<usize, FieldModel>, ParseError> {
    match spec_entries(data) {
        Ok(es) => Ok(merge_all(es)),
        Err(e) => Err(e),
    }
}

/// The value that holds `existing` and then `new`.
fn append_value(existing: Value, new: Value) -> (r: Value)
    ensures
        r.model() == appended(existing.model(), new.model()),
{
    match existing {
        Value::Array(mut items) => {
            let ghost before = items@;
            items.push(new);
            assert(items@.subrange(0, items@.len() - 1) =~= before);
            Value::Array(items)
        },
        other => {
            let items = vec![other, new];
            proof {
                reveal_with_fuel(values_model, 3);
                assert(items@.subrange(0, 1).subrange(0, 0) =~= seq![]);
                assert(items@.subrange(0, 1) =~= seq![items@[0]]);
                assert(values_model(items@) =~= seq![items@[0].model(), items@[1].model()]);
            }
            Value::Array(items)
        },
    }
}

/// Merges one field occurrence into the fields gathered so far.
fn insert_field(map: &mut HashMap<usize, ProtoTag>, tag: Tag, value: Value)
    ensures
        fields_model(*final(map)) == merge_field(
            fields_model(*old(map)),
            FieldModel { tag, value: value.model() },
        ),
{
    broadcast use group_hash_axioms;

    let ghost e = FieldModel { tag, value: value.model() };
    let ghost before = fields_model(*map);
    match map.remove(&tag.field) {
        Some(existing) => {
            let first_tag = existing.tag;
            let merged = append_value(existing.value, value);
            map.insert(tag.field, ProtoTag { tag: first_tag, value: merged });
            assert(fields_model(*map) =~= merge_field(before, e));
        },
        None => {
            map.insert(tag.field, ProtoTag { tag, value });
            assert(fields_model(*map) =~= merge_field(before, e));
        },
    }
}

/// Decodes the fields of one message from `data`.
pub fn parse_tag(data: &[u8]) -> (r: Result<(&[u8], HashMap<usize, ProtoTag>), ParseError>)
    requires
        data@.len() <= isize::MAX,
    ensures
        match r {
            Ok((rest, m)) => rest@.len() == 0 && spec_message(data@) == Ok::<
                Map<usize, FieldModel>,
                ParseError,
            >(fields_model(m)),
            Err(e) => spec_message(data@) == Err::<Map<usize, FieldModel>, ParseError>(e),
        },
    decreases data@.len(), 1nat,
{
    let mut proto_data = data;
    let mut proto_map: HashMap<usize, ProtoTag> = HashMap::new();
    let ghost mut seen: Seq<FieldModel> = seq![];
    assert(seen + seq![] =~= seen);
    assert(fields_model(proto_map) =~= Map::empty());
    while !proto_data.is_empty()
        invariant
            proto_data@.len() <= data@.len() <= isize::MAX,
            spec_entries(data@) == join(seen, spec_entries(proto_data@)),
            fields_model(proto_map) == merge_all(seen),
        decreases proto_data@.len(),
    {
        proof {
            lemma_chain_len_bounds(proto_data@);
        }
        let (input, tag) = match get_tag_type(proto_data) {
            Ok(x) => x,
            Err(e) => {
                return Err(e);
            },
        };
        proof {
            lemma_chain_len_bounds(input@);
        }
        let (next, value) = match tag.wire_type {
            WireType::VarInt => match parse_var(input) {
                Ok((next, v)) => (next, Value::Number(v)),
                Err(e) => {
                    return Err(e);
                },
            },
            WireType::Fixed64 => match parse_fixed64(input) {
                Ok((next, v)) => (next, Value::Fixed64(v)),
                Err(e) => {
                    return Err(e);
                },
            },
            WireType::Fixed32 => match parse_fixed32(input) {
                Ok((next, v)) => (next, Value::Fixed32(v)),
                Err(e) => {
                    return Err(e);
                },
            },
            WireType::Len => match parse_length_tag(input) {
                Ok((next, v)) => (next, v),
                Err(e) => {
                    return Err(e);
                },
            },
            _ => {
                // Deprecated group markers and unknown wire types end the
                // buffer: what is left is kept as base64 text.
                let end = input.len();
                (&input[end..end], Value::Text(base64_encode_standard(input)))
            },
        };
        let ghost e = FieldModel { tag, value: value.model() };
        proof {
            assert(seen.push(e) + seq![] =~= seen.push(e));
            assert(spec_entries(proto_data@) == prepend(e, spec_entries(next@)));
            match spec_entries(next@) {
                Ok(es) => {
                    assert(seen + (seq![e] + es) =~= seen.push(e) + es);
                },
                Err(_) => {},
            }
        }
        insert_field(&mut proto_map, tag, value);
        proof {
            let s2 = seen.push(e);
            assert(s2.drop_last() =~= seen);
            seen = s2;
        }
        proto_data = next;
    }
    assert(seen + seq![] =~= seen);
    Ok((proto_data, proto_map))
}

/// Parses a length-delimited field: one length byte, then that many bytes,
/// read as text, else as a nested message, else as base64 of the raw bytes.
pub fn parse_length_tag(data: &[u8]) -> (r: Result<(&[u8], Value), ParseError>)
    ensures
        match r {
            Ok((rest, v)) => data@.len() >= 1 && data@.len() >= 1 + data@[0] && v.model()
                == payload_value(data@.subrange(1, 1 + data@[0])) && rest@ == data@.skip(
                1 + data@[0],
            ),
            Err(e) => (data@.len() == 0 || data@.len() < 1 + data@[0]) && e
                == ParseError::InsufficientBytes,
        },
    decreases data@.len(), 0nat,
{
    let (input, value_length) = nom_unsigned_one_byte(data, Endian::Le)?;
    assert(data@.take(1)[0] == value_length);
    let len = value_length as usize;
    if input.len() < len {
        return Err(ParseError::InsufficientBytes);
    }
    let payload = &input[0..len];
    let rest = &input[len..input.len()];
    assert(payload@ =~= data@.subrange(1, 1 + data@[0]));
    assert(rest@ =~= data@.skip(1 + data@[0]));
    // Try text first, then a nested message, then raw bytes.
    let value = match utf8_text(payload) {
        Some(text) => Value::Text(text),
        None => match parse_tag(payload) {
            Ok((_, sub)) => Value::Message(sub),
            Err(_) => Value::Text(base64_encode_standard(payload)),
        },
    };
    Ok((rest, value))
}

} // verus!
