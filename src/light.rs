use crate::error::SunlightError;
use crate::parser::{parse_tag, spec_message};
use std::collections::HashMap;
use vstd::prelude::*;

verus! {

/// The wire type carried in the low three bits of a tag byte.
#[derive(Debug, Clone, Copy, PartialEq, Eq, Structural)]
pub enum WireType {
    VarInt,
    Fixed64,
    Len,
    /// Deprecated: ends decoding of the current buffer.
    StartGroup,
    /// Deprecated: ends decoding of the current buffer.
    EndGroup,
    Fixed32,
    Unknown,
}

/// One decoded field header.
#[derive(Debug, Clone, Copy, PartialEq, Eq, Structural)]
pub struct Tag {
    /// The first raw byte of the tag.
    pub tag_byte: u8,
    pub wire_type: WireType,
    /// The field number: the key of the decoded mapping.
    pub field: usize,
}

/// A fixed 8-byte value read in each of its three possible meanings.
#[derive(Debug, Clone, Copy, PartialEq, Eq, Structural)]
pub struct Fixed64 {
    pub signed: i64,
    pub unsigned: u64,
    /// Bit pattern of the little-endian IEEE-754 double; `None` (null) when
    /// that double is NaN or infinite.
    pub double_bits: Option<u64>,
}

/// A fixed 4-byte value read in each of its three possible meanings.
#[derive(Debug, Clone, Copy, PartialEq, Eq, Structural)]
pub struct Fixed32 {
    pub signed: i32,
    pub unsigned: u32,
    /// Bit pattern of the little-endian IEEE-754 float; `None` (null) when
    /// that float is NaN or infinite.
    pub float_bits: Option<u32>,
}

/// A decoded value.
#[derive(Debug, PartialEq)]
pub enum Value {
    /// A varint, as a raw (not zig-zag) 64-bit integer.
    Number(i64),
    /// Text: a UTF-8 payload, or the base64 text of raw bytes.
    Text(String),
    Fixed64(Fixed64),
    Fixed32(Fixed32),
    /// Every occurrence of a repeated field, in stream order.
    Array(Vec<Value>),
    /// A nested message.
    Message(HashMap<usize, ProtoTag>),
}

/// A field header paired with its value.
#[derive(Debug, PartialEq)]
pub struct ProtoTag {
    pub tag: Tag,
    pub value: Value,
}

/// Mathematical model of a [`Value`].
pub enum ValueModel {
    Number(i64),
    Text(Seq<char>),
    Fixed64(Fixed64),
    Fixed32(Fixed32),
    List(Seq<ValueModel>),
    Message(Map<usize, FieldModel>),
}

/// Mathematical model of a [`ProtoTag`].
pub struct FieldModel {
    pub tag: Tag,
    pub value: ValueModel,
}

impl Value {
    pub open spec fn model(self) -> ValueModel
        decreases self, 0nat,
    {
        match self {
            Value::Number(n) => ValueModel::Number(n),
            Value::Text(s) => ValueModel::Text(s@),
            Value::Fixed64(f) => ValueModel::Fixed64(f),
            Value::Fixed32(f) => ValueModel::Fixed32(f),
            Value::Array(v) => ValueModel::List(values_model(v@)),
            Value::Message(m) => ValueModel::Message(fields_model(m)),
        }
    }
}

impl ProtoTag {
    pub open spec fn model(self) -> FieldModel {
        FieldModel { tag: self.tag, value: self.value.model() }
    }
}

pub open spec fn values_model(s: Seq<Value>) -> Seq<ValueModel>
    decreases s, 0nat,
{
    if s.len() == 0 {
        seq![]
    } else {
        values_model(s.subrange(0, s.len() - 1)).push(s[s.len() - 1].model())
    }
}

/// The model of a decoded message: each field number mapped to the model
/// of its entry.
pub open spec fn fields_model(m: HashMap<usize, ProtoTag>) -> Map<usize, FieldModel>
    decreases m, 0nat,
{
    Map::new(
        |k: usize| m@.contains_key(k),
        |k: usize|
            if m@.contains_key(k) {
                FieldModel { tag: m@[k].tag, value: m@[k].value.model() }
            } else {
                FieldModel { tag: m@[k].tag, value: ValueModel::Number(0) }
            },
    )
}

/// The value that a field holds once `new` has been seen again for it.
pub open spec fn appended(existing: ValueModel, new: ValueModel) -> ValueModel {
    match existing {
        ValueModel::List(s) => ValueModel::List(s.push(new)),
        _ => ValueModel::List(seq![existing, new]),
    }
}

/// Merges one occurrence into the fields gathered so far: a new field number
/// gets the occurrence as its entry, a known one has the value appended to
/// its entry, which keeps the tag of its first occurrence.
pub open spec fn merge_field(fields: Map<usize, FieldModel>, e: FieldModel) -> Map<usize, FieldModel> {
    if fields.contains_key(e.tag.field) {
        let old_entry = fields[e.tag.field];
        fields.insert(
            e.tag.field,
            FieldModel { tag: old_entry.tag, value: appended(old_entry.value, e.value) },
        )
    } else {
        fields.insert(e.tag.field, e)
    }
}

/// The mapping built from a stream of occurrences, merged in stream order.
pub open spec fn merge_all(entries: Seq<FieldModel>) -> Map<usize, FieldModel>
    decreases entries.len(),
{
    if entries.len() == 0 {
        Map::empty()
    } else {
        merge_field(merge_all(entries.drop_last()), entries.last())
    }
}

/// The decoded mapping of `data`, or `None` when `data` cannot be decoded.
pub open spec fn decoded(data: Seq<u8>) -> Option<Map<usize, FieldModel>> {
    match spec_message(data) {
        Ok(fields) => Some(fields),
        Err(_) => None,
    }
}

/// What a top-level decode of `data` returns: the decoded fields, or the one
/// failure kind.
pub open spec fn decode_outcome(data: Seq<u8>, r: Result<HashMap<usize, ProtoTag>, SunlightError>) -> bool {
    match r {
        Ok(m) => decoded(data) == Some(fields_model(m)),
        Err(e) => decoded(data) is None && e == SunlightError::Parser,
    }
}

/// Decodes the bytes of one top-level protobuf message into its fields.
pub fn extract_protobuf(data: &[u8]) -> (r: Result<HashMap<usize, ProtoTag>, SunlightError>)
    requires
        data@.len() <= isize::MAX,
    ensures
        decode_outcome(data@, r),
{
    match parse_tag(data) {
        Ok((_, results)) => Ok(results),
        Err(_) => Err(SunlightError::Parser),
    }
}

} // verus!
