//! Properties of the decoder as a whole.
use crate::encoding::base64_of;
use crate::error::{ParseError, SunlightError};
use crate::light::{
    decode_outcome, decoded, fields_model, merge_all, merge_field, FieldModel, ProtoTag, ValueModel,
    WireType,
};
use crate::parser::{payload_value, spec_entries, spec_message};
use crate::tag::{chain_len, lemma_chain_len_bounds, spec_tag};
use crate::var::spec_varint;
use std::collections::HashMap;
use vstd::prelude::*;
use vstd::utf8::valid_utf8;

verus! {

/// Decoding is a function of the bytes: two decodes of the same bytes both
/// fail, or both succeed with the same fields.
pub proof fn lemma_decode_deterministic(
    data: Seq<u8>,
    r1: Result<HashMap<usize, ProtoTag>, SunlightError>,
    r2: Result<HashMap<usize, ProtoTag>, SunlightError>,
)
    requires
        decode_outcome(data, r1),
        decode_outcome(data, r2),
    ensures
        r1 is Ok <==> r2 is Ok,
        r1 is Err ==> r1 == r2,
        r1 matches Ok(m1) ==> (r2 matches Ok(m2) && fields_model(m1) == fields_model(m2)),
{
}

/// The values of every occurrence of `field` among `es`, in stream order.
pub open spec fn occurrences(es: Seq<FieldModel>, field: usize) -> Seq<ValueModel>
    decreases es.len(),
{
    if es.len() == 0 {
        seq![]
    } else if es.last().tag.field == field {
        occurrences(es.drop_last(), field).push(es.last().value)
    } else {
        occurrences(es.drop_last(), field)
    }
}

/// The merged value of a field that occurs with the values `occ`.
pub open spec fn merged_value(occ: Seq<ValueModel>) -> ValueModel {
    if occ.len() == 1 {
        occ[0]
    } else {
        ValueModel::List(occ)
    }
}

pub open spec fn no_lists(es: Seq<FieldModel>) -> bool {
    forall|i: int| 0 <= i < es.len() ==> !(#[trigger] es[i].value is List)
}

/// `j` is the first position in `es` whose field number is `field`.
pub open spec fn first_occurrence(es: Seq<FieldModel>, j: int, field: usize) -> bool {
    &&& 0 <= j < es.len()
    &&& es[j].tag.field == field
    &&& forall|k: int| 0 <= k < j ==> es[k].tag.field != field
}

/// Merging occurrences that are not themselves lists gives an entry to each
/// field number that occurs: a field seen once keeps its value, a field seen
/// two or more times holds the list of all its values in stream order, and
/// the entry carries the tag of the field number's first occurrence.
pub proof fn lemma_merge_repeated(es: Seq<FieldModel>, field: usize)
    requires
        no_lists(es),
    ensures
        merge_all(es).contains_key(field) <==> occurrences(es, field).len() > 0,
        occurrences(es, field).len() == 0 ==> forall|j: int|
            0 <= j < es.len() ==> #[trigger] es[j].tag.field != field,
        merge_all(es).contains_key(field) ==> {
            &&& merge_all(es)[field].value == merged_value(occurrences(es, field))
            &&& merge_all(es)[field].tag.field == field
            &&& exists|j: int| first_occurrence(es, j, field) && es[j].tag == merge_all(es)[field].tag
        },
    decreases es.len(),
{
    if es.len() > 0 {
        let prev = es.drop_last();
        let e = es.last();
        assert(no_lists(prev)) by {
            assert forall|i: int| 0 <= i < prev.len() implies !(#[trigger] prev[i].value is List) by {
                assert(prev[i] == es[i]);
            }
        }
        assert(!(es[es.len() - 1].value is List));
        lemma_merge_repeated(prev, field);
        let m = merge_all(prev);
        let occ = occurrences(prev, field);
        assert(merge_all(es) == merge_field(m, e));
        assert forall|j: int| first_occurrence(prev, j, field) implies first_occurrence(es, j, field) by {
            assert forall|k: int| 0 <= k < j implies es[k].tag.field != field by {
                assert(es[k] == prev[k]);
            }
            assert(es[j] == prev[j]);
        }
        assert forall|j: int| 0 <= j < prev.len() implies es[j] == prev[j] by {}
        if e.tag.field == field {
            assert(occurrences(es, field) == occ.push(e.value));
            if m.contains_key(field) {
                let j = choose|j: int| first_occurrence(prev, j, field) && prev[j].tag == m[field].tag;
                assert(first_occurrence(es, j, field));
                if occ.len() == 1 {
                    assert(!(occ[0] is List)) by {
                        lemma_occurrences_in(prev, field, 0);
                    }
                    assert(seq![occ[0], e.value] =~= occ.push(e.value));
                }
            } else {
                assert forall|k: int| 0 <= k < es.len() - 1 implies es[k].tag.field != field by {
                    assert(prev[k].tag.field != field);
                }
                assert(first_occurrence(es, es.len() - 1, field));
                assert(occurrences(es, field) =~= seq![e.value]);
            }
        } else {
            assert(occurrences(es, field) == occ);
            if m.contains_key(field) {
                let j = choose|j: int| first_occurrence(prev, j, field) && prev[j].tag == m[field].tag;
                assert(first_occurrence(es, j, field));
            }
        }
    }
}

/// Each occurrence value is the value of some entry.
proof fn lemma_occurrences_in(es: Seq<FieldModel>, field: usize, k: int)
    requires
        0 <= k < occurrences(es, field).len(),
    ensures
        exists|i: int| 0 <= i < es.len() && es[i].value == occurrences(es, field)[k],
    decreases es.len(),
{
    let prev = es.drop_last();
    if es.last().tag.field == field && k == occurrences(es, field).len() - 1 {
        assert(es[es.len() - 1].value == occurrences(es, field)[k]);
    } else {
        lemma_occurrences_in(prev, field, k);
        let i = choose|i: int| 0 <= i < prev.len() && prev[i].value == occurrences(prev, field)[k];
        assert(es[i] == prev[i]);
    }
}

/// No decoded field occurrence is itself a list.
pub proof fn lemma_entries_no_lists(data: Seq<u8>)
    ensures
        spec_entries(data) matches Ok(es) ==> no_lists(es),
    decreases data.len(),
{
    if data.len() > 0 {
        lemma_chain_len_bounds(data);
        if let Ok((tag, n)) = spec_tag(data) {
            let rest = data.skip(n as int);
            lemma_chain_len_bounds(rest);
            let next: Seq<u8> = match tag.wire_type {
                WireType::VarInt => match spec_varint(rest) {
                    Ok((_, m)) => rest.skip(m as int),
                    Err(_) => rest,
                },
                WireType::Fixed64 => rest.skip(8),
                WireType::Fixed32 => rest.skip(4),
                WireType::Len => if rest.len() > 0 && rest.len() >= 1 + rest[0] {
                    rest.skip(1 + rest[0])
                } else {
                    rest
                },
                _ => rest,
            };
            if next.len() < data.len() {
                lemma_entries_no_lists(next);
            }
            if tag.wire_type == WireType::Len && rest.len() > 0 && rest.len() >= 1 + rest[0] {
                assert(!(payload_value(rest.subrange(1, 1 + rest[0])) is List));
            }
            if let Ok(es) = spec_entries(data) {
                assert(!(es[0].value is List));
                if es.len() > 1 {
                    let tail = spec_entries(next)->Ok_0;
                    assert(es == seq![es[0]] + tail);
                    assert forall|i: int| 0 <= i < es.len() implies !(#[trigger] es[i].value is List) by {
                        if i > 0 {
                            assert(es[i] == tail[i - 1]);
                        }
                    }
                }
            }
        }
    }
}

/// A field number that occurs more than once in the bytes decodes to the list
/// of all its values in stream order; one that occurs once keeps its value.
/// The entry carries the tag of the field number's first occurrence.
pub proof fn lemma_repeated_field_in_order(data: Seq<u8>, field: usize)
    requires
        spec_entries(data) is Ok,
    ensures
        decoded(data) matches Some(fields) && (fields.contains_key(field) <==> occurrences(
            spec_entries(data)->Ok_0,
            field,
        ).len() > 0) && (fields.contains_key(field) ==> fields[field].value == merged_value(
            occurrences(spec_entries(data)->Ok_0, field),
        ) && exists|j: int|
            first_occurrence(spec_entries(data)->Ok_0, j, field) && spec_entries(data)->Ok_0[j].tag
                == fields[field].tag),
{
    lemma_entries_no_lists(data);
    lemma_merge_repeated(spec_entries(data)->Ok_0, field);
}

/// The first field of `data` is cut short: in its tag, in its varint, in its
/// fixed-width value, or in its length prefix or payload.
pub open spec fn truncated_first_field(data: Seq<u8>) -> bool {
    &&& data.len() > 0
    &&& match spec_tag(data) {
        Err(e) => e == ParseError::InsufficientBytes,
        Ok((tag, n)) => {
            let rest = data.skip(n as int);
            match tag.wire_type {
                WireType::VarInt => rest.len() > 0 && chain_len(rest) is None,
                WireType::Fixed64 => rest.len() < 8,
                WireType::Fixed32 => rest.len() < 4,
                WireType::Len => rest.len() == 0 || rest.len() < 1 + rest[0],
                _ => false,
            }
        },
    }
}

/// A buffer whose first field is cut short does not decode.
pub proof fn lemma_truncated_field_fails(data: Seq<u8>)
    requires
        truncated_first_field(data),
    ensures
        spec_message(data) == Err::<Map<usize, FieldModel>, ParseError>(ParseError::InsufficientBytes),
        decoded(data) is None,
{
}

/// The bytes after the first field of `data`, when that field is complete
/// and does not end the buffer.
pub open spec fn after_first_field(data: Seq<u8>) -> Option<Seq<u8>> {
    if data.len() == 0 {
        None
    } else {
        match spec_tag(data) {
            Err(_) => None,
            Ok((tag, n)) => {
                let rest = data.skip(n as int);
                match tag.wire_type {
                    WireType::VarInt => match spec_varint(rest) {
                        Ok((_, m)) => Some(rest.skip(m as int)),
                        Err(_) => None,
                    },
                    WireType::Fixed64 => if rest.len() >= 8 {
                        Some(rest.skip(8))
                    } else {
                        None
                    },
                    WireType::Fixed32 => if rest.len() >= 4 {
                        Some(rest.skip(4))
                    } else {
                        None
                    },
                    WireType::Len => if rest.len() > 0 && rest.len() >= 1 + rest[0] {
                        Some(rest.skip(1 + rest[0]))
                    } else {
                        None
                    },
                    _ => None,
                }
            },
        }
    }
}

/// Decoding `data` reaches `suffix` after zero or more complete fields.
pub open spec fn reaches(data: Seq<u8>, suffix: Seq<u8>) -> bool
    decreases data.len(),
{
    data == suffix || (after_first_field(data) matches Some(next) && next.len() < data.len()
        && reaches(next, suffix))
}

/// A buffer cut short inside a tag, a varint, a fixed-width value or a
/// length prefix or payload, after any number of complete fields, does not
/// decode.
pub proof fn lemma_truncation_anywhere_fails(data: Seq<u8>, suffix: Seq<u8>)
    requires
        reaches(data, suffix),
        truncated_first_field(suffix),
    ensures
        spec_message(data) is Err,
        decoded(data) is None,
    decreases data.len(),
{
    if data == suffix {
        lemma_truncated_field_fails(suffix);
    } else {
        let next = after_first_field(data)->Some_0;
        lemma_truncation_anywhere_fails(next, suffix);
        lemma_chain_len_bounds(data);
        let rest = data.skip(spec_tag(data)->Ok_0.1 as int);
        lemma_chain_len_bounds(rest);
        assert(spec_entries(data) is Err);
    }
}

/// A length-delimited payload that is neither UTF-8 text nor a message is
/// kept as the base64 text of exactly its bytes.
pub proof fn lemma_raw_payload_fallback(payload: Seq<u8>)
    requires
        !valid_utf8(payload),
        spec_entries(payload) is Err,
    ensures
        payload_value(payload) == ValueModel::Text(base64_of(payload)),
{
}

} // verus!
