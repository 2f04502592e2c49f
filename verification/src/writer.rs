//! Encoding of entries and records: the format strategies and the walk over
//! the fields of a record.

use crate::config::Format;
use crate::encode::fix_length_encode;
use crate::encode::fix_length_parameter;
use crate::encode::length_encode;
use crate::encode::tag_encode;
use crate::endian::lemma_be_bytes_len;
use crate::error::TlvError;
use crate::layout::spec_admits;
use crate::layout::spec_announced;
use crate::layout::spec_encoded;
use crate::layout::spec_entries_bytes;
use crate::layout::spec_entry_bytes;
use crate::layout::spec_entry_fits;
use crate::layout::spec_fields_admit;
use crate::layout::spec_fields_bytes;
use crate::layout::spec_fields_fit;
use crate::layout::spec_length_field;
use crate::layout::spec_length_fits;
use crate::layout::spec_nibble;
use crate::layout::spec_pair_byte;
use crate::layout::spec_slot_admits;
use crate::layout::spec_slot_bytes;
use crate::layout::spec_slot_fits;
use crate::layout::spec_slot_nibble;
use crate::layout::spec_tag_field;
use crate::layout::spec_value_bytes;
use crate::layout::spec_value_fits;
use crate::prelude::TlvEncode;
use crate::rules::spec_field_legal;
use crate::rules::spec_fields_legal;
use crate::rules::spec_legal;
use crate::rules::spec_paired_from;
use crate::schema::fields_view;
use crate::schema::lemma_record_view;
use crate::schema::FieldSpec;
use crate::schema::Kind;
use crate::value::lemma_record_value_view;
use crate::value::lemma_repeated_view;
use crate::value::slots_view;
use crate::value::values_view;
use crate::value::Slot;
use crate::value::Value;
use crate::wire;
use crate::wire::written;
use bytes::BytesMut;
use vstd::prelude::*;

verus! {

/// Encodes a value of the given kind, without framing: a byte, a run of
/// bytes, the inner value of a wrapper, or the fields of a record.
pub fn tlv_encode(kind: &Kind, value: &Value, bytes: &mut BytesMut) -> (done: Result<
    usize,
    TlvError,
>)
    requires
        spec_legal(kind@),
        spec_admits(kind@, value@),
    ensures
        spec_encoded(
            done,
            written(*old(bytes)),
            written(*final(bytes)),
            spec_value_fits(kind@, value@),
            spec_value_bytes(kind@, value@),
        ),
    decreases kind, 0nat,
{
    match (kind, value) {
        (Kind::Byte, Value::Byte(b)) => b.encode(bytes),
        (Kind::Bytes, Value::Bytes(run)) => run.encode(bytes),
        (Kind::Newtype(inner_kind), Value::Newtype(inner)) => impl_newtype_encode(
            inner_kind,
            inner,
            bytes,
        ),
        (Kind::Record(specs), Value::Record(slots)) => {
            proof {
                lemma_record_view(*specs);
                lemma_record_value_view(*slots);
            }
            impl_tlv_encode(specs, slots, bytes)
        },
        _ => {
            assert(written(*bytes) + Seq::<u8>::empty() =~= written(*bytes));
            Ok(0)
        },
    }
}

/// Encodes a wrapper: exactly the bytes of the value inside it.
pub fn impl_newtype_encode(kind: &Kind, inner: &Value, bytes: &mut BytesMut) -> (done: Result<
    usize,
    TlvError,
>)
    requires
        spec_legal(kind@),
        spec_admits(kind@, inner@),
    ensures
        spec_encoded(
            done,
            written(*old(bytes)),
            written(*final(bytes)),
            spec_value_fits(kind@, inner@),
            spec_value_bytes(kind@, inner@),
        ),
    decreases kind, 1nat,
{
    tlv_encode(kind, inner, bytes)
}

/// Encodes the fields of a record in declared order. Two 4-bit value fields
/// next to each other go into one byte; an absent optional field puts
/// nothing on the wire.
pub fn impl_tlv_encode(specs: &Vec<FieldSpec>, slots: &Vec<Slot>, bytes: &mut BytesMut) -> (done:
    Result<usize, TlvError>)
    requires
        spec_fields_legal(fields_view(specs@)),
        spec_fields_admit(fields_view(specs@), slots_view(slots@)),
    ensures
        spec_encoded(
            done,
            written(*old(bytes)),
            written(*final(bytes)),
            spec_fields_fit(fields_view(specs@), slots_view(slots@)),
            spec_fields_bytes(fields_view(specs@), slots_view(slots@), 0),
        ),
    decreases specs, 0nat,
{
    let ghost before = written(*bytes);
    let ghost schema = fields_view(specs@);
    let ghost record = slots_view(slots@);
    let start = wire::sink_len(bytes);
    let mut i: usize = 0;
    let ghost mut emitted = Seq::<u8>::empty();
    assert(before + emitted =~= before);
    assert(emitted + spec_fields_bytes(schema, record, 0) =~= spec_fields_bytes(schema, record, 0));
    while i < specs.len()
        invariant
            i <= specs.len() == slots.len(),
            schema == fields_view(specs@),
            record == slots_view(slots@),
            spec_fields_legal(schema),
            spec_fields_admit(schema, record),
            spec_paired_from(schema, i as int),
            start == before.len(),
            before == written(*old(bytes)),
            written(*bytes) == before + emitted,
            emitted + spec_fields_bytes(schema, record, i as int) == spec_fields_bytes(
                schema,
                record,
                0,
            ),
            forall|j: int| 0 <= j < i ==> spec_slot_fits(#[trigger] schema[j], record[j]),
        decreases specs.len() - i,
    {
        let field = &specs[i];
        let ghost sofar = written(*bytes);
        assert(schema[i as int] == field@);
        assert(record[i as int] == slots[i as int]@);
        assert(spec_field_legal(schema[i as int]));
        assert(spec_legal(schema[i as int].kind));
        assert(spec_slot_admits(schema[i as int], record[i as int]));
        let is_nibble = matches!(field.config.format, Format::V) && field.config.value_bits_format
            == 4;
        if is_nibble {
            assert(i + 1 < specs.len());
            assert(schema[i + 1] == specs[i + 1]@);
            assert(record[i + 1] == slots[i + 1]@);
            assert(spec_slot_admits(schema[i + 1], record[i + 1]));
            assert(spec_field_legal(schema[i + 1]));
            let _ = format_4bit_v_encode(&slots[i], &slots[i + 1], bytes);
            proof {
                assert(spec_slot_fits(schema[i as int], record[i as int]));
                assert(spec_slot_fits(schema[i + 1], record[i + 1]));
                let pair = seq![spec_pair_byte(record[i as int], record[i + 1])];
                assert(emitted + pair + spec_fields_bytes(schema, record, i + 2) =~= emitted + (
                pair + spec_fields_bytes(schema, record, i + 2)));
                assert(before + emitted + pair =~= before + (emitted + pair));
                emitted = emitted + pair;
            }
            i = i + 2;
        } else {
            let step = format_slot_encode(field, &slots[i], bytes);
            match step {
                Ok(_) => {
                    proof {
                        let piece = spec_slot_bytes(schema[i as int], record[i as int]);
                        assert(emitted + piece + spec_fields_bytes(schema, record, i + 1)
                            =~= emitted + (piece + spec_fields_bytes(schema, record, i + 1)));
                        assert(before + emitted + piece =~= before + (emitted + piece));
                        emitted = emitted + piece;
                    }
                    i = i + 1;
                },
                Err(e) => {
                    proof {
                        assert((before + emitted).take(before.len() as int) =~= before);
                    }
                    wire::truncate(bytes, start);
                    assert(!spec_slot_fits(schema[i as int], record[i as int]));
                    return Err(e);
                },
            }
        }
    }
    proof {
        assert(emitted + Seq::<u8>::empty() =~= emitted);
    }
    let end = wire::sink_len(bytes);
    Ok(end - start)
}

/// Encodes two 4-bit values into one byte: the first in the high half, the
/// second in the low half. Of each value only the low four bits are used.
pub fn format_4bit_v_encode(first: &Slot, second: &Slot, bytes: &mut BytesMut) -> (done: Result<
    usize,
    TlvError,
>)
    ensures
        done == Ok::<usize, TlvError>(1),
        written(*final(bytes)) == written(*old(bytes)) + seq![spec_pair_byte(first@, second@)],
{
    let high = slot_nibble(first);
    let low = slot_nibble(second);
    let byte: u8 = high * 16 + low;
    proof {
        reveal_with_fuel(crate::endian::be_bytes, 2);
        assert(crate::endian::be_bytes(byte as nat, 1) =~= seq![byte]);
    }
    wire::put_u8(bytes, byte);
    Ok(1)
}

/// The low four bits of the byte in a required slot; 0 for anything else.
fn slot_nibble(slot: &Slot) -> (nibble: u8)
    ensures
        nibble == spec_slot_nibble(slot@),
        nibble < 16,
{
    match slot {
        Slot::Required(value) => value_nibble(value),
        _ => 0,
    }
}

/// The low four bits of a byte value; 0 for anything else.
fn value_nibble(value: &Value) -> (nibble: u8)
    ensures
        nibble == spec_nibble(value@),
        nibble < 16,
{
    match value {
        Value::Byte(b) => {
            let b: u8 = *b;
            assert(b & 0x0f == b % 16) by (bit_vector);
            b & 0x0f
        },
        _ => 0,
    }
}

/// Encodes what a slot holds for its field: one entry for a required or a
/// present optional field, nothing for an absent one, every entry of a
/// repeated one.
pub fn format_slot_encode(field: &FieldSpec, slot: &Slot, bytes: &mut BytesMut) -> (done: Result<
    usize,
    TlvError,
>)
    requires
        spec_field_legal(field@),
        spec_legal(field@.kind),
        spec_slot_admits(field@, slot@),
    ensures
        spec_encoded(
            done,
            written(*old(bytes)),
            written(*final(bytes)),
            spec_slot_fits(field@, slot@),
            spec_slot_bytes(field@, slot@),
        ),
    decreases field, 4nat,
{
    match slot {
        Slot::Required(value) => format_entry_encode(field, value, bytes),
        Slot::Optional(held) => format_option_encode(field, held, bytes),
        Slot::Repeated(values) => {
            proof {
                lemma_repeated_view(*values);
                let items = values_view(values@);
                assert(slot@ == crate::value::SlotView::Repeated(items));
                assert forall|j: int| 0 <= j < items.len() implies spec_admits(
                    field@.kind,
                    #[trigger] items[j],
                ) by {
                    assert(spec_slot_admits(field@, slot@));
                    assert(items[j] == slot@->Repeated_0[j]);
                }
            }
            format_repeated_encode(field, values, bytes)
        },
    }
}

/// Encodes an optional field: its entry if it is present, nothing if not.
pub fn format_option_encode(field: &FieldSpec, held: &Option<Value>, bytes: &mut BytesMut) -> (done:
    Result<usize, TlvError>)
    requires
        spec_field_legal(field@),
        spec_legal(field@.kind),
        held matches Some(value) ==> spec_admits(field@.kind, value@),
    ensures
        match held {
            Some(value) => spec_encoded(
                done,
                written(*old(bytes)),
                written(*final(bytes)),
                spec_entry_fits(field@, value@),
                spec_entry_bytes(field@, value@),
            ),
            None => done == Ok::<usize, TlvError>(0) && written(*final(bytes)) == written(
                *old(bytes),
            ),
        },
    decreases field, 3nat,
{
    match held {
        Some(inner) => format_entry_encode(field, inner, bytes),
        None => {
            assert(written(*bytes) + Seq::<u8>::empty() =~= written(*bytes));
            Ok(0)
        },
    }
}

/// Encodes a repeated field: one entry for each value, in order.
pub fn format_repeated_encode(field: &FieldSpec, values: &Vec<Value>, bytes: &mut BytesMut) -> (done:
    Result<usize, TlvError>)
    requires
        spec_field_legal(field@),
        spec_legal(field@.kind),
        forall|j: int|
            0 <= j < values.len() ==> spec_admits(field@.kind, #[trigger] values_view(values@)[j]),
    ensures
        spec_encoded(
            done,
            written(*old(bytes)),
            written(*final(bytes)),
            forall|j: int|
                0 <= j < values.len() ==> spec_entry_fits(
                    field@,
                    #[trigger] values_view(values@)[j],
                ),
            spec_entries_bytes(field@, values_view(values@), 0),
        ),
    decreases field, 3nat,
{
    let ghost before = written(*bytes);
    let ghost items = values_view(values@);
    let start = wire::sink_len(bytes);
    let mut j: usize = 0;
    let ghost mut emitted = Seq::<u8>::empty();
    assert(before + emitted =~= before);
    assert(emitted + spec_entries_bytes(field@, items, 0) =~= spec_entries_bytes(field@, items, 0));
    while j < values.len()
        invariant
            j <= values.len(),
            items == values_view(values@),
            spec_field_legal(field@),
            spec_legal(field@.kind),
            forall|k: int| 0 <= k < values.len() ==> spec_admits(field@.kind, #[trigger] items[k]),
            start == before.len(),
            before == written(*old(bytes)),
            written(*bytes) == before + emitted,
            emitted + spec_entries_bytes(field@, items, j as int) == spec_entries_bytes(
                field@,
                items,
                0,
            ),
            forall|k: int| 0 <= k < j ==> spec_entry_fits(field@, #[trigger] items[k]),
        decreases values.len() - j,
    {
        let ghost sofar = written(*bytes);
        assert(items[j as int] == values[j as int]@);
        let step = format_entry_encode(field, &values[j], bytes);
        match step {
            Ok(_) => {
                proof {
                    let piece = spec_entry_bytes(field@, items[j as int]);
                    assert(emitted + piece + spec_entries_bytes(field@, items, j + 1)
                        =~= emitted + (piece + spec_entries_bytes(field@, items, j + 1)));
                    assert(before + emitted + piece =~= before + (emitted + piece));
                    emitted = emitted + piece;
                }
                j = j + 1;
            },
            Err(e) => {
                proof {
                    assert((before + emitted).take(before.len() as int) =~= before);
                }
                wire::truncate(bytes, start);
                return Err(e);
            },
        }
    }
    proof {
        assert(emitted + Seq::<u8>::empty() =~= emitted);
    }
    let end = wire::sink_len(bytes);
    Ok(end - start)
}

/// Encodes one entry of a field with the strategy of its format.
pub fn format_entry_encode(field: &FieldSpec, value: &Value, bytes: &mut BytesMut) -> (done: Result<
    usize,
    TlvError,
>)
    requires
        spec_field_legal(field@),
        spec_legal(field@.kind),
        spec_admits(field@.kind, value@),
    ensures
        spec_encoded(
            done,
            written(*old(bytes)),
            written(*final(bytes)),
            spec_entry_fits(field@, value@),
            spec_entry_bytes(field@, value@),
        ),
    decreases field, 2nat,
{
    match field.config.format {
        Format::T => format_t_encode(field, bytes),
        Format::V => format_v_encode(field, value, bytes),
        Format::TV => format_tv_encode(field, value, bytes),
        Format::LV | Format::LVE => format_lv_encode(field, value, bytes),
        Format::TLV | Format::TLVE => format_tlv_encode(field, value, bytes),
    }
}

/// The tag-only strategy: writes the tag; the value puts nothing on the wire.
pub fn format_t_encode(field: &FieldSpec, bytes: &mut BytesMut) -> (done: Result<usize, TlvError>)
    requires
        spec_field_legal(field@),
        field.config.format == Format::T,
    ensures
        done is Ok,
        spec_encoded(
            done,
            written(*old(bytes)),
            written(*final(bytes)),
            true,
            spec_tag_field(field.config),
        ),
{
    let start = wire::sink_len(bytes);
    tag_encode(&field.config, bytes);
    let end = wire::sink_len(bytes);
    Ok(end - start)
}

/// The value-only strategy: writes the value and no header.
pub fn format_v_encode(field: &FieldSpec, value: &Value, bytes: &mut BytesMut) -> (done: Result<
    usize,
    TlvError,
>)
    requires
        spec_legal(field@.kind),
        spec_admits(field@.kind, value@),
    ensures
        spec_encoded(
            done,
            written(*old(bytes)),
            written(*final(bytes)),
            spec_value_fits(field@.kind, value@),
            spec_value_bytes(field@.kind, value@),
        ),
    decreases field, 1nat,
{
    tlv_encode(&field.kind, value, bytes)
}

/// The tag-value strategy: writes the tag, then the value. Where the tag has
/// width 0, tag and value are four bits each and share one byte, the tag in
/// the high half.
pub fn format_tv_encode(field: &FieldSpec, value: &Value, bytes: &mut BytesMut) -> (done: Result<
    usize,
    TlvError,
>)
    requires
        spec_field_legal(field@),
        spec_legal(field@.kind),
        spec_admits(field@.kind, value@),
        field.config.format == Format::TV,
    ensures
        spec_encoded(
            done,
            written(*old(bytes)),
            written(*final(bytes)),
            spec_entry_fits(field@, value@),
            spec_entry_bytes(field@, value@),
        ),
    decreases field, 1nat,
{
    if field.config.tag_bytes_format == 0 {
        let tag: u8 = match field.config.tag {
            Some(tag) => (tag % 16) as u8,
            None => 0,
        };
        let byte: u8 = tag * 16 + value_nibble(value);
        proof {
            reveal_with_fuel(crate::endian::be_bytes, 2);
            assert(crate::endian::be_bytes(byte as nat, 1) =~= seq![byte]);
        }
        wire::put_u8(bytes, byte);
        Ok(1)
    } else {
        let ghost before = written(*bytes);
        let start = wire::sink_len(bytes);
        tag_encode(&field.config, bytes);
        match tlv_encode(&field.kind, value, bytes) {
            Ok(_) => {
                proof {
                    let tag = spec_tag_field(field.config);
                    let payload = spec_value_bytes(field@.kind, value@);
                    assert(before + tag + payload =~= before + (tag + payload));
                }
                let end = wire::sink_len(bytes);
                Ok(end - start)
            },
            Err(e) => {
                proof {
                    assert((before + spec_tag_field(field.config)).take(before.len() as int)
                        =~= before);
                }
                wire::truncate(bytes, start);
                Err(e)
            },
        }
    }
}

/// The length-value strategy: reserves the length field, writes the value,
/// and writes the measured length back over the placeholder.
pub fn format_lv_encode(field: &FieldSpec, value: &Value, bytes: &mut BytesMut) -> (done: Result<
    usize,
    TlvError,
>)
    requires
        spec_field_legal(field@),
        spec_legal(field@.kind),
        spec_admits(field@.kind, value@),
        field.config.format == Format::LV || field.config.format == Format::LVE,
    ensures
        spec_encoded(
            done,
            written(*old(bytes)),
            written(*final(bytes)),
            spec_entry_fits(field@, value@),
            spec_entry_bytes(field@, value@),
        ),
    decreases field, 1nat,
{
    let ghost before = written(*bytes);
    let start = wire::sink_len(bytes);
    let done = framed_encode(field, value, bytes);
    proof {
        assert(before + Seq::<u8>::empty() =~= before);
        let payload = spec_value_bytes(field@.kind, value@);
        assert(before + spec_length_field(field.config, payload.len()) + payload =~= before + (
        spec_length_field(field.config, payload.len()) + payload));
    }
    done
}

/// The tag-length-value strategy: writes the tag, reserves the length field,
/// writes the value, and writes the measured length back over the
/// placeholder.
pub fn format_tlv_encode(field: &FieldSpec, value: &Value, bytes: &mut BytesMut) -> (done: Result<
    usize,
    TlvError,
>)
    requires
        spec_field_legal(field@),
        spec_legal(field@.kind),
        spec_admits(field@.kind, value@),
        field.config.format == Format::TLV || field.config.format == Format::TLVE,
    ensures
        spec_encoded(
            done,
            written(*old(bytes)),
            written(*final(bytes)),
            spec_entry_fits(field@, value@),
            spec_entry_bytes(field@, value@),
        ),
    decreases field, 1nat,
{
    let ghost before = written(*bytes);
    let start = wire::sink_len(bytes);
    tag_encode(&field.config, bytes);
    let ghost tagged = written(*bytes);
    match framed_encode(field, value, bytes) {
        Ok(_) => {
            proof {
                let tag = spec_tag_field(field.config);
                let payload = spec_value_bytes(field@.kind, value@);
                let length = spec_length_field(field.config, payload.len());
                assert(tagged + (length + payload) =~= before + (tag + length + payload));
            }
            let end = wire::sink_len(bytes);
            Ok(end - start)
        },
        Err(e) => {
            proof {
                assert(tagged.take(before.len() as int) =~= before);
            }
            wire::truncate(bytes, start);
            Err(e)
        },
    }
}

/// Writes the length field and the value of a field whose format has a
/// length: the placeholder, the payload, then the measured length in place.
fn framed_encode(field: &FieldSpec, value: &Value, bytes: &mut BytesMut) -> (done: Result<
    usize,
    TlvError,
>)
    requires
        spec_field_legal(field@),
        spec_legal(field@.kind),
        spec_admits(field@.kind, value@),
        field.config.format.has_length(),
    ensures
        spec_encoded(
            done,
            written(*old(bytes)),
            written(*final(bytes)),
            spec_value_fits(field@.kind, value@) && spec_length_fits(
                field.config,
                spec_value_bytes(field@.kind, value@).len(),
            ),
            spec_length_field(field.config, spec_value_bytes(field@.kind, value@).len())
                + spec_value_bytes(field@.kind, value@),
        ),
    decreases field, 0nat,
{
    let ghost before = written(*bytes);
    let ghost payload = spec_value_bytes(field@.kind, value@);
    let width = field.config.length_bytes_format;
    let start = wire::sink_len(bytes);
    let index = fix_length_parameter(&field.config, bytes);
    length_encode(&field.config, bytes);
    let ghost reserved = written(*bytes);
    proof {
        lemma_be_bytes_len(spec_announced(field.config, 0), width as nat);
        lemma_be_bytes_len(spec_announced(field.config, payload.len()), width as nat);
    }
    let actual_length = match tlv_encode(&field.kind, value, bytes) {
        Ok(n) => n,
        Err(e) => {
            proof {
                assert(reserved.take(before.len() as int) =~= before);
            }
            wire::truncate(bytes, start);
            return Err(e);
        },
    };
    let ghost filled = written(*bytes);
    match fix_length_encode(&field.config, bytes, start, actual_length) {
        Ok(()) => {
            proof {
                let length = spec_length_field(field.config, payload.len());
                if field.config.length is None {
                    assert(filled.take(start as int) =~= before);
                    assert(filled.skip(start + width) =~= payload);
                    assert(written(*bytes) =~= before + length + payload);
                } else {
                    assert(written(*bytes) =~= before + length + payload);
                }
                assert(before + length + payload =~= before + (length + payload));
            }
            let end = wire::sink_len(bytes);
            Ok(end - start)
        },
        Err(e) => {
            proof {
                assert(filled.take(before.len() as int) =~= before);
            }
            wire::truncate(bytes, start);
            Err(e)
        },
    }
}

} // verus!
