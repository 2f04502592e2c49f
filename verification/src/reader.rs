//! Decoding of entries and records: the format strategies, the walk over
//! the required fields, and the dispatch of the optional tail.

use crate::config::Format;
use crate::config::Presence;
use crate::config::TlvConfig;
use crate::decode::length_decode;
use crate::decode::tag_decode;
use crate::endian::lemma_be_bytes_first;
use crate::endian::lemma_pow256_values;
use crate::error::TlvError;
use crate::parse::lemma_dispatch;
use crate::parse::lemma_frame_advances;
use crate::parse::spec_blank;
use crate::parse::spec_blank_tail;
use crate::parse::spec_decode_entry;
use crate::parse::spec_decode_fields;
use crate::parse::spec_decode_tail;
use crate::parse::spec_decode_value;
use crate::parse::spec_dispatch;
use crate::parse::spec_entry_span;
use crate::parse::spec_slot_with;
use crate::parse::spec_tag_span;
use crate::parse::spec_value_span;
use crate::prelude::TlvDecode;
use crate::rules::spec_answers;
use crate::rules::spec_field_legal;
use crate::rules::spec_fields_legal;
use crate::rules::spec_legal;
use crate::rules::spec_paired_from;
use crate::schema::fields_view;
use crate::schema::lemma_record_view;
use crate::schema::FieldSpec;
use crate::schema::Kind;
use crate::value::lemma_record_value_view;
use crate::value::lemma_repeated_view;
use crate::value::slots_view;
use crate::value::values_view;
use crate::value::Slot;
use crate::value::SlotView;
use crate::value::Value;
use crate::value::ValueView;
use crate::wire;
use crate::wire::unread;
use bytes::Bytes;
use vstd::prelude::*;

verus! {

/// What a decoder owes its caller. Where the bytes spell a value, it is the
/// value returned and the cursor has moved past `span` bytes; where they are
/// refused, the error is the one returned and the cursor has not moved.
pub open spec fn spec_decoded(
    done: Result<Value, TlvError>,
    expected: Result<ValueView, TlvError>,
    span: int,
    before: Seq<u8>,
    after: Seq<u8>,
) -> bool {
    match done {
        Ok(value) => expected == Ok::<ValueView, TlvError>(value@) && 0 <= span <= before.len()
            && after == before.skip(span),
        Err(e) => expected == Err::<ValueView, TlvError>(e) && after == before,
    }
}

/// Decodes a value of the given kind from the cursor. A byte takes one
/// byte, a run of bytes takes `length` bytes, a record takes all that is
/// left.
pub fn tlv_decode(kind: &Kind, length: usize, bytes: &mut Bytes) -> (done: Result<Value, TlvError>)
    requires
        spec_legal(kind@),
    ensures
        spec_decoded(
            done,
            spec_decode_value(kind@, length as nat, unread(*old(bytes))),
            spec_value_span(kind@, length as nat, unread(*old(bytes))) as int,
            unread(*old(bytes)),
            unread(*final(bytes)),
        ),
    decreases kind, 0nat,
{
    match kind {
        Kind::Unit => {
            assert(unread(*bytes).skip(0) =~= unread(*bytes));
            Ok(Value::Unit)
        },
        Kind::Byte => match u8::decode(length, bytes) {
            Ok(b) => Ok(Value::Byte(b)),
            Err(e) => Err(e),
        },
        Kind::Bytes => match Vec::<u8>::decode(length, bytes) {
            Ok(run) => Ok(Value::Bytes(run)),
            Err(e) => Err(e),
        },
        Kind::Newtype(inner) => impl_newtype_decode(inner, length, bytes),
        Kind::Record(specs) => {
            proof {
                lemma_record_view(*specs);
            }
            match impl_tlv_decode(specs, bytes) {
                Ok(slots) => {
                    proof {
                        lemma_record_value_view(slots);
                        assert(unread(*bytes) =~= unread(*old(bytes)).skip(
                            unread(*old(bytes)).len() as int,
                        ));
                    }
                    Ok(Value::Record(slots))
                },
                Err(e) => Err(e),
            }
        },
    }
}

/// Decodes a wrapper: the inner value, read as if it stood alone.
pub fn impl_newtype_decode(kind: &Kind, length: usize, bytes: &mut Bytes) -> (done: Result<
    Value,
    TlvError,
>)
    requires
        spec_legal(kind@),
    ensures
        spec_decoded(
            done,
            match spec_decode_value(kind@, length as nat, unread(*old(bytes))) {
                Ok(value) => Ok(ValueView::Newtype(Box::new(value))),
                Err(e) => Err(e),
            },
            spec_value_span(kind@, length as nat, unread(*old(bytes))) as int,
            unread(*old(bytes)),
            unread(*final(bytes)),
        ),
    decreases kind, 1nat,
{
    match tlv_decode(kind, length, bytes) {
        Ok(inner) => Ok(Value::Newtype(Box::new(inner))),
        Err(e) => Err(e),
    }
}

/// Splits the next `length` bytes off the cursor and decodes the value of
/// the field from them. After an error the cursor is left where the error
/// was met.
fn value_from(field: &FieldSpec, length: usize, bytes: &mut Bytes) -> (done: Result<
    Value,
    TlvError,
>)
    requires
        spec_legal(field@.kind),
        length <= unread(*old(bytes)).len(),
    ensures
        match done {
            Ok(value) => spec_decode_value(
                field@.kind,
                length as nat,
                unread(*old(bytes)).take(length as int),
            ) == Ok::<ValueView, TlvError>(value@) && unread(*final(bytes)) == unread(
                *old(bytes),
            ).skip(length as int),
            Err(e) => spec_decode_value(
                field@.kind,
                length as nat,
                unread(*old(bytes)).take(length as int),
            ) == Err::<ValueView, TlvError>(e),
        },
    decreases field, 1nat,
{
    let mut payload = wire::split_to(bytes, length);
    tlv_decode(&field.kind, length, &mut payload)
}

/// Decodes one entry of a field with the strategy of its format.
pub fn format_entry_decode(field: &FieldSpec, bytes: &mut Bytes) -> (done: Result<Value, TlvError>)
    requires
        spec_field_legal(field@),
        spec_legal(field@.kind),
    ensures
        spec_decoded(
            done,
            spec_decode_entry(field@, unread(*old(bytes))),
            spec_entry_span(field.config, unread(*old(bytes))),
            unread(*old(bytes)),
            unread(*final(bytes)),
        ),
    decreases field, 3nat,
{
    match field.config.format {
        Format::T => format_t_decode(field, bytes),
        Format::V => format_v_decode(field, bytes),
        Format::TV => format_tv_decode(field, bytes),
        Format::LV | Format::LVE => format_lv_decode(field, bytes),
        Format::TLV | Format::TLVE => format_tlv_decode(field, bytes),
    }
}

/// Decodes an entry of the optional tail: `TV`, `TLV` or `TLV-E`.
pub fn format_option_decode(field: &FieldSpec, bytes: &mut Bytes) -> (done: Result<Value, TlvError>)
    requires
        spec_field_legal(field@),
        spec_legal(field@.kind),
        field.config.format == Format::TV || field.config.format == Format::TLV
            || field.config.format == Format::TLVE,
    ensures
        spec_decoded(
            done,
            spec_decode_entry(field@, unread(*old(bytes))),
            spec_entry_span(field.config, unread(*old(bytes))),
            unread(*old(bytes)),
            unread(*final(bytes)),
        ),
    decreases field, 3nat,
{
    match field.config.format {
        Format::TV => format_tv_decode(field, bytes),
        _ => format_tlv_decode(field, bytes),
    }
}

/// The tag-only strategy: reads past the tag; the value is read from no
/// bytes at all.
pub fn format_t_decode(field: &FieldSpec, bytes: &mut Bytes) -> (done: Result<Value, TlvError>)
    requires
        spec_legal(field@.kind),
        field.config.format == Format::T,
    ensures
        spec_decoded(
            done,
            spec_decode_entry(field@, unread(*old(bytes))),
            spec_entry_span(field.config, unread(*old(bytes))),
            unread(*old(bytes)),
            unread(*final(bytes)),
        ),
    decreases field, 2nat,
{
    let ghost input = unread(*bytes);
    let saved = wire::fork(bytes);
    match tag_decode(&field.config, bytes) {
        Err(e) => {
            return Err(e);
        },
        Ok(_) => {},
    }
    let ghost tag = spec_tag_span(field.config) as int;
    proof {
        assert(input.skip(tag).take(0) =~= input.subrange(tag, tag));
        assert(input.skip(tag).skip(0) =~= input.skip(tag));
    }
    match value_from(field, 0, bytes) {
        Ok(value) => Ok(value),
        Err(e) => {
            *bytes = saved;
            Err(e)
        },
    }
}

/// The value-only strategy: reads the declared number of bytes and decodes
/// the value from them.
pub fn format_v_decode(field: &FieldSpec, bytes: &mut Bytes) -> (done: Result<Value, TlvError>)
    requires
        spec_legal(field@.kind),
        field.config.format == Format::V,
    ensures
        spec_decoded(
            done,
            spec_decode_entry(field@, unread(*old(bytes))),
            spec_entry_span(field.config, unread(*old(bytes))),
            unread(*old(bytes)),
            unread(*final(bytes)),
        ),
    decreases field, 2nat,
{
    let ghost input = unread(*bytes);
    let saved = wire::fork(bytes);
    let length = match field.config.length {
        Some(literal) => literal,
        None => 0,
    };
    if wire::remaining(bytes) < length {
        return Err(TlvError::MalformedPayload);
    }
    proof {
        assert(input.take(length as int) =~= input.subrange(0, length as int));
    }
    match value_from(field, length, bytes) {
        Ok(value) => Ok(value),
        Err(e) => {
            *bytes = saved;
            Err(e)
        },
    }
}

/// The tag-value strategy: reads past the tag, then reads the declared
/// number of bytes and decodes the value from them. Where the tag has width
/// 0, one byte holds tag and value, and the value is its low half.
pub fn format_tv_decode(field: &FieldSpec, bytes: &mut Bytes) -> (done: Result<Value, TlvError>)
    requires
        spec_legal(field@.kind),
        field.config.format == Format::TV,
    ensures
        spec_decoded(
            done,
            spec_decode_entry(field@, unread(*old(bytes))),
            spec_entry_span(field.config, unread(*old(bytes))),
            unread(*old(bytes)),
            unread(*final(bytes)),
        ),
    decreases field, 2nat,
{
    let ghost input = unread(*bytes);
    if field.config.tag_bytes_format == 0 {
        return match u8::decode(1, bytes) {
            Ok(b) => {
                assert(b & 0x0f == b % 16) by (bit_vector);
                Ok(Value::Byte(b & 0x0f))
            },
            Err(e) => Err(e),
        };
    }
    let saved = wire::fork(bytes);
    match tag_decode(&field.config, bytes) {
        Err(e) => {
            return Err(e);
        },
        Ok(_) => {},
    }
    let ghost tag = spec_tag_span(field.config) as int;
    let length = match field.config.length {
        Some(literal) => literal,
        None => 0,
    };
    if wire::remaining(bytes) < length {
        *bytes = saved;
        return Err(TlvError::MalformedPayload);
    }
    proof {
        assert(input.skip(tag).take(length as int) =~= input.subrange(tag, tag + length));
        assert(input.skip(tag).skip(length as int) =~= input.skip(tag + length));
    }
    match value_from(field, length, bytes) {
        Ok(value) => Ok(value),
        Err(e) => {
            *bytes = saved;
            Err(e)
        },
    }
}

/// The length-value strategy: reads the length, then that many bytes, and
/// decodes the value from them.
pub fn format_lv_decode(field: &FieldSpec, bytes: &mut Bytes) -> (done: Result<Value, TlvError>)
    requires
        spec_field_legal(field@),
        spec_legal(field@.kind),
        field.config.format == Format::LV || field.config.format == Format::LVE,
    ensures
        spec_decoded(
            done,
            spec_decode_entry(field@, unread(*old(bytes))),
            spec_entry_span(field.config, unread(*old(bytes))),
            unread(*old(bytes)),
            unread(*final(bytes)),
        ),
    decreases field, 2nat,
{
    let ghost input = unread(*bytes);
    let saved = wire::fork(bytes);
    proof {
        assert(input.skip(0) =~= input);
    }
    let length = match length_decode(&field.config, bytes) {
        Ok(length) => length,
        Err(e) => {
            return Err(e);
        },
    };
    let ghost width = field.config.length_bytes_format as int;
    proof {
        assert(input.skip(width).take(length as int) =~= input.subrange(width, width + length));
        assert(input.skip(width).skip(length as int) =~= input.skip(width + length));
    }
    match value_from(field, length, bytes) {
        Ok(value) => Ok(value),
        Err(e) => {
            *bytes = saved;
            Err(e)
        },
    }
}

/// The tag-length-value strategy: reads past the tag, reads the length,
/// then that many bytes, and decodes the value from them.
pub fn format_tlv_decode(field: &FieldSpec, bytes: &mut Bytes) -> (done: Result<Value, TlvError>)
    requires
        spec_field_legal(field@),
        spec_legal(field@.kind),
        field.config.format == Format::TLV || field.config.format == Format::TLVE,
    ensures
        spec_decoded(
            done,
            spec_decode_entry(field@, unread(*old(bytes))),
            spec_entry_span(field.config, unread(*old(bytes))),
            unread(*old(bytes)),
            unread(*final(bytes)),
        ),
    decreases field, 2nat,
{
    let ghost input = unread(*bytes);
    let saved = wire::fork(bytes);
    match tag_decode(&field.config, bytes) {
        Err(e) => {
            return Err(e);
        },
        Ok(_) => {},
    }
    let ghost tag = spec_tag_span(field.config) as int;
    let length = match length_decode(&field.config, bytes) {
        Ok(length) => length,
        Err(e) => {
            *bytes = saved;
            return Err(e);
        },
    };
    let ghost start = tag + field.config.length_bytes_format as int;
    proof {
        assert(input.skip(tag).skip(field.config.length_bytes_format as int) =~= input.skip(start));
        assert(input.skip(start).take(length as int) =~= input.subrange(start, start + length));
        assert(input.skip(start).skip(length as int) =~= input.skip(start + length));
    }
    match value_from(field, length, bytes) {
        Ok(value) => Ok(value),
        Err(e) => {
            *bytes = saved;
            Err(e)
        },
    }
}

/// Decodes two 4-bit values from one byte: the first from the high half,
/// the second from the low half.
pub fn format_4bit_v_decode(bytes: &mut Bytes) -> (done: Result<(Value, Value), TlvError>)
    ensures
        match done {
            Ok((first, second)) => unread(*old(bytes)).len() >= 1 && first@ == ValueView::Byte(
                unread(*old(bytes))[0] / 16,
            ) && second@ == ValueView::Byte(unread(*old(bytes))[0] % 16) && unread(*final(bytes))
                == unread(*old(bytes)).skip(1),
            Err(e) => e == TlvError::MalformedPayload && unread(*old(bytes)).len() == 0 && unread(
                *final(bytes),
            ) == unread(*old(bytes)),
        },
{
    match u8::decode(1, bytes) {
        Ok(chunk) => {
            assert(chunk >> 4 == chunk / 16) by (bit_vector);
            assert(chunk & 0x0f == chunk % 16) by (bit_vector);
            Ok((Value::Byte(chunk >> 4), Value::Byte(chunk & 0x0f)))
        },
        Err(e) => Err(e),
    }
}

/// Puts one more value into the slot at `at`: the value of an optional
/// field, or the next value of a repeated one.
fn slot_put(slots: &mut Vec<Slot>, at: usize, value: Value)
    requires
        at < old(slots).len(),
    ensures
        final(slots).len() == old(slots).len(),
        slots_view(final(slots)@) == slots_view(old(slots)@).update(
            at as int,
            spec_slot_with(slots_view(old(slots)@)[at as int], value@),
        ),
{
    match &mut slots[at] {
        Slot::Repeated(values) => {
            values.push(value);
        },
        other => {
            *other = Slot::Optional(Some(value));
        },
    }
    proof {
        let before = old(slots)@;
        let after = slots@;
        assert(after.len() == before.len());
        assert(forall|k: int| 0 <= k < before.len() && k != at ==> after[k] == before[k]);
        match before[at as int] {
            Slot::Repeated(values) => {
                let grown = after[at as int]->Repeated_0;
                lemma_repeated_view(values);
                lemma_repeated_view(grown);
                assert(grown@ == values@.push(value));
                assert(values_view(grown@) =~= values_view(values@).push(value@));
            },
            _ => {
                assert(after[at as int] == Slot::Optional(Some(value)));
            },
        }
        assert(slots_view(after) =~= slots_view(before).update(
            at as int,
            spec_slot_with(slots_view(before)[at as int], value@),
        ));
    }
}

/// Whether an entry of a field with this descriptor starts with `lead`.
pub(crate) fn answers(config: &TlvConfig, lead: u8) -> (yes: bool)
    requires
        crate::rules::spec_widths_valid(*config),
        crate::rules::spec_literals_fit(*config),
    ensures
        yes == spec_answers(*config, lead),
{
    let tagged = match config.format {
        Format::T | Format::TV | Format::TLV | Format::TLVE => true,
        _ => false,
    };
    if !tagged {
        return false;
    }
    let tag = match config.tag {
        Some(tag) => tag,
        None => {
            return false;
        },
    };
    let width = config.tag_bytes_format;
    if width == 0 {
        return matches!(config.format, Format::TV) && tag == (lead / 16) as usize;
    }
    proof {
        lemma_pow256_values();
        lemma_be_bytes_first(tag as nat, width as nat);
    }
    let first: u128 = if width == 1 {
        tag as u128
    } else if width == 2 {
        tag as u128 / 0x100
    } else if width == 4 {
        tag as u128 / 0x100_0000
    } else if width == 8 {
        tag as u128 / 0x100_0000_0000_0000
    } else {
        tag as u128 / 0x100_0000_0000_0000_0000_0000_0000_0000
    };
    first == lead as u128
}

/// Finds the field of the optional tail whose entries start with `lead`.
pub(crate) fn dispatch(specs: &Vec<FieldSpec>, lead: u8) -> (found: Option<usize>)
    requires
        forall|i: int|
            0 <= i < specs.len() ==> crate::rules::spec_widths_valid(
                (#[trigger] fields_view(specs@)[i]).config,
            ) && crate::rules::spec_literals_fit(fields_view(specs@)[i].config),
    ensures
        match found {
            Some(at) => spec_dispatch(fields_view(specs@), 0, lead) == Some(at as int),
            None => spec_dispatch(fields_view(specs@), 0, lead) is None,
        },
{
    let ghost schema = fields_view(specs@);
    let mut at: usize = 0;
    while at < specs.len()
        invariant
            at <= specs.len(),
            schema == fields_view(specs@),
            forall|i: int|
                0 <= i < specs.len() ==> crate::rules::spec_widths_valid(
                    (#[trigger] schema[i]).config,
                ) && crate::rules::spec_literals_fit(schema[i].config),
            spec_dispatch(schema, 0, lead) == spec_dispatch(schema, at as int, lead),
        decreases specs.len() - at,
    {
        let field = &specs[at];
        assert(schema[at as int] == field@);
        assert(crate::rules::spec_widths_valid(schema[at as int].config));
        let in_tail = match field.presence {
            Presence::Required => false,
            _ => true,
        };
        if in_tail && answers(&field.config, lead) {
            return Some(at);
        }
        at = at + 1;
    }
    None
}

/// Reads the optional tail of a record into `slots`, which hold what the
/// required fields gave and a blank slot for each field of the tail. While
/// bytes are left, the next byte says which field the next entry belongs
/// to. A byte that no field answers to is an unknown tag; a second entry
/// for an optional field is a duplicate tag. After an error the cursor is
/// where it was.
pub fn init_option_decoder(specs: &Vec<FieldSpec>, blank: Vec<Slot>, bytes: &mut Bytes) -> (done:
    Result<Vec<Slot>, TlvError>)
    requires
        spec_fields_legal(fields_view(specs@)),
        blank.len() == specs.len(),
    ensures
        match done {
            Ok(filled) => spec_decode_tail(
                fields_view(specs@),
                slots_view(blank@),
                unread(*old(bytes)),
            ) == Ok::<Seq<SlotView>, TlvError>(slots_view(filled@)) && unread(*final(bytes)).len()
                == 0,
            Err(e) => spec_decode_tail(fields_view(specs@), slots_view(blank@), unread(*old(bytes)))
                == Err::<Seq<SlotView>, TlvError>(e) && unread(*final(bytes)) == unread(
                *old(bytes),
            ),
        },
    decreases specs, 0nat,
{
    let ghost schema = fields_view(specs@);
    let ghost goal = spec_decode_tail(schema, slots_view(blank@), unread(*bytes));
    let saved = wire::fork(bytes);
    let mut slots = blank;
    while wire::remaining(bytes) != 0
        invariant
            schema == fields_view(specs@),
            spec_fields_legal(schema),
            slots.len() == specs.len(),
            unread(saved) == unread(*old(bytes)),
            goal == spec_decode_tail(schema, slots_view(blank@), unread(*old(bytes))),
            goal == spec_decode_tail(schema, slots_view(slots@), unread(*bytes)),
        decreases unread(*bytes).len(),
    {
        let ghost input = unread(*bytes);
        let ghost held = slots_view(slots@);
        let lead = wire::chunk(bytes)[0];
        proof {
            lemma_dispatch(schema, 0, lead);
            assert forall|i: int| 0 <= i < specs.len() implies crate::rules::spec_widths_valid(
                (#[trigger] schema[i]).config,
            ) && crate::rules::spec_literals_fit(schema[i].config) by {
                assert(spec_field_legal(schema[i]));
            }
        }
        let at = match dispatch(specs, lead) {
            Some(at) => at,
            None => {
                *bytes = saved;
                return Err(TlvError::UnknownTag);
            },
        };
        let field = &specs[at];
        assert(schema[at as int] == field@);
        assert(spec_field_legal(schema[at as int]));
        assert(spec_legal(schema[at as int].kind));
        assert(held[at as int] == slots[at as int]@);
        let taken = match &slots[at] {
            Slot::Optional(Some(_)) => true,
            _ => false,
        };
        if taken {
            *bytes = saved;
            return Err(TlvError::DuplicateTag);
        }
        proof {
            lemma_frame_advances(field.config, input);
        }
        let value = match format_option_decode(field, bytes) {
            Ok(value) => value,
            Err(e) => {
                *bytes = saved;
                return Err(e);
            },
        };
        slot_put(&mut slots, at, value);
    }
    Ok(slots)
}

/// Decodes the fields of a record: the required fields in declared order,
/// two 4-bit values from one byte, then the optional tail from all that is
/// left. After an error the cursor is where it was.
pub fn impl_tlv_decode(specs: &Vec<FieldSpec>, bytes: &mut Bytes) -> (done: Result<
    Vec<Slot>,
    TlvError,
>)
    requires
        spec_fields_legal(fields_view(specs@)),
    ensures
        match done {
            Ok(slots) => spec_decode_fields(
                fields_view(specs@),
                0,
                Seq::empty(),
                unread(*old(bytes)),
            ) == Ok::<Seq<SlotView>, TlvError>(slots_view(slots@)) && unread(*final(bytes)).len()
                == 0,
            Err(e) => spec_decode_fields(fields_view(specs@), 0, Seq::empty(), unread(*old(bytes)))
                == Err::<Seq<SlotView>, TlvError>(e) && unread(*final(bytes)) == unread(
                *old(bytes),
            ),
        },
    decreases specs, 1nat,
{
    let ghost schema = fields_view(specs@);
    let ghost goal = spec_decode_fields(schema, 0, Seq::empty(), unread(*bytes));
    let saved = wire::fork(bytes);
    let mut slots: Vec<Slot> = Vec::new();
    let mut i: usize = 0;
    assert(slots_view(slots@) =~= Seq::<SlotView>::empty());
    while i < specs.len() && is_required(&specs[i])
        invariant
            i <= specs.len(),
            slots.len() == i,
            schema == fields_view(specs@),
            spec_fields_legal(schema),
            spec_paired_from(schema, i as int),
            unread(saved) == unread(*old(bytes)),
            goal == spec_decode_fields(schema, 0, Seq::empty(), unread(*old(bytes))),
            goal == spec_decode_fields(schema, i as int, slots_view(slots@), unread(*bytes)),
        decreases specs.len() - i,
    {
        let field = &specs[i];
        let ghost input = unread(*bytes);
        let ghost held = slots_view(slots@);
        assert(schema[i as int] == field@);
        assert(spec_field_legal(schema[i as int]));
        assert(spec_legal(schema[i as int].kind));
        let is_nibble = matches!(field.config.format, Format::V) && field.config.value_bits_format
            == 4;
        if is_nibble {
            match format_4bit_v_decode(bytes) {
                Ok((first, second)) => {
                    slots.push(Slot::Required(first));
                    slots.push(Slot::Required(second));
                    assert(slots_view(slots@) =~= held.push(SlotView::Required(first@)).push(
                        SlotView::Required(second@),
                    ));
                    i = i + 2;
                },
                Err(e) => {
                    *bytes = saved;
                    return Err(e);
                },
            }
        } else {
            match format_entry_decode(field, bytes) {
                Ok(value) => {
                    slots.push(Slot::Required(value));
                    assert(slots_view(slots@) =~= held.push(SlotView::Required(value@)));
                    i = i + 1;
                },
                Err(e) => {
                    *bytes = saved;
                    return Err(e);
                },
            }
        }
    }
    let ghost required = slots_view(slots@);
    let first_of_tail = i;
    assert(goal == spec_decode_tail(
        schema,
        required + spec_blank_tail(schema, first_of_tail as int),
        unread(*bytes),
    ));
    assert(spec_blank_tail(schema, first_of_tail as int).take(0) =~= Seq::<SlotView>::empty());
    assert(required + Seq::<SlotView>::empty() =~= required);
    while i < specs.len()
        invariant
            first_of_tail <= i <= specs.len(),
            slots.len() == i,
            schema == fields_view(specs@),
            slots_view(slots@) == required + spec_blank_tail(schema, first_of_tail as int).take(
                i - first_of_tail,
            ),
        decreases specs.len() - i,
    {
        let ghost held = slots_view(slots@);
        let blank = match specs[i].presence {
            Presence::Repeated => Slot::Repeated(Vec::new()),
            _ => Slot::Optional(None),
        };
        proof {
            assert(schema[i as int] == specs[i as int]@);
            if specs[i as int].presence == Presence::Repeated {
                lemma_repeated_view(blank->Repeated_0);
                assert(values_view(blank->Repeated_0@) =~= Seq::<ValueView>::empty());
            }
            assert(blank@ == spec_blank(schema[i as int].presence));
        }
        let ghost added = blank@;
        slots.push(blank);
        proof {
            let tail = spec_blank_tail(schema, first_of_tail as int);
            assert(tail[i - first_of_tail] == added);
            assert(slots_view(slots@) =~= held.push(added));
            assert(tail.take(i + 1 - first_of_tail) =~= tail.take(i - first_of_tail).push(added));
            assert(held.push(added) =~= required + tail.take(i + 1 - first_of_tail));
        }
        i = i + 1;
    }
    proof {
        let tail = spec_blank_tail(schema, first_of_tail as int);
        assert(tail.take(specs.len() - first_of_tail) =~= tail);
    }
    match init_option_decoder(specs, slots, bytes) {
        Ok(filled) => Ok(filled),
        Err(e) => {
            *bytes = saved;
            Err(e)
        },
    }
}

/// Whether the field belongs to the required prefix.
fn is_required(field: &FieldSpec) -> (yes: bool)
    ensures
        yes == (field.presence == Presence::Required),
{
    match field.presence {
        Presence::Required => true,
        _ => false,
    }
}

} // verus!
