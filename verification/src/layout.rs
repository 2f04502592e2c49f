//! The byte layout of values: what encoding has to produce.
//!
//! These functions are the specification of the encoder. They say, for a
//! schema and a value of it, which bytes stand on the wire, and when a
//! measured length does not fit its field.

use crate::config::Format;
use crate::config::Presence;
use crate::config::TlvConfig;
use crate::endian::be_bytes;
use crate::endian::pow256;
use crate::error::TlvError;
use crate::schema::FieldSpecView;
use crate::schema::KindView;
use crate::value::SlotView;
use crate::value::ValueView;
use vstd::prelude::*;

verus! {

/// The tag as it is written: the literal tag in the declared width, or
/// nothing where no tag is declared or the width is 0.
pub open spec fn spec_tag_field(config: TlvConfig) -> Seq<u8> {
    match config.tag {
        Some(tag) => be_bytes(tag as nat, config.tag_bytes_format as nat),
        None => Seq::empty(),
    }
}

/// The length that a field announces for a payload of `measured` bytes: the
/// literal length if one is declared, else the measured one.
pub open spec fn spec_announced(config: TlvConfig, measured: nat) -> nat {
    match config.length {
        Some(literal) => literal as nat,
        None => measured,
    }
}

/// The length field as it is written for a payload of `measured` bytes: the
/// announced length in the declared width, or nothing where the width is 0.
pub open spec fn spec_length_field(config: TlvConfig, measured: nat) -> Seq<u8> {
    be_bytes(spec_announced(config, measured), config.length_bytes_format as nat)
}

/// The 4-bit value that a value stands for: the low half of a byte.
pub open spec fn spec_nibble(value: ValueView) -> nat {
    match value {
        ValueView::Byte(b) => (b % 16) as nat,
        _ => 0,
    }
}

/// The 4-bit value in a slot.
pub open spec fn spec_slot_nibble(slot: SlotView) -> nat {
    match slot {
        SlotView::Required(value) => spec_nibble(value),
        _ => 0,
    }
}

/// The byte that two 4-bit values share: the first in the high half, the
/// second in the low half.
pub open spec fn spec_pair_byte(first: SlotView, second: SlotView) -> u8 {
    (spec_slot_nibble(first) * 16 + spec_slot_nibble(second)) as u8
}

/// The byte that a 4-bit tag and a 4-bit value share: the tag in the high
/// half, the value in the low half.
pub open spec fn spec_cell_byte(config: TlvConfig, value: ValueView) -> u8 {
    let tag: nat = match config.tag {
        Some(tag) => (tag % 16) as nat,
        None => 0,
    };
    (tag * 16 + spec_nibble(value)) as u8
}

/// The bytes of a value of the given kind, without any framing.
pub open spec fn spec_value_bytes(kind: KindView, value: ValueView) -> Seq<u8>
    decreases kind, 0nat, 0nat,
{
    match (kind, value) {
        (KindView::Byte, ValueView::Byte(b)) => seq![b],
        (KindView::Bytes, ValueView::Bytes(bytes)) => bytes,
        (KindView::Newtype(inner_kind), ValueView::Newtype(inner)) => spec_value_bytes(
            *inner_kind,
            *inner,
        ),
        (KindView::Record(specs), ValueView::Record(slots)) => spec_fields_bytes(specs, slots, 0),
        _ => Seq::empty(),
    }
}

/// A tag-only entry: the tag, and nothing of the value.
pub open spec fn spec_t_bytes(config: TlvConfig) -> Seq<u8> {
    spec_tag_field(config)
}

/// A tag-value entry: the tag and the payload, or, where the tag has width
/// 0, the one byte that a 4-bit tag and a 4-bit value share.
pub open spec fn spec_tv_bytes(config: TlvConfig, value: ValueView, payload: Seq<u8>) -> Seq<u8> {
    if config.tag_bytes_format == 0 {
        seq![spec_cell_byte(config, value)]
    } else {
        spec_tag_field(config) + payload
    }
}

/// A length-value entry: the length field and the payload.
pub open spec fn spec_lv_bytes(config: TlvConfig, payload: Seq<u8>) -> Seq<u8> {
    spec_length_field(config, payload.len()) + payload
}

/// A tag-length-value entry: the tag, the length field and the payload.
pub open spec fn spec_tlv_bytes(config: TlvConfig, payload: Seq<u8>) -> Seq<u8> {
    spec_tag_field(config) + spec_length_field(config, payload.len()) + payload
}

/// A payload of `measured` bytes can be announced: its length is declared,
/// or the length field is absent, or the measured length fits the field.
pub open spec fn spec_length_fits(config: TlvConfig, measured: nat) -> bool {
    config.length is None && config.length_bytes_format != 0 ==> measured < pow256(
        config.length_bytes_format as nat,
    )
}

/// One entry of a field on the wire, framed as its format says.
pub open spec fn spec_entry_bytes(field: FieldSpecView, value: ValueView) -> Seq<u8>
    decreases field, 1nat, 0nat,
{
    let config = field.config;
    match config.format {
        Format::T => spec_t_bytes(config),
        Format::V => spec_value_bytes(field.kind, value),
        Format::TV => spec_tv_bytes(config, value, spec_value_bytes(field.kind, value)),
        Format::LV | Format::LVE => spec_lv_bytes(config, spec_value_bytes(field.kind, value)),
        Format::TLV | Format::TLVE => spec_tlv_bytes(config, spec_value_bytes(field.kind, value)),
    }
}

/// The entries of a repeated field from the `from`-th on, one after another.
pub open spec fn spec_entries_bytes(field: FieldSpecView, values: Seq<ValueView>, from: int) -> Seq<
    u8,
>
    decreases field, 2nat, values.len() - from,
{
    if from < 0 || from >= values.len() {
        Seq::empty()
    } else {
        spec_entry_bytes(field, values[from]) + spec_entries_bytes(field, values, from + 1)
    }
}

/// What a slot puts on the wire: one entry for a required or a present
/// optional field, nothing for an absent one, every entry of a repeated one.
pub open spec fn spec_slot_bytes(field: FieldSpecView, slot: SlotView) -> Seq<u8>
    decreases field, 3nat, 0nat,
{
    match slot {
        SlotView::Required(value) => spec_entry_bytes(field, value),
        SlotView::Optional(Some(value)) => spec_entry_bytes(field, value),
        SlotView::Optional(None) => Seq::empty(),
        SlotView::Repeated(values) => spec_entries_bytes(field, values, 0),
    }
}

/// The fields of a record from the `from`-th on, in declared order. Two
/// 4-bit value fields next to each other share one byte.
pub open spec fn spec_fields_bytes(specs: Seq<FieldSpecView>, slots: Seq<SlotView>, from: int) -> Seq<
    u8,
>
    decreases specs, 0nat, specs.len() - from,
{
    if from < 0 || from >= specs.len() {
        Seq::empty()
    } else if specs[from].config.is_nibble() && from + 1 < specs.len() {
        seq![spec_pair_byte(slots[from], slots[from + 1])] + spec_fields_bytes(
            specs,
            slots,
            from + 2,
        )
    } else {
        spec_slot_bytes(specs[from], slots[from]) + spec_fields_bytes(
            specs,
            slots,
            from + 1,
        )
    }
}

/// Every measured length inside the value fits the width of its field.
pub open spec fn spec_value_fits(kind: KindView, value: ValueView) -> bool
    decreases kind, 0nat, 0nat,
{
    match (kind, value) {
        (KindView::Newtype(inner_kind), ValueView::Newtype(inner)) => spec_value_fits(
            *inner_kind,
            *inner,
        ),
        (KindView::Record(specs), ValueView::Record(slots)) => spec_fields_fit(specs, slots),
        _ => true,
    }
}

/// The entry's own measured length fits, and so does every one inside it.
pub open spec fn spec_entry_fits(field: FieldSpecView, value: ValueView) -> bool
    decreases field, 1nat, 0nat,
{
    let config = field.config;
    match config.format {
        Format::T => true,
        Format::V => spec_value_fits(field.kind, value),
        Format::TV => config.tag_bytes_format == 0 || spec_value_fits(field.kind, value),
        Format::LV | Format::LVE | Format::TLV | Format::TLVE => {
            &&& spec_value_fits(field.kind, value)
            &&& spec_length_fits(config, spec_value_bytes(field.kind, value).len())
        },
    }
}

/// Every entry of the slot fits.
pub open spec fn spec_slot_fits(field: FieldSpecView, slot: SlotView) -> bool
    decreases field, 3nat, 0nat,
{
    match slot {
        SlotView::Required(value) => spec_entry_fits(field, value),
        SlotView::Optional(Some(value)) => spec_entry_fits(field, value),
        SlotView::Optional(None) => true,
        SlotView::Repeated(values) => forall|j: int|
            0 <= j < values.len() ==> spec_entry_fits(field, #[trigger] values[j]),
    }
}

/// Every slot of the record fits.
pub open spec fn spec_fields_fit(specs: Seq<FieldSpecView>, slots: Seq<SlotView>) -> bool
    decreases specs, 0nat, 0nat,
{
    forall|i: int|
        0 <= i < specs.len() ==> spec_slot_fits(#[trigger] specs[i], slots[i])
}

/// The value is of the kind: it has the shape that the schema describes.
pub open spec fn spec_admits(kind: KindView, value: ValueView) -> bool
    decreases kind, 0nat, 0nat,
{
    match (kind, value) {
        (KindView::Unit, ValueView::Unit) => true,
        (KindView::Byte, ValueView::Byte(_)) => true,
        (KindView::Bytes, ValueView::Bytes(_)) => true,
        (KindView::Newtype(inner_kind), ValueView::Newtype(inner)) => spec_admits(
            *inner_kind,
            *inner,
        ),
        (KindView::Record(specs), ValueView::Record(slots)) => spec_fields_admit(specs, slots),
        _ => false,
    }
}

/// The slot is of the field: required, optional or repeated as declared,
/// and each value in it of the field's kind.
pub open spec fn spec_slot_admits(field: FieldSpecView, slot: SlotView) -> bool
    decreases field, 3nat, 0nat,
{
    match (field.presence, slot) {
        (Presence::Required, SlotView::Required(value)) => spec_admits(field.kind, value),
        (Presence::Optional, SlotView::Optional(Some(value))) => spec_admits(field.kind, value),
        (Presence::Optional, SlotView::Optional(None)) => true,
        (Presence::Repeated, SlotView::Repeated(values)) => forall|j: int|
            0 <= j < values.len() ==> spec_admits(field.kind, #[trigger] values[j]),
        _ => false,
    }
}

/// The record has one slot for each field, each of its field.
pub open spec fn spec_fields_admit(specs: Seq<FieldSpecView>, slots: Seq<SlotView>) -> bool
    decreases specs, 0nat, 0nat,
{
    &&& slots.len() == specs.len()
    &&& forall|i: int| 0 <= i < specs.len() ==> spec_slot_admits(#[trigger] specs[i], slots[i])
}

/// What an encoder owes its caller. Where everything fits, the sink has
/// grown by exactly `bytes` and `done` is their number; where something does
/// not, the error is `LengthOverflow` and the sink holds what it held before.
pub open spec fn spec_encoded(
    done: Result<usize, TlvError>,
    before: Seq<u8>,
    after: Seq<u8>,
    fits: bool,
    bytes: Seq<u8>,
) -> bool {
    match done {
        Ok(n) => fits && n == bytes.len() && after == before + bytes,
        Err(e) => !fits && e == TlvError::LengthOverflow && after == before,
    }
}

} // verus!
