//! Values and their kinds: the check that a value is of a schema, and the
//! proof that the decoder returns nothing else.

use crate::config::Presence;
use crate::layout::spec_admits;
use crate::layout::spec_fields_admit;
use crate::layout::spec_slot_admits;
use crate::parse::lemma_dispatch;
use crate::parse::lemma_frame_advances;
use crate::parse::spec_blank;
use crate::parse::spec_blank_tail;
use crate::parse::spec_decode_entry;
use crate::parse::spec_decode_fields;
use crate::parse::spec_decode_tail;
use crate::parse::spec_decode_value;
use crate::parse::spec_dispatch;
use crate::parse::spec_frame;
use crate::parse::spec_slot_with;
use crate::rules::spec_field_legal;
use crate::rules::spec_fields_legal;
use crate::rules::spec_legal;
use crate::rules::spec_paired_from;
use crate::schema::fields_view;
use crate::schema::lemma_record_view;
use crate::schema::FieldSpec;
use crate::schema::FieldSpecView;
use crate::schema::Kind;
use crate::schema::KindView;
use crate::value::lemma_record_value_view;
use crate::value::lemma_repeated_view;
use crate::value::slots_view;
use crate::value::values_view;
use crate::value::Slot;
use crate::value::SlotView;
use crate::value::Value;
use crate::value::ValueView;
use vstd::prelude::*;

verus! {

/// Whether the value is of the kind.
pub fn admits(kind: &Kind, value: &Value) -> (yes: bool)
    ensures
        yes == spec_admits(kind@, value@),
    decreases kind, 0nat,
{
    match (kind, value) {
        (Kind::Unit, Value::Unit) => true,
        (Kind::Byte, Value::Byte(_)) => true,
        (Kind::Bytes, Value::Bytes(_)) => true,
        (Kind::Newtype(inner_kind), Value::Newtype(inner)) => admits(inner_kind, inner),
        (Kind::Record(specs), Value::Record(slots)) => {
            proof {
                lemma_record_view(*specs);
                lemma_record_value_view(*slots);
            }
            fields_admit(specs, slots)
        },
        _ => false,
    }
}

/// Whether the record has one slot for each field, each of its field.
fn fields_admit(specs: &Vec<FieldSpec>, slots: &Vec<Slot>) -> (yes: bool)
    ensures
        yes == spec_fields_admit(fields_view(specs@), slots_view(slots@)),
    decreases specs, 1nat,
{
    if specs.len() != slots.len() {
        return false;
    }
    let ghost schema = fields_view(specs@);
    let ghost record = slots_view(slots@);
    let mut i: usize = 0;
    while i < specs.len()
        invariant
            i <= specs.len() == slots.len(),
            schema == fields_view(specs@),
            record == slots_view(slots@),
            forall|k: int| 0 <= k < i ==> spec_slot_admits(#[trigger] schema[k], record[k]),
        decreases specs.len() - i,
    {
        assert(schema[i as int] == specs[i as int]@);
        assert(record[i as int] == slots[i as int]@);
        if !slot_admits(&specs[i], &slots[i]) {
            return false;
        }
        i = i + 1;
    }
    true
}

/// Whether the slot is of the field.
fn slot_admits(field: &FieldSpec, slot: &Slot) -> (yes: bool)
    ensures
        yes == spec_slot_admits(field@, slot@),
    decreases field, 1nat,
{
    match (field.presence, slot) {
        (Presence::Required, Slot::Required(value)) => admits(&field.kind, value),
        (Presence::Optional, Slot::Optional(Some(value))) => admits(&field.kind, value),
        (Presence::Optional, Slot::Optional(None)) => true,
        (Presence::Repeated, Slot::Repeated(values)) => {
            proof {
                lemma_repeated_view(*values);
            }
            let ghost items = values_view(values@);
            let mut j: usize = 0;
            while j < values.len()
                invariant
                    j <= values.len(),
                    items == values_view(values@),
                    slot@ == SlotView::Repeated(items),
                    field@.presence == Presence::Repeated,
                    forall|k: int| 0 <= k < j ==> spec_admits(field@.kind, #[trigger] items[k]),
                decreases values.len() - j,
            {
                assert(items[j as int] == values[j as int]@);
                if !admits(&field.kind, &values[j]) {
                    assert(!spec_slot_admits(field@, slot@)) by {
                        assert(items[j as int] == slot@->Repeated_0[j as int]);
                    }
                    return false;
                }
                j = j + 1;
            }
            assert(spec_slot_admits(field@, slot@)) by {
                assert forall|k: int| 0 <= k < items.len() implies spec_admits(
                    field@.kind,
                    #[trigger] slot@->Repeated_0[k],
                ) by {
                    assert(spec_admits(field@.kind, items[k]));
                }
            }
            true
        },
        _ => false,
    }
}

/// A value that a legal kind decodes to is of the kind.
pub proof fn lemma_decoded_value_admitted(kind: KindView, length: nat, input: Seq<u8>)
    requires
        spec_legal(kind),
    ensures
        spec_decode_value(kind, length, input) matches Ok(value) ==> spec_admits(kind, value),
    decreases kind, 0nat, 0nat,
{
    match kind {
        KindView::Newtype(inner) => {
            lemma_decoded_value_admitted(*inner, length, input);
        },
        KindView::Record(specs) => {
            let none = Seq::<SlotView>::empty();
            lemma_decoded_fields_admitted(specs, 0, none, input);
        },
        _ => {},
    }
}

/// The value of an entry that a legal field decodes is of the field's kind.
proof fn lemma_decoded_entry_admitted(field: FieldSpecView, input: Seq<u8>)
    requires
        spec_field_legal(field),
        spec_legal(field.kind),
    ensures
        spec_decode_entry(field, input) matches Ok(value) ==> spec_admits(field.kind, value),
    decreases field, 1nat, 0nat,
{
    match spec_frame(field.config, input) {
        Ok(frame) => {
            if !field.config.is_cell() {
                lemma_decoded_value_admitted(
                    field.kind,
                    frame.len,
                    input.subrange(frame.start as int, frame.end()),
                );
            }
        },
        Err(_) => {},
    }
}

/// The slots that the optional tail is read into stay of their fields.
proof fn lemma_decoded_tail_admitted(
    specs: Seq<FieldSpecView>,
    state: Seq<SlotView>,
    input: Seq<u8>,
)
    requires
        spec_fields_legal(specs),
        spec_fields_admit(specs, state),
    ensures
        spec_decode_tail(specs, state, input) matches Ok(slots) ==> spec_fields_admit(specs, slots),
    decreases specs, 2nat, input.len(),
{
    if input.len() > 0 {
        lemma_dispatch(specs, 0, input[0]);
        match spec_dispatch(specs, 0, input[0]) {
            Some(at) => {
                let field = specs[at];
                assert(spec_field_legal(field));
                assert(spec_legal(field.kind));
                assert(spec_slot_admits(field, state[at]));
                lemma_frame_advances(field.config, input);
                lemma_decoded_entry_admitted(field, input);
                if !(state[at] matches SlotView::Optional(Some(_))) {
                    match (spec_frame(field.config, input), spec_decode_entry(field, input)) {
                        (Ok(frame), Ok(value)) => {
                            let filled = spec_slot_with(state[at], value);
                            let next = state.update(at, filled);
                            assert(spec_slot_admits(field, filled)) by {
                                if state[at] is Repeated {
                                    let before = state[at]->Repeated_0;
                                    let after = filled->Repeated_0;
                                    assert forall|k: int| 0 <= k < after.len() implies spec_admits(
                                        field.kind,
                                        #[trigger] after[k],
                                    ) by {
                                        if k < before.len() {
                                            assert(after[k] == before[k]);
                                        }
                                    }
                                }
                            }
                            assert(spec_fields_admit(specs, next)) by {
                                assert forall|i: int| 0 <= i < specs.len() implies spec_slot_admits(
                                    #[trigger] specs[i],
                                    next[i],
                                ) by {
                                    if i != at {
                                        assert(spec_slot_admits(specs[i], state[i]));
                                    }
                                }
                            }
                            lemma_decoded_tail_admitted(specs, next, input.skip(frame.end()));
                        },
                        _ => {},
                    }
                }
            },
            None => {},
        }
    }
}

/// The slots that the fields of a legal record are read into are of their
/// fields.
proof fn lemma_decoded_fields_admitted(
    specs: Seq<FieldSpecView>,
    from: int,
    state: Seq<SlotView>,
    input: Seq<u8>,
)
    requires
        spec_fields_legal(specs),
        0 <= from <= specs.len(),
        spec_paired_from(specs, from),
        state.len() == from,
        forall|i: int| 0 <= i < from ==> spec_slot_admits(#[trigger] specs[i], state[i]),
    ensures
        spec_decode_fields(specs, from, state, input) matches Ok(slots) ==> spec_fields_admit(
            specs,
            slots,
        ),
    decreases specs, 3nat, specs.len() - from,
{
    if from >= specs.len() || specs[from].presence != Presence::Required {
        let blank = spec_blank_tail(specs, from);
        let full = state + blank;
        assert(spec_fields_admit(specs, full)) by {
            assert forall|i: int| 0 <= i < specs.len() implies spec_slot_admits(
                #[trigger] specs[i],
                full[i],
            ) by {
                if i < from {
                    assert(spec_slot_admits(specs[i], state[i]));
                } else {
                    assert(full[i] == spec_blank(specs[i].presence));
                    if specs[i].presence == Presence::Required {
                        assert(specs[from].presence == Presence::Required);
                    }
                    if specs[i].presence == Presence::Repeated {
                        assert(full[i]->Repeated_0.len() == 0);
                    }
                }
            }
        }
        lemma_decoded_tail_admitted(specs, full, input);
    } else if specs[from].config.is_nibble() && from + 1 < specs.len() {
        if input.len() >= 1 {
            let first = SlotView::Required(ValueView::Byte(input[0] / 16));
            let second = SlotView::Required(ValueView::Byte(input[0] % 16));
            let next = state.push(first).push(second);
            assert(spec_field_legal(specs[from]));
            assert(spec_field_legal(specs[from + 1]));
            assert forall|i: int| 0 <= i < from + 2 implies spec_slot_admits(
                #[trigger] specs[i],
                next[i],
            ) by {
                if i < from {
                    assert(spec_slot_admits(specs[i], state[i]));
                }
            }
            lemma_decoded_fields_admitted(specs, from + 2, next, input.skip(1));
        }
    } else {
        let field = specs[from];
        assert(spec_field_legal(field));
        assert(spec_legal(field.kind));
        lemma_decoded_entry_admitted(field, input);
        match (spec_frame(field.config, input), spec_decode_entry(field, input)) {
            (Ok(frame), Ok(value)) => {
                let next = state.push(SlotView::Required(value));
                assert forall|i: int| 0 <= i < from + 1 implies spec_slot_admits(
                    #[trigger] specs[i],
                    next[i],
                ) by {
                    if i < from {
                        assert(spec_slot_admits(specs[i], state[i]));
                    }
                }
                lemma_decoded_fields_admitted(specs, from + 1, next, input.skip(frame.end()));
            },
            _ => {},
        }
    }
}

} // verus!
