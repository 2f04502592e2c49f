//! What holds of the codec as a whole.
//!
//! The theorems here relate the layout that the encoder produces to the
//! reading that the decoder makes of it. They are stated over the models,
//! and the contracts of the executable functions tie the code to them.

use crate::config::Format;
use crate::config::Presence;
use crate::config::TlvConfig;
use crate::endian::be_bytes;
use crate::endian::be_value;
use crate::endian::lemma_be_bytes_len;
use crate::endian::lemma_be_value_of_bytes;
use crate::endian::pow256;
use crate::error::TlvError;
use crate::layout::spec_admits;
use crate::layout::spec_announced;
use crate::layout::spec_cell_byte;
use crate::layout::spec_entries_bytes;
use crate::layout::spec_entry_bytes;
use crate::layout::spec_fields_admit;
use crate::layout::spec_fields_bytes;
use crate::layout::spec_length_field;
use crate::layout::spec_length_fits;
use crate::layout::spec_nibble;
use crate::layout::spec_pair_byte;
use crate::layout::spec_slot_admits;
use crate::layout::spec_slot_bytes;
use crate::layout::spec_tag_field;
use crate::layout::spec_value_bytes;
use crate::parse::lemma_dispatch;
use crate::parse::spec_blank;
use crate::parse::spec_blank_tail;
use crate::parse::spec_decode_entry;
use crate::parse::spec_decode_fields;
use crate::parse::spec_decode_tail;
use crate::parse::spec_decode_value;
use crate::parse::spec_dispatch;
use crate::parse::spec_frame;
use crate::parse::spec_measured_frame;
use crate::parse::spec_slot_with;
use crate::parse::spec_tag_span;
use crate::parse::spec_value_span;
use crate::parse::Frame;
use crate::rules::spec_answers;
use crate::rules::spec_complete;
use crate::rules::spec_field_legal;
use crate::rules::spec_fields_legal;
use crate::rules::spec_legal;
use crate::rules::spec_literals_fit;
use crate::rules::spec_paired_from;
use crate::rules::spec_required_first;
use crate::rules::spec_tags_distinct;
use crate::schema::FieldSpecView;
use crate::schema::KindView;
use crate::value::SlotView;
use crate::value::ValueView;
use vstd::prelude::*;

verus! {

/// The payload has the length that the field lets the decoder expect: the
/// declared length where one is declared, and one that the length field
/// can hold where it is measured.
pub open spec fn spec_length_agrees(config: TlvConfig, measured: nat) -> bool {
    &&& config.format != Format::T ==> (config.length matches Some(literal) ==> measured
        == literal)
    &&& config.format.has_length() ==> spec_length_fits(config, measured)
}

/// The value can be told from its bytes: every 4-bit value in it is below
/// 16, and every payload in it has the length that its field lets the
/// decoder expect.
pub open spec fn spec_in_range(kind: KindView, value: ValueView) -> bool
    decreases kind, 0nat,
{
    match (kind, value) {
        (KindView::Newtype(inner_kind), ValueView::Newtype(inner)) => spec_in_range(
            *inner_kind,
            *inner,
        ),
        (KindView::Record(specs), ValueView::Record(slots)) => forall|i: int|
            0 <= i < specs.len() ==> spec_slot_in_range(#[trigger] specs[i], slots[i]),
        _ => true,
    }
}

/// The entry can be told from its bytes.
pub open spec fn spec_entry_in_range(field: FieldSpecView, value: ValueView) -> bool
    decreases field, 1nat,
{
    if field.config.is_cell() || field.config.is_nibble() {
        value matches ValueView::Byte(b) && b < 16
    } else {
        &&& spec_in_range(field.kind, value)
        &&& spec_length_agrees(field.config, spec_value_bytes(field.kind, value).len())
    }
}

/// Every entry in the slot can be told from its bytes.
pub open spec fn spec_slot_in_range(field: FieldSpecView, slot: SlotView) -> bool
    decreases field, 2nat,
{
    match slot {
        SlotView::Required(value) => spec_entry_in_range(field, value),
        SlotView::Optional(Some(value)) => spec_entry_in_range(field, value),
        SlotView::Optional(None) => true,
        SlotView::Repeated(values) => forall|j: int|
            0 <= j < values.len() ==> spec_entry_in_range(field, #[trigger] values[j]),
    }
}

/// The tag as written has as many bytes as reading it takes.
proof fn lemma_tag_field_len(config: TlvConfig)
    ensures
        spec_tag_field(config).len() == spec_tag_span(config),
{
    if config.tag is Some {
        lemma_be_bytes_len(config.tag->0 as nat, config.tag_bytes_format as nat);
    }
}

/// A length field that was written for a payload is read back as the
/// length of that payload, and the payload is found right behind it.
proof fn lemma_measured_frame(config: TlvConfig, head: Seq<u8>, payload: Seq<u8>, rest: Seq<u8>)
    requires
        config.length_bytes_format >= 1,
        spec_length_fits(config, payload.len()),
        config.length matches Some(literal) ==> literal == payload.len() && literal < pow256(
            config.length_bytes_format as nat,
        ),
    ensures
        spec_measured_frame(
            config,
            head + spec_length_field(config, payload.len()) + payload + rest,
            head.len(),
        ) == Ok::<Frame, TlvError>(
            Frame {
                start: head.len() + config.length_bytes_format as nat,
                len: payload.len(),
            },
        ),
{
    let width = config.length_bytes_format as nat;
    let field = spec_length_field(config, payload.len());
    let input = head + field + payload + rest;
    let announced = spec_announced(config, payload.len());
    lemma_be_bytes_len(announced, width);
    lemma_be_value_of_bytes(announced, width);
    let after = input.skip(head.len() as int);
    assert(after =~= field + payload + rest);
    assert(after.take(width as int) =~= field);
}

/// The frame of an entry that was laid out around a payload: the payload is
/// found where the layout put it, and the entry ends where the payload ends.
proof fn lemma_entry_frame(config: TlvConfig, payload: Seq<u8>, rest: Seq<u8>)
    requires
        !config.is_cell(),
        !config.is_nibble(),
        spec_complete(config),
        spec_literals_fit(config),
        spec_length_agrees(config, payload.len()),
        config.format == Format::T ==> payload.len() == 0,
    ensures
        ({
            let entry = spec_framed(config, payload);
            let start = (entry.len() - payload.len()) as nat;
            &&& entry.len() >= payload.len()
            &&& spec_frame(config, entry + rest) == Ok::<Frame, TlvError>(
                Frame { start, len: payload.len() },
            )
            &&& (entry + rest).subrange(start as int, entry.len() as int) == payload
            &&& (entry + rest).skip(entry.len() as int) == rest
        }),
{
    let entry = spec_framed(config, payload);
    let input = entry + rest;
    let tag = spec_tag_field(config);
    lemma_tag_field_len(config);
    assert(input.skip(entry.len() as int) =~= rest);
    let start = (entry.len() - payload.len()) as nat;
    let goal = Ok::<Frame, TlvError>(Frame { start, len: payload.len() });
    match config.format {
        Format::T => {
            assert(payload =~= Seq::<u8>::empty());
            assert(input.subrange(entry.len() as int, entry.len() as int) =~= payload);
            assert(spec_frame(config, input) == goal);
        },
        Format::V => {
            assert(input.subrange(0, entry.len() as int) =~= payload);
            assert(spec_frame(config, input) == goal);
        },
        Format::TV => {
            assert(input.subrange(tag.len() as int, entry.len() as int) =~= payload);
            assert(spec_frame(config, input) == goal);
        },
        Format::LV | Format::LVE => {
            let empty = Seq::<u8>::empty();
            lemma_measured_frame(config, empty, payload, rest);
            let field = spec_length_field(config, payload.len());
            lemma_be_bytes_len(
                spec_announced(config, payload.len()),
                config.length_bytes_format as nat,
            );
            assert(empty + field + payload + rest =~= input);
            assert(input.subrange(field.len() as int, entry.len() as int) =~= payload);
            assert(spec_frame(config, input) == goal);
        },
        Format::TLV | Format::TLVE => {
            lemma_measured_frame(config, tag, payload, rest);
            let field = spec_length_field(config, payload.len());
            lemma_be_bytes_len(
                spec_announced(config, payload.len()),
                config.length_bytes_format as nat,
            );
            assert(tag + field + payload + rest =~= input);
            assert(input.subrange((tag.len() + field.len()) as int, entry.len() as int)
                =~= payload);
            assert(spec_frame(config, input) == goal);
        },
    }
}

/// An entry as its format lays it out around a payload.
pub open spec fn spec_framed(config: TlvConfig, payload: Seq<u8>) -> Seq<u8> {
    match config.format {
        Format::T => spec_tag_field(config),
        Format::V => payload,
        Format::TV => spec_tag_field(config) + payload,
        Format::LV | Format::LVE => spec_length_field(config, payload.len()) + payload,
        Format::TLV | Format::TLVE => spec_tag_field(config) + spec_length_field(
            config,
            payload.len(),
        ) + payload,
    }
}

/// An entry of a field of the optional tail has a first byte, and the
/// field answers to it.
proof fn lemma_entry_lead(field: FieldSpecView, value: ValueView)
    requires
        spec_field_legal(field),
        field.presence != Presence::Required,
    ensures
        spec_entry_bytes(field, value).len() >= 1,
        spec_answers(field.config, spec_entry_bytes(field, value)[0]),
{
    let config = field.config;
    let tag = config.tag->0;
    if config.is_cell() {
        let byte = spec_cell_byte(config, value);
        assert(byte / 16 == tag);
    } else {
        lemma_be_bytes_len(tag as nat, config.tag_bytes_format as nat);
    }
}

/// In a legal record type, a field of the optional tail is the one that is
/// found for every byte it answers to.
proof fn lemma_dispatch_finds(specs: Seq<FieldSpecView>, at: int, lead: u8)
    requires
        spec_tags_distinct(specs),
        spec_required_first(specs),
        0 <= at < specs.len(),
        specs[at].presence != Presence::Required,
        spec_answers(specs[at].config, lead),
    ensures
        spec_dispatch(specs, 0, lead) == Some(at),
{
    lemma_dispatch(specs, 0, lead);
    let found = spec_dispatch(specs, 0, lead);
    if found is Some {
        let other = found->0;
        if other < at {
            assert(spec_answers(specs[other].config, lead));
            assert(!spec_answers(specs[at].config, lead));
        } else if at < other {
            assert(spec_answers(specs[at].config, lead));
            assert(!spec_answers(specs[other].config, lead));
        }
    } else {
        assert(!spec_answers(specs[at].config, lead));
    }
}

/// One step of reading the optional tail: an entry that reads back as
/// `value` for the field at `at` puts the value into the slot of that field,
/// and the reading goes on behind the entry.
proof fn lemma_tail_step(
    specs: Seq<FieldSpecView>,
    state: Seq<SlotView>,
    at: int,
    value: ValueView,
    entry: Seq<u8>,
    rest: Seq<u8>,
)
    requires
        0 <= at < specs.len(),
        !(state[at] matches SlotView::Optional(Some(_))),
        entry.len() >= 1,
        spec_dispatch(specs, 0, entry[0]) == Some(at),
        spec_frame(specs[at].config, entry + rest) matches Ok(frame) && frame.end() == entry.len(),
        spec_decode_entry(specs[at], entry + rest) == Ok::<ValueView, TlvError>(value),
    ensures
        spec_decode_tail(specs, state, entry + rest) == spec_decode_tail(
            specs,
            state.update(at, spec_slot_with(state[at], value)),
            rest,
        ),
{
    let input = entry + rest;
    assert(input[0] == entry[0]);
    assert(input.skip(entry.len() as int) =~= rest);
}

/// What the round trip asks of a record: the schema is legal, the record is
/// of the schema, and every slot can be told from its bytes.
#[verifier::opaque]
spec fn spec_ready(specs: Seq<FieldSpecView>, slots: Seq<SlotView>) -> bool {
    &&& spec_fields_legal(specs)
    &&& spec_fields_admit(specs, slots)
    &&& forall|i: int| 0 <= i < specs.len() ==> spec_slot_in_range(#[trigger] specs[i], slots[i])
}

/// What a ready record gives for one of its fields.
proof fn lemma_ready_field(specs: Seq<FieldSpecView>, slots: Seq<SlotView>, at: int)
    requires
        spec_ready(specs, slots),
        0 <= at < specs.len(),
    ensures
        slots.len() == specs.len(),
        spec_field_legal(specs[at]),
        spec_legal(specs[at].kind),
        spec_slot_admits(specs[at], slots[at]),
        spec_slot_in_range(specs[at], slots[at]),
{
    reveal(spec_ready);
}

/// In a ready record every field before a required field is required.
proof fn lemma_ready_order(specs: Seq<FieldSpecView>, slots: Seq<SlotView>, i: int, j: int)
    requires
        spec_ready(specs, slots),
        0 <= i <= j < specs.len(),
        specs[j].presence == Presence::Required,
    ensures
        specs[i].presence == Presence::Required,
{
    reveal(spec_ready);
}

/// In a ready record a field of the optional tail is found by the first
/// byte of each of its entries.
proof fn lemma_ready_dispatch(
    specs: Seq<FieldSpecView>,
    slots: Seq<SlotView>,
    at: int,
    value: ValueView,
)
    requires
        spec_ready(specs, slots),
        0 <= at < specs.len(),
        specs[at].presence != Presence::Required,
    ensures
        spec_entry_bytes(specs[at], value).len() >= 1,
        spec_dispatch(specs, 0, spec_entry_bytes(specs[at], value)[0]) == Some(at),
{
    reveal(spec_ready);
    lemma_entry_lead(specs[at], value);
    lemma_dispatch_finds(specs, at, spec_entry_bytes(specs[at], value)[0]);
}

/// The slots while the optional tail is read: those of the fields before
/// the `from`-th as they were written, the others blank.
spec fn spec_partial(specs: Seq<FieldSpecView>, slots: Seq<SlotView>, from: int) -> Seq<SlotView> {
    slots.take(from) + spec_blank_tail(specs, from)
}

/// The partial slots have a slot for each field, blank at `from`; filling
/// that slot gives the partial slots of the next field.
proof fn lemma_partial(specs: Seq<FieldSpecView>, slots: Seq<SlotView>, from: int)
    requires
        slots.len() == specs.len(),
        0 <= from < specs.len(),
    ensures
        spec_partial(specs, slots, from).len() == specs.len(),
        spec_partial(specs, slots, from)[from] == spec_blank(specs[from].presence),
        spec_partial(specs, slots, from).update(from, slots[from]) == spec_partial(
            specs,
            slots,
            from + 1,
        ),
        spec_partial(specs, slots, specs.len() as int) == slots,
{
    assert(spec_partial(specs, slots, from).update(from, slots[from]) =~= spec_partial(
        specs,
        slots,
        from + 1,
    ));
    assert(spec_partial(specs, slots, specs.len() as int) =~= slots);
}

/// A value that is in range reads back from its bytes, and reading it takes
/// all of them.
proof fn lemma_value_reads_back(kind: KindView, value: ValueView)
    requires
        spec_legal(kind),
        spec_admits(kind, value),
        spec_in_range(kind, value),
    ensures
        spec_decode_value(
            kind,
            spec_value_bytes(kind, value).len(),
            spec_value_bytes(kind, value),
        ) == Ok::<ValueView, TlvError>(value),
        spec_value_span(kind, spec_value_bytes(kind, value).len(), spec_value_bytes(kind, value))
            == spec_value_bytes(kind, value).len(),
    decreases kind, 0nat, 0nat,
{
    let bytes = spec_value_bytes(kind, value);
    match (kind, value) {
        (KindView::Bytes, ValueView::Bytes(run)) => {
            assert(bytes.take(bytes.len() as int) =~= run);
        },
        (KindView::Newtype(inner_kind), ValueView::Newtype(inner)) => {
            lemma_value_reads_back(*inner_kind, *inner);
        },
        (KindView::Record(specs), ValueView::Record(slots)) => {
            let none = Seq::<u8>::empty();
            assert(spec_ready(specs, slots)) by {
                reveal(spec_ready);
            }
            lemma_fields_read_back(specs, slots, 0, none);
            assert(slots.take(0) =~= Seq::<SlotView>::empty());
            assert(bytes + none =~= bytes);
            assert(spec_decode_tail(specs, slots, none) == Ok::<Seq<SlotView>, TlvError>(slots));
        },
        _ => {},
    }
}

/// An entry that is in range reads back from the bytes that start with it,
/// whatever follows it.
proof fn lemma_entry_reads_back(field: FieldSpecView, value: ValueView, rest: Seq<u8>)
    requires
        spec_field_legal(field),
        spec_legal(field.kind),
        spec_admits(field.kind, value),
        spec_entry_in_range(field, value),
        !field.config.is_nibble(),
    ensures
        spec_frame(field.config, spec_entry_bytes(field, value) + rest) matches Ok(frame)
            && frame.end() == spec_entry_bytes(field, value).len(),
        spec_decode_entry(field, spec_entry_bytes(field, value) + rest) == Ok::<
            ValueView,
            TlvError,
        >(value),
    decreases field, 1nat, 0nat,
{
    let config = field.config;
    let entry = spec_entry_bytes(field, value);
    let input = entry + rest;
    if config.is_cell() {
        let byte = spec_cell_byte(config, value);
        assert(input[0] == byte);
        assert(byte % 16 == spec_nibble(value));
    } else if config.format == Format::T {
        lemma_entry_frame(config, Seq::<u8>::empty(), rest);
        assert(entry == spec_framed(config, Seq::<u8>::empty()));
    } else {
        let payload = spec_value_bytes(field.kind, value);
        assert(entry == spec_framed(config, payload));
        lemma_entry_frame(config, payload, rest);
        lemma_value_reads_back(field.kind, value);
    }
}

/// The entries of a repeated field read back one after another into the
/// slot of the field.
proof fn lemma_repeated_reads_back(
    specs: Seq<FieldSpecView>,
    slots: Seq<SlotView>,
    state: Seq<SlotView>,
    at: int,
    from: int,
    rest: Seq<u8>,
)
    requires
        spec_ready(specs, slots),
        0 <= at < specs.len(),
        specs[at].presence != Presence::Required,
        slots[at] is Repeated,
        0 <= from <= slots[at]->Repeated_0.len(),
        state.len() == specs.len(),
        state[at] == SlotView::Repeated(slots[at]->Repeated_0.take(from)),
    ensures
        spec_decode_tail(
            specs,
            state,
            spec_entries_bytes(specs[at], slots[at]->Repeated_0, from) + rest,
        ) == spec_decode_tail(specs, state.update(at, slots[at]), rest),
    decreases specs, 1nat, slots[at]->Repeated_0.len() - from,
{
    let field = specs[at];
    let values = slots[at]->Repeated_0;
    let bytes = spec_entries_bytes(field, values, from);
    if from >= values.len() {
        assert(values.take(from) =~= values);
        assert(state.update(at, slots[at]) =~= state);
        assert(bytes + rest =~= rest);
    } else {
        let value = values[from];
        let entry = spec_entry_bytes(field, value);
        let later = spec_entries_bytes(field, values, from + 1) + rest;
        lemma_ready_field(specs, slots, at);
        assert(spec_admits(field.kind, value) && spec_entry_in_range(field, value)) by {
            assert(value == slots[at]->Repeated_0[from]);
        }
        assert(!field.config.is_nibble());
        lemma_ready_dispatch(specs, slots, at, value);
        lemma_entry_reads_back(field, value, later);
        lemma_tail_step(specs, state, at, value, entry, later);
        let next = state.update(at, spec_slot_with(state[at], value));
        assert(next[at] == SlotView::Repeated(values.take(from + 1))) by {
            assert(values.take(from).push(value) =~= values.take(from + 1));
        }
        lemma_repeated_reads_back(specs, slots, next, at, from + 1, rest);
        assert(next.update(at, slots[at]) =~= state.update(at, slots[at]));
        assert(bytes + rest =~= entry + later);
    }
}

/// The optional tail reads back: from the fields that were written, the
/// slots that were written, whatever follows them.
proof fn lemma_tail_reads_back(
    specs: Seq<FieldSpecView>,
    slots: Seq<SlotView>,
    from: int,
    rest: Seq<u8>,
)
    requires
        spec_ready(specs, slots),
        0 <= from <= specs.len(),
        from < specs.len() ==> specs[from].presence != Presence::Required,
    ensures
        spec_decode_tail(
            specs,
            spec_partial(specs, slots, from),
            spec_fields_bytes(specs, slots, from) + rest,
        ) == spec_decode_tail(specs, slots, rest),
    decreases specs, 2nat, specs.len() - from,
{
    let state = spec_partial(specs, slots, from);
    let bytes = spec_fields_bytes(specs, slots, from);
    if from >= specs.len() {
        assert(slots.len() == specs.len()) by {
            reveal(spec_ready);
        }
        assert(state =~= slots);
        assert(bytes + rest =~= rest);
    } else {
        let field = specs[from];
        let slot = slots[from];
        let next = spec_partial(specs, slots, from + 1);
        let later = spec_fields_bytes(specs, slots, from + 1) + rest;
        lemma_ready_field(specs, slots, from);
        lemma_partial(specs, slots, from);
        if from + 1 < specs.len() {
            if specs[from + 1].presence == Presence::Required {
                lemma_ready_order(specs, slots, from, from + 1);
            }
        }
        lemma_tail_reads_back(specs, slots, from + 1, rest);
        assert(!field.config.is_nibble());
        assert(bytes + rest =~= spec_slot_bytes(field, slot) + later);
        match slot {
            SlotView::Optional(None) => {
                assert(state =~= next);
                assert(spec_slot_bytes(field, slot) + later =~= later);
            },
            SlotView::Optional(Some(value)) => {
                let entry = spec_entry_bytes(field, value);
                assert(spec_slot_bytes(field, slot) == entry);
                lemma_ready_dispatch(specs, slots, from, value);
                lemma_entry_reads_back(field, value, later);
                lemma_tail_step(specs, state, from, value, entry, later);
            },
            SlotView::Repeated(values) => {
                assert(spec_slot_bytes(field, slot) == spec_entries_bytes(field, values, 0));
                assert(values.take(0) =~= Seq::<ValueView>::empty());
                lemma_repeated_reads_back(specs, slots, state, from, 0, later);
            },
            SlotView::Required(_) => {},
        }
    }
}

/// Reading a byte shared by two 4-bit values fills the slots of both and
/// goes on with the field after them.
proof fn lemma_fields_step_pair(
    specs: Seq<FieldSpecView>,
    slots: Seq<SlotView>,
    from: int,
    rest: Seq<u8>,
)
    requires
        spec_ready(specs, slots),
        0 <= from < specs.len(),
        spec_paired_from(specs, from),
        specs[from].presence == Presence::Required,
        specs[from].config.is_nibble(),
    ensures
        from + 2 <= specs.len(),
        spec_paired_from(specs, from + 2),
        spec_decode_fields(
            specs,
            from,
            slots.take(from),
            spec_fields_bytes(specs, slots, from) + rest,
        ) == spec_decode_fields(
            specs,
            from + 2,
            slots.take(from + 2),
            spec_fields_bytes(specs, slots, from + 2) + rest,
        ),
{
    let bytes = spec_fields_bytes(specs, slots, from);
    let slot = slots[from];
    let second = slots[from + 1];
    lemma_ready_field(specs, slots, from);
    lemma_ready_field(specs, slots, from + 1);
    let byte = spec_pair_byte(slot, second);
    let later = spec_fields_bytes(specs, slots, from + 2) + rest;
    assert(bytes + rest =~= seq![byte] + later);
    assert((bytes + rest).skip(1) =~= later);
    assert((bytes + rest)[0] == byte);
    assert(byte / 16 == slot->Required_0->Byte_0);
    assert(byte % 16 == second->Required_0->Byte_0);
    assert(slots.take(from).push(slot).push(second) =~= slots.take(from + 2));
}

/// Reading the entry of a required field fills the slot of the field and
/// goes on with the next field.
proof fn lemma_fields_step_entry(
    specs: Seq<FieldSpecView>,
    slots: Seq<SlotView>,
    from: int,
    rest: Seq<u8>,
)
    requires
        slots.len() == specs.len(),
        0 <= from < specs.len(),
        specs[from].presence == Presence::Required,
        !specs[from].config.is_nibble(),
        slots[from] matches SlotView::Required(value) && {
            let later = spec_fields_bytes(specs, slots, from + 1) + rest;
            let entry = spec_entry_bytes(specs[from], value);
            &&& spec_frame(specs[from].config, entry + later) matches Ok(frame) && frame.end()
                == entry.len()
            &&& spec_decode_entry(specs[from], entry + later) == Ok::<ValueView, TlvError>(value)
        },
    ensures
        spec_decode_fields(
            specs,
            from,
            slots.take(from),
            spec_fields_bytes(specs, slots, from) + rest,
        ) == spec_decode_fields(
            specs,
            from + 1,
            slots.take(from + 1),
            spec_fields_bytes(specs, slots, from + 1) + rest,
        ),
{
    let bytes = spec_fields_bytes(specs, slots, from);
    let slot = slots[from];
    let value = slot->Required_0;
    let entry = spec_entry_bytes(specs[from], value);
    let later = spec_fields_bytes(specs, slots, from + 1) + rest;
    assert(spec_slot_bytes(specs[from], slot) == entry);
    assert(bytes + rest =~= entry + later);
    assert((entry + later).skip(entry.len() as int) =~= later);
    assert(slots.take(from).push(slot) =~= slots.take(from + 1));
}

/// The fields of a record read back: the required fields into their slots
/// in declared order, then the optional tail.
proof fn lemma_fields_read_back(
    specs: Seq<FieldSpecView>,
    slots: Seq<SlotView>,
    from: int,
    rest: Seq<u8>,
)
    requires
        spec_ready(specs, slots),
        0 <= from <= specs.len(),
        spec_paired_from(specs, from),
    ensures
        spec_decode_fields(
            specs,
            from,
            slots.take(from),
            spec_fields_bytes(specs, slots, from) + rest,
        ) == spec_decode_tail(specs, slots, rest),
    decreases specs, 3nat, specs.len() - from,
{
    if from >= specs.len() || specs[from].presence != Presence::Required {
        lemma_tail_reads_back(specs, slots, from, rest);
    } else if specs[from].config.is_nibble() {
        lemma_fields_step_pair(specs, slots, from, rest);
        lemma_fields_read_back(specs, slots, from + 2, rest);
    } else {
        lemma_ready_field(specs, slots, from);
        let value = slots[from]->Required_0;
        let later = spec_fields_bytes(specs, slots, from + 1) + rest;
        lemma_entry_reads_back(specs[from], value, later);
        lemma_fields_step_entry(specs, slots, from, rest);
        lemma_fields_read_back(specs, slots, from + 1, rest);
    }
}

/// Decoding undoes encoding. For every legal schema and every value of it
/// that is in range, the bytes of the value read back as the value, and
/// reading them takes all of them.
pub proof fn lemma_round_trip(kind: KindView, value: ValueView)
    requires
        spec_legal(kind),
        spec_admits(kind, value),
        spec_in_range(kind, value),
    ensures
        spec_decode_value(
            kind,
            spec_value_bytes(kind, value).len(),
            spec_value_bytes(kind, value),
        ) == Ok::<ValueView, TlvError>(value),
        spec_value_span(kind, spec_value_bytes(kind, value).len(), spec_value_bytes(kind, value))
            == spec_value_bytes(kind, value).len(),
{
    lemma_value_reads_back(kind, value);
}

/// Decoding undoes encoding entry by entry. An entry of a legal field that
/// is in range reads back as its value from any bytes that start with it,
/// and reading it ends exactly where the entry ends.
pub proof fn lemma_entry_round_trip(field: FieldSpecView, value: ValueView, rest: Seq<u8>)
    requires
        spec_field_legal(field),
        spec_legal(field.kind),
        spec_admits(field.kind, value),
        spec_entry_in_range(field, value),
        !field.config.is_nibble(),
    ensures
        spec_decode_entry(field, spec_entry_bytes(field, value) + rest) == Ok::<
            ValueView,
            TlvError,
        >(value),
        crate::parse::spec_entry_span(field.config, spec_entry_bytes(field, value) + rest)
            == spec_entry_bytes(field, value).len(),
{
    lemma_entry_reads_back(field, value, rest);
}

/// The length that is written back is the length of the payload. For a
/// field whose length is measured and fits, the entry is the header, the
/// big-endian number of payload bytes in the declared width, and the
/// payload; so exactly that many bytes stand between the length field and
/// whatever follows the entry.
pub proof fn lemma_length_backpatch(field: FieldSpecView, value: ValueView)
    requires
        field.config.format.has_length(),
        field.config.length is None,
        field.config.length_bytes_format >= 1,
        spec_length_fits(field.config, spec_value_bytes(field.kind, value).len()),
    ensures
        ({
            let config = field.config;
            let width = config.length_bytes_format as nat;
            let payload = spec_value_bytes(field.kind, value);
            let head = if config.format == Format::LV || config.format == Format::LVE {
                Seq::<u8>::empty()
            } else {
                spec_tag_field(config)
            };
            let length = be_bytes(payload.len(), width);
            &&& spec_entry_bytes(field, value) == head + length + payload
            &&& length.len() == width
            &&& be_value(length) == payload.len()
        }),
{
    let config = field.config;
    let width = config.length_bytes_format as nat;
    let payload = spec_value_bytes(field.kind, value);
    lemma_be_bytes_len(payload.len(), width);
    lemma_be_value_of_bytes(payload.len(), width);
    let length = be_bytes(payload.len(), width);
    assert(Seq::<u8>::empty() + length + payload =~= length + payload);
}

/// A length field that disagrees with the declared length is refused.
/// Where the bytes hold the header of an entry whose length field spells
/// another number than the field declares, the entry is a malformed
/// payload, whatever the field holds.
pub proof fn lemma_fixed_length_mismatch(field: FieldSpecView, input: Seq<u8>)
    requires
        field.config.format.has_length(),
        field.config.length_bytes_format >= 1,
        field.config.length is Some,
        ({
            let config = field.config;
            let start = if config.format == Format::LV || config.format == Format::LVE {
                0
            } else {
                spec_tag_span(config) as int
            };
            let end = start + config.length_bytes_format;
            &&& end <= input.len()
            &&& be_value(input.subrange(start, end)) != config.length->0
        }),
    ensures
        spec_frame(field.config, input) == Err::<Frame, TlvError>(TlvError::MalformedPayload),
        spec_decode_entry(field, input) == Err::<ValueView, TlvError>(
            TlvError::MalformedPayload,
        ),
{
    let config = field.config;
    let start = if config.format == Format::LV || config.format == Format::LVE {
        0
    } else {
        spec_tag_span(config) as int
    };
    let width = config.length_bytes_format as int;
    assert(input.skip(start).take(width) =~= input.subrange(start, start + width));
}

/// A wrapper adds nothing. The bytes of a wrapped value are the bytes of
/// the value inside; a wrapped run of bytes is laid out as the run itself.
pub proof fn lemma_newtype_transparent(kind: KindView, value: ValueView)
    ensures
        spec_value_bytes(
            KindView::Newtype(Box::new(kind)),
            ValueView::Newtype(Box::new(value)),
        ) == spec_value_bytes(kind, value),
        kind is Bytes && value is Bytes ==> spec_value_bytes(
            KindView::Newtype(Box::new(kind)),
            ValueView::Newtype(Box::new(value)),
        ) == value->Bytes_0,
{
    if kind is Bytes && value is Bytes {
        assert(spec_value_bytes(kind, value) == value->Bytes_0);
    }
}

/// An unknown tag is reported, not skipped. Where the bytes of a record are
/// followed by a byte that no field of the optional tail answers to, the
/// record reads well up to that byte and the whole is refused as an unknown
/// tag.
pub proof fn lemma_unknown_tag(
    specs: Seq<FieldSpecView>,
    slots: Seq<SlotView>,
    junk: Seq<u8>,
    length: nat,
)
    requires
        spec_legal(KindView::Record(specs)),
        spec_admits(KindView::Record(specs), ValueView::Record(slots)),
        spec_in_range(KindView::Record(specs), ValueView::Record(slots)),
        junk.len() >= 1,
        spec_dispatch(specs, 0, junk[0]) is None,
    ensures
        spec_decode_value(
            KindView::Record(specs),
            length,
            spec_value_bytes(KindView::Record(specs), ValueView::Record(slots)) + junk,
        ) == Err::<ValueView, TlvError>(TlvError::UnknownTag),
{
    assert(spec_ready(specs, slots)) by {
        reveal(spec_ready);
    }
    lemma_fields_read_back(specs, slots, 0, junk);
    assert(slots.take(0) =~= Seq::<SlotView>::empty());
    assert(spec_decode_tail(specs, slots, junk) == Err::<Seq<SlotView>, TlvError>(
        TlvError::UnknownTag,
    ));
}

/// Fields of the optional tail that hold nothing put nothing on the wire.
proof fn lemma_blank_tail_bytes(specs: Seq<FieldSpecView>, slots: Seq<SlotView>, from: int)
    requires
        0 <= from,
        forall|j: int|
            from <= j < specs.len() ==> !(#[trigger] specs[j]).config.is_nibble() && slots[j]
                == spec_blank(specs[j].presence),
    ensures
        spec_fields_bytes(specs, slots, from) == Seq::<u8>::empty(),
    decreases specs.len() - from,
{
    if from < specs.len() {
        lemma_blank_tail_bytes(specs, slots, from + 1);
        let field = specs[from];
        assert(spec_slot_bytes(field, slots[from]) =~= Seq::<u8>::empty()) by {
            if field.presence == Presence::Repeated {
                assert(spec_entries_bytes(field, Seq::<ValueView>::empty(), 0) =~= Seq::<
                    u8,
                >::empty());
            }
        }
        assert(spec_fields_bytes(specs, slots, from) =~= Seq::<u8>::empty());
    }
}

/// The bytes of the fields from `from` on are those of the required prefix
/// alone, where every field behind the prefix holds nothing.
proof fn lemma_prefix_bytes(
    specs: Seq<FieldSpecView>,
    slots: Seq<SlotView>,
    first: int,
    from: int,
)
    requires
        0 <= from <= first <= specs.len(),
        slots.len() == specs.len(),
        spec_paired_from(specs, from),
        forall|j: int| first <= j < specs.len() ==> !(#[trigger] specs[j]).config.is_nibble(),
        forall|j: int|
            first <= j < specs.len() ==> !(#[trigger] specs[j]).config.is_nibble() && slots[j]
                == spec_blank(specs[j].presence),
    ensures
        spec_fields_bytes(specs, slots, from) == spec_fields_bytes(
            specs.take(first),
            slots.take(first),
            from,
        ),
    decreases first - from,
{
    let short = specs.take(first);
    let held = slots.take(first);
    if from >= first {
        lemma_blank_tail_bytes(specs, slots, from);
    } else if specs[from].config.is_nibble() {
        assert(specs[from + 1].config.is_nibble());
        assert(from + 1 < first);
        lemma_prefix_bytes(specs, slots, first, from + 2);
        assert(short[from] == specs[from]);
        assert(held[from] == slots[from] && held[from + 1] == slots[from + 1]);
    } else {
        lemma_prefix_bytes(specs, slots, first, from + 1);
        assert(short[from] == specs[from]);
        assert(held[from] == slots[from]);
    }
}

/// Absence is not written. A record whose optional and repeated fields all
/// hold nothing is laid out exactly as its required prefix alone: not one
/// byte stands for the tail.
pub proof fn lemma_optional_absence(
    specs: Seq<FieldSpecView>,
    slots: Seq<SlotView>,
    first: int,
)
    requires
        spec_fields_legal(specs),
        spec_fields_admit(specs, slots),
        0 <= first <= specs.len(),
        forall|j: int|
            first <= j < specs.len() ==> (#[trigger] specs[j]).presence != Presence::Required
                && slots[j] == spec_blank(specs[j].presence),
    ensures
        spec_fields_bytes(specs, slots, 0) == spec_fields_bytes(
            specs.take(first),
            slots.take(first),
            0,
        ),
        spec_fields_bytes(specs, slots, first) == Seq::<u8>::empty(),
{
    assert forall|j: int| first <= j < specs.len() implies !(#[trigger] specs[j]).config.is_nibble()
        && slots[j] == spec_blank(specs[j].presence) by {
        assert(spec_field_legal(specs[j]));
    }
    lemma_prefix_bytes(specs, slots, first, 0);
    lemma_blank_tail_bytes(specs, slots, first);
}

} // verus!
