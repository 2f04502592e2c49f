//! The reading of bytes: what decoding has to recover.
//!
//! These functions are the specification of the decoder. They say, for a
//! schema and a sequence of bytes, which value the bytes spell, or which
//! error they are refused with.

use crate::config::Format;
use crate::config::Presence;
use crate::config::TlvConfig;
use crate::endian::be_value;
use crate::error::TlvError;
use crate::rules::spec_answers;
use crate::schema::FieldSpecView;
use crate::schema::KindView;
use crate::value::SlotView;
use crate::value::ValueView;
use vstd::prelude::*;

verus! {

/// Where the payload of an entry lies in the bytes that start with the entry:
/// `len` bytes from offset `start`. The entry ends where its payload ends.
pub struct Frame {
    pub start: nat,
    pub len: nat,
}

impl Frame {
    /// The offset at which the entry ends.
    pub open spec fn end(self) -> int {
        (self.start + self.len) as int
    }
}

/// How many bytes the tag of a field takes on the wire.
pub open spec fn spec_tag_span(config: TlvConfig) -> nat {
    match config.tag {
        Some(_) => config.tag_bytes_format as nat,
        None => 0,
    }
}

/// Reading the tag: the number of bytes it takes, if that many are there.
/// The tag itself is not compared with anything.
pub open spec fn spec_tag_decode(config: TlvConfig, input: Seq<u8>) -> Result<nat, TlvError> {
    if input.len() < spec_tag_span(config) {
        Err(TlvError::MalformedPayload)
    } else {
        Ok(spec_tag_span(config))
    }
}

/// Reading the length field: the length it announces. It is refused where
/// the field is cut short, where it disagrees with the declared length, and
/// where it announces more bytes than follow it. A field of width 0
/// announces 0.
pub open spec fn spec_length_decode(config: TlvConfig, input: Seq<u8>) -> Result<nat, TlvError> {
    let width = config.length_bytes_format as int;
    if width == 0 {
        Ok(0)
    } else if input.len() < width {
        Err(TlvError::MalformedPayload)
    } else {
        let announced = be_value(input.take(width));
        if config.length matches Some(literal) && literal != announced {
            Err(TlvError::MalformedPayload)
        } else if announced > input.len() - width {
            Err(TlvError::MalformedPayload)
        } else {
            Ok(announced)
        }
    }
}

/// The payload of a field whose length the schema declares: the declared
/// number of bytes from offset `start`, if that many are there. Without a
/// declared length the payload is empty.
pub open spec fn spec_fixed_frame(config: TlvConfig, input: Seq<u8>, start: nat) -> Result<
    Frame,
    TlvError,
> {
    let len: nat = match config.length {
        Some(literal) => literal as nat,
        None => 0,
    };
    if input.len() < start + len {
        Err(TlvError::MalformedPayload)
    } else {
        Ok(Frame { start, len })
    }
}

/// The payload of a field whose length is on the wire, with the length field
/// at offset `start`.
pub open spec fn spec_measured_frame(config: TlvConfig, input: Seq<u8>, start: nat) -> Result<
    Frame,
    TlvError,
> {
    match spec_length_decode(config, input.skip(start as int)) {
        Ok(len) => Ok(Frame { start: start + config.length_bytes_format as nat, len }),
        Err(e) => Err(e),
    }
}

/// Where the payload of the entry lies that `input` starts with, by the
/// format of the field. The one byte of a 4-bit tag and value is its own
/// payload.
pub open spec fn spec_frame(config: TlvConfig, input: Seq<u8>) -> Result<Frame, TlvError> {
    match config.format {
        Format::V => spec_fixed_frame(config, input, 0),
        Format::LV | Format::LVE => spec_measured_frame(config, input, 0),
        Format::TV if config.tag_bytes_format == 0 => if input.len() < 1 {
            Err(TlvError::MalformedPayload)
        } else {
            Ok(Frame { start: 0, len: 1 })
        },
        _ => match spec_tag_decode(config, input) {
            Err(e) => Err(e),
            Ok(tag) => match config.format {
                Format::T => Ok(Frame { start: tag, len: 0 }),
                Format::TV => spec_fixed_frame(config, input, tag),
                _ => spec_measured_frame(config, input, tag),
            },
        },
    }
}

/// How many bytes the entry takes that `input` starts with; 0 where it is
/// refused.
pub open spec fn spec_entry_span(config: TlvConfig, input: Seq<u8>) -> int {
    match spec_frame(config, input) {
        Ok(frame) => frame.end(),
        Err(_) => 0,
    }
}

/// The field of the optional tail whose entries start with the byte `lead`:
/// the first one from the `from`-th on, if there is one.
pub open spec fn spec_dispatch(specs: Seq<FieldSpecView>, from: int, lead: u8) -> Option<int>
    decreases specs.len() - from,
{
    if from < 0 || from >= specs.len() {
        None
    } else if specs[from].presence != Presence::Required && spec_answers(
        specs[from].config,
        lead,
    ) {
        Some(from)
    } else {
        spec_dispatch(specs, from + 1, lead)
    }
}

/// The slot of a field of the optional tail before anything is read.
pub open spec fn spec_blank(presence: Presence) -> SlotView {
    if presence == Presence::Repeated {
        SlotView::Repeated(Seq::empty())
    } else {
        SlotView::Optional(None)
    }
}

/// The slots of the fields from the `from`-th on before anything is read.
pub open spec fn spec_blank_tail(specs: Seq<FieldSpecView>, from: int) -> Seq<SlotView> {
    Seq::new((specs.len() - from) as nat, |k: int| spec_blank(specs[from + k].presence))
}

/// The slot after one more value has been read for it.
pub open spec fn spec_slot_with(slot: SlotView, value: ValueView) -> SlotView {
    match slot {
        SlotView::Repeated(values) => SlotView::Repeated(values.push(value)),
        _ => SlotView::Optional(Some(value)),
    }
}

/// A dispatched field is one of the fields, and it answers to the byte.
pub proof fn lemma_dispatch(specs: Seq<FieldSpecView>, from: int, lead: u8)
    requires
        0 <= from,
    ensures
        spec_dispatch(specs, from, lead) matches Some(j) ==> from <= j < specs.len() && specs[j].presence
            != Presence::Required && spec_answers(specs[j].config, lead) && forall|k: int|
            from <= k < j && specs[k].presence != Presence::Required ==> !spec_answers(
                #[trigger] specs[k].config,
                lead,
            ),
        spec_dispatch(specs, from, lead) is None ==> forall|j: int|
            from <= j < specs.len() && specs[j].presence != Presence::Required ==> !spec_answers(
                #[trigger] specs[j].config,
                lead,
            ),
    decreases specs.len() - from,
{
    if from < specs.len() {
        lemma_dispatch(specs, from + 1, lead);
    }
}

/// An entry that answers to the first byte of the input takes at least that
/// byte, and no more than the input has.
pub proof fn lemma_frame_advances(config: TlvConfig, input: Seq<u8>)
    requires
        input.len() >= 1,
        spec_answers(config, input[0]),
    ensures
        spec_frame(config, input) matches Ok(frame) ==> 1 <= frame.end() <= input.len(),
{
}

/// The number of bytes that a value of the kind takes from the input when
/// it is read on its own: one for a byte, the declared length for a run of
/// bytes, all of the input for a record.
pub open spec fn spec_value_span(kind: KindView, length: nat, input: Seq<u8>) -> nat
    decreases kind,
{
    match kind {
        KindView::Unit => 0,
        KindView::Byte => 1,
        KindView::Bytes => length,
        KindView::Newtype(inner) => spec_value_span(*inner, length, input),
        KindView::Record(_) => input.len(),
    }
}

/// The value of the kind that `input` spells. A byte is the first byte,
/// whatever length is declared; a run of bytes is the first `length` bytes;
/// a wrapper is what its inner value is; a record is its fields.
pub open spec fn spec_decode_value(kind: KindView, length: nat, input: Seq<u8>) -> Result<
    ValueView,
    TlvError,
>
    decreases kind, 0nat, 0nat,
{
    match kind {
        KindView::Unit => Ok(ValueView::Unit),
        KindView::Byte => if input.len() >= 1 {
            Ok(ValueView::Byte(input[0]))
        } else {
            Err(TlvError::MalformedPayload)
        },
        KindView::Bytes => if input.len() >= length {
            Ok(ValueView::Bytes(input.take(length as int)))
        } else {
            Err(TlvError::MalformedPayload)
        },
        KindView::Newtype(inner) => match spec_decode_value(*inner, length, input) {
            Ok(value) => Ok(ValueView::Newtype(Box::new(value))),
            Err(e) => Err(e),
        },
        KindView::Record(specs) => match spec_decode_fields(specs, 0, Seq::empty(), input) {
            Ok(slots) => Ok(ValueView::Record(slots)),
            Err(e) => Err(e),
        },
    }
}

/// The value of the entry that `input` starts with: the low half of the
/// byte for a 4-bit tag and value, else the value that the payload spells.
pub open spec fn spec_decode_entry(field: FieldSpecView, input: Seq<u8>) -> Result<
    ValueView,
    TlvError,
>
    decreases field, 1nat, 0nat,
{
    match spec_frame(field.config, input) {
        Err(e) => Err(e),
        Ok(frame) => if field.config.is_cell() {
            Ok(ValueView::Byte(input[0] % 16))
        } else {
            spec_decode_value(
                field.kind,
                frame.len,
                input.subrange(frame.start as int, frame.end()),
            )
        },
    }
}

/// The slots of a record whose fields before the `from`-th have been read
/// into `slots`: the required fields in declared order, two 4-bit values
/// from one byte, then the optional tail from all that is left.
pub open spec fn spec_decode_fields(
    specs: Seq<FieldSpecView>,
    from: int,
    slots: Seq<SlotView>,
    input: Seq<u8>,
) -> Result<Seq<SlotView>, TlvError>
    decreases specs, 1nat, specs.len() - from,
{
    if from < 0 || from >= specs.len() || specs[from].presence != Presence::Required {
        spec_decode_tail(specs, slots + spec_blank_tail(specs, from), input)
    } else if specs[from].config.is_nibble() && from + 1 < specs.len() {
        if input.len() < 1 {
            Err(TlvError::MalformedPayload)
        } else {
            spec_decode_fields(
                specs,
                from + 2,
                slots.push(SlotView::Required(ValueView::Byte(input[0] / 16))).push(
                    SlotView::Required(ValueView::Byte(input[0] % 16)),
                ),
                input.skip(1),
            )
        }
    } else {
        match spec_frame(specs[from].config, input) {
            Err(e) => Err(e),
            Ok(frame) => match spec_decode_entry(specs[from], input) {
                Err(e) => Err(e),
                Ok(value) => spec_decode_fields(
                    specs,
                    from + 1,
                    slots.push(SlotView::Required(value)),
                    input.skip(frame.end()),
                ),
            },
        }
    }
}

/// The slots of a record after its optional tail has been read from
/// `input`. Each entry is given to the field that answers to its first
/// byte. No field answering is an unknown tag; a second entry for an
/// optional field is a duplicate tag. The tail ends where the input ends.
pub open spec fn spec_decode_tail(specs: Seq<FieldSpecView>, slots: Seq<SlotView>, input: Seq<u8>) -> Result<
    Seq<SlotView>,
    TlvError,
>
    decreases specs, 0nat, input.len(),
{
    if input.len() == 0 {
        Ok(slots)
    } else {
        match spec_dispatch(specs, 0, input[0]) {
            None => Err(TlvError::UnknownTag),
            Some(at) => {
                proof {
                    lemma_dispatch(specs, 0, input[0]);
                    lemma_frame_advances(specs[at].config, input);
                }
                if slots[at] matches SlotView::Optional(Some(_)) {
                    Err(TlvError::DuplicateTag)
                } else {
                    match spec_frame(specs[at].config, input) {
                        Err(e) => Err(e),
                        Ok(frame) => match spec_decode_entry(specs[at], input) {
                            Err(e) => Err(e),
                            Ok(value) => spec_decode_tail(
                                specs,
                                slots.update(at, spec_slot_with(slots[at], value)),
                                input.skip(frame.end()),
                            ),
                        },
                    }
                }
            },
        }
    }
}

} // verus!
