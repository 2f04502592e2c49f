//! Values: what a record holds.

use vstd::prelude::*;

verus! {

/// A value that the codec can put on the wire.
#[derive(Debug, PartialEq, Eq)]
pub enum Value {
    /// Nothing: the value of a tag-only field.
    Unit,
    /// One byte.
    Byte(u8),
    /// A run of raw bytes.
    Bytes(Vec<u8>),
    /// A wrapper around one inner value.
    Newtype(Box<Value>),
    /// A composite record: one slot for each field, in declared order.
    Record(Vec<Slot>),
}

/// What a record holds for one of its fields.
#[derive(Debug, PartialEq, Eq)]
pub enum Slot {
    /// The value of a required field.
    Required(Value),
    /// The value of an optional field, if it is present.
    Optional(Option<Value>),
    /// The values of a repeated field, in the order of the wire.
    Repeated(Vec<Value>),
}

/// The mathematical model of a [`Value`].
pub enum ValueView {
    Unit,
    Byte(u8),
    Bytes(Seq<u8>),
    Newtype(Box<ValueView>),
    Record(Seq<SlotView>),
}

/// The mathematical model of a [`Slot`].
pub enum SlotView {
    Required(ValueView),
    Optional(Option<ValueView>),
    Repeated(Seq<ValueView>),
}

/// The model of a value.
pub open spec fn value_view(value: Value) -> ValueView
    decreases value,
{
    match value {
        Value::Unit => ValueView::Unit,
        Value::Byte(b) => ValueView::Byte(b),
        Value::Bytes(bytes) => ValueView::Bytes(bytes@),
        Value::Newtype(inner) => ValueView::Newtype(Box::new(value_view(*inner))),
        Value::Record(slots) => ValueView::Record(
            Seq::new(
                slots@.len(),
                |i: int|
                    if 0 <= i < slots@.len() {
                        slot_view(slots@[i])
                    } else {
                        arbitrary()
                    },
            ),
        ),
    }
}

/// The model of a slot.
pub open spec fn slot_view(slot: Slot) -> SlotView
    decreases slot,
{
    match slot {
        Slot::Required(value) => SlotView::Required(value_view(value)),
        Slot::Optional(None) => SlotView::Optional(None),
        Slot::Optional(Some(value)) => SlotView::Optional(Some(value_view(value))),
        Slot::Repeated(values) => SlotView::Repeated(
            Seq::new(
                values@.len(),
                |i: int|
                    if 0 <= i < values@.len() {
                        value_view(values@[i])
                    } else {
                        arbitrary()
                    },
            ),
        ),
    }
}

/// The models of a list of slots, in order.
pub open spec fn slots_view(slots: Seq<Slot>) -> Seq<SlotView> {
    Seq::new(slots.len(), |i: int| slot_view(slots[i]))
}

/// The models of a list of values, in order.
pub open spec fn values_view(values: Seq<Value>) -> Seq<ValueView> {
    Seq::new(values.len(), |i: int| value_view(values[i]))
}

impl View for Value {
    type V = ValueView;

    open spec fn view(&self) -> ValueView {
        value_view(*self)
    }
}

impl View for Slot {
    type V = SlotView;

    open spec fn view(&self) -> SlotView {
        slot_view(*self)
    }
}

/// The model of a record lists the models of its slots.
pub proof fn lemma_record_value_view(slots: Vec<Slot>)
    ensures
        Value::Record(slots)@ == ValueView::Record(slots_view(slots@)),
{
    assert(value_view(Value::Record(slots))->Record_0 =~= slots_view(slots@));
}

/// The model of a repeated slot lists the models of its values.
pub proof fn lemma_repeated_view(values: Vec<Value>)
    ensures
        Slot::Repeated(values)@ == SlotView::Repeated(values_view(values@)),
{
    assert(slot_view(Slot::Repeated(values))->Repeated_0 =~= values_view(values@));
}

} // verus!
