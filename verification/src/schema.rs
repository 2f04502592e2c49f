//! Schemas: what a decoder has to know of a value before it reads a byte.

use crate::config::Presence;
use crate::config::TlvConfig;
use vstd::prelude::*;

verus! {

/// The kind of a value: what it is made of, and for a record, how each of
/// its fields is framed.
#[derive(Debug, PartialEq, Eq)]
pub enum Kind {
    /// Nothing: the value of a tag-only field.
    Unit,
    /// One byte.
    Byte,
    /// A run of raw bytes.
    Bytes,
    /// A wrapper around one inner value, with no framing of its own.
    Newtype(Box<Kind>),
    /// A composite record: its fields in declared order.
    Record(Vec<FieldSpec>),
}

/// One field of a record type.
#[derive(Debug, PartialEq, Eq)]
pub struct FieldSpec {
    /// How the field is framed.
    pub config: TlvConfig,
    /// Whether the field is required, optional or repeated.
    pub presence: Presence,
    /// The kind of the value that the field holds.
    pub kind: Kind,
}

/// The mathematical model of a [`Kind`].
pub enum KindView {
    Unit,
    Byte,
    Bytes,
    Newtype(Box<KindView>),
    Record(Seq<FieldSpecView>),
}

/// The mathematical model of a [`FieldSpec`].
pub struct FieldSpecView {
    pub config: TlvConfig,
    pub presence: Presence,
    pub kind: KindView,
}

/// The model of a kind.
pub open spec fn kind_view(kind: Kind) -> KindView
    decreases kind,
{
    match kind {
        Kind::Unit => KindView::Unit,
        Kind::Byte => KindView::Byte,
        Kind::Bytes => KindView::Bytes,
        Kind::Newtype(inner) => KindView::Newtype(Box::new(kind_view(*inner))),
        Kind::Record(specs) => KindView::Record(
            Seq::new(
                specs@.len(),
                |i: int|
                    if 0 <= i < specs@.len() {
                        field_view(specs@[i])
                    } else {
                        arbitrary()
                    },
            ),
        ),
    }
}

/// The model of a field.
pub open spec fn field_view(field: FieldSpec) -> FieldSpecView
    decreases field,
{
    FieldSpecView { config: field.config, presence: field.presence, kind: kind_view(field.kind) }
}

/// The models of a list of fields, in order.
pub open spec fn fields_view(fields: Seq<FieldSpec>) -> Seq<FieldSpecView> {
    Seq::new(fields.len(), |i: int| field_view(fields[i]))
}

impl View for Kind {
    type V = KindView;

    open spec fn view(&self) -> KindView {
        kind_view(*self)
    }
}

impl View for FieldSpec {
    type V = FieldSpecView;

    open spec fn view(&self) -> FieldSpecView {
        field_view(*self)
    }
}

/// The model of a record kind lists the models of its fields.
pub proof fn lemma_record_view(specs: Vec<FieldSpec>)
    ensures
        Kind::Record(specs)@ == KindView::Record(fields_view(specs@)),
{
    assert(kind_view(Kind::Record(specs))->Record_0 =~= fields_view(specs@));
}

} // verus!
