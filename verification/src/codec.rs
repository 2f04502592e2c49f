//! A record type ready for use: a schema that has been checked, with the
//! two calls that turn a record into bytes and bytes into a record.

use crate::assemble::validate;
use crate::error::SchemaError;
use crate::error::TlvError;
use crate::layout::spec_admits;
use crate::layout::spec_value_bytes;
use crate::layout::spec_value_fits;
use crate::parse::spec_decode_value;
use crate::reader::tlv_decode;
use crate::writer::tlv_encode;
use crate::rules::spec_defect;
use crate::rules::spec_legal;
use crate::schema::fields_view;
use crate::schema::lemma_record_view;
use crate::schema::FieldSpecView;
use crate::schema::Kind;
use crate::schema::KindView;
use crate::typing::admits;
use crate::typing::lemma_decoded_value_admitted;
use crate::value::Value;
use crate::value::ValueView;
use crate::wire;
use crate::wire::unread;
use bytes::Bytes;
use vstd::prelude::*;

verus! {

/// The capacity that the descriptors of a schema suggest for a buffer that
/// is to hold a value of it: for a record, the sum of the hints of its
/// fields, as far as the machine can count; for a wrapper, what the inner
/// kind suggests; else nothing.
pub open spec fn spec_capacity_hint(kind: KindView) -> nat
    decreases kind,
{
    match kind {
        KindView::Newtype(inner) => spec_capacity_hint(*inner),
        KindView::Record(specs) => spec_hints_sum(specs, specs.len() as int),
        _ => 0,
    }
}

/// The sum of the hints of the first `upto` fields, capped at what a
/// `usize` holds.
pub open spec fn spec_hints_sum(specs: Seq<FieldSpecView>, upto: int) -> nat
    decreases upto,
{
    if upto <= 0 || upto > specs.len() {
        0
    } else {
        let sum = spec_hints_sum(specs, upto - 1) + specs[upto - 1].config.estimated_size;
        if sum > usize::MAX {
            usize::MAX as nat
        } else {
            sum as nat
        }
    }
}

/// The capacity that the descriptors of a schema suggest.
pub fn capacity_hint(kind: &Kind) -> (hint: usize)
    ensures
        hint == spec_capacity_hint(kind@),
    decreases kind,
{
    match kind {
        Kind::Newtype(inner) => capacity_hint(inner),
        Kind::Record(specs) => {
            proof {
                lemma_record_view(*specs);
            }
            let ghost schema = fields_view(specs@);
            let mut sum: usize = 0;
            let mut i: usize = 0;
            while i < specs.len()
                invariant
                    i <= specs.len(),
                    schema == fields_view(specs@),
                    sum == spec_hints_sum(schema, i as int),
                decreases specs.len() - i,
            {
                assert(schema[i as int] == specs[i as int]@);
                sum = sum.saturating_add(specs[i].config.estimated_size);
                i = i + 1;
            }
            sum
        },
        _ => 0,
    }
}

/// A legal schema, ready to encode and decode values of it.
#[derive(Debug)]
pub struct Codec {
    kind: Kind,
}

impl Codec {
    #[verifier::type_invariant]
    spec fn legal(self) -> bool {
        spec_legal(self.kind@)
    }

    /// The schema of the record type.
    pub closed spec fn schema(self) -> KindView {
        self.kind@
    }

    /// Assembles a record type from a schema. A schema that is not legal is
    /// refused with the first thing that is wrong with it.
    pub fn new(kind: Kind) -> (done: Result<Codec, SchemaError>)
        ensures
            match done {
                Ok(codec) => spec_legal(kind@) && codec.schema() == kind@,
                Err(e) => spec_defect(kind@) == Some(e) && !spec_legal(kind@),
            },
    {
        match validate(&kind) {
            Ok(_) => Ok(Codec { kind }),
            Err(e) => Err(e),
        }
    }

    /// Encodes a value into a buffer of its own, allotted with the capacity
    /// that the descriptors suggest. A value that is not of the schema is
    /// refused as `Unknown`; one with a measured length that does not fit
    /// its field as `LengthOverflow`.
    pub fn encode(&self, value: &Value) -> (done: Result<Bytes, TlvError>)
        ensures
            match done {
                Ok(bytes) => spec_admits(self.schema(), value@) && spec_value_fits(
                    self.schema(),
                    value@,
                ) && unread(bytes) == spec_value_bytes(self.schema(), value@),
                Err(e) => if spec_admits(self.schema(), value@) {
                    e == TlvError::LengthOverflow && !spec_value_fits(self.schema(), value@)
                } else {
                    e == TlvError::Unknown
                },
            },
    {
        proof {
            use_type_invariant(self);
        }
        if !admits(&self.kind, value) {
            return Err(TlvError::Unknown);
        }
        let mut sink = wire::with_capacity(capacity_hint(&self.kind));
        match tlv_encode(&self.kind, value, &mut sink) {
            Ok(_) => {
                assert(Seq::<u8>::empty() + spec_value_bytes(self.schema(), value@)
                    =~= spec_value_bytes(self.schema(), value@));
                Ok(wire::freeze(sink))
            },
            Err(e) => Err(e),
        }
    }

    /// Decodes a value from all of `bytes`. What comes back is of the
    /// schema.
    pub fn decode(&self, bytes: Bytes) -> (done: Result<Value, TlvError>)
        ensures
            match done {
                Ok(value) => spec_decode_value(
                    self.schema(),
                    unread(bytes).len(),
                    unread(bytes),
                ) == Ok::<ValueView, TlvError>(value@) && spec_admits(self.schema(), value@),
                Err(e) => spec_decode_value(self.schema(), unread(bytes).len(), unread(bytes))
                    == Err::<ValueView, TlvError>(e),
            },
    {
        proof {
            use_type_invariant(self);
            lemma_decoded_value_admitted(self.kind@, unread(bytes).len(), unread(bytes));
        }
        let mut cursor = bytes;
        let length = wire::remaining(&cursor);
        tlv_decode(&self.kind, length, &mut cursor)
    }
}

} // verus!
