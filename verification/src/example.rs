//! A record type written out by hand: one optional field, a 4-bit tag and
//! a 4-bit value in one byte.

use crate::config::Format;
use crate::config::Presence;
use crate::config::TlvConfig;
use crate::error::TlvError;
use crate::layout::spec_entry_bytes;
use crate::parse::spec_decode_value;
use crate::prelude::TlvDecode;
use crate::prelude::TlvEncode;
use crate::reader::tlv_decode;
use crate::writer::format_option_encode;
use crate::rules::spec_field_legal;
use crate::rules::spec_legal;
use crate::rules::spec_paired_from;
use crate::schema::lemma_record_view;
use crate::schema::FieldSpec;
use crate::schema::FieldSpecView;
use crate::schema::Kind;
use crate::schema::KindView;
use crate::typing::lemma_decoded_value_admitted;
use crate::value::lemma_record_value_view;
use crate::value::Slot;
use crate::value::SlotView;
use crate::value::Value;
use crate::value::ValueView;
use crate::wire::unread;
use crate::wire::written;
use bytes::Bytes;
use bytes::BytesMut;
use vstd::pervasive::unreached;
use vstd::prelude::*;

verus! {

/// A record with one optional 4-bit value under the 4-bit tag 9.
#[derive(Debug, PartialEq, Eq)]
pub struct Tv4BitStruct {
    pub value: Option<u8>,
}

impl View for Tv4BitStruct {
    type V = Option<u8>;

    open spec fn view(&self) -> Option<u8> {
        self.value
    }
}

impl Tv4BitStruct {
    /// The descriptor of the one field.
    pub open spec fn spec_field() -> FieldSpecView {
        FieldSpecView {
            config: TlvConfig {
                estimated_size: 1024,
                format: Format::TV,
                tag: Some(9),
                tag_bytes_format: 0,
                length: None,
                length_bytes_format: 1,
                value_bits_format: 8,
            },
            presence: Presence::Optional,
            kind: KindView::Byte,
        }
    }

    /// The schema of the record.
    pub open spec fn spec_schema() -> KindView {
        KindView::Record(seq![Self::spec_field()])
    }

    /// What a decoded record holds for the one field.
    pub open spec fn spec_held(value: ValueView) -> Option<u8> {
        match value {
            ValueView::Record(slots) => match slots[0] {
                SlotView::Optional(Some(ValueView::Byte(b))) => Some(b),
                _ => None,
            },
            _ => None,
        }
    }

    /// The descriptor of the one field.
    pub fn field() -> (field: FieldSpec)
        ensures
            field@ == Self::spec_field(),
            spec_field_legal(field@),
            spec_legal(field@.kind),
    {
        FieldSpec {
            config: TlvConfig::new(Format::TV).with_tag(9).with_tag_bytes_format(0),
            presence: Presence::Optional,
            kind: Kind::Byte,
        }
    }

    /// The schema of the record.
    pub fn schema() -> (kind: Kind)
        ensures
            kind@ == Self::spec_schema(),
            spec_legal(kind@),
    {
        let mut specs: Vec<FieldSpec> = Vec::new();
        specs.push(Self::field());
        proof {
            lemma_record_view(specs);
            let schema = crate::schema::fields_view(specs@);
            assert(schema =~= seq![Self::spec_field()]);
            reveal_with_fuel(spec_paired_from, 3);
            assert(spec_paired_from(schema, 0));
        }
        Kind::Record(specs)
    }
}

impl TlvEncode for Tv4BitStruct {
    /// One byte with the tag in the high half and the low four bits of the
    /// value in the low half, or nothing where no value is held.
    open spec fn spec_encode(&self) -> Seq<u8> {
        match self.value {
            Some(v) => seq![(9 * 16 + v % 16) as u8],
            None => Seq::empty(),
        }
    }

    open spec fn spec_fits(&self) -> bool {
        true
    }

    fn encode(&self, bytes: &mut BytesMut) -> (done: Result<usize, TlvError>) {
        let field = Self::field();
        let held = match self.value {
            Some(v) => Some(Value::Byte(v)),
            None => None,
        };
        proof {
            if self.value is Some {
                let v = self.value->0;
                assert(spec_entry_bytes(field@, ValueView::Byte(v)) =~= seq![
                    (9 * 16 + v % 16) as u8,
                ]);
            }
            assert(written(*bytes) + Seq::<u8>::empty() =~= written(*bytes));
        }
        format_option_encode(&field, &held, bytes)
    }
}

impl TlvDecode for Tv4BitStruct {
    /// The record that the bytes spell under the schema; reading it takes
    /// all of the bytes.
    open spec fn spec_decode(length: nat, input: Seq<u8>) -> Result<(Option<u8>, nat), TlvError> {
        match spec_decode_value(Self::spec_schema(), length, input) {
            Ok(value) => Ok((Self::spec_held(value), input.len())),
            Err(e) => Err(e),
        }
    }

    fn decode(length: usize, bytes: &mut Bytes) -> (done: Result<Self, TlvError>) {
        let kind = Self::schema();
        proof {
            lemma_decoded_value_admitted(kind@, length as nat, unread(*bytes));
        }
        let decoded = match tlv_decode(&kind, length, bytes) {
            Ok(decoded) => decoded,
            Err(e) => {
                return Err(e);
            },
        };
        let ghost model = decoded@;
        let mut slots = match decoded {
            Value::Record(slots) => slots,
            _ => unreached(),
        };
        let ghost before = slots@;
        proof {
            lemma_record_value_view(slots);
            let record = crate::value::slots_view(before);
            assert(model == ValueView::Record(record));
            assert(crate::layout::spec_admits(Self::spec_schema(), model));
            assert(crate::layout::spec_fields_admit(seq![Self::spec_field()], record));
            assert(record.len() == 1);
            assert(record[0] == before[0]@);
            assert(crate::layout::spec_slot_admits(Self::spec_field(), record[0])) by {
                assert(Self::spec_schema()->Record_0[0] == Self::spec_field());
            }
        }
        match slots.pop() {
            Some(Slot::Optional(Some(Value::Byte(b)))) => Ok(Tv4BitStruct { value: Some(b) }),
            Some(Slot::Optional(None)) => Ok(Tv4BitStruct { value: None }),
            _ => unreached(),
        }
    }
}

} // verus!
