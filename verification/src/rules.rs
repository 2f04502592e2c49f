//! The rules of a legal schema.
//!
//! A list of field descriptors is checked once, when a record type is
//! assembled. The codec then relies on what is stated here.

use crate::config::valid_width;
use crate::config::Format;
use crate::config::Presence;
use crate::config::TlvConfig;
use crate::endian::be_bytes;
use crate::endian::pow256;
use crate::error::SchemaError;
use crate::schema::FieldSpecView;
use crate::schema::KindView;
use vstd::prelude::*;

verus! {

/// The three widths of the descriptor are ones that the wire format has.
pub open spec fn spec_widths_valid(config: TlvConfig) -> bool {
    &&& valid_width(config.tag_bytes_format)
    &&& valid_width(config.length_bytes_format)
    &&& (config.value_bits_format == 4 || config.value_bits_format == 8)
}

/// The descriptor declares what its format needs: a tag for a 4-bit tag
/// cell, a length field of at least one byte where the format has a length,
/// and a literal length where the wire carries none.
pub open spec fn spec_complete(config: TlvConfig) -> bool {
    &&& config.is_cell() ==> config.tag is Some
    &&& config.format.has_length() ==> config.length_bytes_format >= 1
    &&& config.format == Format::V && !config.is_nibble() ==> config.length is Some
    &&& config.format == Format::TV && !config.is_cell() ==> config.length is Some
}

/// The literal tag and the literal length fit the widths they are written in.
pub open spec fn spec_literals_fit(config: TlvConfig) -> bool {
    &&& config.tag matches Some(tag) ==> {
        &&& config.is_cell() ==> tag < 16
        &&& config.format.has_tag() && config.tag_bytes_format >= 1 ==> tag < pow256(
            config.tag_bytes_format as nat,
        )
    }
    &&& config.length matches Some(length) ==> (config.format.has_length() ==> length < pow256(
        config.length_bytes_format as nat,
    ))
}

/// The field can stand in the optional tail: its entries start with a tag
/// by which they are found.
pub open spec fn spec_tail_ready(config: TlvConfig) -> bool {
    &&& config.tag is Some
    &&& config.format.has_tag()
    &&& config.is_cell() || config.tag_bytes_format >= 1
}

/// The format can carry the field: a 4-bit tag cell or a 4-bit value holds a
/// byte, a tag-only field holds nothing, a 4-bit value is required, an
/// optional field is `TV`, `TLV` or `TLV-E`, a repeated one `TLV` or `TLV-E`.
pub open spec fn spec_format_supported(field: FieldSpecView) -> bool {
    let config = field.config;
    &&& config.is_cell() ==> field.kind is Byte
    &&& config.is_nibble() ==> field.kind is Byte && field.presence == Presence::Required
    &&& config.format == Format::T ==> field.kind is Unit
    &&& field.presence == Presence::Optional ==> config.format == Format::TV || config.format
        == Format::TLV || config.format == Format::TLVE
    &&& field.presence == Presence::Repeated ==> config.format == Format::TLV || config.format
        == Format::TLVE
}

/// The field obeys every rule that speaks of one field alone.
pub open spec fn spec_field_legal(field: FieldSpecView) -> bool {
    &&& spec_widths_valid(field.config)
    &&& spec_complete(field.config)
    &&& field.presence != Presence::Required ==> spec_tail_ready(field.config)
    &&& spec_literals_fit(field.config)
    &&& spec_format_supported(field)
}

/// No required field follows an optional or repeated one.
pub open spec fn spec_required_first(specs: Seq<FieldSpecView>) -> bool {
    forall|i: int, j: int|
        0 <= i < j < specs.len() && #[trigger] specs[j].presence == Presence::Required
            ==> #[trigger] specs[i].presence == Presence::Required
}

/// From the `from`-th field on, every 4-bit value field has its partner
/// right after it.
pub open spec fn spec_paired_from(specs: Seq<FieldSpecView>, from: int) -> bool
    decreases specs.len() - from,
{
    if from < 0 || from >= specs.len() {
        true
    } else if specs[from].config.is_nibble() {
        &&& from + 1 < specs.len()
        &&& specs[from + 1].config.is_nibble()
        &&& spec_paired_from(specs, from + 2)
    } else {
        spec_paired_from(specs, from + 1)
    }
}

/// An entry of a field with this descriptor starts with the byte `lead`:
/// the high half of the byte is the 4-bit tag, or the byte is the first
/// byte of the tag.
pub open spec fn spec_answers(config: TlvConfig, lead: u8) -> bool {
    &&& config.format.has_tag()
    &&& config.tag matches Some(tag) && if config.tag_bytes_format == 0 {
        config.format == Format::TV && tag == lead / 16
    } else {
        be_bytes(tag as nat, config.tag_bytes_format as nat)[0] == lead
    }
}

/// No byte starts an entry of two different fields of the optional tail.
pub open spec fn spec_tags_distinct(specs: Seq<FieldSpecView>) -> bool {
    forall|i: int, j: int, lead: u8|
        0 <= i < j < specs.len() && specs[i].presence != Presence::Required
            && #[trigger] spec_answers(specs[i].config, lead) ==> !#[trigger] spec_answers(
            specs[j].config,
            lead,
        )
}

/// The fields obey every rule that speaks of the fields of one record,
/// leaving aside what the fields hold.
pub open spec fn spec_fields_shallow(specs: Seq<FieldSpecView>) -> bool {
    &&& forall|i: int| 0 <= i < specs.len() ==> spec_field_legal(#[trigger] specs[i])
    &&& spec_required_first(specs)
    &&& spec_paired_from(specs, 0)
    &&& spec_tags_distinct(specs)
}

/// The kind is a legal schema, all the way down.
pub open spec fn spec_legal(kind: KindView) -> bool
    decreases kind,
{
    match kind {
        KindView::Newtype(inner) => spec_legal(*inner),
        KindView::Record(specs) => {
            &&& spec_fields_shallow(specs)
            &&& forall|i: int| 0 <= i < specs.len() ==> spec_legal((#[trigger] specs[i]).kind)
        },
        _ => true,
    }
}

/// The fields make a legal record type, all the way down.
pub open spec fn spec_fields_legal(specs: Seq<FieldSpecView>) -> bool {
    &&& spec_fields_shallow(specs)
    &&& forall|i: int| 0 <= i < specs.len() ==> spec_legal((#[trigger] specs[i]).kind)
}

/// What is wrong with a field by itself, if anything: a width first, then
/// what is missing, then what the format cannot carry.
pub open spec fn spec_field_defect(field: FieldSpecView) -> Option<SchemaError> {
    let config = field.config;
    if !spec_widths_valid(config) {
        Some(SchemaError::InvalidWidth)
    } else if !spec_complete(config) || (field.presence != Presence::Required && !spec_tail_ready(
        config,
    )) || !spec_literals_fit(config) {
        Some(SchemaError::MissingConfiguration)
    } else if !spec_format_supported(field) {
        Some(SchemaError::UnsupportedFormat)
    } else {
        None
    }
}

/// What is wrong with the first field from the `from`-th on that has
/// something wrong by itself.
pub open spec fn spec_first_field_defect(specs: Seq<FieldSpecView>, from: int) -> Option<
    SchemaError,
>
    decreases specs.len() - from,
{
    if from < 0 || from >= specs.len() {
        None
    } else {
        match spec_field_defect(specs[from]) {
            Some(e) => Some(e),
            None => spec_first_field_defect(specs, from + 1),
        }
    }
}

/// What is wrong with the fields of a record, leaving aside what the fields
/// hold: the first field that is wrong by itself, then the order of
/// required and optional fields, then the pairing of 4-bit values, then the
/// tags of the optional tail.
pub open spec fn spec_fields_defect(specs: Seq<FieldSpecView>) -> Option<SchemaError> {
    match spec_first_field_defect(specs, 0) {
        Some(e) => Some(e),
        None => if !spec_required_first(specs) {
            Some(SchemaError::OptionalBeforeRequired)
        } else if !spec_paired_from(specs, 0) {
            Some(SchemaError::UnpairedNibble)
        } else if !spec_tags_distinct(specs) {
            Some(SchemaError::AmbiguousTag)
        } else {
            None
        },
    }
}

/// What is wrong with a schema, if anything: for a record, what is wrong
/// with its fields, else what is wrong with the first field that holds
/// something wrong.
pub open spec fn spec_defect(kind: KindView) -> Option<SchemaError>
    decreases kind, 0nat,
{
    match kind {
        KindView::Newtype(inner) => spec_defect(*inner),
        KindView::Record(specs) => match spec_fields_defect(specs) {
            Some(e) => Some(e),
            None => spec_nested_defect(specs, 0),
        },
        _ => None,
    }
}

/// What is wrong with the first field from the `from`-th on that holds
/// something wrong.
pub open spec fn spec_nested_defect(specs: Seq<FieldSpecView>, from: int) -> Option<SchemaError>
    decreases specs, specs.len() - from,
{
    if from < 0 || from >= specs.len() {
        None
    } else {
        match spec_defect(specs[from].kind) {
            Some(e) => Some(e),
            None => spec_nested_defect(specs, from + 1),
        }
    }
}

/// No field from the `from`-th on is wrong by itself exactly when each of
/// them is legal.
pub proof fn lemma_first_field_defect(specs: Seq<FieldSpecView>, from: int)
    requires
        0 <= from,
    ensures
        spec_first_field_defect(specs, from) is None <==> forall|i: int|
            from <= i < specs.len() ==> spec_field_legal(#[trigger] specs[i]),
    decreases specs.len() - from,
{
    if from < specs.len() {
        lemma_first_field_defect(specs, from + 1);
        if spec_first_field_defect(specs, from) is None {
            assert forall|i: int| from <= i < specs.len() implies spec_field_legal(
                #[trigger] specs[i],
            ) by {
                if i > from {
                    assert(spec_field_legal(specs[i]));
                }
            }
        } else if spec_field_defect(specs[from]) is Some {
            assert(!spec_field_legal(specs[from]));
        }
    }
}

/// No field from the `from`-th on holds something wrong exactly when each
/// of them holds a legal schema.
pub proof fn lemma_nested_defect(specs: Seq<FieldSpecView>, from: int)
    requires
        0 <= from,
    ensures
        spec_nested_defect(specs, from) is None <==> forall|i: int|
            from <= i < specs.len() ==> spec_legal((#[trigger] specs[i]).kind),
    decreases specs, specs.len() - from,
{
    if from < specs.len() {
        lemma_nested_defect(specs, from + 1);
        lemma_defect(specs[from].kind);
        if spec_nested_defect(specs, from) is None {
            assert forall|i: int| from <= i < specs.len() implies spec_legal(
                (#[trigger] specs[i]).kind,
            ) by {
                if i > from {
                    assert(spec_legal(specs[i].kind));
                }
            }
        } else if spec_defect(specs[from].kind) is Some {
            assert(!spec_legal(specs[from].kind));
        }
    }
}

/// A schema is legal exactly when nothing is wrong with it.
pub proof fn lemma_defect(kind: KindView)
    ensures
        spec_defect(kind) is None <==> spec_legal(kind),
    decreases kind, 0nat,
{
    match kind {
        KindView::Newtype(inner) => {
            lemma_defect(*inner);
        },
        KindView::Record(specs) => {
            lemma_first_field_defect(specs, 0);
            lemma_nested_defect(specs, 0);
        },
        _ => {},
    }
}

} // verus!
