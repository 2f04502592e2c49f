//! Schema assembly: a list of field descriptors is checked once, before
//! anything is encoded or decoded with it.

use crate::config::Format;
use crate::config::Presence;
use crate::config::TlvConfig;
use crate::encode::get_bytes_format;
use crate::error::SchemaError;
use crate::parse::lemma_dispatch;
use crate::parse::spec_dispatch;
use crate::reader::answers;
use crate::reader::dispatch;
use crate::rules::lemma_defect;
use crate::rules::lemma_first_field_defect;
use crate::rules::spec_answers;
use crate::rules::spec_complete;
use crate::rules::spec_defect;
use crate::rules::spec_field_defect;
use crate::rules::spec_field_legal;
use crate::rules::spec_fields_defect;
use crate::rules::spec_first_field_defect;
use crate::rules::spec_legal;
use crate::rules::spec_literals_fit;
use crate::rules::spec_nested_defect;
use crate::rules::spec_paired_from;
use crate::rules::spec_required_first;
use crate::rules::spec_tags_distinct;
use crate::rules::spec_widths_valid;
use crate::schema::fields_view;
use crate::schema::lemma_record_view;
use crate::schema::FieldSpec;
use crate::schema::Kind;
use vstd::prelude::*;

verus! {

/// Whether a tag or a length field can have this width.
fn width_ok(width: u8) -> (yes: bool)
    ensures
        yes == crate::config::valid_width(width),
{
    width == 0 || width == 1 || width == 2 || width == 4 || width == 8 || width == 16
}

/// Whether the format puts a tag on the wire.
fn has_tag(format: Format) -> (yes: bool)
    ensures
        yes == format.has_tag(),
{
    match format {
        Format::T | Format::TV | Format::TLV | Format::TLVE => true,
        _ => false,
    }
}

/// Whether the format puts a length field on the wire.
fn has_length(format: Format) -> (yes: bool)
    ensures
        yes == format.has_length(),
{
    match format {
        Format::LV | Format::LVE | Format::TLV | Format::TLVE => true,
        _ => false,
    }
}

/// Whether the field is one half of a byte shared by two 4-bit values.
fn is_nibble(config: &TlvConfig) -> (yes: bool)
    ensures
        yes == config.is_nibble(),
{
    matches!(config.format, Format::V) && config.value_bits_format == 4
}

/// Whether the field is one byte that holds a 4-bit tag and a 4-bit value.
fn is_cell(config: &TlvConfig) -> (yes: bool)
    ensures
        yes == config.is_cell(),
{
    matches!(config.format, Format::TV) && config.tag_bytes_format == 0
}

/// Whether the literal tag and the literal length fit their widths.
fn literals_fit(config: &TlvConfig) -> (yes: bool)
    requires
        spec_widths_valid(*config),
        spec_complete(*config),
    ensures
        yes == spec_literals_fit(*config),
{
    let tag_fits = match config.tag {
        Some(tag) => {
            if is_cell(config) {
                tag < 16
            } else if has_tag(config.format) && config.tag_bytes_format >= 1 {
                match get_bytes_format(config.tag_bytes_format) {
                    Some(max) => tag as u128 <= max,
                    None => true,
                }
            } else {
                true
            }
        },
        None => true,
    };
    let length_fits = match config.length {
        Some(length) => {
            if has_length(config.format) {
                match get_bytes_format(config.length_bytes_format) {
                    Some(max) => length as u128 <= max,
                    None => true,
                }
            } else {
                true
            }
        },
        None => true,
    };
    tag_fits && length_fits
}

/// Checks one field by itself.
pub fn validate_field(field: &FieldSpec) -> (done: Result<(), SchemaError>)
    ensures
        done == match spec_field_defect(field@) {
            Some(e) => Err::<(), SchemaError>(e),
            None => Ok(()),
        },
        done is Ok <==> spec_field_legal(field@),
{
    let config = &field.config;
    let widths = width_ok(config.tag_bytes_format) && width_ok(config.length_bytes_format) && (
    config.value_bits_format == 4 || config.value_bits_format == 8);
    if !widths {
        return Err(SchemaError::InvalidWidth);
    }
    let cell = is_cell(config);
    let nibble = is_nibble(config);
    let complete = (!cell || config.tag.is_some()) && (!has_length(config.format)
        || config.length_bytes_format >= 1) && (!(matches!(config.format, Format::V) && !nibble)
        || config.length.is_some()) && (!(matches!(config.format, Format::TV) && !cell)
        || config.length.is_some());
    if !complete {
        return Err(SchemaError::MissingConfiguration);
    }
    let required = matches!(field.presence, Presence::Required);
    let tail_ready = config.tag.is_some() && has_tag(config.format) && (cell
        || config.tag_bytes_format >= 1);
    if !required && !tail_ready {
        return Err(SchemaError::MissingConfiguration);
    }
    if !literals_fit(config) {
        return Err(SchemaError::MissingConfiguration);
    }
    let holds_byte = matches!(field.kind, Kind::Byte);
    let holds_unit = matches!(field.kind, Kind::Unit);
    let supported = (!cell || holds_byte) && (!nibble || (holds_byte && required)) && (!matches!(
        config.format,
        Format::T
    ) || holds_unit) && (!matches!(field.presence, Presence::Optional) || matches!(
        config.format,
        Format::TV | Format::TLV | Format::TLVE
    )) && (!matches!(field.presence, Presence::Repeated) || matches!(
        config.format,
        Format::TLV | Format::TLVE
    ));
    if !supported {
        return Err(SchemaError::UnsupportedFormat);
    }
    Ok(())
}

/// Whether no required field follows an optional or repeated one.
fn required_first(specs: &Vec<FieldSpec>) -> (yes: bool)
    ensures
        yes == spec_required_first(fields_view(specs@)),
{
    let ghost schema = fields_view(specs@);
    let mut i: usize = 0;
    let mut tail_seen = false;
    let ghost mut witness: int = 0;
    while i < specs.len()
        invariant
            i <= specs.len(),
            schema == fields_view(specs@),
            !tail_seen ==> forall|k: int|
                0 <= k < i ==> (#[trigger] schema[k]).presence == Presence::Required,
            tail_seen ==> 0 <= witness < i && schema[witness].presence != Presence::Required,
            forall|a: int, b: int|
                0 <= a < b < i && #[trigger] schema[b].presence == Presence::Required
                    ==> #[trigger] schema[a].presence == Presence::Required,
        decreases specs.len() - i,
    {
        assert(schema[i as int] == specs[i as int]@);
        let required = matches!(specs[i].presence, Presence::Required);
        if required {
            if tail_seen {
                assert(!spec_required_first(schema)) by {
                    assert(schema[i as int].presence == Presence::Required);
                    assert(schema[witness].presence != Presence::Required);
                }
                return false;
            }
        } else {
            if !tail_seen {
                proof {
                    witness = i as int;
                }
            }
            tail_seen = true;
        }
        i = i + 1;
    }
    true
}

/// Whether every 4-bit value field has its partner right after it.
fn nibbles_paired(specs: &Vec<FieldSpec>) -> (yes: bool)
    ensures
        yes == spec_paired_from(fields_view(specs@), 0),
{
    let ghost schema = fields_view(specs@);
    let mut i: usize = 0;
    while i < specs.len()
        invariant
            i <= specs.len(),
            schema == fields_view(specs@),
            spec_paired_from(schema, 0) == spec_paired_from(schema, i as int),
        decreases specs.len() - i,
    {
        assert(schema[i as int] == specs[i as int]@);
        if is_nibble(&specs[i].config) {
            if i + 1 < specs.len() && is_nibble(&specs[i + 1].config) {
                assert(schema[i + 1] == specs[i + 1]@);
                i = i + 2;
            } else {
                proof {
                    if i + 1 < specs.len() {
                        assert(schema[i + 1] == specs[i + 1]@);
                    }
                }
                return false;
            }
        } else {
            i = i + 1;
        }
    }
    true
}

/// Whether no byte starts an entry of two different fields of the optional
/// tail. Every byte is tried: the first field that answers to it must be
/// the only one.
fn tags_distinct(specs: &Vec<FieldSpec>) -> (yes: bool)
    requires
        forall|i: int| 0 <= i < specs.len() ==> spec_field_legal(#[trigger] fields_view(specs@)[i]),
        spec_required_first(fields_view(specs@)),
    ensures
        yes == spec_tags_distinct(fields_view(specs@)),
{
    let ghost schema = fields_view(specs@);
    let mut lead: u8 = 0;
    loop
        invariant
            schema == fields_view(specs@),
            forall|i: int| 0 <= i < specs.len() ==> spec_field_legal(#[trigger] schema[i]),
            spec_required_first(schema),
            forall|i: int, j: int, l: u8|
                0 <= i < j < specs.len() && l < lead && schema[i].presence != Presence::Required
                    && #[trigger] spec_answers(schema[i].config, l) ==> !#[trigger] spec_answers(
                    schema[j].config,
                    l,
                ),
        ensures
            yes_so_far(schema, lead),
            lead == 255,
        decreases 255 - lead,
    {
        proof {
            lemma_dispatch(schema, 0, lead);
            assert forall|i: int| 0 <= i < specs.len() implies spec_widths_valid(
                (#[trigger] schema[i]).config,
            ) && spec_literals_fit(schema[i].config) by {
                assert(spec_field_legal(schema[i]));
            }
        }
        match dispatch(specs, lead) {
            Some(first) => {
                let mut j: usize = first + 1;
                while j < specs.len()
                    invariant
                        first < j <= specs.len(),
                        schema == fields_view(specs@),
                        schema[first as int].presence != Presence::Required,
                        spec_answers(schema[first as int].config, lead),
                        forall|i: int|
                            0 <= i < specs.len() ==> spec_field_legal(#[trigger] schema[i]),
                        forall|k: int|
                            first < k < j ==> !spec_answers((#[trigger] schema[k]).config, lead),
                    decreases specs.len() - j,
                {
                    assert(schema[j as int] == specs[j as int]@);
                    assert(spec_field_legal(schema[j as int]));
                    if answers(&specs[j].config, lead) {
                        assert(!spec_tags_distinct(schema)) by {
                            assert(spec_answers(schema[first as int].config, lead));
                            assert(spec_answers(schema[j as int].config, lead));
                        }
                        return false;
                    }
                    j = j + 1;
                }
            },
            None => {},
        }
        proof {
            assert forall|i: int, j: int, l: u8|
                0 <= i < j < specs.len() && l < lead + 1 && schema[i].presence
                    != Presence::Required && #[trigger] spec_answers(
                    schema[i].config,
                    l,
                ) implies !#[trigger] spec_answers(schema[j].config, l) by {
                if l == lead {
                    let found = spec_dispatch(schema, 0, lead);
                    if found is Some {
                        let first = found->0;
                        if i < first {
                            assert(!spec_answers(schema[i].config, lead));
                        } else if i > first {
                            assert(!spec_answers(schema[i].config, lead));
                        } else {
                            assert(!spec_answers(schema[j].config, lead));
                        }
                    } else {
                        assert(!spec_answers(schema[i].config, lead));
                    }
                }
            }
        }
        if lead == 255 {
            break ;
        }
        lead = lead + 1;
    }
    proof {
        assert(yes_so_far(schema, 255));
    }
    true
}

/// No byte up to `lead` starts an entry of two different fields of the tail.
spec fn yes_so_far(specs: Seq<crate::schema::FieldSpecView>, lead: u8) -> bool {
    forall|i: int, j: int, l: u8|
        0 <= i < j < specs.len() && l <= lead && specs[i].presence != Presence::Required
            && #[trigger] spec_answers(specs[i].config, l) ==> !#[trigger] spec_answers(
            specs[j].config,
            l,
        )
}

/// Checks the fields of a record, leaving aside what the fields hold.
pub fn validate_fields(specs: &Vec<FieldSpec>) -> (done: Result<(), SchemaError>)
    ensures
        done == match spec_fields_defect(fields_view(specs@)) {
            Some(e) => Err::<(), SchemaError>(e),
            None => Ok(()),
        },
{
    let ghost schema = fields_view(specs@);
    let mut i: usize = 0;
    while i < specs.len()
        invariant
            i <= specs.len(),
            schema == fields_view(specs@),
            spec_first_field_defect(schema, 0) == spec_first_field_defect(schema, i as int),
        decreases specs.len() - i,
    {
        assert(schema[i as int] == specs[i as int]@);
        match validate_field(&specs[i]) {
            Ok(_) => {},
            Err(e) => {
                return Err(e);
            },
        }
        i = i + 1;
    }
    proof {
        lemma_first_field_defect(schema, 0);
    }
    if !required_first(specs) {
        return Err(SchemaError::OptionalBeforeRequired);
    }
    if !nibbles_paired(specs) {
        return Err(SchemaError::UnpairedNibble);
    }
    if !tags_distinct(specs) {
        return Err(SchemaError::AmbiguousTag);
    }
    Ok(())
}

/// Checks a schema before it is used: every field by itself, the fields of
/// each record together, and what the fields hold. The first thing found
/// wrong is reported; a schema that passes is legal.
pub fn validate(kind: &Kind) -> (done: Result<(), SchemaError>)
    ensures
        done == match spec_defect(kind@) {
            Some(e) => Err::<(), SchemaError>(e),
            None => Ok(()),
        },
        done is Ok <==> spec_legal(kind@),
    decreases kind, 0nat,
{
    proof {
        lemma_defect(kind@);
    }
    match kind {
        Kind::Newtype(inner) => validate(inner),
        Kind::Record(specs) => {
            proof {
                lemma_record_view(*specs);
            }
            match validate_fields(specs) {
                Ok(_) => validate_nested(specs),
                Err(e) => Err(e),
            }
        },
        _ => Ok(()),
    }
}

/// Checks what the fields of a record hold, field by field.
fn validate_nested(specs: &Vec<FieldSpec>) -> (done: Result<(), SchemaError>)
    ensures
        done == match spec_nested_defect(fields_view(specs@), 0) {
            Some(e) => Err::<(), SchemaError>(e),
            None => Ok(()),
        },
    decreases specs, 1nat,
{
    let ghost schema = fields_view(specs@);
    let mut i: usize = 0;
    while i < specs.len()
        invariant
            i <= specs.len(),
            schema == fields_view(specs@),
            spec_nested_defect(schema, 0) == spec_nested_defect(schema, i as int),
        decreases specs.len() - i,
    {
        assert(schema[i as int] == specs[i as int]@);
        match validate_held(&specs[i]) {
            Ok(_) => {},
            Err(e) => {
                return Err(e);
            },
        }
        i = i + 1;
    }
    Ok(())
}

/// Checks what one field holds.
fn validate_held(field: &FieldSpec) -> (done: Result<(), SchemaError>)
    ensures
        done == match spec_defect(field@.kind) {
            Some(e) => Err::<(), SchemaError>(e),
            None => Ok(()),
        },
    decreases field, 0nat,
{
    validate(&field.kind)
}

} // verus!
