//! Field descriptors: how one field is laid out on the wire.

use crate::field::same_text;
use vstd::prelude::*;

verus! {

/// The framing of a field.
#[derive(Clone, Copy, Debug, PartialEq, Eq, Structural)]
pub enum Format {
    /// Tag only.
    T,
    /// Value only.
    V,
    /// Tag and value; the length is implied by the schema.
    TV,
    /// Length and value.
    LV,
    /// Length and value, with the wider length field of the extended form.
    LVE,
    /// Tag, length and value.
    TLV,
    /// Tag, length and value, with the wider length field of the extended form.
    TLVE,
}

/// Whether a field is always on the wire, at most once, or any number of times.
#[derive(Clone, Copy, Debug, PartialEq, Eq, Structural)]
pub enum Presence {
    /// Part of the required prefix: always present, in declared order.
    Required,
    /// Part of the optional tail: present at most once, found by its tag.
    Optional,
    /// Part of the optional tail: present any number of times under one tag.
    Repeated,
}

/// The descriptor of one field. It is plain data and is its own model.
#[derive(Clone, Copy, Debug, PartialEq, Eq)]
pub struct TlvConfig {
    /// A hint for the size of a buffer that is to hold the encoded field.
    pub estimated_size: usize,
    /// The framing.
    pub format: Format,
    /// The literal tag; `None` puts no tag on the wire.
    pub tag: Option<usize>,
    /// The width of the tag in bytes; 0 packs a 4-bit tag with a 4-bit value.
    pub tag_bytes_format: u8,
    /// The literal length; `None` has the length measured.
    pub length: Option<usize>,
    /// The width of the length field in bytes; 0 puts none on the wire.
    pub length_bytes_format: u8,
    /// The width of the value in bits: 8, or 4 for one half of a shared byte.
    pub value_bits_format: u8,
}

/// The widths that a tag or a length field can have, in bytes.
pub open spec fn valid_width(width: u8) -> bool {
    width == 0 || width == 1 || width == 2 || width == 4 || width == 8 || width == 16
}

impl Format {
    /// The format puts the tag on the wire.
    pub open spec fn has_tag(self) -> bool {
        self == Format::T || self == Format::TV || self == Format::TLV || self == Format::TLVE
    }

    /// The format puts a length field on the wire.
    pub open spec fn has_length(self) -> bool {
        self == Format::LV || self == Format::LVE || self == Format::TLV || self == Format::TLVE
    }

    /// The format that a schema names, if it names one.
    pub open spec fn spec_from_name(name: Seq<char>) -> Option<Format> {
        if name == "T"@ {
            Some(Format::T)
        } else if name == "V"@ {
            Some(Format::V)
        } else if name == "TV"@ {
            Some(Format::TV)
        } else if name == "LV"@ {
            Some(Format::LV)
        } else if name == "LV-E"@ {
            Some(Format::LVE)
        } else if name == "TLV"@ {
            Some(Format::TLV)
        } else if name == "TLV-E"@ {
            Some(Format::TLVE)
        } else {
            None
        }
    }

    /// The format that a schema names: one of `T`, `V`, `TV`, `LV`, `LV-E`,
    /// `TLV`, `TLV-E`. Any other name is no format.
    pub fn from_name(name: &str) -> (format: Option<Format>)
        ensures
            format == Format::spec_from_name(name@),
    {
        if same_text(name, "T") {
            Some(Format::T)
        } else if same_text(name, "V") {
            Some(Format::V)
        } else if same_text(name, "TV") {
            Some(Format::TV)
        } else if same_text(name, "LV") {
            Some(Format::LV)
        } else if same_text(name, "LV-E") {
            Some(Format::LVE)
        } else if same_text(name, "TLV") {
            Some(Format::TLV)
        } else if same_text(name, "TLV-E") {
            Some(Format::TLVE)
        } else {
            None
        }
    }

    /// The name of the format, as schemas write it.
    pub fn name(&self) -> (text: &'static str)
        ensures
            text@ == match *self {
                Format::T => "T"@,
                Format::V => "V"@,
                Format::TV => "TV"@,
                Format::LV => "LV"@,
                Format::LVE => "LV-E"@,
                Format::TLV => "TLV"@,
                Format::TLVE => "TLV-E"@,
            },
    {
        match self {
            Format::T => "T",
            Format::V => "V",
            Format::TV => "TV",
            Format::LV => "LV",
            Format::LVE => "LV-E",
            Format::TLV => "TLV",
            Format::TLVE => "TLV-E",
        }
    }
}

impl TlvConfig {
    /// The field is one half of a byte shared by two 4-bit values.
    pub open spec fn is_nibble(self) -> bool {
        self.format == Format::V && self.value_bits_format == 4
    }

    /// The field is one byte that holds a 4-bit tag and a 4-bit value.
    pub open spec fn is_cell(self) -> bool {
        self.format == Format::TV && self.tag_bytes_format == 0
    }

    /// A descriptor of the given format with the usual settings: no tag,
    /// one byte each for tag and length, a measured length, a byte-aligned
    /// value, and a capacity hint of 1024 bytes.
    pub fn new(format: Format) -> (config: TlvConfig)
        ensures
            config == (TlvConfig {
                estimated_size: 1024,
                format,
                tag: None,
                tag_bytes_format: 1,
                length: None,
                length_bytes_format: 1,
                value_bits_format: 8,
            }),
    {
        TlvConfig {
            estimated_size: 1024,
            format,
            tag: None,
            tag_bytes_format: 1,
            length: None,
            length_bytes_format: 1,
            value_bits_format: 8,
        }
    }

    /// The same descriptor with the literal tag `tag`.
    pub fn with_tag(self, tag: usize) -> (config: TlvConfig)
        ensures
            config == (TlvConfig { tag: Some(tag), ..self }),
    {
        TlvConfig { tag: Some(tag), ..self }
    }

    /// The same descriptor with a tag of `width` bytes.
    pub fn with_tag_bytes_format(self, width: u8) -> (config: TlvConfig)
        ensures
            config == (TlvConfig { tag_bytes_format: width, ..self }),
    {
        TlvConfig { tag_bytes_format: width, ..self }
    }

    /// The same descriptor with the literal length `length`.
    pub fn with_length(self, length: usize) -> (config: TlvConfig)
        ensures
            config == (TlvConfig { length: Some(length), ..self }),
    {
        TlvConfig { length: Some(length), ..self }
    }

    /// The same descriptor with a length field of `width` bytes.
    pub fn with_length_bytes_format(self, width: u8) -> (config: TlvConfig)
        ensures
            config == (TlvConfig { length_bytes_format: width, ..self }),
    {
        TlvConfig { length_bytes_format: width, ..self }
    }

    /// The same descriptor with a value of `bits` bits.
    pub fn with_value_bits_format(self, bits: u8) -> (config: TlvConfig)
        ensures
            config == (TlvConfig { value_bits_format: bits, ..self }),
    {
        TlvConfig { value_bits_format: bits, ..self }
    }

    /// The same descriptor with the capacity hint `size`.
    pub fn with_estimated_size(self, size: usize) -> (config: TlvConfig)
        ensures
            config == (TlvConfig { estimated_size: size, ..self }),
    {
        TlvConfig { estimated_size: size, ..self }
    }
}

} // verus!
