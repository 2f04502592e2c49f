//! The errors that encoding, decoding and schema assembly report.

use vstd::prelude::*;

verus! {

/// What can go wrong while bytes are produced or consumed.
#[derive(Clone, Copy, Debug, PartialEq, Eq, Structural)]
pub enum TlvError {
    /// A failure that has no more specific name.
    Unknown,
    /// The bytes do not follow the schema: a length field disagrees with
    /// the declared fixed length, or the buffer ends inside a field.
    MalformedPayload,
    /// An entry of the optional tail carries a tag that no field declares.
    UnknownTag,
    /// A tag of a non-repeating optional field occurs a second time.
    DuplicateTag,
    /// A measured payload does not fit the declared width of its length field.
    LengthOverflow,
}

/// Why a list of field descriptors is not a legal schema.
#[derive(Clone, Copy, Debug, PartialEq, Eq, Structural)]
pub enum SchemaError {
    /// A tag or length width is not one of 0, 1, 2, 4, 8, 16 bytes, or a
    /// value width is not 4 or 8 bits.
    InvalidWidth,
    /// A field lacks a tag or a literal length that its format needs, or a
    /// literal does not fit its declared width.
    MissingConfiguration,
    /// The format cannot carry this kind of field: an optional field that is
    /// not `TV`, `TLV` or `TLV-E`, a repeated field that is not `TLV` or
    /// `TLV-E`, or a value kind the format cannot hold.
    UnsupportedFormat,
    /// A required field is declared after an optional or repeated one.
    OptionalBeforeRequired,
    /// A 4-bit value field has no partner declared next to it.
    UnpairedNibble,
    /// Two fields of the optional tail answer to the same leading byte.
    AmbiguousTag,
}

impl TlvError {
    /// A short description of the error.
    pub fn message(&self) -> (text: &'static str)
        ensures
            text@ == match *self {
                TlvError::Unknown => "unknown error"@,
                TlvError::MalformedPayload => "Payload is not as per specification"@,
                TlvError::UnknownTag => "unknown tag in the optional tail"@,
                TlvError::DuplicateTag => "duplicate tag in the optional tail"@,
                TlvError::LengthOverflow => "payload does not fit its length field"@,
            },
    {
        match self {
            TlvError::Unknown => "unknown error",
            TlvError::MalformedPayload => "Payload is not as per specification",
            TlvError::UnknownTag => "unknown tag in the optional tail",
            TlvError::DuplicateTag => "duplicate tag in the optional tail",
            TlvError::LengthOverflow => "payload does not fit its length field",
        }
    }
}

} // verus!
