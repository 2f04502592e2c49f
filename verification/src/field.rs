//! The fields of a record type as a schema front end sees them: by name,
//! by what wraps them, and by the name of the type inside.

use crate::config::Presence;
use vstd::prelude::*;
use vstd::string::StringExecFns;

verus! {

/// What wraps the type of a field.
#[derive(Clone, Copy, Debug, PartialEq, Eq, Structural)]
pub enum TlvFieldType {
    /// The field is an `Option`.
    Optional,
    /// The field is a `Vec`.
    Array,
    /// The field is neither.
    Required,
}

/// One field of a record type, as declared.
#[derive(Debug, PartialEq, Eq)]
pub struct TlvFieldData {
    /// What wraps the type of the field.
    pub field_type: TlvFieldType,
    /// The name of the field.
    pub field_name: String,
    /// The name of the type inside the wrapper.
    pub inner_type: String,
}

/// Whether two texts are the same, character by character.
pub fn same_text(a: &str, b: &str) -> (same: bool)
    ensures
        same == (a@ == b@),
{
    let left = a.to_owned();
    let right = b.to_owned();
    left == right
}

impl TlvFieldType {
    /// Where a field of this sort stands in a record: an optional field and
    /// an array in the optional tail, the array with any number of entries,
    /// any other field in the required prefix.
    pub fn presence(self) -> (presence: Presence)
        ensures
            presence == match self {
                TlvFieldType::Optional => Presence::Optional,
                TlvFieldType::Array => Presence::Repeated,
                TlvFieldType::Required => Presence::Required,
            },
    {
        match self {
            TlvFieldType::Optional => Presence::Optional,
            TlvFieldType::Array => Presence::Repeated,
            TlvFieldType::Required => Presence::Required,
        }
    }

    /// What a field is, by the name of the type that wraps it.
    pub open spec fn spec_of_wrapper(name: Seq<char>) -> TlvFieldType {
        if name == "Option"@ {
            TlvFieldType::Optional
        } else if name == "Vec"@ {
            TlvFieldType::Array
        } else {
            TlvFieldType::Required
        }
    }

    /// What a field is, by the last segment of the path of its type:
    /// optional under `Option`, an array under `Vec`, else required.
    pub fn of_wrapper(name: &str) -> (kind: TlvFieldType)
        ensures
            kind == Self::spec_of_wrapper(name@),
    {
        if same_text(name, "Option") {
            TlvFieldType::Optional
        } else if same_text(name, "Vec") {
            TlvFieldType::Array
        } else {
            TlvFieldType::Required
        }
    }
}

impl TlvFieldData {
    /// The type of the field written out in full.
    pub open spec fn spec_full_type(self) -> Seq<char> {
        match self.field_type {
            TlvFieldType::Optional => "Option<Tlv<"@ + self.inner_type@ + ">>"@,
            TlvFieldType::Required => "Tlv<"@ + self.inner_type@ + ">"@,
            TlvFieldType::Array => "Vec<Tlv<"@ + self.inner_type@ + ">>"@,
        }
    }

    /// The type of the field written out in full: the inner type as a
    /// tagged value, inside the wrapper of the field.
    pub fn get_full_type(&self) -> (full: String)
        ensures
            full@ == self.spec_full_type(),
    {
        let (open, close) = match self.field_type {
            TlvFieldType::Optional => ("Option<Tlv<", ">>"),
            TlvFieldType::Required => ("Tlv<", ">"),
            TlvFieldType::Array => ("Vec<Tlv<", ">>"),
        };
        String::from_str(open).concat(self.inner_type.as_str()).concat(close)
    }
}

} // verus!
