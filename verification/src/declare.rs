//! Declarations of record types, as a schema front end hands them over:
//! what a struct is called, how its fields are named and typed, and the
//! source text that is written for it.

use crate::field::TlvFieldData;
use crate::field::TlvFieldType;
use vstd::prelude::*;
use vstd::string::StringExecFns;

verus! {

/// The type of a declared field.
#[derive(Debug, PartialEq, Eq)]
pub enum TypeDecl {
    /// A path: the name of its last segment, and the first type argument of
    /// that segment where it has one in angle brackets.
    Path { last: String, argument: Option<String> },
    /// Anything that is not a path.
    Other,
}

/// A declared field: its name and its type.
#[derive(Debug, PartialEq, Eq)]
pub struct FieldDecl {
    pub name: String,
    pub ty: TypeDecl,
}

/// What was declared.
#[derive(Debug, PartialEq, Eq)]
pub enum Declaration {
    /// A struct with named fields.
    Named { name: String, fields: Vec<FieldDecl> },
    /// A struct with this many unnamed fields.
    Unnamed { name: String, count: usize },
    /// A struct without fields.
    Unit { name: String },
    /// Something that is no struct.
    NotStruct,
}

/// Why a declaration cannot be used.
#[derive(Clone, Copy, Debug, PartialEq, Eq, Structural)]
pub enum DeclError {
    /// The declaration is no struct.
    NotStruct,
    /// The struct has unnamed fields.
    NotNamed,
    /// The type of a field is not a path.
    UnsupportedType,
}

impl DeclError {
    /// A short description of the error.
    pub fn message(&self) -> (text: &'static str)
        ensures
            text@ == match *self {
                DeclError::NotStruct => "Expected a struct."@,
                DeclError::NotNamed => "Expected a struct with named fields."@,
                DeclError::UnsupportedType => "Unsupported field type"@,
            },
    {
        match self {
            DeclError::NotStruct => "Expected a struct.",
            DeclError::NotNamed => "Expected a struct with named fields.",
            DeclError::UnsupportedType => "Unsupported field type",
        }
    }
}

/// How a field of a declaration is wrapped, by the last segment of its type.
pub open spec fn spec_field_type(ty: TypeDecl) -> Result<TlvFieldType, DeclError> {
    match ty {
        TypeDecl::Path { last, .. } => Ok(TlvFieldType::spec_of_wrapper(last@)),
        TypeDecl::Other => Err(DeclError::UnsupportedType),
    }
}

/// The type inside the wrapper of a field: the first type argument of the
/// last segment, or the last segment itself where it has none.
pub open spec fn spec_inner_type(ty: TypeDecl) -> Result<Seq<char>, DeclError> {
    match ty {
        TypeDecl::Path { last, argument } => match argument {
            Some(inner) => Ok(inner@),
            None => Ok(last@),
        },
        TypeDecl::Other => Err(DeclError::UnsupportedType),
    }
}

/// The name of the struct that is declared.
pub fn get_struct_name(declaration: &Declaration) -> (name: Result<&String, DeclError>)
    ensures
        name == match *declaration {
            Declaration::Named { name, .. } => Ok::<&String, DeclError>(&name),
            Declaration::Unnamed { name, .. } => Ok::<&String, DeclError>(&name),
            Declaration::Unit { name } => Ok::<&String, DeclError>(&name),
            Declaration::NotStruct => Err::<&String, DeclError>(DeclError::NotStruct),
        },
{
    match declaration {
        Declaration::Named { name, .. } => Ok(name),
        Declaration::Unnamed { name, .. } => Ok(name),
        Declaration::Unit { name } => Ok(name),
        Declaration::NotStruct => Err(DeclError::NotStruct),
    }
}

/// Whether the declaration is a wrapper: a struct with exactly one unnamed
/// field.
pub fn is_newtype(declaration: &Declaration) -> (yes: bool)
    ensures
        yes == (declaration matches Declaration::Unnamed { count, .. } && count == 1),
{
    match declaration {
        Declaration::Unnamed { count, .. } => *count == 1,
        _ => false,
    }
}

/// How a field is wrapped: optional under `Option`, an array under `Vec`,
/// else required. A type that is no path is refused.
pub fn extract_field_type(ty: &TypeDecl) -> (kind: Result<TlvFieldType, DeclError>)
    ensures
        kind == spec_field_type(*ty),
{
    match ty {
        TypeDecl::Path { last, .. } => Ok(TlvFieldType::of_wrapper(last.as_str())),
        TypeDecl::Other => Err(DeclError::UnsupportedType),
    }
}

/// The type inside the wrapper of a field. A type that is no path is
/// refused.
pub fn extract_inner_type(ty: &TypeDecl) -> (inner: Result<String, DeclError>)
    ensures
        match inner {
            Ok(text) => spec_inner_type(*ty) == Ok::<Seq<char>, DeclError>(text@),
            Err(e) => spec_inner_type(*ty) == Err::<Seq<char>, DeclError>(e),
        },
{
    match ty {
        TypeDecl::Path { last, argument } => match argument {
            Some(inner) => Ok(inner.clone()),
            None => Ok(last.clone()),
        },
        TypeDecl::Other => Err(DeclError::UnsupportedType),
    }
}

/// What the `i`-th field of the declaration comes to, where its type is a
/// path.
pub open spec fn spec_field_data(field: FieldDecl, data: TlvFieldData) -> bool {
    &&& spec_field_type(field.ty) == Ok::<TlvFieldType, DeclError>(data.field_type)
    &&& data.field_name@ == field.name@
    &&& spec_inner_type(field.ty) == Ok::<Seq<char>, DeclError>(data.inner_type@)
}

/// The fields of a declared struct, each with its name, its wrapper and
/// its inner type. A struct without fields has none; a struct with unnamed
/// fields, a declaration that is no struct, and a field whose type is no
/// path are refused.
pub fn field_type_extractor_from_tag(declaration: &Declaration) -> (done: Result<
    Vec<TlvFieldData>,
    DeclError,
>)
    ensures
        match *declaration {
            Declaration::Named { fields, .. } => match done {
                Ok(list) => list.len() == fields.len() && forall|i: int|
                    0 <= i < fields.len() ==> spec_field_data(fields[i], #[trigger] list[i]),
                Err(e) => e == DeclError::UnsupportedType && exists|i: int|
                    0 <= i < fields.len() && (#[trigger] fields[i]).ty is Other,
            },
            Declaration::Unit { .. } => done matches Ok(list) && list.len() == 0,
            Declaration::Unnamed { .. } => done == Err::<Vec<TlvFieldData>, DeclError>(
                DeclError::NotNamed,
            ),
            Declaration::NotStruct => done == Err::<Vec<TlvFieldData>, DeclError>(
                DeclError::NotStruct,
            ),
        },
        done is Ok <==> (declaration is Unit || (declaration matches Declaration::Named {
            fields,
            ..
        } && forall|i: int| 0 <= i < fields.len() ==> (#[trigger] fields[i]).ty is Path)),
{
    match declaration {
        Declaration::Named { fields, .. } => fields_data(fields),
        Declaration::Unit { .. } => Ok(Vec::new()),
        Declaration::Unnamed { .. } => Err(DeclError::NotNamed),
        Declaration::NotStruct => Err(DeclError::NotStruct),
    }
}

/// What the declared fields come to, in order; the first field whose type
/// is no path is refused.
fn fields_data(fields: &Vec<FieldDecl>) -> (done: Result<Vec<TlvFieldData>, DeclError>)
    ensures
        match done {
            Ok(list) => list.len() == fields.len() && (forall|i: int|
                0 <= i < fields.len() ==> spec_field_data(fields[i], #[trigger] list[i])) && (
            forall|i: int| 0 <= i < fields.len() ==> (#[trigger] fields[i]).ty is Path),
            Err(e) => e == DeclError::UnsupportedType && exists|i: int|
                0 <= i < fields.len() && (#[trigger] fields[i]).ty is Other,
        },
{
    let mut tlv_fields: Vec<TlvFieldData> = Vec::new();
    let mut i: usize = 0;
    while i < fields.len()
        invariant
            i <= fields.len(),
            tlv_fields.len() == i,
            forall|k: int| 0 <= k < i ==> spec_field_data(fields[k], #[trigger] tlv_fields[k]),
            forall|k: int| 0 <= k < i ==> (#[trigger] fields[k]).ty is Path,
        decreases fields.len() - i,
    {
        let field = &fields[i];
        let field_type = match extract_field_type(&field.ty) {
            Ok(field_type) => field_type,
            Err(e) => {
                assert(fields[i as int].ty is Other);
                return Err(e);
            },
        };
        let inner_type = match extract_inner_type(&field.ty) {
            Ok(inner_type) => inner_type,
            Err(e) => {
                assert(fields[i as int].ty is Other);
                return Err(e);
            },
        };
        let field_name = field.name.clone();
        tlv_fields.push(TlvFieldData { field_type, field_name, inner_type });
        i = i + 1;
    }
    Ok(tlv_fields)
}

/// The decimal digit `d` as a character.
pub open spec fn spec_digit(d: nat) -> char {
    if d == 0 {
        '0'
    } else if d == 1 {
        '1'
    } else if d == 2 {
        '2'
    } else if d == 3 {
        '3'
    } else if d == 4 {
        '4'
    } else if d == 5 {
        '5'
    } else if d == 6 {
        '6'
    } else if d == 7 {
        '7'
    } else if d == 8 {
        '8'
    } else {
        '9'
    }
}

/// The number `n` in decimal digits, without leading zeros.
pub open spec fn spec_decimal(n: nat) -> Seq<char>
    decreases n,
{
    if n < 10 {
        seq![spec_digit(n)]
    } else {
        spec_decimal(n / 10).push(spec_digit(n % 10))
    }
}

/// The text of one decimal digit.
fn digit(d: u16) -> (text: &'static str)
    requires
        d < 10,
    ensures
        text@ == seq![spec_digit(d as nat)],
{
    proof {
        reveal_strlit("0");
        reveal_strlit("1");
        reveal_strlit("2");
        reveal_strlit("3");
        reveal_strlit("4");
        reveal_strlit("5");
        reveal_strlit("6");
        reveal_strlit("7");
        reveal_strlit("8");
        reveal_strlit("9");
    }
    let text = if d == 0 {
        "0"
    } else if d == 1 {
        "1"
    } else if d == 2 {
        "2"
    } else if d == 3 {
        "3"
    } else if d == 4 {
        "4"
    } else if d == 5 {
        "5"
    } else if d == 6 {
        "6"
    } else if d == 7 {
        "7"
    } else if d == 8 {
        "8"
    } else {
        "9"
    };
    assert(text@ =~= seq![spec_digit(d as nat)]);
    text
}

/// The number `n` in decimal digits.
pub fn decimal(n: u16) -> (text: String)
    ensures
        text@ == spec_decimal(n as nat),
    decreases n,
{
    if n < 10 {
        String::from_str(digit(n))
    } else {
        let text = decimal(n / 10).concat(digit(n % 10));
        assert(text@ =~= spec_decimal(n as nat));
        text
    }
}

/// The source of the tag of a record type: the declaration as it stands,
/// followed by the constant that holds the tag.
pub open spec fn spec_tag_source(tag: nat, name: Seq<char>, source: Seq<char>) -> Seq<char> {
    source + " impl TlvTag for "@ + name + " { const TLV_TAG: u16 = "@ + spec_decimal(tag)
        + "u16; }"@
}

/// Writes the source of the tag of a record type. A declaration that is no
/// struct is refused.
pub fn tlv_tag(tag_value: u16, struct_source: &str, declaration: &Declaration) -> (done: Result<
    String,
    DeclError,
>)
    ensures
        match done {
            Ok(text) => get_name(*declaration) is Some && text@ == spec_tag_source(
                tag_value as nat,
                get_name(*declaration)->0,
                struct_source@,
            ),
            Err(e) => e == DeclError::NotStruct && declaration is NotStruct,
        },
{
    let struct_name = match get_struct_name(declaration) {
        Ok(name) => name,
        Err(e) => {
            return Err(e);
        },
    };
    let number = decimal(tag_value);
    let text = String::from_str(struct_source).concat(" impl TlvTag for ").concat(
        struct_name.as_str(),
    ).concat(" { const TLV_TAG: u16 = ").concat(number.as_str()).concat("u16; }");
    Ok(text)
}

/// The name of the struct that is declared, if a struct is declared.
pub open spec fn get_name(declaration: Declaration) -> Option<Seq<char>> {
    match declaration {
        Declaration::Named { name, .. } => Some(name@),
        Declaration::Unnamed { name, .. } => Some(name@),
        Declaration::Unit { name } => Some(name@),
        Declaration::NotStruct => None,
    }
}

/// The source of the length of one field: the length of what it holds
/// plus the four bytes of its header; nothing for an absent optional field;
/// the sum over the items of an array.
pub open spec fn spec_length_term(field_type: TlvFieldType, name: Seq<char>) -> Seq<char> {
    match field_type {
        TlvFieldType::Optional => "self."@ + name
            + ".as_ref().map_or(0, |data| TlvLength::length(data) as u16 + 4u16)"@,
        TlvFieldType::Required => "TlvLength::length(&self."@ + name + ") + 4u16"@,
        TlvFieldType::Array => "self."@ + name
            + ".iter().map(|field| TlvLength::length(field) as u16 + 4u16).reduce(|len, field_len| len + field_len).unwrap_or(0u16)"@,
    }
}

/// The source of the sum of the lengths of the fields from the `from`-th
/// on; `0u16` where there is none.
pub open spec fn spec_length_sum(fields: Seq<TlvFieldData>, from: int) -> Seq<char>
    decreases fields.len() - from,
{
    if from < 0 || from >= fields.len() {
        "0u16"@
    } else if from == fields.len() - 1 {
        spec_length_term(fields[from].field_type, fields[from].field_name@)
    } else {
        spec_length_term(fields[from].field_type, fields[from].field_name@) + " + "@
            + spec_length_sum(fields, from + 1)
    }
}

/// The source of the length of a record type.
pub open spec fn spec_length_source(name: Seq<char>, fields: Seq<TlvFieldData>) -> Seq<char> {
    "impl TlvLength for "@ + name + " { #[inline] fn length(&self) -> u16 { "@ + spec_length_sum(
        fields,
        0,
    ) + " } }"@
}

/// Writes the source of the length of one field.
fn length_term(field: &TlvFieldData) -> (text: String)
    ensures
        text@ == spec_length_term(field.field_type, field.field_name@),
{
    match field.field_type {
        TlvFieldType::Optional => String::from_str("self.").concat(field.field_name.as_str()).concat(
            ".as_ref().map_or(0, |data| TlvLength::length(data) as u16 + 4u16)",
        ),
        TlvFieldType::Required => String::from_str("TlvLength::length(&self.").concat(
            field.field_name.as_str(),
        ).concat(") + 4u16"),
        TlvFieldType::Array => String::from_str("self.").concat(field.field_name.as_str()).concat(
            ".iter().map(|field| TlvLength::length(field) as u16 + 4u16).reduce(|len, field_len| len + field_len).unwrap_or(0u16)",
        ),
    }
}

/// Writes the source of the length of a record type from its fields: the
/// sum, field by field, of what each field takes on the wire.
pub fn length_source(name: &str, fields: &Vec<TlvFieldData>) -> (text: String)
    ensures
        text@ == spec_length_source(name@, fields@),
{
    let mut sum = String::from_str("");
    proof {
        reveal_strlit("");
        assert(sum@ =~= Seq::<char>::empty());
    }
    if fields.len() == 0 {
        sum = sum.concat("0u16");
        assert(sum@ =~= spec_length_sum(fields@, 0));
    } else {
        let mut i: usize = 0;
        while i < fields.len()
            invariant
                0 <= i <= fields.len(),
                fields.len() > 0,
                i < fields.len() ==> sum@ + spec_length_sum(fields@, i as int) == spec_length_sum(
                    fields@,
                    0,
                ),
                i == fields.len() ==> sum@ == spec_length_sum(fields@, 0),
            decreases fields.len() - i,
        {
            let ghost before = sum@;
            let term = length_term(&fields[i]);
            sum = sum.concat(term.as_str());
            if i + 1 < fields.len() {
                sum = sum.concat(" + ");
                assert(sum@ + spec_length_sum(fields@, i + 1) =~= before + spec_length_sum(
                    fields@,
                    i as int,
                ));
            } else {
                assert(sum@ =~= before + spec_length_sum(fields@, i as int));
            }
            i = i + 1;
        }
    }
    String::from_str("impl TlvLength for ").concat(name).concat(
        " { #[inline] fn length(&self) -> u16 { ",
    ).concat(sum.as_str()).concat(" } }")
}

/// Writes the source of the length of a declared record type. The
/// declaration is refused as its fields are.
pub fn tlv_length(declaration: &Declaration) -> (done: Result<String, DeclError>)
    ensures
        match done {
            Ok(text) => get_name(*declaration) is Some && exists|fields: Seq<TlvFieldData>|
                #![trigger spec_fields_of(*declaration, fields)]
                text@ == spec_length_source(get_name(*declaration)->0, fields) && spec_fields_of(
                    *declaration,
                    fields,
                ),
            Err(e) => match *declaration {
                Declaration::Named { fields, .. } => e == DeclError::UnsupportedType && exists|
                    i: int,
                | 0 <= i < fields.len() && (#[trigger] fields[i]).ty is Other,
                Declaration::Unnamed { .. } => e == DeclError::NotNamed,
                Declaration::NotStruct => e == DeclError::NotStruct,
                Declaration::Unit { .. } => false,
            },
        },
        done is Ok <==> (declaration is Unit || (declaration matches Declaration::Named {
            fields,
            ..
        } && forall|i: int| 0 <= i < fields.len() ==> (#[trigger] fields[i]).ty is Path)),
{
    let fields = match field_type_extractor_from_tag(declaration) {
        Ok(fields) => fields,
        Err(e) => {
            return Err(e);
        },
    };
    let name = match get_struct_name(declaration) {
        Ok(name) => name,
        Err(e) => {
            return Err(e);
        },
    };
    let text = length_source(name.as_str(), &fields);
    proof {
        assert(spec_fields_of(*declaration, fields@));
    }
    Ok(text)
}

/// The fields are those of the declaration, each with its name, its
/// wrapper and its inner type.
pub open spec fn spec_fields_of(declaration: Declaration, fields: Seq<TlvFieldData>) -> bool {
    match declaration {
        Declaration::Named { fields: declared, .. } => fields.len() == declared.len()
            && forall|i: int|
            0 <= i < declared.len() ==> spec_field_data(declared[i], #[trigger] fields[i]),
        Declaration::Unit { .. } => fields.len() == 0,
        _ => false,
    }
}

} // verus!
