use proc_macro2::TokenStream;
use quote::ToTokens;
use syn::DeriveInput;
use syn::LitInt;
use syn::Type;
use tlv::declare::decimal;
use tlv::declare::extract_field_type;
use tlv::declare::extract_inner_type;
use tlv::declare::field_type_extractor_from_tag;
use tlv::declare::get_struct_name;
use tlv::declare::is_newtype;
use tlv::declare::length_source;
use tlv::declare::tlv_length;
use tlv::declare::tlv_tag;
use tlv::declare::DeclError;
use tlv::declare::Declaration;
use tlv::declare::FieldDecl;
use tlv::declare::TypeDecl;
use tlv::field::TlvFieldData;
use tlv::field::TlvFieldType;

fn type_decl(ty: &Type) -> TypeDecl {
    match ty {
        Type::Path(type_path) => {
            let last_segment = type_path.path.segments.last().unwrap();
            let argument = match &last_segment.arguments {
                syn::PathArguments::AngleBracketed(angle_brackets) => {
                    match angle_brackets.args.first() {
                        Some(syn::GenericArgument::Type(inner)) => {
                            Some(inner.to_token_stream().to_string())
                        }
                        _ => None,
                    }
                }
                _ => None,
            };
            TypeDecl::Path { last: last_segment.ident.to_string(), argument }
        }
        _ => TypeDecl::Other,
    }
}

/// Reads a declaration from its source text.
fn declaration(source: &str) -> Declaration {
    let input: DeriveInput = syn::parse_str(source).unwrap();
    let name = input.ident.to_string();
    match &input.data {
        syn::Data::Struct(data) => match &data.fields {
            syn::Fields::Named(named) => Declaration::Named {
                name,
                fields: named
                    .named
                    .iter()
                    .map(|field| FieldDecl {
                        name: field.ident.as_ref().unwrap().to_string(),
                        ty: type_decl(&field.ty),
                    })
                    .collect(),
            },
            syn::Fields::Unnamed(unnamed) => {
                Declaration::Unnamed { name, count: unnamed.unnamed.len() }
            }
            syn::Fields::Unit => Declaration::Unit { name },
        },
        _ => Declaration::NotStruct,
    }
}

/// The text of a token stream, as the tokens of `source` are printed.
fn tokens(source: &str) -> String {
    source.parse::<TokenStream>().unwrap().to_string()
}

const REQUEST: &str = "
    #[derive(TlvLengthDerive, TlvEncodeDerive, TlvDecodeDerive)]
    pub struct PfcpPfdManagementRequest {
        pub application_id_s_pfds: Vec<ApplicationIdSPfds>,
        pub node_id: Option<NodeId>,
        pub recovery_time_stamp: RecoveryTimeStamp,
    }
";

#[test]
fn test_field_type_extractor_from_tag() {
    let input = declaration(REQUEST);

    // Expected result
    let expected = vec![
        TlvFieldData {
            field_type: TlvFieldType::Array,
            field_name: "application_id_s_pfds".to_string(),
            inner_type: "ApplicationIdSPfds".to_string(),
        },
        TlvFieldData {
            field_type: TlvFieldType::Optional,
            field_name: "node_id".to_string(),
            inner_type: "NodeId".to_string(),
        },
        TlvFieldData {
            field_type: TlvFieldType::Required,
            field_name: "recovery_time_stamp".to_string(),
            inner_type: "RecoveryTimeStamp".to_string(),
        },
    ];

    let result = field_type_extractor_from_tag(&input);

    assert!(result.is_ok());
    let actual = result.unwrap();
    assert_eq!(actual.len(), expected.len(), "Number of fields do not match");

    // Compare each field data
    for (actual_field, expected_field) in actual.iter().zip(expected.iter()) {
        assert_eq!(actual_field.field_type, expected_field.field_type, "Field type mismatch");
        assert_eq!(actual_field.field_name, expected_field.field_name, "Field name mismatch");
        assert_eq!(actual_field.inner_type, expected_field.inner_type, "Inner type mismatch");
    }
}

#[test]
fn test_tlv_length() {
    let input = declaration(REQUEST);
    let expected_output = tokens(
        "
        impl TlvLength for PfcpPfdManagementRequest {
            #[inline]
            fn length(&self) -> u16 {
                self
                    .application_id_s_pfds
                    .iter()
                    .map(|field| TlvLength::length(field) as u16 + 4u16)
                    .reduce(|len, field_len| len + field_len)
                    .unwrap_or(0u16)
                    + self.node_id.as_ref().map_or(0, |data| TlvLength::length(data) as u16 + 4u16)
                + TlvLength::length(&self.recovery_time_stamp) + 4u16
            }
        }
        ",
    );
    assert_eq!(tokens(&tlv_length(&input).unwrap()), expected_output);
}

#[test]
fn test_length_on_empty_struct() {
    let input = declaration(
        "
        #[derive(TlvLengthDerive, TlvEncodeDerive, TlvDecodeDerive)]
        pub struct PfcpPfdManagementRequest;
        ",
    );
    let expected_output = tokens(
        "
        impl TlvLength for PfcpPfdManagementRequest {
            #[inline]
            fn length(&self) -> u16 {
                0u16
            }
        }
        ",
    );
    assert_eq!(tokens(&tlv_length(&input).unwrap()), expected_output);
}

#[test]
fn test_tlv_tag() {
    let tag_attribute = syn::parse_str::<LitInt>("123").unwrap().base10_parse::<u16>().unwrap();
    let struct_definition = "struct TestStruct;";
    let result = tlv_tag(tag_attribute, struct_definition, &declaration(struct_definition));
    assert!(result.is_ok());
    let expected_output = tokens(
        "
        struct TestStruct;
        impl TlvTag for TestStruct {
            const TLV_TAG: u16 = 123u16;
        }
        ",
    );
    assert_eq!(tokens(&result.unwrap()), expected_output);
}

#[test]
fn declarations_that_are_refused() {
    let tuple = declaration("struct Pair(u8, u8);");
    assert_eq!(field_type_extractor_from_tag(&tuple), Err(DeclError::NotNamed));
    assert_eq!(tlv_length(&tuple), Err(DeclError::NotNamed));
    let not_struct = declaration("enum Choice { A, B }");
    assert_eq!(field_type_extractor_from_tag(&not_struct), Err(DeclError::NotStruct));
    assert_eq!(get_struct_name(&not_struct), Err(DeclError::NotStruct));
    assert_eq!(tlv_tag(1, "enum Choice { A, B }", &not_struct), Err(DeclError::NotStruct));
    let odd = declaration("struct Odd { first: u8, second: [u8; 4] }");
    assert_eq!(field_type_extractor_from_tag(&odd), Err(DeclError::UnsupportedType));
    assert_eq!(tlv_length(&odd), Err(DeclError::UnsupportedType));
    assert_eq!(DeclError::NotStruct.message(), "Expected a struct.");
    assert_eq!(DeclError::NotNamed.message(), "Expected a struct with named fields.");
    assert_eq!(DeclError::UnsupportedType.message(), "Unsupported field type");
}

#[test]
fn names_and_wrappers() {
    assert_eq!(get_struct_name(&declaration("struct Named { a: u8 }")).unwrap(), "Named");
    assert_eq!(get_struct_name(&declaration("struct Wrapper(u8);")).unwrap(), "Wrapper");
    assert_eq!(get_struct_name(&declaration("struct Nothing;")).unwrap(), "Nothing");
    assert!(is_newtype(&declaration("struct Wrapper(Vec<u8>);")));
    assert!(!is_newtype(&declaration("struct Pair(u8, u8);")));
    assert!(!is_newtype(&declaration("struct Named { a: u8 }")));
    assert!(!is_newtype(&declaration("struct Nothing;")));
    assert!(!is_newtype(&declaration("enum Choice { A(u8) }")));
}

#[test]
fn types_of_fields() {
    let path = |last: &str, argument: Option<&str>| TypeDecl::Path {
        last: last.to_string(),
        argument: argument.map(|text| text.to_string()),
    };
    assert_eq!(extract_field_type(&path("Option", Some("NodeId"))), Ok(TlvFieldType::Optional));
    assert_eq!(extract_field_type(&path("Vec", Some("u8"))), Ok(TlvFieldType::Array));
    assert_eq!(extract_field_type(&path("NodeId", None)), Ok(TlvFieldType::Required));
    assert_eq!(extract_field_type(&TypeDecl::Other), Err(DeclError::UnsupportedType));
    assert_eq!(extract_inner_type(&path("Option", Some("NodeId"))), Ok("NodeId".to_string()));
    assert_eq!(extract_inner_type(&path("NodeId", None)), Ok("NodeId".to_string()));
    assert_eq!(extract_inner_type(&TypeDecl::Other), Err(DeclError::UnsupportedType));
    let nested = declaration("struct Deep { list: std::vec::Vec<Option<u8>> }");
    let fields = field_type_extractor_from_tag(&nested).unwrap();
    assert_eq!(fields[0].field_type, TlvFieldType::Array);
    assert_eq!(fields[0].inner_type, "Option < u8 >");
    assert_eq!(fields[0].get_full_type(), "Vec<Tlv<Option < u8 >>>");
}

#[test]
fn decimal_digits() {
    assert_eq!(decimal(0), "0");
    assert_eq!(decimal(7), "7");
    assert_eq!(decimal(10), "10");
    assert_eq!(decimal(123), "123");
    assert_eq!(decimal(9050), "9050");
    assert_eq!(decimal(u16::MAX), "65535");
}

#[test]
fn length_of_one_field_has_no_sum() {
    let one = vec![TlvFieldData {
        field_type: TlvFieldType::Required,
        field_name: "only".to_string(),
        inner_type: "Only".to_string(),
    }];
    assert_eq!(
        length_source("Single", &one),
        "impl TlvLength for Single { #[inline] fn length(&self) -> u16 { TlvLength::length(&self.only) + 4u16 } }"
    );
}
