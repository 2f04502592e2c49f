use bytes::BytesMut;
use tlv::assemble::validate;
use tlv::config::Format;
use tlv::config::Presence;
use tlv::config::TlvConfig;
use tlv::reader::tlv_decode;
use tlv::writer::tlv_encode;
use tlv::schema::FieldSpec;
use tlv::schema::Kind;
use tlv::typing::admits;
use tlv::value::Slot;
use tlv::value::Value;

fn required(config: TlvConfig, kind: Kind) -> FieldSpec {
    FieldSpec { config, presence: Presence::Required, kind }
}

fn optional(config: TlvConfig, kind: Kind) -> FieldSpec {
    FieldSpec { config, presence: Presence::Optional, kind }
}

fn tlv_field(tag: usize) -> TlvConfig {
    TlvConfig::new(Format::TLV).with_tag(tag).with_length_bytes_format(1)
}

fn nibble() -> TlvConfig {
    TlvConfig::new(Format::V).with_value_bits_format(4)
}

fn newtype_u8(b: u8) -> Value {
    Value::Newtype(Box::new(Value::Byte(b)))
}

fn newtype_vec(run: Vec<u8>) -> Value {
    Value::Newtype(Box::new(Value::Bytes(run)))
}

fn newtype(kind: Kind) -> Kind {
    Kind::Newtype(Box::new(kind))
}

/// Encodes into a buffer of 32 bytes capacity, decodes what was written with
/// the length that encoding returned, and hands back bytes and value.
fn there_and_back(kind: &Kind, value: &Value) -> (Vec<u8>, Value) {
    assert_eq!(validate(kind), Ok(()));
    assert!(admits(kind, value));
    let mut bytes = BytesMut::with_capacity(32);
    let len = tlv_encode(kind, value, &mut bytes).unwrap();
    assert_eq!(len, bytes.len());
    let wire = bytes.to_vec();
    let mut cursor = bytes.freeze();
    let decoded = tlv_decode(kind, len, &mut cursor).unwrap();
    assert_eq!(cursor.len(), 0);
    (wire, decoded)
}

fn basic_tlv() -> Kind {
    Kind::Record(vec![required(tlv_field(42), Kind::Byte)])
}

fn tlv_e_struct() -> Kind {
    Kind::Record(vec![required(
        TlvConfig::new(Format::TLVE).with_tag(56).with_length_bytes_format(2),
        Kind::Byte,
    )])
}

fn lv_struct() -> Kind {
    Kind::Record(vec![required(TlvConfig::new(Format::LV).with_length_bytes_format(1), Kind::Byte)])
}

fn lv_e_struct() -> Kind {
    Kind::Record(vec![required(
        TlvConfig::new(Format::LVE).with_length_bytes_format(2),
        Kind::Byte,
    )])
}

fn tv_struct() -> Kind {
    Kind::Record(vec![required(
        TlvConfig::new(Format::TV).with_tag(73).with_tag_bytes_format(1).with_length(1),
        Kind::Byte,
    )])
}

fn tv_4bit_struct() -> Kind {
    Kind::Record(vec![required(
        TlvConfig::new(Format::TV).with_tag(9).with_tag_bytes_format(0),
        Kind::Byte,
    )])
}

fn four_bit_pair_struct() -> Kind {
    Kind::Record(vec![required(nibble(), Kind::Byte), required(nibble(), Kind::Byte)])
}

fn complex_mixed_struct() -> Kind {
    Kind::Record(vec![
        required(tlv_field(65), Kind::Byte),
        required(
            TlvConfig::new(Format::TV).with_tag(78).with_tag_bytes_format(1).with_length(1),
            Kind::Byte,
        ),
        required(TlvConfig::new(Format::LV).with_length_bytes_format(1), Kind::Byte),
        required(
            TlvConfig::new(Format::TLVE).with_tag(91).with_length_bytes_format(2),
            Kind::Byte,
        ),
        required(nibble(), Kind::Byte),
        required(nibble(), Kind::Byte),
    ])
}

fn optional_mixed_struct() -> Kind {
    Kind::Record(vec![
        required(tlv_field(80), Kind::Byte),
        optional(
            TlvConfig::new(Format::TV).with_tag(90).with_tag_bytes_format(1).with_length(1),
            Kind::Byte,
        ),
        optional(tlv_field(30), Kind::Byte),
        optional(
            TlvConfig::new(Format::TLVE).with_tag(100).with_length_bytes_format(2),
            Kind::Byte,
        ),
    ])
}

fn optional_mixed(required: u8, tv: Option<u8>, tlv: Option<u8>, tlv_e: Option<u8>) -> Value {
    Value::Record(vec![
        Slot::Required(Value::Byte(required)),
        Slot::Optional(tv.map(Value::Byte)),
        Slot::Optional(tlv.map(Value::Byte)),
        Slot::Optional(tlv_e.map(Value::Byte)),
    ])
}

fn vector_tlv_struct() -> Kind {
    Kind::Record(vec![required(tlv_field(68), Kind::Bytes)])
}

fn vector_lv_struct() -> Kind {
    Kind::Record(vec![required(TlvConfig::new(Format::LV).with_length_bytes_format(1), Kind::Bytes)])
}

fn optional_vector_struct() -> Kind {
    Kind::Record(vec![required(tlv_field(71), Kind::Bytes), optional(tlv_field(82), Kind::Bytes)])
}

fn optional_vector(required: Vec<u8>, held: Option<Vec<u8>>) -> Value {
    Value::Record(vec![
        Slot::Required(Value::Bytes(required)),
        Slot::Optional(held.map(Value::Bytes)),
    ])
}

fn contains_newtypes_struct() -> Kind {
    Kind::Record(vec![
        required(tlv_field(53), newtype(Kind::Byte)),
        required(tlv_field(77), newtype(Kind::Bytes)),
    ])
}

fn optional_newtypes_struct() -> Kind {
    Kind::Record(vec![
        required(tlv_field(49), newtype(Kind::Byte)),
        optional(tlv_field(95), newtype(Kind::Byte)),
        optional(tlv_field(103), newtype(Kind::Bytes)),
    ])
}

fn optional_newtypes(required: u8, first: Option<u8>, second: Option<Vec<u8>>) -> Value {
    Value::Record(vec![
        Slot::Required(newtype_u8(required)),
        Slot::Optional(first.map(newtype_u8)),
        Slot::Optional(second.map(newtype_vec)),
    ])
}

fn mixed_newtype_struct() -> Kind {
    Kind::Record(vec![
        required(tlv_field(62), Kind::Byte),
        required(tlv_field(87), newtype(Kind::Byte)),
        optional(tlv_field(108), Kind::Byte),
        optional(tlv_field(119), newtype(Kind::Byte)),
    ])
}

fn mixed_newtype(regular: u8, wrapped: u8, first: Option<u8>, second: Option<u8>) -> Value {
    Value::Record(vec![
        Slot::Required(Value::Byte(regular)),
        Slot::Required(newtype_u8(wrapped)),
        Slot::Optional(first.map(Value::Byte)),
        Slot::Optional(second.map(newtype_u8)),
    ])
}

#[test]
fn test_basic_tlv() {
    let basic = Value::Record(vec![Slot::Required(Value::Byte(7))]);
    let (wire, decoded) = there_and_back(&basic_tlv(), &basic);
    assert_eq!(wire, vec![42, 1, 7]);
    assert_eq!(basic, decoded);
}

#[test]
fn test_tlv_e() {
    let tlv_e = Value::Record(vec![Slot::Required(Value::Byte(10))]);
    let mut bytes = BytesMut::with_capacity(32);
    let len = tlv_encode(&tlv_e_struct(), &tlv_e, &mut bytes).unwrap();
    assert_eq!(&bytes[..], &[56, 0, 1, 10]);

    let decoded = tlv_decode(&tlv_e_struct(), len, &mut bytes.freeze()).unwrap();
    assert_eq!(tlv_e, decoded);
}

#[test]
fn test_lv() {
    let lv = Value::Record(vec![Slot::Required(Value::Byte(42))]);
    let mut bytes = BytesMut::with_capacity(32);
    let len = tlv_encode(&lv_struct(), &lv, &mut bytes).unwrap();
    assert_eq!(&bytes[..], &[1, 42]);

    let decoded = tlv_decode(&lv_struct(), len, &mut bytes.freeze()).unwrap();
    assert_eq!(lv, decoded);
}

#[test]
fn test_lv_e() {
    let lv_e = Value::Record(vec![Slot::Required(Value::Byte(100))]);
    let mut bytes = BytesMut::with_capacity(32);
    let len = tlv_encode(&lv_e_struct(), &lv_e, &mut bytes).unwrap();
    assert_eq!(&bytes[..], &[0, 1, 100]);

    let decoded = tlv_decode(&lv_e_struct(), len, &mut bytes.freeze()).unwrap();
    assert_eq!(lv_e, decoded);
}

#[test]
fn test_tv() {
    let tv = Value::Record(vec![Slot::Required(Value::Byte(42))]);
    let mut bytes = BytesMut::with_capacity(32);
    let len = tlv_encode(&tv_struct(), &tv, &mut bytes).unwrap();
    assert_eq!(&bytes[..], &[73, 42]);

    let decoded = tlv_decode(&tv_struct(), len, &mut bytes.freeze()).unwrap();
    assert_eq!(tv, decoded);
}

#[test]
fn test_tv_4bit() {
    let tv_4bit = Value::Record(vec![Slot::Required(Value::Byte(7))]); // Testing with value < 16
    let mut bytes = BytesMut::with_capacity(32);
    let len = tlv_encode(&tv_4bit_struct(), &tv_4bit, &mut bytes).unwrap();
    assert_eq!(&bytes[..], &[0x97]);

    let decoded = tlv_decode(&tv_4bit_struct(), len, &mut bytes.freeze()).unwrap();
    assert_eq!(tv_4bit, decoded);
}

#[test]
fn test_4bit_pair() {
    let pair = Value::Record(vec![
        Slot::Required(Value::Byte(7)),
        Slot::Required(Value::Byte(15)),
    ]); // Testing with values < 16
    let mut bytes = BytesMut::with_capacity(32);
    let len = tlv_encode(&four_bit_pair_struct(), &pair, &mut bytes).unwrap();
    assert_eq!(&bytes[..], &[0x7f]);

    let decoded = tlv_decode(&four_bit_pair_struct(), len, &mut bytes.freeze()).unwrap();
    assert_eq!(pair, decoded);
}

#[test]
fn test_complex_mixed() {
    let complex = Value::Record(vec![
        Slot::Required(Value::Byte(42)),
        Slot::Required(Value::Byte(43)),
        Slot::Required(Value::Byte(44)),
        Slot::Required(Value::Byte(35)),
        Slot::Required(Value::Byte(7)),
        Slot::Required(Value::Byte(15)),
    ]);
    let mut bytes = BytesMut::with_capacity(32);
    let len = tlv_encode(&complex_mixed_struct(), &complex, &mut bytes).unwrap();
    assert_eq!(&bytes[..], &[65, 1, 42, 78, 43, 1, 44, 91, 0, 1, 35, 0x7f]);

    let decoded = tlv_decode(&complex_mixed_struct(), len, &mut bytes.freeze()).unwrap();
    assert_eq!(complex, decoded);
}

#[test]
fn test_optional_mixed() {
    // Test with all fields present
    let optional_all = optional_mixed(42, Some(43), Some(44), Some(10));
    let mut bytes = BytesMut::with_capacity(32);
    let len = tlv_encode(&optional_mixed_struct(), &optional_all, &mut bytes).unwrap();
    let decoded = tlv_decode(&optional_mixed_struct(), len, &mut bytes.freeze()).unwrap();
    assert_eq!(optional_all, decoded);

    // Test with some fields None
    let optional_some = optional_mixed(42, None, Some(44), None);
    let mut bytes = BytesMut::with_capacity(32);
    let len = tlv_encode(&optional_mixed_struct(), &optional_some, &mut bytes).unwrap();
    let decoded = tlv_decode(&optional_mixed_struct(), len, &mut bytes.freeze()).unwrap();
    assert_eq!(optional_some, decoded);

    // Test with all optional fields None
    let optional_none = optional_mixed(42, None, None, None);
    let mut bytes = BytesMut::with_capacity(32);
    let len = tlv_encode(&optional_mixed_struct(), &optional_none, &mut bytes).unwrap();
    let decoded = tlv_decode(&optional_mixed_struct(), len, &mut bytes.freeze()).unwrap();
    assert_eq!(optional_none, decoded);
}

#[test]
fn test_vector_tlv() {
    let vector_tlv = Value::Record(vec![Slot::Required(Value::Bytes(vec![1, 2, 3, 4, 5]))]);
    let mut bytes = BytesMut::with_capacity(32);
    let len = tlv_encode(&vector_tlv_struct(), &vector_tlv, &mut bytes).unwrap();

    let decoded = tlv_decode(&vector_tlv_struct(), len, &mut bytes.freeze()).unwrap();
    assert_eq!(vector_tlv, decoded);

    // Test with empty vector
    let empty_vector_tlv = Value::Record(vec![Slot::Required(Value::Bytes(vec![]))]);
    let mut bytes = BytesMut::with_capacity(32);
    let len = tlv_encode(&vector_tlv_struct(), &empty_vector_tlv, &mut bytes).unwrap();

    let decoded = tlv_decode(&vector_tlv_struct(), len, &mut bytes.freeze()).unwrap();
    assert_eq!(empty_vector_tlv, decoded);
}

#[test]
fn test_vector_lv() {
    let vector_lv = Value::Record(vec![Slot::Required(Value::Bytes(vec![10, 20, 30, 40, 50]))]);
    let mut bytes = BytesMut::with_capacity(32);
    let len = tlv_encode(&vector_lv_struct(), &vector_lv, &mut bytes).unwrap();
    assert_eq!(&bytes[..], &[5, 10, 20, 30, 40, 50]);

    let decoded = tlv_decode(&vector_lv_struct(), len, &mut bytes.freeze()).unwrap();
    assert_eq!(vector_lv, decoded);
}

#[test]
fn test_optional_vector() {
    // Test with optional vector present
    let optional_present = optional_vector(vec![1, 2, 3], Some(vec![4, 5, 6]));
    let mut bytes = BytesMut::with_capacity(32);
    let len = tlv_encode(&optional_vector_struct(), &optional_present, &mut bytes).unwrap();

    let decoded = tlv_decode(&optional_vector_struct(), len, &mut bytes.freeze()).unwrap();
    assert_eq!(optional_present, decoded);

    // Test with optional vector absent
    let optional_absent = optional_vector(vec![1, 2, 3], None);
    let mut bytes = BytesMut::with_capacity(32);
    let len = tlv_encode(&optional_vector_struct(), &optional_absent, &mut bytes).unwrap();

    let decoded = tlv_decode(&optional_vector_struct(), len, &mut bytes.freeze()).unwrap();
    assert_eq!(optional_absent, decoded);

    // Test with empty vectors
    let empty_vectors = optional_vector(vec![], Some(vec![]));
    let mut bytes = BytesMut::with_capacity(32);
    let len = tlv_encode(&optional_vector_struct(), &empty_vectors, &mut bytes).unwrap();

    let decoded = tlv_decode(&optional_vector_struct(), len, &mut bytes.freeze()).unwrap();
    assert_eq!(empty_vectors, decoded);
}

#[test]
fn test_newtype_u8() {
    let kind = newtype(Kind::Byte);
    let wrapped = newtype_u8(42);
    let mut bytes = BytesMut::with_capacity(32);
    let len = tlv_encode(&kind, &wrapped, &mut bytes).unwrap();

    let decoded = tlv_decode(&kind, len, &mut bytes.freeze()).unwrap();
    assert_eq!(wrapped, decoded);
}

#[test]
fn test_newtype_vec() {
    let kind = newtype(Kind::Bytes);
    let wrapped = newtype_vec(vec![1, 2, 3, 4, 5]);
    let mut bytes = BytesMut::with_capacity(32);
    let len = tlv_encode(&kind, &wrapped, &mut bytes).unwrap();

    let decoded = tlv_decode(&kind, len, &mut bytes.freeze()).unwrap();
    assert_eq!(wrapped, decoded);

    // Test with empty vector
    let empty_newtype = newtype_vec(vec![]);
    let mut bytes = BytesMut::with_capacity(32);
    let len = tlv_encode(&kind, &empty_newtype, &mut bytes).unwrap();

    let decoded = tlv_decode(&kind, len, &mut bytes.freeze()).unwrap();
    assert_eq!(empty_newtype, decoded);
}

#[test]
fn test_contains_newtypes() {
    let contains_newtypes = Value::Record(vec![
        Slot::Required(newtype_u8(42)),
        Slot::Required(newtype_vec(vec![1, 2, 3, 4, 5])),
    ]);
    let mut bytes = BytesMut::with_capacity(32);
    let len = tlv_encode(&contains_newtypes_struct(), &contains_newtypes, &mut bytes).unwrap();

    let decoded = tlv_decode(&contains_newtypes_struct(), len, &mut bytes.freeze()).unwrap();
    assert_eq!(contains_newtypes, decoded);
}

#[test]
fn test_optional_newtypes() {
    // Test with all fields present
    let optional_all = optional_newtypes(42, Some(43), Some(vec![1, 2, 3]));
    let mut bytes = BytesMut::with_capacity(32);
    let len = tlv_encode(&optional_newtypes_struct(), &optional_all, &mut bytes).unwrap();

    let decoded = tlv_decode(&optional_newtypes_struct(), len, &mut bytes.freeze()).unwrap();
    assert_eq!(optional_all, decoded);

    // Test with some fields None
    let optional_some = optional_newtypes(42, None, Some(vec![1, 2, 3]));
    let mut bytes = BytesMut::with_capacity(32);
    let len = tlv_encode(&optional_newtypes_struct(), &optional_some, &mut bytes).unwrap();

    let decoded = tlv_decode(&optional_newtypes_struct(), len, &mut bytes.freeze()).unwrap();
    assert_eq!(optional_some, decoded);

    // Test with all optional fields None
    let optional_none = optional_newtypes(42, None, None);
    let mut bytes = BytesMut::with_capacity(32);
    let len = tlv_encode(&optional_newtypes_struct(), &optional_none, &mut bytes).unwrap();

    let decoded = tlv_decode(&optional_newtypes_struct(), len, &mut bytes.freeze()).unwrap();
    assert_eq!(optional_none, decoded);
}

#[test]
fn test_mixed_newtype_struct() {
    // Test with all fields present
    let mixed_all = mixed_newtype(42, 43, Some(44), Some(45));
    let mut bytes = BytesMut::with_capacity(32);
    let len = tlv_encode(&mixed_newtype_struct(), &mixed_all, &mut bytes).unwrap();

    let decoded = tlv_decode(&mixed_newtype_struct(), len, &mut bytes.freeze()).unwrap();
    assert_eq!(mixed_all, decoded);

    // Test with some fields None
    let mixed_some = mixed_newtype(42, 43, None, Some(45));
    let mut bytes = BytesMut::with_capacity(32);
    let len = tlv_encode(&mixed_newtype_struct(), &mixed_some, &mut bytes).unwrap();

    let decoded = tlv_decode(&mixed_newtype_struct(), len, &mut bytes.freeze()).unwrap();
    assert_eq!(mixed_some, decoded);

    // Test with all optional fields None
    let mixed_none = mixed_newtype(42, 43, None, None);
    let mut bytes = BytesMut::with_capacity(32);
    let len = tlv_encode(&mixed_newtype_struct(), &mixed_none, &mut bytes).unwrap();

    let decoded = tlv_decode(&mixed_newtype_struct(), len, &mut bytes.freeze()).unwrap();
    assert_eq!(mixed_none, decoded);
}

#[test]
fn every_schema_of_the_suite_is_legal_and_round_trips() {
    let cases: Vec<(Kind, Value)> = vec![
        (basic_tlv(), Value::Record(vec![Slot::Required(Value::Byte(0))])),
        (tlv_e_struct(), Value::Record(vec![Slot::Required(Value::Byte(255))])),
        (optional_mixed_struct(), optional_mixed(1, Some(2), None, Some(3))),
        (optional_vector_struct(), optional_vector(vec![9; 200], Some(vec![8; 255]))),
        (contains_newtypes_struct(), Value::Record(vec![
            Slot::Required(newtype_u8(1)),
            Slot::Required(newtype_vec(vec![2, 3])),
        ])),
        (optional_newtypes_struct(), optional_newtypes(4, Some(5), None)),
        (mixed_newtype_struct(), mixed_newtype(6, 7, Some(8), None)),
        (complex_mixed_struct(), Value::Record(vec![
            Slot::Required(Value::Byte(1)),
            Slot::Required(Value::Byte(2)),
            Slot::Required(Value::Byte(3)),
            Slot::Required(Value::Byte(4)),
            Slot::Required(Value::Byte(0)),
            Slot::Required(Value::Byte(15)),
        ])),
    ];
    for (kind, value) in cases {
        let (_, decoded) = there_and_back(&kind, &value);
        assert_eq!(value, decoded);
    }
}
