use bytes::Bytes;
use bytes::BytesMut;
use tlv::config::Format;
use tlv::config::Presence;
use tlv::config::TlvConfig;
use tlv::decode::get_get_bytes;
use tlv::decode::length_decode;
use tlv::decode::tag_decode;
use tlv::encode::fix_length_encode;
use tlv::encode::fix_length_parameter;
use tlv::encode::get_bytes_format;
use tlv::encode::get_put_bytes;
use tlv::encode::length_encode;
use tlv::encode::tag_encode;
use tlv::error::TlvError;
use tlv::prelude::TlvDecode;
use tlv::prelude::TlvEncode;
use tlv::reader::format_4bit_v_decode;
use tlv::reader::format_entry_decode;
use tlv::reader::impl_newtype_decode;
use tlv::reader::tlv_decode;
use tlv::writer::format_4bit_v_encode;
use tlv::writer::format_entry_encode;
use tlv::writer::format_option_encode;
use tlv::writer::format_repeated_encode;
use tlv::writer::format_t_encode;
use tlv::writer::impl_newtype_encode;
use tlv::writer::tlv_encode;
use tlv::schema::FieldSpec;
use tlv::schema::Kind;
use tlv::value::Slot;
use tlv::value::Value;

fn field(config: TlvConfig, presence: Presence, kind: Kind) -> FieldSpec {
    FieldSpec { config, presence, kind }
}

fn required(config: TlvConfig, kind: Kind) -> FieldSpec {
    field(config, Presence::Required, kind)
}

fn encode_entry(spec: &FieldSpec, value: &Value) -> Vec<u8> {
    let mut sink = BytesMut::new();
    let len = format_entry_encode(spec, value, &mut sink).unwrap();
    assert_eq!(len, sink.len());
    sink.to_vec()
}

fn decode_entry(spec: &FieldSpec, wire: &[u8]) -> (Result<Value, TlvError>, usize) {
    let mut cursor = Bytes::copy_from_slice(wire);
    let done = format_entry_decode(spec, &mut cursor);
    (done, wire.len() - cursor.len())
}

#[test]
fn primitive_byte_is_one_byte() {
    let mut sink = BytesMut::new();
    assert_eq!(0xabu8.encode(&mut sink), Ok(1));
    assert_eq!(&sink[..], &[0xab]);
    let mut cursor = Bytes::from_static(&[0xab, 0xcd]);
    assert_eq!(u8::decode(7, &mut cursor), Ok(0xab));
    assert_eq!(&cursor[..], &[0xcd]);
}

#[test]
fn primitive_byte_needs_one_byte() {
    let mut cursor = Bytes::new();
    assert_eq!(u8::decode(1, &mut cursor), Err(TlvError::MalformedPayload));
}

#[test]
fn primitive_run_is_copied_verbatim() {
    let mut sink = BytesMut::new();
    sink.extend_from_slice(&[9]);
    assert_eq!(vec![1u8, 2, 3].encode(&mut sink), Ok(3));
    assert_eq!(&sink[..], &[9, 1, 2, 3]);
    let mut cursor = Bytes::from_static(&[1, 2, 3, 4]);
    assert_eq!(Vec::<u8>::decode(3, &mut cursor), Ok(vec![1, 2, 3]));
    assert_eq!(&cursor[..], &[4]);
    assert_eq!(Vec::<u8>::decode(0, &mut cursor), Ok(vec![]));
    assert_eq!(&cursor[..], &[4]);
}

#[test]
fn primitive_run_needs_its_length() {
    let mut cursor = Bytes::from_static(&[1, 2]);
    assert_eq!(Vec::<u8>::decode(3, &mut cursor), Err(TlvError::MalformedPayload));
    assert_eq!(&cursor[..], &[1, 2]);
}

#[test]
fn limits_of_the_widths() {
    assert_eq!(get_bytes_format(1), Some(0xff));
    assert_eq!(get_bytes_format(2), Some(0xffff));
    assert_eq!(get_bytes_format(4), Some(0xffff_ffff));
    assert_eq!(get_bytes_format(8), Some(0xffff_ffff_ffff_ffff));
    assert_eq!(get_bytes_format(16), Some(u128::MAX));
    assert_eq!(get_bytes_format(0), None);
    assert_eq!(get_bytes_format(3), None);
}

#[test]
fn numbers_are_big_endian_in_every_width() {
    let mut sink = BytesMut::new();
    get_put_bytes(&mut sink, 1, 0x01);
    get_put_bytes(&mut sink, 2, 0x0203);
    get_put_bytes(&mut sink, 4, 0x0405_0607);
    get_put_bytes(&mut sink, 8, 0x0809_0a0b_0c0d_0e0f);
    get_put_bytes(&mut sink, 16, 0x1011_1213_1415_1617_1819_1a1b_1c1d_1e1f);
    let expected: Vec<u8> = (1..=0x1f).collect();
    assert_eq!(sink.to_vec(), expected);

    let mut cursor = sink.freeze();
    assert_eq!(get_get_bytes(&mut cursor, 1), 0x01);
    assert_eq!(get_get_bytes(&mut cursor, 2), 0x0203);
    assert_eq!(get_get_bytes(&mut cursor, 4), 0x0405_0607);
    assert_eq!(get_get_bytes(&mut cursor, 8), 0x0809_0a0b_0c0d_0e0f);
    assert_eq!(get_get_bytes(&mut cursor, 16), 0x1011_1213_1415_1617_1819_1a1b_1c1d_1e1f);
    assert_eq!(cursor.len(), 0);
}

#[test]
fn tag_is_written_in_its_width() {
    let mut sink = BytesMut::new();
    tag_encode(&TlvConfig::new(Format::TLV).with_tag(0x0102).with_tag_bytes_format(2), &mut sink);
    tag_encode(&TlvConfig::new(Format::TLV).with_tag(7).with_tag_bytes_format(4), &mut sink);
    assert_eq!(&sink[..], &[1, 2, 0, 0, 0, 7]);
}

#[test]
fn tag_is_absent_without_a_tag_or_a_width() {
    let mut sink = BytesMut::new();
    tag_encode(&TlvConfig::new(Format::TLV), &mut sink);
    tag_encode(&TlvConfig::new(Format::TLV).with_tag(5).with_tag_bytes_format(0), &mut sink);
    assert_eq!(sink.len(), 0);
}

#[test]
fn tag_is_read_past_without_being_compared() {
    let config = TlvConfig::new(Format::TLV).with_tag(5).with_tag_bytes_format(2);
    let mut cursor = Bytes::from_static(&[9, 9, 1]);
    assert_eq!(tag_decode(&config, &mut cursor), Ok(()));
    assert_eq!(&cursor[..], &[1]);
    assert_eq!(tag_decode(&config, &mut cursor), Err(TlvError::MalformedPayload));
    assert_eq!(&cursor[..], &[1]);
}

#[test]
fn length_placeholder_is_zero_and_literal_is_literal() {
    let mut sink = BytesMut::new();
    length_encode(&TlvConfig::new(Format::LV).with_length_bytes_format(2), &mut sink);
    length_encode(&TlvConfig::new(Format::LV).with_length(3), &mut sink);
    length_encode(&TlvConfig::new(Format::LV).with_length_bytes_format(0), &mut sink);
    assert_eq!(&sink[..], &[0, 0, 3]);
}

#[test]
fn backpatch_overwrites_the_placeholder_in_place() {
    let config = TlvConfig::new(Format::LV).with_length_bytes_format(2);
    let mut sink = BytesMut::new();
    sink.extend_from_slice(&[0xaa]);
    let index = fix_length_parameter(&config, &sink);
    assert_eq!(index, Some(1));
    length_encode(&config, &mut sink);
    sink.extend_from_slice(&[7; 300]);
    assert_eq!(fix_length_encode(&config, &mut sink, 1, 300), Ok(()));
    assert_eq!(&sink[..3], &[0xaa, 0x01, 0x2c]);
    assert_eq!(&sink[3..], &[7; 300][..]);
}

#[test]
fn backpatch_leaves_a_literal_length_alone() {
    let config = TlvConfig::new(Format::LV).with_length(2);
    let mut sink = BytesMut::new();
    assert_eq!(fix_length_parameter(&config, &sink), None);
    length_encode(&config, &mut sink);
    sink.extend_from_slice(&[1, 2, 3]);
    assert_eq!(fix_length_encode(&config, &mut sink, 0, 3), Ok(()));
    assert_eq!(&sink[..], &[2, 1, 2, 3]);
}

#[test]
fn backpatch_refuses_a_length_that_does_not_fit() {
    let config = TlvConfig::new(Format::LV);
    let mut sink = BytesMut::new();
    length_encode(&config, &mut sink);
    sink.extend_from_slice(&[0; 256]);
    let before = sink.to_vec();
    assert_eq!(fix_length_encode(&config, &mut sink, 0, 256), Err(TlvError::LengthOverflow));
    assert_eq!(sink.to_vec(), before);
    assert_eq!(fix_length_encode(&config, &mut sink, 0, 255), Ok(()));
    assert_eq!(sink[0], 255);
}

#[test]
fn length_is_read_and_checked() {
    let measured = TlvConfig::new(Format::LV).with_length_bytes_format(2);
    let mut cursor = Bytes::from_static(&[0, 2, 8, 9, 10]);
    assert_eq!(length_decode(&measured, &mut cursor), Ok(2));
    assert_eq!(&cursor[..], &[8, 9, 10]);

    let declared = TlvConfig::new(Format::LV).with_length(3);
    let mut cursor = Bytes::from_static(&[3, 8, 9, 10]);
    assert_eq!(length_decode(&declared, &mut cursor), Ok(3));
    let mut cursor = Bytes::from_static(&[2, 8, 9, 10]);
    assert_eq!(length_decode(&declared, &mut cursor), Err(TlvError::MalformedPayload));
    assert_eq!(&cursor[..], &[2, 8, 9, 10]);

    let mut cursor = Bytes::from_static(&[0, 4, 8, 9, 10]);
    assert_eq!(length_decode(&measured, &mut cursor), Err(TlvError::MalformedPayload));
    assert_eq!(&cursor[..], &[0, 4, 8, 9, 10]);

    let mut cursor = Bytes::from_static(&[0]);
    assert_eq!(length_decode(&measured, &mut cursor), Err(TlvError::MalformedPayload));
    assert_eq!(&cursor[..], &[0]);
}

#[test]
fn length_of_sixteen_bytes_is_read_whole() {
    let config = TlvConfig::new(Format::LV).with_length_bytes_format(16);
    let mut wire = vec![0u8; 16];
    wire[15] = 1;
    wire.push(0x42);
    let mut cursor = Bytes::from(wire.clone());
    assert_eq!(length_decode(&config, &mut cursor), Ok(1));
    wire[0] = 1;
    let mut cursor = Bytes::from(wire);
    assert_eq!(length_decode(&config, &mut cursor), Err(TlvError::MalformedPayload));
    assert_eq!(cursor.len(), 17);
}

#[test]
fn entry_layouts_of_every_format() {
    let tag_only = required(TlvConfig::new(Format::T).with_tag(0x21), Kind::Unit);
    assert_eq!(encode_entry(&tag_only, &Value::Unit), vec![0x21]);
    assert_eq!(decode_entry(&tag_only, &[0x21, 5]), (Ok(Value::Unit), 1));

    let value_only = required(TlvConfig::new(Format::V).with_length(2), Kind::Bytes);
    assert_eq!(encode_entry(&value_only, &Value::Bytes(vec![1, 2])), vec![1, 2]);
    assert_eq!(decode_entry(&value_only, &[1, 2, 3]), (Ok(Value::Bytes(vec![1, 2])), 2));

    let tag_value = required(
        TlvConfig::new(Format::TV).with_tag(0x0a0b).with_tag_bytes_format(2).with_length(3),
        Kind::Bytes,
    );
    assert_eq!(encode_entry(&tag_value, &Value::Bytes(vec![1, 2, 3])), vec![0x0a, 0x0b, 1, 2, 3]);
    assert_eq!(
        decode_entry(&tag_value, &[0x0a, 0x0b, 1, 2, 3, 4]),
        (Ok(Value::Bytes(vec![1, 2, 3])), 5)
    );

    let length_value = required(TlvConfig::new(Format::LV), Kind::Bytes);
    assert_eq!(encode_entry(&length_value, &Value::Bytes(vec![7, 8])), vec![2, 7, 8]);
    assert_eq!(decode_entry(&length_value, &[2, 7, 8, 9]), (Ok(Value::Bytes(vec![7, 8])), 3));

    let extended = required(
        TlvConfig::new(Format::TLVE).with_tag(0x7b).with_length_bytes_format(2),
        Kind::Bytes,
    );
    let run = vec![0x55u8; 300];
    let mut expected = vec![0x7b, 0x01, 0x2c];
    expected.extend_from_slice(&run);
    assert_eq!(encode_entry(&extended, &Value::Bytes(run.clone())), expected);
    assert_eq!(decode_entry(&extended, &expected), (Ok(Value::Bytes(run)), 303));
}

#[test]
fn tag_and_length_of_every_width() {
    for width in [1u8, 2, 4, 8, 16] {
        let spec = required(
            TlvConfig::new(Format::TLV)
                .with_tag(0x5a)
                .with_tag_bytes_format(width)
                .with_length_bytes_format(width),
            Kind::Bytes,
        );
        let wire = encode_entry(&spec, &Value::Bytes(vec![1, 2, 3]));
        let mut expected = vec![0u8; width as usize];
        expected[width as usize - 1] = 0x5a;
        expected.extend(vec![0u8; width as usize - 1]);
        expected.push(3);
        expected.extend_from_slice(&[1, 2, 3]);
        assert_eq!(wire, expected);
        assert_eq!(
            decode_entry(&spec, &wire),
            (Ok(Value::Bytes(vec![1, 2, 3])), 2 * width as usize + 3)
        );
    }
}

#[test]
fn four_bit_cell_has_the_tag_in_the_high_half() {
    let cell = required(TlvConfig::new(Format::TV).with_tag(0xd).with_tag_bytes_format(0), Kind::Byte);
    assert_eq!(encode_entry(&cell, &Value::Byte(0x3)), vec![0xd3]);
    assert_eq!(encode_entry(&cell, &Value::Byte(0xf3)), vec![0xd3]);
    assert_eq!(decode_entry(&cell, &[0xd3, 0]), (Ok(Value::Byte(0x3)), 1));
    assert_eq!(decode_entry(&cell, &[]), (Err(TlvError::MalformedPayload), 0));
}

#[test]
fn four_bit_pair_has_the_first_in_the_high_half() {
    let mut sink = BytesMut::new();
    let done = format_4bit_v_encode(
        &Slot::Required(Value::Byte(7)),
        &Slot::Required(Value::Byte(15)),
        &mut sink,
    );
    assert_eq!(done, Ok(1));
    assert_eq!(&sink[..], &[0b0111_1111]);
    let mut cursor = Bytes::from_static(&[0x7f]);
    assert_eq!(format_4bit_v_decode(&mut cursor), Ok((Value::Byte(7), Value::Byte(15))));
    assert_eq!(cursor.len(), 0);
    assert_eq!(format_4bit_v_decode(&mut cursor), Err(TlvError::MalformedPayload));
}

#[test]
fn four_bit_pair_keeps_the_order_of_the_fields() {
    let mut sink = BytesMut::new();
    let _ = format_4bit_v_encode(
        &Slot::Required(Value::Byte(1)),
        &Slot::Required(Value::Byte(2)),
        &mut sink,
    );
    assert_eq!(&sink[..], &[0x12]);
    let mut cursor = sink.freeze();
    assert_eq!(format_4bit_v_decode(&mut cursor), Ok((Value::Byte(1), Value::Byte(2))));
}

#[test]
fn tag_only_strategy_writes_only_the_tag() {
    let spec = required(TlvConfig::new(Format::T).with_tag(0x0102).with_tag_bytes_format(2), Kind::Unit);
    let mut sink = BytesMut::new();
    assert_eq!(format_t_encode(&spec, &mut sink), Ok(2));
    assert_eq!(&sink[..], &[1, 2]);
}

#[test]
fn absent_optional_field_writes_nothing() {
    let spec = field(TlvConfig::new(Format::TLV).with_tag(3), Presence::Optional, Kind::Byte);
    let mut sink = BytesMut::new();
    assert_eq!(format_option_encode(&spec, &None, &mut sink), Ok(0));
    assert_eq!(sink.len(), 0);
    assert_eq!(format_option_encode(&spec, &Some(Value::Byte(6)), &mut sink), Ok(3));
    assert_eq!(&sink[..], &[3, 1, 6]);
}

#[test]
fn repeated_field_writes_one_entry_for_each_value() {
    let spec = field(TlvConfig::new(Format::TLV).with_tag(0x40), Presence::Repeated, Kind::Bytes);
    let values = vec![Value::Bytes(vec![1]), Value::Bytes(vec![]), Value::Bytes(vec![2, 3])];
    let mut sink = BytesMut::new();
    assert_eq!(format_repeated_encode(&spec, &values, &mut sink), Ok(9));
    assert_eq!(&sink[..], &[0x40, 1, 1, 0x40, 0, 0x40, 2, 2, 3]);
    let mut sink = BytesMut::new();
    assert_eq!(format_repeated_encode(&spec, &vec![], &mut sink), Ok(0));
    assert_eq!(sink.len(), 0);
}

#[test]
fn newtype_adds_no_header() {
    let inner = Value::Bytes(vec![1, 2, 3, 4]);
    let mut plain = BytesMut::new();
    let plain_len = tlv_encode(&Kind::Bytes, &inner, &mut plain).unwrap();
    let mut wrapped = BytesMut::new();
    let wrapped_len = tlv_encode(
        &Kind::Newtype(Box::new(Kind::Bytes)),
        &Value::Newtype(Box::new(Value::Bytes(vec![1, 2, 3, 4]))),
        &mut wrapped,
    )
    .unwrap();
    assert_eq!(plain_len, wrapped_len);
    assert_eq!(plain, wrapped);
    assert_eq!(&wrapped[..], &[1, 2, 3, 4]);

    let mut direct = BytesMut::new();
    assert_eq!(impl_newtype_encode(&Kind::Bytes, &inner, &mut direct), Ok(4));
    assert_eq!(direct, plain);
    let mut cursor = direct.freeze();
    assert_eq!(
        impl_newtype_decode(&Kind::Bytes, 4, &mut cursor),
        Ok(Value::Newtype(Box::new(Value::Bytes(vec![1, 2, 3, 4]))))
    );
}

#[test]
fn nested_record_is_framed_like_any_other_value() {
    let inner = Kind::Record(vec![
        required(TlvConfig::new(Format::TLV).with_tag(1), Kind::Byte),
        field(TlvConfig::new(Format::TLV).with_tag(2), Presence::Optional, Kind::Bytes),
    ]);
    let outer = Kind::Record(vec![
        required(TlvConfig::new(Format::TLVE).with_tag(0x30).with_length_bytes_format(2), inner),
        required(TlvConfig::new(Format::LV), Kind::Byte),
    ]);
    let value = Value::Record(vec![
        Slot::Required(Value::Record(vec![
            Slot::Required(Value::Byte(0xaa)),
            Slot::Optional(Some(Value::Bytes(vec![5, 6]))),
        ])),
        Slot::Required(Value::Byte(0xbb)),
    ]);
    let mut sink = BytesMut::new();
    let len = tlv_encode(&outer, &value, &mut sink).unwrap();
    assert_eq!(&sink[..], &[0x30, 0, 7, 1, 1, 0xaa, 2, 2, 5, 6, 1, 0xbb]);
    assert_eq!(len, 12);
    assert_eq!(tlv_decode(&outer, len, &mut sink.freeze()), Ok(value));
}

#[test]
fn required_then_optional_scenario() {
    let kind = Kind::Record(vec![
        required(TlvConfig::new(Format::TLV).with_tag(2).with_length_bytes_format(1), Kind::Byte),
        field(
            TlvConfig::new(Format::TLV).with_tag(3).with_length_bytes_format(1),
            Presence::Optional,
            Kind::Byte,
        ),
    ]);
    let with = Value::Record(vec![
        Slot::Required(Value::Byte(11)),
        Slot::Optional(Some(Value::Byte(6))),
    ]);
    let mut sink = BytesMut::new();
    let len = tlv_encode(&kind, &with, &mut sink).unwrap();
    assert_eq!(&sink[..], &[2, 1, 11, 3, 1, 6]);
    assert_eq!(tlv_decode(&kind, len, &mut sink.freeze()), Ok(with));

    let without = Value::Record(vec![Slot::Required(Value::Byte(11)), Slot::Optional(None)]);
    let mut sink = BytesMut::new();
    let len = tlv_encode(&kind, &without, &mut sink).unwrap();
    assert_eq!(&sink[..], &[2, 1, 11]);
    assert_eq!(tlv_decode(&kind, len, &mut sink.freeze()), Ok(without));
}

#[test]
fn optional_entries_are_found_in_any_order() {
    let kind = Kind::Record(vec![
        field(TlvConfig::new(Format::TLV).with_tag(3), Presence::Optional, Kind::Byte),
        field(
            TlvConfig::new(Format::TV).with_tag(0x9).with_tag_bytes_format(0),
            Presence::Optional,
            Kind::Byte,
        ),
        field(TlvConfig::new(Format::TLV).with_tag(0x40), Presence::Repeated, Kind::Bytes),
    ]);
    let mut cursor = Bytes::from_static(&[0x40, 1, 7, 0x95, 0x40, 0, 3, 1, 8, 0x40, 2, 1, 2]);
    let decoded = tlv_decode(&kind, 0, &mut cursor);
    assert_eq!(
        decoded,
        Ok(Value::Record(vec![
            Slot::Optional(Some(Value::Byte(8))),
            Slot::Optional(Some(Value::Byte(5))),
            Slot::Repeated(vec![
                Value::Bytes(vec![7]),
                Value::Bytes(vec![]),
                Value::Bytes(vec![1, 2]),
            ]),
        ]))
    );
    assert_eq!(cursor.len(), 0);
}

#[test]
fn empty_tail_is_laid_out_as_the_required_prefix_alone() {
    let prefix = vec![
        required(TlvConfig::new(Format::TLV).with_tag(1), Kind::Bytes),
        required(TlvConfig::new(Format::V).with_value_bits_format(4), Kind::Byte),
        required(TlvConfig::new(Format::V).with_value_bits_format(4), Kind::Byte),
    ];
    let mut full = vec![
        required(TlvConfig::new(Format::TLV).with_tag(1), Kind::Bytes),
        required(TlvConfig::new(Format::V).with_value_bits_format(4), Kind::Byte),
        required(TlvConfig::new(Format::V).with_value_bits_format(4), Kind::Byte),
    ];
    full.push(field(TlvConfig::new(Format::TLV).with_tag(2), Presence::Optional, Kind::Byte));
    full.push(field(TlvConfig::new(Format::TLV).with_tag(3), Presence::Repeated, Kind::Byte));
    let held = |tail: bool| {
        let mut slots = vec![
            Slot::Required(Value::Bytes(vec![4, 5])),
            Slot::Required(Value::Byte(1)),
            Slot::Required(Value::Byte(2)),
        ];
        if tail {
            slots.push(Slot::Optional(None));
            slots.push(Slot::Repeated(vec![]));
        }
        Value::Record(slots)
    };
    let mut alone = BytesMut::new();
    let alone_len = tlv_encode(&Kind::Record(prefix), &held(false), &mut alone).unwrap();
    let mut with_tail = BytesMut::new();
    let with_tail_len = tlv_encode(&Kind::Record(full), &held(true), &mut with_tail).unwrap();
    assert_eq!(alone_len, with_tail_len);
    assert_eq!(alone, with_tail);
    assert_eq!(&with_tail[..], &[1, 2, 4, 5, 0x12]);
}

#[test]
fn payload_stands_between_its_length_and_the_next_field() {
    let kind = Kind::Record(vec![
        required(TlvConfig::new(Format::LVE).with_length_bytes_format(4), Kind::Bytes),
        required(TlvConfig::new(Format::TLV).with_tag(9), Kind::Byte),
    ]);
    for n in [0usize, 1, 255, 256, 1000] {
        let value = Value::Record(vec![
            Slot::Required(Value::Bytes(vec![0xab; n])),
            Slot::Required(Value::Byte(1)),
        ]);
        let mut sink = BytesMut::new();
        let len = tlv_encode(&kind, &value, &mut sink).unwrap();
        assert_eq!(len, 4 + n + 3);
        assert_eq!(&sink[..4], &(n as u32).to_be_bytes());
        assert_eq!(&sink[4..4 + n], &vec![0xab; n][..]);
        assert_eq!(&sink[4 + n..], &[9, 1, 1]);
    }
}
