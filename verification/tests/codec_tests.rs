use htsp_client::codec::bytes2num;
use htsp_client::codec::decode;
use htsp_client::codec::decode_fields;
use htsp_client::codec::encode;
use htsp_client::codec::find_field;
use htsp_client::codec::get_total_field_size;
use htsp_client::codec::Convertible;
use htsp_client::codec::ParsableField;
use htsp_client::codec::WireError;
use htsp_client::field::Field;
use htsp_client::field::FieldData;

fn str_field(name: &str, value: &str) -> Field {
    Field {
        name: name.to_string(),
        data: FieldData::Str(value.to_string()),
    }
}

fn int_field(name: &str, value: u64) -> Field {
    Field {
        name: name.to_string(),
        data: FieldData::S64(value),
    }
}

/// One hand-built record: tag, name length, 4-byte big-endian data length,
/// name bytes, payload bytes.
fn record(tag: u8, name: &str, data: &[u8]) -> Vec<u8> {
    let mut out = vec![tag, name.len() as u8];
    out.extend_from_slice(&(data.len() as u32).to_be_bytes());
    out.extend_from_slice(name.as_bytes());
    out.extend_from_slice(data);
    out
}

/// A hand-built frame: 4-byte big-endian total length, then the body.
fn frame(body: &[u8]) -> Vec<u8> {
    let mut out = (body.len() as u32).to_be_bytes().to_vec();
    out.extend_from_slice(body);
    out
}

#[test]
fn integer_boundaries() {
    assert_eq!(Ok(0), int_field("n", 0).get_data_length());
    assert_eq!(Ok(1), int_field("n", 255).get_data_length());
    assert_eq!(Ok(2), int_field("n", 256).get_data_length());
    assert_eq!(Ok(4), int_field("n", 1 << 31).get_data_length());
    assert_eq!(Ok(8), int_field("n", u64::MAX).get_data_length());
}

#[test]
fn integer_zero_encodes_to_no_bytes() {
    let mut out = vec![];
    htsp_client::codec::serialize(&int_field("n", 0), &mut out).unwrap();
    assert_eq!(vec![2, 1, 0, 0, 0, 0, b'n'], out);
}

#[test]
fn integer_roundtrip_u32_values() {
    for v in [0u32, 1, 255, 256, 300, 65535, 65536, 1 << 31, u32::MAX] {
        let fields = vec![int_field("v", v as u64)];
        let bytes = encode(&fields).unwrap();
        let back = decode(&bytes).unwrap();
        assert_eq!(fields, back, "value {} did not survive the round trip", v);
    }
}

#[test]
fn integer_encoding_is_big_endian_minimal() {
    let mut out = vec![];
    htsp_client::codec::serialize(&int_field("n", 300), &mut out).unwrap();
    // 300 = 0x012C: two bytes, most significant first.
    assert_eq!(vec![2, 1, 0, 0, 0, 2, b'n', 0x01, 0x2C], out);
}

#[test]
fn bytes2num_accumulates_big_endian() {
    assert_eq!(0, bytes2num(&[]));
    assert_eq!(300, bytes2num(&[0x01, 0x2C]));
    assert_eq!(1, bytes2num(&[0, 0, 0, 1]));
    assert_eq!(u64::MAX, bytes2num(&[0xFF; 8]));
}

#[test]
fn name_boundary() {
    let long_name = "a".repeat(255);
    let f = Field::new(long_name, FieldData::S64(1));
    assert!(f.is_ok());

    let too_long = "a".repeat(256);
    assert_eq!(
        Err(WireError::NameTooLong),
        Field::new(too_long.clone(), FieldData::S64(1))
    );
    assert_eq!(
        Err(WireError::NameTooLong),
        Field::from_str(too_long.clone(), "x")
    );
    assert_eq!(
        Err(WireError::NameTooLong),
        Field::from_u32(too_long, 1)
    );
}

#[test]
fn constructors_build_expected_fields() {
    let f = Field::from_u32("n".to_string(), 7).unwrap();
    assert_eq!(int_field("n", 7), f);
    let g = Field::from_str("s".to_string(), "hi").unwrap();
    assert_eq!(str_field("s", "hi"), g);
}

#[test]
fn roundtrip_flat_fields() {
    let fields = vec![
        str_field("greeting", "hello there"),
        int_field("count", 12345),
        Field {
            name: "blob".to_string(),
            data: FieldData::Bin(vec![0, 1, 2, 255]),
        },
        str_field("empty", ""),
        int_field("zero", 0),
    ];
    let bytes = encode(&fields).unwrap();
    assert_eq!(fields, decode(&bytes).unwrap());
}

fn nested_fields() -> Vec<Field> {
    let inner = vec![str_field("a", "x"), int_field("b", 9)];
    vec![
        Field {
            name: "map".to_string(),
            data: FieldData::Dict(inner),
        },
        Field {
            name: "list".to_string(),
            data: FieldData::List(vec![str_field("", "first"), str_field("", "second")]),
        },
    ]
}

#[test]
fn roundtrip_nested_fields() {
    let fields = nested_fields();
    let bytes = encode(&fields).unwrap();
    assert_eq!(nested_fields(), decode(&bytes).unwrap());
}

#[test]
fn decode_rejects_unknown_tag() {
    let body = record(9, "x", &[]);
    assert_eq!(Err(WireError::UnknownTag(9)), decode(&frame(&body)));
}

#[test]
fn decode_rejects_wide_integer() {
    let body = record(2, "x", &[1, 2, 3, 4, 5, 6, 7, 8, 9]);
    assert_eq!(Err(WireError::IntTooWide), decode(&frame(&body)));
}

#[test]
fn decode_rejects_bad_name_utf8() {
    let mut body = vec![3u8, 2, 0, 0, 0, 0];
    body.extend_from_slice(&[0xFF, 0xFE]);
    assert_eq!(Err(WireError::InvalidUtf8), decode(&frame(&body)));
}

#[test]
fn decode_rejects_bad_string_payload() {
    let body = record(3, "s", &[0xFF, 0xFE]);
    assert_eq!(Err(WireError::InvalidUtf8), decode(&frame(&body)));
}

#[test]
fn decode_rejects_truncated_record() {
    // Declares 10 data bytes but carries only 2.
    let mut body = record(4, "x", &[1, 2]);
    body[5] = 10;
    assert_eq!(Err(WireError::Truncated), decode(&frame(&body)));
}

#[test]
fn decode_rejects_desynchronized_body() {
    // 3 stray bytes after a whole record cannot form another record.
    let mut body = record(2, "x", &[1]);
    body.extend_from_slice(&[2, 0, 0]);
    assert_eq!(Err(WireError::Truncated), decode(&frame(&body)));
}

#[test]
fn decode_rejects_frame_length_mismatch() {
    let body = record(2, "x", &[1]);
    let mut framed = frame(&body);
    framed.push(0);
    assert_eq!(Err(WireError::LengthMismatch), decode(&framed));
    assert_eq!(Err(WireError::Truncated), decode(&[0, 0]));
}

#[test]
fn from_read_parses_one_record() {
    let mut bytes = record(3, "name", b"value");
    bytes.extend_from_slice(b"trailing");
    let (consumed, pf) = ParsableField::from_read(&bytes).unwrap();
    assert_eq!(6 + 4 + 5, consumed);
    assert_eq!(3, pf.field_type());
    assert_eq!("name", pf.name());
    assert_eq!(b"value".to_vec(), pf.data());
}

#[test]
fn from_read_rejects_short_input() {
    assert_eq!(
        Err(WireError::Truncated),
        ParsableField::from_read(&[3, 0, 0, 0, 0]).map(|x| x.0)
    );
}

#[test]
fn convert_typed_extraction() {
    let (_, s) = ParsableField::from_read(&record(3, "s", b"text")).unwrap();
    let got: String = s.convert().unwrap();
    assert_eq!("text", got);

    let (_, n) = ParsableField::from_read(&record(2, "n", &[0x01, 0x2C])).unwrap();
    let got: u32 = n.convert().unwrap();
    assert_eq!(300, got);

    let (_, b) = ParsableField::from_read(&record(4, "b", &[7, 8])).unwrap();
    let got: Vec<u8> = b.convert().unwrap();
    assert_eq!(vec![7, 8], got);

    let inner = [record(3, "", b"one"), record(3, "", b"two")].concat();
    let (_, l) = ParsableField::from_read(&record(5, "l", &inner)).unwrap();
    let got: Vec<String> = l.convert().unwrap();
    assert_eq!(vec!["one".to_string(), "two".to_string()], got);
}

#[test]
fn convert_rejects_wrong_type() {
    let (_, s) = ParsableField::from_read(&record(3, "s", b"text")).unwrap();
    let got: Result<u32, WireError> = s.convert();
    assert_eq!(Err(WireError::TypeMismatch), got);
    let got: Result<Vec<u8>, WireError> = s.convert();
    assert_eq!(Err(WireError::TypeMismatch), got);
    let got: Result<Vec<String>, WireError> = s.convert();
    assert_eq!(Err(WireError::TypeMismatch), got);

    let (_, n) = ParsableField::from_read(&record(2, "n", &[1])).unwrap();
    let got: Result<String, WireError> = n.convert();
    assert_eq!(Err(WireError::TypeMismatch), got);
}

#[test]
fn find_field_takes_the_latest_duplicate() {
    let bytes = [record(2, "k", &[1]), record(2, "k", &[2])].concat();
    let (c1, first) = ParsableField::from_read(&bytes).unwrap();
    let (_, second) = ParsableField::from_read(&bytes[c1..]).unwrap();
    let fields = vec![first, second];
    let found = find_field(&fields, "k").unwrap();
    assert_eq!(vec![2], found.data());
    assert!(find_field(&fields, "missing").is_none());
}

#[test]
fn total_field_size_counts_header_name_and_payload() {
    let f = str_field("name", "value");
    assert_eq!(Ok(6 + 4 + 5), get_total_field_size(&f));
}

#[test]
fn encode_prefixes_total_length() {
    let fields = vec![str_field("a", "bc")];
    let bytes = encode(&fields).unwrap();
    let declared = u32::from_be_bytes([bytes[0], bytes[1], bytes[2], bytes[3]]) as usize;
    assert_eq!(bytes.len() - 4, declared);
}

#[test]
fn decode_fields_reads_bare_records() {
    let body = [record(3, "a", b"x"), record(2, "b", &[5])].concat();
    let fields = decode_fields(&body).unwrap();
    assert_eq!(vec![str_field("a", "x"), int_field("b", 5)], fields);
}

#[test]
fn serialize_rejects_oversized_names_and_leaves_output_alone() {
    let field = Field {
        name: "b".repeat(256),
        data: FieldData::S64(1),
    };
    let mut out = vec![0xAA];
    assert_eq!(
        Err(WireError::NameTooLong),
        htsp_client::codec::serialize(&field, &mut out)
    );
    assert_eq!(vec![0xAA], out);

    // The same field nested in a map poisons the whole encode.
    let fields = vec![Field {
        name: "outer".to_string(),
        data: FieldData::Dict(vec![Field {
            name: "c".repeat(256),
            data: FieldData::S64(1),
        }]),
    }];
    assert_eq!(Err(WireError::NameTooLong), encode(&fields));
}

#[test]
fn from_read_rejects_unknown_tags() {
    assert_eq!(
        Err(WireError::UnknownTag(9)),
        ParsableField::from_read(&record(9, "x", &[1])).map(|x| x.0)
    );
    assert_eq!(
        Err(WireError::UnknownTag(0)),
        ParsableField::from_read(&record(0, "x", &[])).map(|x| x.0)
    );
}
