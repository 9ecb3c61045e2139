use htsp_client::codec::encode;
use htsp_client::codec::ParsableField;
use htsp_client::codec::WireError;
use htsp_client::field::Field;
use htsp_client::field::FieldData;
use htsp_client::htsp::deserialize;
use htsp_client::htsp::get_field;
use htsp_client::htsp::get_list_field;
use htsp_client::htsp::get_opt_field;
use htsp_client::htsp::map2reply;
use htsp_client::htsp::serialize;
use htsp_client::htsp::serialize_body;
use htsp_client::htsp::Reply;
use htsp_client::htsp::Request;

fn record(tag: u8, name: &str, data: &[u8]) -> Vec<u8> {
    let mut out = vec![tag, name.len() as u8];
    out.extend_from_slice(&(data.len() as u32).to_be_bytes());
    out.extend_from_slice(name.as_bytes());
    out.extend_from_slice(data);
    out
}

fn hello_request() -> Request {
    Request::Hello {
        htsp_version: 25,
        client_name: "FooName".to_string(),
        client_version: "1.2.3".to_string(),
    }
}

#[test]
fn hello_encode_scenario() {
    let mut out: Vec<u8> = vec![];
    serialize(&hello_request(), &mut out).unwrap();

    // The first 4 bytes carry the total remaining length, big-endian.
    let declared = u32::from_be_bytes([out[0], out[1], out[2], out[3]]) as usize;
    assert_eq!(out.len() - 4, declared);

    // The whole body, record by record, in mapping order.
    let expected_body = [
        record(3, "method", b"hello"),
        record(2, "htsp_version", &[0x19]),
        record(3, "client_name", b"FooName"),
        record(3, "client_version", b"1.2.3"),
    ]
    .concat();
    assert_eq!(expected_body, out[4..].to_vec());

    // The version record in isolation: tag 2, name length 12, data length 1.
    let version_record = record(2, "htsp_version", &[0x19]);
    assert_eq!(vec![2, 12, 0, 0, 0, 1], version_record[..6].to_vec());
    assert!(out
        .windows(version_record.len())
        .any(|w| w == version_record.as_slice()));
}

#[test]
fn serialize_body_omits_the_prefix() {
    let mut framed: Vec<u8> = vec![];
    serialize(&hello_request(), &mut framed).unwrap();
    let mut body: Vec<u8> = vec![];
    serialize_body(&hello_request(), &mut body).unwrap();
    assert_eq!(framed[4..].to_vec(), body);
}

fn reply_fields(with_challenge: bool, webroot: Option<&str>) -> Vec<Field> {
    let mut fields = vec![
        Field {
            name: "htsp_version".to_string(),
            data: FieldData::S64(25),
        },
        Field {
            name: "server_name".to_string(),
            data: FieldData::Str("TestServer".to_string()),
        },
        Field {
            name: "server_version".to_string(),
            data: FieldData::Str("4.2".to_string()),
        },
    ];
    if with_challenge {
        fields.push(Field {
            name: "challenge".to_string(),
            data: FieldData::Bin(vec![9, 8, 7]),
        });
    }
    fields.push(Field {
        name: "server_capabilities".to_string(),
        data: FieldData::List(vec![
            Field {
                name: String::new(),
                data: FieldData::Str("timeshift".to_string()),
            },
            Field {
                name: String::new(),
                data: FieldData::Str("dvr".to_string()),
            },
        ]),
    });
    if let Some(w) = webroot {
        fields.push(Field {
            name: "webroot".to_string(),
            data: FieldData::Str(w.to_string()),
        });
    }
    fields
}

#[test]
fn deserialize_hello_reply() {
    let bytes = encode(&reply_fields(true, Some("/tv"))).unwrap();
    let reply = deserialize(&bytes, "hello").unwrap();
    assert_eq!(
        Reply::Hello {
            htsp_version: 25,
            server_name: "TestServer".to_string(),
            server_version: "4.2".to_string(),
            challenge: vec![9, 8, 7],
            server_capabilities: vec!["timeshift".to_string(), "dvr".to_string()],
            webroot: Some("/tv".to_string()),
        },
        reply
    );
}

#[test]
fn deserialize_hello_reply_without_webroot() {
    let bytes = encode(&reply_fields(true, None)).unwrap();
    match deserialize(&bytes, "hello").unwrap() {
        Reply::Hello { webroot, .. } => assert_eq!(None, webroot),
    }
}

#[test]
fn missing_challenge_is_reported_by_name() {
    let bytes = encode(&reply_fields(false, None)).unwrap();
    let err = deserialize(&bytes, "hello").unwrap_err();
    assert_eq!(WireError::MissingField("challenge".to_string()), err);
}

#[test]
fn unknown_method_is_rejected() {
    let bytes = encode(&reply_fields(true, None)).unwrap();
    let err = deserialize(&bytes, "goodbye").unwrap_err();
    assert_eq!(WireError::UnknownMethod("goodbye".to_string()), err);
}

#[test]
fn deserialize_rejects_mismatched_total_length() {
    let mut bytes = encode(&reply_fields(true, None)).unwrap();
    bytes.push(0);
    assert_eq!(Err(WireError::LengthMismatch), deserialize(&bytes, "hello"));
}

fn parsed(records: &[Vec<u8>]) -> Vec<ParsableField> {
    let mut fields = vec![];
    for r in records {
        let (_, pf) = ParsableField::from_read(r).unwrap();
        fields.push(pf);
    }
    fields
}

#[test]
fn map2reply_reads_the_field_set() {
    let fields = parsed(&[
        record(2, "htsp_version", &[25]),
        record(3, "server_name", b"S"),
        record(3, "server_version", b"1"),
        record(4, "challenge", &[1, 2]),
        record(5, "server_capabilities", &record(3, "", b"cap")),
    ]);
    match map2reply(&fields, "hello").unwrap() {
        Reply::Hello {
            htsp_version,
            server_name,
            challenge,
            server_capabilities,
            webroot,
            ..
        } => {
            assert_eq!(25, htsp_version);
            assert_eq!("S", server_name);
            assert_eq!(vec![1, 2], challenge);
            assert_eq!(vec!["cap".to_string()], server_capabilities);
            assert_eq!(None, webroot);
        }
    }
}

#[test]
fn map2reply_reports_type_mismatch() {
    // htsp_version arrives as a string field instead of an integer.
    let fields = parsed(&[
        record(3, "htsp_version", b"25"),
        record(3, "server_name", b"S"),
        record(3, "server_version", b"1"),
        record(4, "challenge", &[1]),
        record(5, "server_capabilities", &[]),
    ]);
    assert_eq!(Err(WireError::TypeMismatch), map2reply(&fields, "hello"));
}

#[test]
fn get_field_helpers() {
    let fields = parsed(&[
        record(2, "n", &[7]),
        record(3, "s", b"text"),
        record(4, "b", &[1]),
        record(5, "l", &record(3, "", b"x")),
    ]);
    let n: u32 = get_field(&fields, "n").unwrap();
    assert_eq!(7, n);
    let s: String = get_field(&fields, "s").unwrap();
    assert_eq!("text", s);
    let missing: Result<u32, WireError> = get_field(&fields, "nope");
    assert_eq!(Err(WireError::MissingField("nope".to_string())), missing);
    let opt: Option<String> = get_opt_field(&fields, "nope").unwrap();
    assert_eq!(None, opt);
    let opt: Option<String> = get_opt_field(&fields, "s").unwrap();
    assert_eq!(Some("text".to_string()), opt);
    let l: Vec<String> = get_list_field(&fields, "l").unwrap();
    assert_eq!(vec!["x".to_string()], l);
}

#[test]
fn read_fields_returns_the_flat_records() {
    let bytes = encode(&reply_fields(true, None)).unwrap();
    let fields = htsp_client::htsp::read_fields(&bytes).unwrap();
    assert_eq!(5, fields.len());
    assert_eq!("htsp_version", fields[0].name());
    assert_eq!("challenge", fields[3].name());
    let seq: Option<u32> = get_opt_field(&fields, "seq").unwrap();
    assert_eq!(None, seq);
}

#[test]
fn reply_frames_reject_unknown_tags() {
    let body = [record(2, "htsp_version", &[25]), record(9, "odd", &[1])].concat();
    let mut framed = (body.len() as u32).to_be_bytes().to_vec();
    framed.extend_from_slice(&body);
    assert_eq!(
        Err(WireError::UnknownTag(9)),
        htsp_client::htsp::read_fields(&framed).map(|fields| fields.len())
    );
    assert_eq!(
        Err(WireError::UnknownTag(9)),
        deserialize(&framed, "hello")
    );
}
