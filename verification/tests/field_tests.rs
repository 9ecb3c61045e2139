use htsp_client::codec::serialize;
use htsp_client::field::Field;
use htsp_client::field::FieldData;
use htsp_client::field::FieldType;

#[test]
fn test_name_length() {
    let field = Field {
        name: "MyName".to_string(),
        data: FieldData::Str("FooBar".to_string()),
    };

    assert_eq!(6, field.get_name_length());
}

#[test]
fn test_s64_short_length() {
    let field = Field {
        name: "Foo".to_string(),
        data: FieldData::S64(1),
    };

    assert_eq!(Ok(1), field.get_data_length());
}

#[test]
fn test_s64_long_length() {
    let field = Field {
        name: "Foo".to_string(),
        data: FieldData::S64(2_u64.pow(31)),
    };

    assert_eq!(Ok(4), field.get_data_length());
}

#[test]
fn test_str_field_type() {
    let field = Field {
        name: "Foo".to_string(),
        data: FieldData::Str("Bar".to_string()),
    };

    assert_eq!(3, field.get_type_id());
}

#[test]
fn test_u32_field_type() {
    let field = Field {
        name: "foo".to_string(),
        data: FieldData::S64(123),
    };

    assert_eq!(2, field.get_type_id());
}

#[test]
fn test_serialize_field() {
    let field = Field {
        name: "FooBar".to_string(),
        data: FieldData::S64(42),
    };

    let expectation = vec![2, 6, 0, 0, 0, 1, 70, 111, 111, 66, 97, 114, 42];
    let mut result: Vec<u8> = vec![];
    serialize(&field, &mut result).unwrap();
    assert_eq!(expectation, result);
}

#[test]
fn test_get_name_and_data() {
    let field = Field {
        name: "key".to_string(),
        data: FieldData::Bin(vec![1, 2, 3]),
    };
    assert_eq!("key", field.get_name());
    assert_eq!(&FieldData::Bin(vec![1, 2, 3]), field.get_data());
    assert_eq!(4, field.get_type_id());
}

#[test]
fn test_field_type_tags() {
    assert!(matches!(FieldType::from_u8(1), Some(FieldType::Dict)));
    assert!(matches!(FieldType::from_u8(2), Some(FieldType::S64)));
    assert!(matches!(FieldType::from_u8(3), Some(FieldType::Str)));
    assert!(matches!(FieldType::from_u8(4), Some(FieldType::Bin)));
    assert!(matches!(FieldType::from_u8(5), Some(FieldType::List)));
    assert!(matches!(FieldType::from_u8(0), None));
    assert!(matches!(FieldType::from_u8(6), None));
    assert_eq!(1, FieldType::Dict.tag());
    assert_eq!(5, FieldType::List.tag());
}
