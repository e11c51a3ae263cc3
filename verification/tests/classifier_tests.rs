use storage_layout::types::{parse_solidity_type, size_of_type, LayoutError, SolidityType};
use storage_layout::tree::{extract_type_name, ArrayLength, TypeName};

#[test]
fn it_works() {
    let result = 2 + 2;
    assert_eq!(result, 4);
}

#[test]
fn classifies_sized_unsigned_integers() {
    assert_eq!(parse_solidity_type("uint256"), Ok(SolidityType::Uint(256)));
    assert_eq!(parse_solidity_type("uint8"), Ok(SolidityType::Uint(8)));
}

#[test]
fn classifies_bare_uint_and_int_as_word_sized() {
    assert_eq!(parse_solidity_type("uint"), Ok(SolidityType::Uint(256)));
    assert_eq!(parse_solidity_type("int"), Ok(SolidityType::Int(256)));
}

#[test]
fn classifies_signed_integers() {
    assert_eq!(parse_solidity_type("int128"), Ok(SolidityType::Int(128)));
}

#[test]
fn classifies_address_bool_string() {
    assert_eq!(parse_solidity_type("address"), Ok(SolidityType::Address));
    assert_eq!(parse_solidity_type("bool"), Ok(SolidityType::Bool));
    assert_eq!(parse_solidity_type("string"), Ok(SolidityType::String));
}

#[test]
fn classifies_fixed_bytes_in_bits() {
    // bytesN holds N * 8 bits
    assert_eq!(parse_solidity_type("bytes32"), Ok(SolidityType::FixedBytes(256)));
    assert_eq!(parse_solidity_type("bytes1"), Ok(SolidityType::FixedBytes(8)));
    assert_eq!(parse_solidity_type("bytes"), Ok(SolidityType::DynamicBytes));
}

#[test]
fn classifies_textual_array_suffixes() {
    assert_eq!(
        parse_solidity_type("uint8[3]"),
        Ok(SolidityType::FixedArray(Box::new(SolidityType::Uint(8)), 3))
    );
    assert_eq!(
        parse_solidity_type("uint8[]"),
        Ok(SolidityType::DynamicArray(Box::new(SolidityType::Uint(8))))
    );
}

#[test]
fn unknown_type_name_is_rejected() {
    assert_eq!(parse_solidity_type("foo256"), Err(LayoutError::UnrecognizedType));
    assert_eq!(parse_solidity_type(""), Err(LayoutError::UnrecognizedType));
    assert_eq!(parse_solidity_type("uintx"), Err(LayoutError::UnrecognizedType));
}

#[test]
fn sizes_of_elementary_types() {
    assert_eq!(size_of_type(&SolidityType::Address), 160);
    assert_eq!(size_of_type(&SolidityType::Bool), 8);
    assert_eq!(size_of_type(&SolidityType::Uint(128)), 128);
    assert_eq!(size_of_type(&SolidityType::FixedBytes(256)), 256);
    assert_eq!(size_of_type(&SolidityType::DynamicBytes), 256);
    assert_eq!(size_of_type(&SolidityType::String), 256);
    assert_eq!(
        size_of_type(&SolidityType::FixedArray(Box::new(SolidityType::Uint(8)), 3)),
        24
    );
    assert_eq!(
        size_of_type(&SolidityType::DynamicArray(Box::new(SolidityType::Uint(8)))),
        256
    );
}

#[test]
fn array_length_parses_digits_only() {
    assert_eq!(ArrayLength::new(Some("7".to_string())).as_usize(), Some(7));
    assert_eq!(ArrayLength::new(Some("120".to_string())).as_usize(), Some(120));
    assert_eq!(ArrayLength::new(Some("x7".to_string())).as_usize(), None);
    assert_eq!(ArrayLength::new(Some("".to_string())).as_usize(), None);
    assert_eq!(ArrayLength::new(None).as_usize(), None);
}

#[test]
fn extracts_elementary_type_names() {
    let t = TypeName::ElementaryTypeName { name: "uint256".to_string() };
    assert_eq!(extract_type_name(&t), "uint256");
    let m = TypeName::Mapping {
        key_type: Box::new(TypeName::ElementaryTypeName { name: "address".to_string() }),
        value_type: Box::new(TypeName::ElementaryTypeName { name: "uint256".to_string() }),
    };
    assert_eq!(extract_type_name(&m), "unknown");
}
