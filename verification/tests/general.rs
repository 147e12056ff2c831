use hexspell::errors::FileParseError;
use hexspell::field::Field;

#[test]
fn test_field_u32_value_bounds() {
    let mut buffer = vec![0u8; 3];
    let mut field = Field::new(0u32, 0, 3);
    field.update(&mut buffer, 0x00ABCDEFu32).unwrap();
    assert_eq!(
        &buffer[..],
        &0x00ABCDEFu32.to_le_bytes()[..3],
        "u32 bytes were not written correctly",
    );

    let err = field.update(&mut buffer, 0x01000000u32).unwrap_err();
    assert!(matches!(err, FileParseError::ValueTooLarge));
}

#[test]
fn test_field_u16_value_bounds() {
    let mut buffer = vec![0u8; 1];
    let mut field = Field::new(0u16, 0, 1);
    field.update(&mut buffer, 0x7Fu16).unwrap();
    assert_eq!(buffer[0], 0x7Fu8, "u16 byte was not written correctly");

    let err = field.update(&mut buffer, 0x1FFu16).unwrap_err();
    assert!(matches!(err, FileParseError::ValueTooLarge));
}

#[test]
fn test_field_u64_value_bounds() {
    let mut buffer = vec![0u8; 7];
    let mut field = Field::new(0u64, 0, 7);
    field.update(&mut buffer, 0x00DEADBEEFCAFEu64).unwrap();
    assert_eq!(
        &buffer[..],
        &0x00DEADBEEFCAFEu64.to_le_bytes()[..7],
        "u64 bytes were not written correctly",
    );

    let err = field
        .update(&mut buffer, 0x0100000000000000u64)
        .unwrap_err();
    assert!(matches!(err, FileParseError::ValueTooLarge));
}

// A string field over a scratch buffer, standing in for a section name
// field of eight bytes.
fn make_name_field() -> (Vec<u8>, Field<String>) {
    let buffer = vec![0xAAu8; 16];
    let field = Field::new(String::new(), 4, 8);
    (buffer, field)
}

#[test]
fn test_padding_shorter() {
    let (mut buffer, mut name_field) = make_name_field();
    let new_name = ".t".to_string();
    let offset = name_field.offset;
    let size = name_field.size;

    name_field.update(&mut buffer, &new_name).unwrap();

    assert_eq!(
        &buffer[offset..offset + new_name.len()],
        new_name.as_bytes()
    );

    assert!(
        buffer[offset + new_name.len()..offset + size]
            .iter()
            .all(|&b| b == 0),
        "Remaining bytes were not zero-padded"
    );
}

#[test]
fn test_exact_fit() {
    let (mut buffer, mut name_field) = make_name_field();
    let size = name_field.size;
    let exact = "X".repeat(size);
    let offset = name_field.offset;

    name_field.update(&mut buffer, &exact).unwrap();

    assert_eq!(
        &buffer[offset..offset + size],
        exact.as_bytes(),
        "Exact-fit write failed"
    );
}

#[test]
fn test_overflow_error() {
    let (mut buffer, mut name_field) = make_name_field();
    let size = name_field.size;
    let overflow = "A".repeat(size + 1);

    let err = name_field
        .update(&mut buffer, &overflow)
        .expect_err("Expected a BufferOverflow error");

    assert!(
        matches!(err, FileParseError::BufferOverflow),
        "Expected BufferOverflow, got {:?}",
        err
    );
}

#[test]
fn test_utf8_multibyte() {
    let (mut buffer, mut name_field) = make_name_field();
    let new_name = "ñáç".to_string();
    let bytes = new_name.as_bytes();
    let size = name_field.size;
    let offset = name_field.offset;

    assert!(
        bytes.len() <= size,
        "UTF-8 byte length ({}) exceeds field size ({})",
        bytes.len(),
        size
    );

    name_field.update(&mut buffer, &new_name).unwrap();

    assert_eq!(
        &buffer[offset..offset + bytes.len()],
        bytes,
        "UTF-8 bytes were not written correctly"
    );

    assert!(
        buffer[offset + bytes.len()..offset + size]
            .iter()
            .all(|&b| b == 0),
        "Remaining bytes were not zero-padded after UTF-8 write"
    );
}

#[test]
fn test_string_overflow_leaves_buffer_unchanged() {
    let (mut buffer, mut name_field) = make_name_field();
    let before = buffer.clone();
    let overflow = "B".repeat(name_field.size + 3);

    let err = name_field.update(&mut buffer, &overflow).unwrap_err();

    assert!(matches!(err, FileParseError::BufferOverflow));
    assert_eq!(buffer, before, "A failed string update must not touch the buffer");
}

#[test]
fn test_numeric_update_full_width() {
    let mut buffer = vec![0u8; 8];
    let mut field = Field::new(0u64, 0, 8);
    field.update(&mut buffer, u64::MAX).unwrap();
    assert_eq!(&buffer[..], &u64::MAX.to_le_bytes()[..]);
    assert_eq!(field.value, u64::MAX);
}

#[test]
fn test_extract_u16_u32_u64_le() {
    let buffer = vec![0x11u8, 0x22, 0x33, 0x44, 0x55, 0x66, 0x77, 0x88, 0x99];
    assert_eq!(hexspell::utils::extract_u16(&buffer, 0).unwrap(), 0x2211);
    assert_eq!(hexspell::utils::extract_u32(&buffer, 1).unwrap(), 0x55443322);
    assert_eq!(
        hexspell::utils::extract_u64(&buffer, 1).unwrap(),
        0x9988776655443322
    );
    let err = hexspell::utils::extract_u64(&buffer, 2).unwrap_err();
    assert!(matches!(err, FileParseError::BufferOverflow));
    let err = hexspell::utils::extract_u32(&buffer, 6).unwrap_err();
    assert!(matches!(err, FileParseError::BufferOverflow));
    let err = hexspell::utils::extract_u16(&buffer, 8).unwrap_err();
    assert!(matches!(err, FileParseError::BufferOverflow));
}

#[test]
fn test_error_messages() {
    assert_eq!(
        FileParseError::InvalidFileFormat.message(),
        "Invalid file format."
    );
    assert_eq!(FileParseError::BufferOverflow.message(), "Data out of bounds.");
    assert_eq!(FileParseError::ValueTooLarge.message(), "Value exceeds field size.");
    assert_eq!(
        FileParseError::UnsupportedFeature("elf32".to_string()).message(),
        "Unsupported feature: elf32"
    );
}
