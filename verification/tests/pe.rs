use hexspell::errors::FileParseError;
use hexspell::pe;
use hexspell::pe::section::Characteristics;

/// Parsing an invalid PE buffer should return an error
#[test]
fn test_pe_invalid_buffer() {
    let buffer = vec![0u8; 10];
    let result = pe::PE::from_buffer(buffer);
    assert!(matches!(result, Err(FileParseError::InvalidFileFormat)));
}

fn put16(buffer: &mut Vec<u8>, off: usize, v: u16) {
    buffer[off..off + 2].copy_from_slice(&v.to_le_bytes());
}

fn put32(buffer: &mut Vec<u8>, off: usize, v: u32) {
    buffer[off..off + 4].copy_from_slice(&v.to_le_bytes());
}

// A minimal PE32 image with one 16-byte `.text` section whose stored
// checksum is correct.
fn sample_pe() -> Vec<u8> {
    let mut b = vec![0u8; 528];
    b[0] = 0x4D;
    b[1] = 0x5A;
    put32(&mut b, 0x3C, 64); // e_lfanew
    let po = 64;
    put16(&mut b, po + 4, 0x014C); // machine: x86
    put16(&mut b, po + 6, 1); // number of sections
    put16(&mut b, po + 20, 96); // optional header size
    let oo = 88;
    put16(&mut b, oo, 0x10B); // PE32 magic
    put32(&mut b, po + 40, 0x1000); // entry point
    put32(&mut b, oo + 20, 0x1000); // base of code
    put32(&mut b, oo + 24, 0x2000); // base of data
    put32(&mut b, oo + 28, 0x400000); // image base
    put32(&mut b, oo + 32, 16); // section alignment
    put32(&mut b, oo + 36, 16); // file alignment
    put32(&mut b, po + 80, 0x1010); // size of image
    put32(&mut b, oo + 60, 512); // size of headers
    put16(&mut b, oo + 68, 3); // subsystem
    put16(&mut b, oo + 70, 0); // dll characteristics
    let so = 184;
    b[so..so + 8].copy_from_slice(b".text\0\0\0");
    put32(&mut b, so + 8, 0x10); // virtual size
    put32(&mut b, so + 12, 0x1000); // virtual address
    put32(&mut b, so + 16, 0x10); // size of raw data
    put32(&mut b, so + 20, 512); // pointer to raw data
    put32(&mut b, so + 36, 0x60000020); // characteristics
    for i in 512..528 {
        b[i] = 0x90;
    }
    put32(&mut b, po + 88, 0x9595); // stored checksum
    b
}

#[test]
fn test_pe_parse_values() {
    let pe_file = pe::PE::from_buffer(sample_pe()).expect("Failed to parse PE");
    assert_eq!(pe_file.header.architecture.value, "x86");
    assert_eq!(pe_file.header.entry_point.value, 0x1000);
    assert_eq!(pe_file.header.size_of_image.value, 0x1010);
    assert_eq!(pe_file.header.number_of_sections.value, 1);
    assert_eq!(pe_file.header.checksum.value, 0x9595);
    assert_eq!(pe_file.header.section_alignment.value, 16);
    assert_eq!(pe_file.header.file_alignment.value, 16);
    assert_eq!(pe_file.header.size_of_headers.value, 512);
    assert_eq!(pe_file.header.base_of_code.value, 0x1000);
    assert_eq!(pe_file.header.base_of_data.value, 0x2000);
    assert_eq!(pe_file.header.subsystem.value, 3);
    assert_eq!(pe_file.header.dll_characteristics.value, 0);
    assert!(matches!(pe_file.header.pe_type, pe::header::PEType::PE32));
    match pe_file.header.image_base.value {
        pe::header::ImageBase::Base32(v) => assert_eq!(v, 0x400000),
        pe::header::ImageBase::Base64(_) => panic!("Incorrect type for image_base, expected u32"),
    }
    assert_eq!(pe_file.sections.len(), 1);
    let s = &pe_file.sections[0];
    assert_eq!(s.name.value, ".text");
    assert_eq!(s.virtual_size.value, 0x10);
    assert_eq!(s.virtual_address.value, 0x1000);
    assert_eq!(s.size_of_raw_data.value, 0x10);
    assert_eq!(s.pointer_to_raw_data.value, 512);
    assert_eq!(s.characteristics.value, 0x60000020);
}

/// The recomputed checksum matches the one stored in a known-good image.
#[test]
fn test_pe_checksum_matches_stored() {
    let pe_file = pe::PE::from_buffer(sample_pe()).expect("Failed to parse PE");
    let calculated = pe_file.calc_checksum();
    assert_eq!(
        pe_file.header.checksum.value, calculated,
        "Calculated checksum does not match the stored one"
    );
}

/// A parsed PE keeps its buffer byte for byte, so writing it back
/// reproduces the file exactly.
#[test]
fn test_pe_round_trip() {
    let buffer = sample_pe();
    let original = buffer.clone();
    let pe_file = pe::PE::from_buffer(buffer).expect("Failed to parse PE");
    assert_eq!(pe_file.buffer, original);
}

/// Corrupting the signature of a valid PE yields InvalidFileFormat.
#[test]
fn test_pe_corrupt_magic() {
    let mut buffer = sample_pe();
    buffer[0] = b'X';
    buffer[1] = b'Y';
    let result = pe::PE::from_buffer(buffer);
    assert!(matches!(result, Err(FileParseError::InvalidFileFormat)));
}

/// An unknown optional-header magic yields InvalidFileFormat.
#[test]
fn test_pe_bad_optional_magic() {
    let mut buffer = sample_pe();
    put16(&mut buffer, 88, 0x555);
    let result = pe::PE::from_buffer(buffer);
    assert!(matches!(result, Err(FileParseError::InvalidFileFormat)));
}

/// A section table that runs past the buffer yields BufferOverflow.
#[test]
fn test_pe_truncated_section_table() {
    let mut buffer = sample_pe();
    buffer.truncate(200);
    let result = pe::PE::from_buffer(buffer);
    assert!(matches!(result, Err(FileParseError::BufferOverflow)));
}

#[test]
fn test_pe_generate_section_header_values() {
    let pe_file = pe::PE::from_buffer(sample_pe()).expect("Failed to parse PE");
    let section = pe_file
        .generate_section_header(".demo", 20, 0x60000020)
        .expect("Error generating new section header");
    assert_eq!(section.name.value, ".demo\0\0\0");
    assert_eq!(section.name.offset, 224);
    // 20 rounded up to the alignment of 16
    assert_eq!(section.virtual_size.value, 32);
    // end of .text (0x1000 + 0x10) rounded up to 16
    assert_eq!(section.virtual_address.value, 0x1010);
    assert_eq!(section.size_of_raw_data.value, 32);
    // end of .text raw data (512 + 16) rounded up to 16
    assert_eq!(section.pointer_to_raw_data.value, 528);
    assert_eq!(section.characteristics.value, 0x60000020);
    assert_eq!(section.number_of_relocations.value, 0);
}

/// Injecting a section yields one more section, a size of image equal to
/// the new section's virtual end, and a stored checksum that matches a
/// recomputation over the resulting bytes.
#[test]
fn test_pe_add_section() {
    let mut pe_file = pe::PE::from_buffer(sample_pe()).expect("Failed to parse PE");
    let section = pe_file
        .generate_section_header(".demo", 20, 0x60000020)
        .expect("Error generating new section header");
    let new_vaddr = section.virtual_address.value;
    let new_vsize = section.virtual_size.value;
    let payload: Vec<u8> = vec![0xCC; 20];
    pe_file
        .add_section(section, payload.clone())
        .expect("Error adding new section");

    assert_eq!(pe_file.sections.len(), 2);
    assert_eq!(pe_file.header.number_of_sections.value, 2);
    assert_eq!(
        pe_file.header.size_of_image.value,
        new_vaddr + new_vsize
    );
    // payload present at its raw pointer
    assert_eq!(&pe_file.buffer[528..548], &payload[..]);
    // the rewritten checksum agrees with a fresh computation
    assert_eq!(pe_file.header.checksum.value, pe_file.calc_checksum());
    // the new header record is in the section table
    assert_eq!(&pe_file.buffer[224..229], b".demo");
}

#[test]
fn test_pe_section_flags() {
    let pe_file = pe::PE::from_buffer(sample_pe()).expect("Failed to parse PE");
    let s = &pe_file.sections[0];
    // characteristics 0x60000020: code, executable, readable
    assert!(s.is_executable());
    assert!(s.is_readable());
    assert!(s.has_code());
    assert!(!s.is_writable());
    assert!(!s.has_initialized_data());
    assert!(!s.has_uninitialized_data());
    assert!(!s.is_discardable());
    assert!(!s.has_tls());
}

#[test]
fn test_pe_characteristics_to_u32() {
    assert_eq!(Characteristics::Executable.to_u32(), 0x20000000);
    assert_eq!(Characteristics::Writeable.to_u32(), 0x80000000);
    assert_eq!(Characteristics::Readable.to_u32(), 0x40000000);
    assert_eq!(Characteristics::Code.to_u32(), 0x00000020);
    assert_eq!(Characteristics::Discardable.to_u32(), 0x02000000);
    assert_eq!(Characteristics::Tls.to_u32(), 0x00000400);
}

#[test]
fn test_pe_architecture_names() {
    assert_eq!(pe::header::Architecture::from_u16(0x014C).to_string(), "x86");
    assert_eq!(pe::header::Architecture::from_u16(0x8664).to_string(), "x64");
    assert_eq!(pe::header::Architecture::from_u16(0x1234).to_string(), "Unknown");
}

#[test]
fn test_pe_extract_strings() {
    let mut buffer = sample_pe();
    buffer[512..528].copy_from_slice(b"ab!hello_1+x&&yz");
    let pe_file = pe::PE::from_buffer(buffer).expect("Failed to parse PE");
    let strings = pe_file.sections[0]
        .extract_strings(&pe_file.buffer, 2)
        .expect("Error extracting strings");
    assert_eq!(strings, vec!["ab", "hello_1", "yz"]);
}

#[test]
fn test_pe_extract_strings_out_of_bounds() {
    let pe_file = pe::PE::from_buffer(sample_pe()).expect("Failed to parse PE");
    let result = pe_file.sections[0].extract_strings(&pe_file.buffer[..300], 2);
    assert!(matches!(result, Err(FileParseError::BufferOverflow)));
}

#[test]
fn test_pe_parse_section_name_trimming() {
    let buffer = sample_pe();
    let section = pe::section::PeSection::parse_section(&buffer, 184)
        .expect("Failed to parse section header");
    assert_eq!(section.name.value, ".text");
    assert_eq!(section.name.offset, 184);
    assert_eq!(section.name.size, 8);
}

/// Rewriting a section name through its field updates the buffer in place
/// and pads with zeros.
#[test]
fn test_pe_rename_section_in_buffer() {
    let mut pe_file = pe::PE::from_buffer(sample_pe()).expect("Failed to parse PE");
    let mut field = hexspell::field::Field::new(
        String::new(),
        pe_file.sections[0].name.offset,
        pe_file.sections[0].name.size,
    );
    field.update(&mut pe_file.buffer, ".test").unwrap();
    assert_eq!(&pe_file.buffer[184..189], b".test");
    assert_eq!(&pe_file.buffer[189..192], &[0u8, 0, 0]);
}
