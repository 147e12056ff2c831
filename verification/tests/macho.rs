use hexspell::errors::FileParseError;
use hexspell::macho;
use hexspell::macho::header::Endianness;

/// Parsing a buffer without a valid Mach-O magic number should fail
#[test]
fn test_macho_invalid_buffer() {
    let buffer = vec![0u8; 4];
    let result = macho::MachO::from_buffer(buffer);
    assert!(matches!(result, Err(FileParseError::InvalidFileFormat)));
}

/// Parsing a little-endian Mach-O buffer should succeed
#[test]
fn test_macho_parse_little_endian() {
    let buffer = vec![
        0xCE, 0xFA, 0xED, 0xFE, // magic (little-endian)
        0x07, 0x00, 0x00, 0x00, // cputype
        0x03, 0x00, 0x00, 0x00, // cpusubtype
        0x02, 0x00, 0x00, 0x00, // filetype
        0x00, 0x00, 0x00, 0x00, // ncmds
        0x00, 0x00, 0x00, 0x00, // sizeofcmds
        0x00, 0x00, 0x00, 0x00, // flags
    ];
    let macho_file = macho::MachO::from_buffer(buffer).expect("Error parsing little-endian MachO");
    assert_eq!(macho_file.header.endianness, Endianness::Little);
    assert_eq!(macho_file.header.magic.value, 0xFEEDFACE);
    assert_eq!(macho_file.header.cpu_type.value, 0x00000007);
    assert_eq!(macho_file.header.cpu_subtype.value, 0x00000003);
}

/// Missing load commands in a little-endian Mach-O should error
#[test]
fn test_macho_little_endian_missing_load_commands() {
    let buffer = vec![
        0xCE, 0xFA, 0xED, 0xFE, // magic (little-endian)
        0x07, 0x00, 0x00, 0x00, // cputype
        0x03, 0x00, 0x00, 0x00, // cpusubtype
        0x02, 0x00, 0x00, 0x00, // filetype
        0x01, 0x00, 0x00, 0x00, // ncmds = 1
        0x08, 0x00, 0x00, 0x00, // sizeofcmds = 8
        0x00, 0x00, 0x00, 0x00, // flags
    ];
    let result = macho::MachO::from_buffer(buffer);
    assert!(matches!(result, Err(FileParseError::BufferOverflow)));
}

/// Parsing a big-endian Mach-O buffer should succeed
#[test]
fn test_macho_parse_big_endian() {
    let buffer = vec![
        0xFE, 0xED, 0xFA, 0xCE, // magic (big-endian)
        0x00, 0x00, 0x00, 0x07, // cputype
        0x00, 0x00, 0x00, 0x03, // cpusubtype
        0x00, 0x00, 0x00, 0x02, // filetype
        0x00, 0x00, 0x00, 0x00, // ncmds
        0x00, 0x00, 0x00, 0x00, // sizeofcmds
        0x00, 0x00, 0x00, 0x00, // flags
    ];
    let macho_file = macho::MachO::from_buffer(buffer).expect("Error parsing big-endian MachO");
    assert_eq!(macho_file.header.endianness, Endianness::Big);
    assert_eq!(macho_file.header.magic.value, 0xFEEDFACE);
    assert_eq!(macho_file.header.cpu_type.value, 0x00000007);
    assert_eq!(macho_file.header.cpu_subtype.value, 0x00000003);
}

/// Missing load commands in a big-endian Mach-O should error
#[test]
fn test_macho_big_endian_missing_load_commands() {
    let buffer = vec![
        0xFE, 0xED, 0xFA, 0xCE, // magic (big-endian)
        0x00, 0x00, 0x00, 0x07, // cputype
        0x00, 0x00, 0x00, 0x03, // cpusubtype
        0x00, 0x00, 0x00, 0x02, // filetype
        0x00, 0x00, 0x00, 0x01, // ncmds = 1
        0x00, 0x00, 0x00, 0x08, // sizeofcmds = 8
        0x00, 0x00, 0x00, 0x00, // flags
    ];
    let result = macho::MachO::from_buffer(buffer);
    assert!(matches!(result, Err(FileParseError::BufferOverflow)));
}

/// Parsing a FAT Mach-O buffer should succeed
#[test]
fn test_macho_parse_fat() {
    let inner = vec![
        0xCE, 0xFA, 0xED, 0xFE, // magic (little-endian)
        0x07, 0x00, 0x00, 0x00, // cputype
        0x03, 0x00, 0x00, 0x00, // cpusubtype
        0x02, 0x00, 0x00, 0x00, // filetype
        0x00, 0x00, 0x00, 0x00, // ncmds
        0x00, 0x00, 0x00, 0x00, // sizeofcmds
        0x00, 0x00, 0x00, 0x00, // flags
    ];
    let offset = 0x20u32;
    let size = inner.len() as u32;
    let mut buffer = vec![
        0xCA, 0xFE, 0xBA, 0xBE, // FAT magic
        0x00, 0x00, 0x00, 0x01, // nfat_arch
        0x00, 0x00, 0x00, 0x07, // cputype
        0x00, 0x00, 0x00, 0x03, // cpusubtype
    ];
    buffer.extend_from_slice(&offset.to_be_bytes());
    buffer.extend_from_slice(&size.to_be_bytes());
    buffer.extend_from_slice(&0u32.to_be_bytes()); // align
    buffer.extend(vec![0u8; offset as usize - buffer.len()]);
    buffer.extend_from_slice(&inner);

    let macho_file = macho::MachO::from_buffer(buffer).expect("Error parsing FAT MachO");
    assert_eq!(macho_file.header.endianness, Endianness::Little);
    assert_eq!(macho_file.header.magic.value, 0xFEEDFACE);
}

/// Invalid offsets in a FAT Mach-O should error
#[test]
fn test_macho_fat_invalid_offset() {
    let mut buffer = vec![
        0xCA, 0xFE, 0xBA, 0xBE, // FAT magic
        0x00, 0x00, 0x00, 0x01, // nfat_arch
        0x00, 0x00, 0x00, 0x07, // cputype
        0x00, 0x00, 0x00, 0x03, // cpusubtype
    ];
    buffer.extend_from_slice(&0x40u32.to_be_bytes()); // offset beyond buffer
    buffer.extend_from_slice(&0x08u32.to_be_bytes()); // size
    buffer.extend_from_slice(&0u32.to_be_bytes()); // align

    let result = macho::MachO::from_buffer(buffer);
    assert!(matches!(result, Err(FileParseError::BufferOverflow)));
}

// A 32-bit little-endian Mach-O with one segment load command.
fn sample_macho_with_segment() -> Vec<u8> {
    let mut buffer = vec![0u8; 100];
    buffer[0..4].copy_from_slice(&[0xCE, 0xFA, 0xED, 0xFE]); // 32-bit LE magic
    buffer[4..8].copy_from_slice(&7u32.to_le_bytes()); // cputype
    buffer[8..12].copy_from_slice(&3u32.to_le_bytes()); // cpusubtype
    buffer[12..16].copy_from_slice(&2u32.to_le_bytes()); // filetype
    buffer[16..20].copy_from_slice(&1u32.to_le_bytes()); // ncmds
    buffer[20..24].copy_from_slice(&72u32.to_le_bytes()); // sizeofcmds
    buffer[24..28].copy_from_slice(&0u32.to_le_bytes()); // flags
    // load command at 28
    let c = 28;
    buffer[c..c + 4].copy_from_slice(&1u32.to_le_bytes()); // LC_SEGMENT
    buffer[c + 4..c + 8].copy_from_slice(&72u32.to_le_bytes()); // cmdsize
    buffer[c + 8..c + 14].copy_from_slice(b"__TEXT"); // name, NUL padded
    buffer[c + 24..c + 32].copy_from_slice(&0x1000u64.to_le_bytes()); // vmaddr
    buffer[c + 32..c + 40].copy_from_slice(&0x2000u64.to_le_bytes()); // vmsize
    buffer[c + 40..c + 48].copy_from_slice(&0x100u64.to_le_bytes()); // fileoff
    buffer[c + 48..c + 56].copy_from_slice(&0x200u64.to_le_bytes()); // filesize
    buffer[c + 56..c + 60].copy_from_slice(&7u32.to_le_bytes()); // maxprot
    buffer[c + 60..c + 64].copy_from_slice(&5u32.to_le_bytes()); // initprot
    buffer[c + 64..c + 68].copy_from_slice(&2u32.to_le_bytes()); // nsects
    buffer[c + 68..c + 72].copy_from_slice(&0u32.to_le_bytes()); // flags
    buffer
}

#[test]
fn test_macho_segment_values() {
    let buffer = sample_macho_with_segment();
    let macho_file = macho::MachO::from_buffer(buffer).expect("Error parsing MachO");
    assert_eq!(macho_file.load_commands.len(), 1);
    assert_eq!(macho_file.load_commands[0].cmd.value, 1);
    assert_eq!(macho_file.load_commands[0].cmdsize.value, 72);
    assert_eq!(macho_file.segments.len(), 1);
    let seg = &macho_file.segments[0];
    assert_eq!(seg.name, "__TEXT");
    assert_eq!(seg.vmaddr.value, 0x1000);
    assert_eq!(seg.vmsize.value, 0x2000);
    assert_eq!(seg.fileoff.value, 0x100);
    assert_eq!(seg.filesize.value, 0x200);
    assert_eq!(seg.maxprot.value, 7);
    assert_eq!(seg.initprot.value, 5);
    assert_eq!(seg.nsects.value, 2);
    assert_eq!(seg.flags.value, 0);
}

/// A parsed Mach-O keeps its buffer byte for byte, so writing it back
/// reproduces the file exactly.
#[test]
fn test_macho_round_trip() {
    let buffer = sample_macho_with_segment();
    let original = buffer.clone();
    let macho_file = macho::MachO::from_buffer(buffer).expect("Error parsing MachO");
    assert_eq!(macho_file.buffer, original);
}

/// A FAT wrapper yields the inner slice as the kept buffer.
#[test]
fn test_macho_fat_keeps_inner_slice() {
    let inner = sample_macho_with_segment();
    let offset = 0x20u32;
    let size = inner.len() as u32;
    let mut buffer = vec![
        0xCA, 0xFE, 0xBA, 0xBE, // FAT magic
        0x00, 0x00, 0x00, 0x01, // nfat_arch
        0x00, 0x00, 0x00, 0x07, // cputype
        0x00, 0x00, 0x00, 0x03, // cpusubtype
    ];
    buffer.extend_from_slice(&offset.to_be_bytes());
    buffer.extend_from_slice(&size.to_be_bytes());
    buffer.extend_from_slice(&0u32.to_be_bytes());
    buffer.extend(vec![0u8; offset as usize - buffer.len()]);
    buffer.extend_from_slice(&inner);

    let macho_file = macho::MachO::from_buffer(buffer).expect("Error parsing FAT MachO");
    assert_eq!(macho_file.buffer, inner);
    assert_eq!(macho_file.segments.len(), 1);
    assert_eq!(macho_file.segments[0].name, "__TEXT");
}

/// A buffer shorter than the magic word is a bounds failure.
#[test]
fn test_macho_too_short_for_magic() {
    let result = macho::MachO::from_buffer(vec![0u8; 2]);
    assert!(matches!(result, Err(FileParseError::BufferOverflow)));
}
