use multiboot2::tag::{frame, TagHeader};
use multiboot2::util::{read_cstring, read_u32, read_u64, validate_cstring};
use multiboot2::{RawTag, Tag, TagError, TagType, VerifyTag};

fn tag_bytes(type_code: u32, payload: &[u8]) -> Vec<u8> {
    let mut bytes = Vec::new();
    bytes.extend_from_slice(&type_code.to_le_bytes());
    bytes.extend_from_slice(&((payload.len() + 8) as u32).to_le_bytes());
    bytes.extend_from_slice(payload);
    bytes
}

#[test]
fn read_u32_is_little_endian() {
    let bytes = [0x78, 0x56, 0x34, 0x12];
    assert_eq!(read_u32(&bytes, 0), Ok(0x1234_5678));
}

#[test]
fn read_u32_reads_at_the_offset() {
    let bytes = [0xaa, 0x01, 0x00, 0x00, 0x80, 0xbb];
    assert_eq!(read_u32(&bytes, 1), Ok(0x8000_0001));
    assert_eq!(read_u32(&bytes, 2), Ok(0xbb80_0000));
}

#[test]
fn read_u32_takes_the_largest_value() {
    assert_eq!(read_u32(&[0xff; 4], 0), Ok(u32::MAX));
}

#[test]
fn read_u32_refuses_what_does_not_fit() {
    let bytes = [1, 2, 3, 4, 5];
    assert_eq!(read_u32(&bytes, 2), Err(TagError::OutOfBounds));
    assert_eq!(read_u32(&bytes, 5), Err(TagError::OutOfBounds));
    assert_eq!(read_u32(&bytes, 6), Err(TagError::OutOfBounds));
    assert_eq!(read_u32(&bytes, usize::MAX), Err(TagError::OutOfBounds));
    assert_eq!(read_u32(&[], 0), Err(TagError::OutOfBounds));
}

#[test]
fn read_u64_is_little_endian() {
    let bytes = [0xef, 0xcd, 0xab, 0x89, 0x67, 0x45, 0x23, 0x01];
    assert_eq!(read_u64(&bytes, 0), Ok(0x0123_4567_89ab_cdef));
}

#[test]
fn read_u64_takes_the_largest_value() {
    assert_eq!(read_u64(&[0xff; 9], 1), Ok(u64::MAX));
}

#[test]
fn read_u64_refuses_what_does_not_fit() {
    let bytes = [0u8; 11];
    assert_eq!(read_u64(&bytes, 3), Ok(0));
    assert_eq!(read_u64(&bytes, 4), Err(TagError::OutOfBounds));
    assert_eq!(read_u64(&bytes, 12), Err(TagError::OutOfBounds));
    assert_eq!(read_u64(&bytes, usize::MAX - 3), Err(TagError::OutOfBounds));
}

#[test]
fn cstring_needs_a_terminator() {
    assert!(validate_cstring(b"abc\0"));
    assert!(!validate_cstring(b"abc"));
    assert!(!validate_cstring(b"abc\0d"));
}

#[test]
fn cstring_is_never_empty() {
    assert!(!validate_cstring(b""));
    assert!(validate_cstring(b"\0"));
    assert_eq!(read_cstring(b"\0"), Some(""));
}

#[test]
fn cstring_needs_well_formed_text() {
    assert!(!validate_cstring(&[0xff, 0x00]));
    assert!(!validate_cstring(&[b'a', 0xc3, 0x00]));
    assert!(!validate_cstring(&[0xed, 0xa0, 0x80, 0x00]));
    assert!(!validate_cstring(&[0xc0, 0x80, 0x00]));
    assert!(validate_cstring(&[0xc3, 0xa9, 0x00]));
}

#[test]
fn cstring_may_hold_a_null_inside() {
    assert!(validate_cstring(b"a\0b\0"));
    assert_eq!(read_cstring(b"a\0b\0"), Some("a\0b"));
}

#[test]
fn read_cstring_drops_the_terminator() {
    assert_eq!(read_cstring(b"grub\0"), Some("grub"));
    assert_eq!(read_cstring("h\u{e9}llo \u{4e16}\u{754c}\0".as_bytes()), Some("h\u{e9}llo \u{4e16}\u{754c}"));
}

#[test]
fn read_cstring_gives_nothing_for_a_bad_payload() {
    assert_eq!(read_cstring(b""), None);
    assert_eq!(read_cstring(b"grub"), None);
    assert_eq!(read_cstring(&[0x80, 0x00]), None);
}

#[test]
fn header_is_two_little_endian_fields() {
    let bytes = [0x06, 0x00, 0x00, 0x00, 0x28, 0x01, 0x00, 0x00];
    assert_eq!(TagHeader::read(&bytes, 0), Ok(TagHeader { type_code: 6, total_size: 0x128 }));
}

#[test]
fn header_is_read_at_the_offset() {
    let mut bytes = vec![0xee; 3];
    bytes.extend_from_slice(&tag_bytes(0x0a0b_0c0d, &[]));
    assert_eq!(TagHeader::read(&bytes, 3), Ok(TagHeader { type_code: 0x0a0b_0c0d, total_size: 8 }));
}

#[test]
fn header_is_not_validated() {
    let bytes = [0xff, 0xff, 0xff, 0xff, 0x00, 0x00, 0x00, 0x00];
    assert_eq!(TagHeader::read(&bytes, 0), Ok(TagHeader { type_code: u32::MAX, total_size: 0 }));
}

#[test]
fn header_needs_eight_bytes() {
    let bytes = [0u8; 10];
    assert_eq!(TagHeader::read(&bytes, 2), Ok(TagHeader { type_code: 0, total_size: 0 }));
    assert_eq!(TagHeader::read(&bytes, 3), Err(TagError::OutOfBounds));
    assert_eq!(TagHeader::read(&bytes, 11), Err(TagError::OutOfBounds));
    assert_eq!(TagHeader::read(&bytes[..7], 0), Err(TagError::OutOfBounds));
}

#[test]
fn frame_borrows_the_declared_payload() {
    let mut bytes = vec![0x11; 8];
    bytes.extend_from_slice(&tag_bytes(3, b"xyz"));
    bytes.extend_from_slice(&[0x22; 5]);
    let (header, payload) = frame(&bytes, 8).unwrap();
    assert_eq!(header, TagHeader { type_code: 3, total_size: 11 });
    assert_eq!(payload, b"xyz");
}

#[test]
fn frame_takes_a_tag_that_ends_with_the_buffer() {
    let bytes = tag_bytes(4, &[1, 2, 3, 4, 5, 6, 7, 8]);
    let (header, payload) = frame(&bytes, 0).unwrap();
    assert_eq!(header.total_size, 16);
    assert_eq!(payload, &[1, 2, 3, 4, 5, 6, 7, 8]);
}

#[test]
fn frame_refuses_a_size_below_the_header() {
    for size in 0u32..8 {
        let mut bytes = vec![0u8; 16];
        bytes[4..8].copy_from_slice(&size.to_le_bytes());
        assert_eq!(frame(&bytes, 0).err(), Some(TagError::OutOfBounds));
    }
}

#[test]
fn frame_refuses_a_size_past_the_end() {
    let mut bytes = tag_bytes(1, b"abc\0");
    bytes[4..8].copy_from_slice(&13u32.to_le_bytes());
    assert_eq!(frame(&bytes, 0).err(), Some(TagError::OutOfBounds));
    bytes[4..8].copy_from_slice(&u32::MAX.to_le_bytes());
    assert_eq!(frame(&bytes, 0).err(), Some(TagError::OutOfBounds));
    bytes[4..8].copy_from_slice(&12u32.to_le_bytes());
    assert!(frame(&bytes, 0).is_ok());
}

#[test]
fn frame_refuses_a_header_that_does_not_fit() {
    let bytes = tag_bytes(1, b"abc\0");
    assert_eq!(frame(&bytes, 5).err(), Some(TagError::OutOfBounds));
    assert_eq!(frame(&bytes, 13).err(), Some(TagError::OutOfBounds));
}

#[test]
fn reserved_codes_have_their_kinds() {
    assert_eq!(TagType::from_code(0), TagType::End);
    assert_eq!(TagType::from_code(1), TagType::BootCommandLine);
    assert_eq!(TagType::from_code(2), TagType::BootLoaderName);
    assert_eq!(TagType::from_code(3), TagType::Module);
    assert_eq!(TagType::from_code(4), TagType::BasicMemoryInfo);
    assert_eq!(TagType::from_code(5), TagType::BiosBootDevice);
    assert_eq!(TagType::from_code(6), TagType::MemoryMap);
    assert_eq!(TagType::from_code(9), TagType::ElfSections);
    assert_eq!(TagType::from_code(10), TagType::ApmTable);
}

#[test]
fn other_codes_are_unknown_and_kept() {
    assert_eq!(TagType::from_code(7), TagType::Unknown(7));
    assert_eq!(TagType::from_code(8), TagType::Unknown(8));
    assert_eq!(TagType::from_code(11), TagType::Unknown(11));
    assert_eq!(TagType::from_code(u32::MAX), TagType::Unknown(u32::MAX));
}

#[test]
fn kinds_give_their_codes() {
    assert_eq!(TagType::End.code(), 0);
    assert_eq!(TagType::BootCommandLine.code(), 1);
    assert_eq!(TagType::BootLoaderName.code(), 2);
    assert_eq!(TagType::Module.code(), 3);
    assert_eq!(TagType::BasicMemoryInfo.code(), 4);
    assert_eq!(TagType::BiosBootDevice.code(), 5);
    assert_eq!(TagType::MemoryMap.code(), 6);
    assert_eq!(TagType::ElfSections.code(), 9);
    assert_eq!(TagType::ApmTable.code(), 10);
    assert_eq!(TagType::Unknown(77).code(), 77);
}

#[test]
fn classifying_keeps_the_code() {
    for code in (0u32..64).chain([255, 256, 65_536, u32::MAX - 1, u32::MAX]) {
        assert_eq!(TagType::from_code(code).code(), code);
    }
}

#[test]
fn raw_tag_shows_header_and_payload() {
    let mut bytes = tag_bytes(4, &[9, 8, 7, 6, 5, 4, 3, 2]);
    bytes.extend_from_slice(&[0xcc; 4]);
    let tag = RawTag::parse(&bytes).unwrap();
    assert_eq!(tag.type_code(), 4);
    assert_eq!(tag.tag_type(), TagType::BasicMemoryInfo);
    assert_eq!(tag.size(), 16);
    assert_eq!(tag.payload(), &[9, 8, 7, 6, 5, 4, 3, 2]);
}

#[test]
fn raw_tag_checks_bounds_only() {
    assert_eq!(RawTag::parse(&tag_bytes(12345, &[])).map(|t| t.size()), Ok(8));
    assert_eq!(RawTag::parse(&[0u8; 7]).err(), Some(TagError::OutOfBounds));
    assert_eq!(RawTag::parse(&tag_bytes(4, &[1, 2])[..9]).err(), Some(TagError::OutOfBounds));
}

#[test]
fn tag_takes_the_variant_of_its_code() {
    let kinds: [(u32, TagType); 12] = [
        (0, TagType::End),
        (1, TagType::BootCommandLine),
        (2, TagType::BootLoaderName),
        (3, TagType::Module),
        (4, TagType::BasicMemoryInfo),
        (5, TagType::BiosBootDevice),
        (6, TagType::MemoryMap),
        (7, TagType::Unknown(7)),
        (8, TagType::Unknown(8)),
        (9, TagType::ElfSections),
        (10, TagType::ApmTable),
        (11, TagType::Unknown(11)),
    ];
    for (code, kind) in kinds {
        let bytes = tag_bytes(code, &[0; 8]);
        assert_eq!(Tag::parse(&bytes).unwrap().kind(), kind);
    }
}

#[test]
fn tag_view_spans_the_declared_size() {
    let mut bytes = tag_bytes(3, b"module\0");
    bytes.extend_from_slice(b"behind");
    match Tag::parse(&bytes) {
        Ok(Tag::Module(tag)) => {
            assert_eq!(tag.size(), 15);
            assert_eq!(tag.payload(), b"module\0");
        },
        other => panic!("not a module tag: {:?}", other),
    }
}

#[test]
fn tag_parse_refuses_what_does_not_fit() {
    assert_eq!(Tag::parse(&[]).err(), Some(TagError::OutOfBounds));
    assert_eq!(Tag::parse(&tag_bytes(6, &[0; 8])[..15]).err(), Some(TagError::OutOfBounds));
}

#[test]
fn tags_without_a_payload_check_are_valid_by_code() {
    for code in [0u32, 3, 4, 5, 7, 9, 10, 99] {
        assert!(Tag::parse(&tag_bytes(code, &[1, 2, 3])).unwrap().is_valid());
    }
}

#[test]
fn tags_with_a_payload_check_are_held_to_it() {
    assert!(Tag::parse(&tag_bytes(1, b"quiet\0")).unwrap().is_valid());
    assert!(!Tag::parse(&tag_bytes(1, b"quiet")).unwrap().is_valid());
    assert!(Tag::parse(&tag_bytes(2, b"GRUB 2.06\0")).unwrap().is_valid());
    assert!(!Tag::parse(&tag_bytes(2, &[])).unwrap().is_valid());
    assert!(!Tag::parse(&tag_bytes(6, &[0; 4])).unwrap().is_valid());
}

#[test]
fn hand_made_tags_are_held_to_their_variant() {
    let bytes = tag_bytes(3, &[]);
    let module = RawTag::parse(&bytes).unwrap();
    assert!(Tag::Module(module).is_valid());
    assert!(!Tag::ApmTable(module).is_valid());
    assert!(Tag::Unknown(7).is_valid());
    assert!(!Tag::Unknown(6).is_valid());
    assert!(Tag::End.is_valid());
}
