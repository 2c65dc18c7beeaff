use multiboot2::{BootCommandLineTag, BootLoaderNameTag, TagError, VerifyTag};

fn tag_bytes(type_code: u32, payload: &[u8]) -> Vec<u8> {
    let mut bytes = Vec::new();
    bytes.extend_from_slice(&type_code.to_le_bytes());
    bytes.extend_from_slice(&((payload.len() + 8) as u32).to_le_bytes());
    bytes.extend_from_slice(payload);
    bytes
}

#[test]
fn command_line_is_the_payload_without_terminator() {
    let bytes = tag_bytes(1, b"console=ttyS0\0");
    let tag = BootCommandLineTag::parse(&bytes).unwrap();
    assert!(tag.is_valid());
    assert_eq!(tag.string(), Ok("console=ttyS0"));
}

#[test]
fn command_line_size_is_the_declared_size() {
    let bytes = tag_bytes(1, b"console=ttyS0\0");
    let tag = BootCommandLineTag::parse(&bytes).unwrap();
    assert_eq!(tag.size(), 22);
}

#[test]
fn command_line_ends_at_the_declared_size() {
    let mut bytes = tag_bytes(1, b"root=/dev/sda1\0");
    bytes.extend_from_slice(b" init=/bin/sh\0");
    let tag = BootCommandLineTag::parse(&bytes).unwrap();
    assert_eq!(tag.size(), 23);
    assert_eq!(tag.string(), Ok("root=/dev/sda1"));
}

#[test]
fn command_line_may_be_empty_text() {
    let bytes = tag_bytes(1, b"\0");
    let tag = BootCommandLineTag::parse(&bytes).unwrap();
    assert!(tag.is_valid());
    assert_eq!(tag.string(), Ok(""));
}

#[test]
fn command_line_may_be_more_than_ascii() {
    let bytes = tag_bytes(1, "lang=fran\u{e7}ais \u{2713}\0".as_bytes());
    let tag = BootCommandLineTag::parse(&bytes).unwrap();
    assert!(tag.is_valid());
    assert_eq!(tag.string(), Ok("lang=fran\u{e7}ais \u{2713}"));
}

#[test]
fn command_line_with_bad_text_is_invalid_terminated_or_not() {
    let terminated = tag_bytes(1, &[b'a', 0xff, b'b', 0x00]);
    let open = tag_bytes(1, &[b'a', 0xff, b'b']);
    let cut_short = tag_bytes(1, &[b'a', 0xe2, 0x9c, 0x00]);
    for bytes in [terminated, open, cut_short] {
        let tag = BootCommandLineTag::parse(&bytes).unwrap();
        assert!(!tag.is_valid());
        assert_eq!(tag.string(), Err(TagError::Malformed));
    }
}

#[test]
fn command_line_without_terminator_is_invalid() {
    let bytes = tag_bytes(1, b"console=ttyS0");
    let tag = BootCommandLineTag::parse(&bytes).unwrap();
    assert!(!tag.is_valid());
    assert_eq!(tag.string(), Err(TagError::Malformed));
}

#[test]
fn command_line_without_payload_is_invalid() {
    let bytes = tag_bytes(1, b"");
    let tag = BootCommandLineTag::parse(&bytes).unwrap();
    assert_eq!(tag.size(), 8);
    assert!(!tag.is_valid());
    assert_eq!(tag.string(), Err(TagError::Malformed));
}

#[test]
fn command_line_with_another_code_is_invalid() {
    for code in [0u32, 2, 6, 21] {
        let bytes = tag_bytes(code, b"console=ttyS0\0");
        let tag = BootCommandLineTag::parse(&bytes).unwrap();
        assert!(!tag.is_valid());
        assert_eq!(tag.string(), Err(TagError::Malformed));
    }
}

#[test]
fn command_line_that_does_not_fit_is_out_of_bounds() {
    let bytes = tag_bytes(1, b"console=ttyS0\0");
    assert_eq!(BootCommandLineTag::parse(&bytes[..21]).err(), Some(TagError::OutOfBounds));
    assert_eq!(BootCommandLineTag::parse(&bytes[..7]).err(), Some(TagError::OutOfBounds));
    let mut short = bytes.clone();
    short[4..8].copy_from_slice(&7u32.to_le_bytes());
    assert_eq!(BootCommandLineTag::parse(&short).err(), Some(TagError::OutOfBounds));
}

#[test]
fn boot_loader_name_is_the_payload_without_terminator() {
    let bytes = tag_bytes(2, b"GRUB 2.06\0");
    let tag = BootLoaderNameTag::parse(&bytes).unwrap();
    assert!(tag.is_valid());
    assert_eq!(tag.string(), Ok("GRUB 2.06"));
}

#[test]
fn boot_loader_name_size_is_the_declared_size() {
    let bytes = tag_bytes(2, b"GRUB 2.06\0");
    let tag = BootLoaderNameTag::parse(&bytes).unwrap();
    assert_eq!(tag.size(), 18);
}

#[test]
fn boot_loader_name_with_bad_text_is_invalid_terminated_or_not() {
    let terminated = tag_bytes(2, &[0xc3, 0x28, 0x00]);
    let open = tag_bytes(2, &[0xc3, 0x28]);
    for bytes in [terminated, open] {
        let tag = BootLoaderNameTag::parse(&bytes).unwrap();
        assert!(!tag.is_valid());
        assert_eq!(tag.string(), Err(TagError::Malformed));
    }
}

#[test]
fn boot_loader_name_without_terminator_is_invalid() {
    let bytes = tag_bytes(2, b"GRUB");
    let tag = BootLoaderNameTag::parse(&bytes).unwrap();
    assert!(!tag.is_valid());
    assert_eq!(tag.string(), Err(TagError::Malformed));
}

#[test]
fn boot_loader_name_without_payload_is_invalid() {
    let bytes = tag_bytes(2, b"");
    let tag = BootLoaderNameTag::parse(&bytes).unwrap();
    assert!(!tag.is_valid());
    assert_eq!(tag.string(), Err(TagError::Malformed));
}

#[test]
fn boot_loader_name_with_another_code_is_invalid() {
    let bytes = tag_bytes(1, b"GRUB 2.06\0");
    let tag = BootLoaderNameTag::parse(&bytes).unwrap();
    assert!(!tag.is_valid());
    assert_eq!(tag.string(), Err(TagError::Malformed));
}

#[test]
fn boot_loader_name_that_does_not_fit_is_out_of_bounds() {
    let bytes = tag_bytes(2, b"GRUB 2.06\0");
    assert_eq!(BootLoaderNameTag::parse(&bytes[..17]).err(), Some(TagError::OutOfBounds));
    assert_eq!(BootLoaderNameTag::parse(&[]).err(), Some(TagError::OutOfBounds));
}
