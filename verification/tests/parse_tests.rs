use wldd_rs::{parse, ParseError};

fn put_u16(buf: &mut Vec<u8>, off: usize, v: u16) {
    buf[off] = (v & 0xff) as u8;
    buf[off + 1] = (v >> 8) as u8;
}

fn put_u32(buf: &mut Vec<u8>, off: usize, v: u32) {
    buf[off] = (v & 0xff) as u8;
    buf[off + 1] = ((v >> 8) & 0xff) as u8;
    buf[off + 2] = ((v >> 16) & 0xff) as u8;
    buf[off + 3] = ((v >> 24) & 0xff) as u8;
}

fn put_bytes(buf: &mut Vec<u8>, off: usize, bytes: &[u8]) {
    for (k, b) in bytes.iter().enumerate() {
        buf[off + k] = *b;
    }
}

// Layout constants of the synthetic image the tests build:
// legacy header at 0 (64 bytes), modern header at 64, optional header at 88
// with the 32-bit magic and a declared size of 120, data-directory import
// entry at 88 + 96 + 8 = 192, section table at 208 (two 40-byte records),
// section one raw data at 512, section two raw data at 768.
fn minimal_image(import_va: u32, import_size: u32) -> Vec<u8> {
    let mut buf = vec![0u8; 1024];
    buf[0] = 0x4d; // 'M'
    buf[1] = 0x5a; // 'Z'
    put_u32(&mut buf, 0x3c, 64);
    put_bytes(&mut buf, 64, b"PE\0\0");
    put_u16(&mut buf, 64 + 6, 2); // two sections
    put_u16(&mut buf, 64 + 20, 120); // declared optional-header size
    put_u16(&mut buf, 88, 0x10b); // 32-bit layout
    put_u32(&mut buf, 192, import_va);
    put_u32(&mut buf, 196, import_size);
    // section one: mapped [0x1000, 0x1100), raw data at 512
    put_u32(&mut buf, 208 + 8, 0x100);
    put_u32(&mut buf, 208 + 12, 0x1000);
    put_u32(&mut buf, 208 + 16, 0x100);
    put_u32(&mut buf, 208 + 20, 512);
    // section two: mapped [0x2000, 0x2100), raw data at 768
    put_u32(&mut buf, 248 + 8, 0x100);
    put_u32(&mut buf, 248 + 12, 0x2000);
    put_u32(&mut buf, 248 + 16, 0x100);
    put_u32(&mut buf, 248 + 20, 768);
    buf
}

// Adds an import table at virtual address 0x1000 (file offset 512) with two
// descriptors followed by the zero sentinel; the names live in the second
// section, so translating their addresses crosses a section boundary.
fn image_with_two_imports() -> Vec<u8> {
    let mut buf = minimal_image(0x1000, 60);
    // descriptor one: name at virtual address 0x2000 (file offset 768)
    put_u32(&mut buf, 512 + 12, 0x2000);
    // descriptor two: name at virtual address 0x2010 (file offset 784)
    put_u32(&mut buf, 532 + 12, 0x2010);
    // bytes 552..572 stay zero: the sentinel record
    put_bytes(&mut buf, 768, b"A.dll\0");
    put_bytes(&mut buf, 784, b"B.dll\0");
    buf
}

#[test]
fn two_imports_in_declared_order() {
    let buf = image_with_two_imports();
    let deps = parse(&buf).unwrap();
    assert_eq!(deps, vec![b"A.dll".to_vec(), b"B.dll".to_vec()]);
}

#[test]
fn import_va_zero_is_ok_empty() {
    let buf = minimal_image(0, 60);
    assert_eq!(parse(&buf).unwrap(), Vec::<Vec<u8>>::new());
}

#[test]
fn import_size_zero_is_ok_empty() {
    let buf = minimal_image(0x1000, 0);
    assert_eq!(parse(&buf).unwrap(), Vec::<Vec<u8>>::new());
}

#[test]
fn corrupt_legacy_signature_reported_first() {
    let mut buf = image_with_two_imports();
    buf[1] = 0x00;
    // malformed downstream fields must not mask the signature check
    put_u32(&mut buf, 0x3c, 0xffff_fff0);
    put_u16(&mut buf, 88, 0x305);
    assert_eq!(parse(&buf), Err(ParseError::BadSignature));
}

#[test]
fn empty_buffer_is_bad_signature() {
    assert_eq!(parse(&Vec::new()), Err(ParseError::BadSignature));
}

#[test]
fn corrupt_modern_signature() {
    let mut buf = image_with_two_imports();
    buf[65] = b'X';
    assert_eq!(parse(&buf), Err(ParseError::BadSignature));
}

#[test]
fn header_offset_past_end_is_truncated() {
    let mut buf = vec![0u8; 64];
    buf[0] = 0x4d;
    buf[1] = 0x5a;
    put_u32(&mut buf, 0x3c, 0x10000);
    assert_eq!(parse(&buf), Err(ParseError::Truncated));
}

#[test]
fn file_ends_inside_modern_header() {
    let mut buf = image_with_two_imports();
    buf.truncate(70);
    assert_eq!(parse(&buf), Err(ParseError::Truncated));
}

#[test]
fn unknown_optional_magic_is_unsupported() {
    let mut buf = image_with_two_imports();
    put_u16(&mut buf, 88, 0x305);
    assert_eq!(parse(&buf), Err(ParseError::UnsupportedFormat));
}

#[test]
fn import_va_outside_every_section_is_bad_rva() {
    let buf = minimal_image(0x5000, 60);
    assert_eq!(parse(&buf), Err(ParseError::BadRva));
}

#[test]
fn name_va_outside_every_section_is_bad_rva() {
    let mut buf = image_with_two_imports();
    put_u32(&mut buf, 512 + 12, 0x5000);
    assert_eq!(parse(&buf), Err(ParseError::BadRva));
}

#[test]
fn unterminated_name_is_truncated() {
    let mut buf = image_with_two_imports();
    // name at the very end of the buffer, no zero byte before the end
    put_u32(&mut buf, 512 + 12, 0x20f0);
    for k in 1008..1024 {
        buf[k] = b'x';
    }
    assert_eq!(parse(&buf), Err(ParseError::Truncated));
}

#[test]
fn unterminated_descriptor_run_is_truncated() {
    let mut buf = image_with_two_imports();
    // import table right at the end of the mapped range: file offset 1008,
    // so the first record leaves the buffer before any sentinel
    put_u32(&mut buf, 192, 0x20f0);
    buf[1008 + 12] = 0x01;
    assert_eq!(parse(&buf), Err(ParseError::Truncated));
}

#[test]
fn duplicate_names_are_preserved() {
    let mut buf = image_with_two_imports();
    // both descriptors name the same library
    put_u32(&mut buf, 532 + 12, 0x2000);
    let deps = parse(&buf).unwrap();
    assert_eq!(deps, vec![b"A.dll".to_vec(), b"A.dll".to_vec()]);
}

#[test]
fn sixty_four_bit_layout_is_supported() {
    // same image, 64-bit magic: the import entry moves 16 bytes further in
    let mut buf = vec![0u8; 1024];
    buf[0] = 0x4d;
    buf[1] = 0x5a;
    put_u32(&mut buf, 0x3c, 64);
    put_bytes(&mut buf, 64, b"PE\0\0");
    put_u16(&mut buf, 64 + 6, 2);
    put_u16(&mut buf, 64 + 20, 136);
    put_u16(&mut buf, 88, 0x20b);
    put_u32(&mut buf, 88 + 112 + 8, 0x1000);
    put_u32(&mut buf, 88 + 112 + 12, 60);
    let soff = 88 + 136;
    put_u32(&mut buf, soff + 8, 0x100);
    put_u32(&mut buf, soff + 12, 0x1000);
    put_u32(&mut buf, soff + 16, 0x100);
    put_u32(&mut buf, soff + 20, 512);
    put_u32(&mut buf, soff + 40 + 8, 0x100);
    put_u32(&mut buf, soff + 40 + 12, 0x2000);
    put_u32(&mut buf, soff + 40 + 16, 0x100);
    put_u32(&mut buf, soff + 40 + 20, 768);
    put_u32(&mut buf, 512 + 12, 0x2000);
    put_bytes(&mut buf, 768, b"C.dll\0");
    let deps = parse(&buf).unwrap();
    assert_eq!(deps, vec![b"C.dll".to_vec()]);
}
