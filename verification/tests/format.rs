use farlib::format::{
    has_magic, read_u32_le, write_magic, write_u32_le, HEADER_LEN, MAGIC_LEN, MANIFEST_PTR_AT,
    RECORD_FIXED_LEN, VERSION_AT,
};

#[test]
fn layout_constants() {
    assert_eq!(MAGIC_LEN, 8);
    assert_eq!(VERSION_AT, 8);
    assert_eq!(MANIFEST_PTR_AT, 12);
    assert_eq!(HEADER_LEN, 16);
    assert_eq!(RECORD_FIXED_LEN, 16);
}

#[test]
fn magic_is_the_ascii_text() {
    let mut out = Vec::new();
    write_magic(&mut out);
    assert_eq!(out, b"FAR!byAZ".to_vec());
    assert!(has_magic(&out));
}

#[test]
fn magic_is_appended_behind_what_is_there() {
    let mut out = vec![1u8, 2, 3];
    write_magic(&mut out);
    assert_eq!(out, b"\x01\x02\x03FAR!byAZ".to_vec());
    assert!(!has_magic(&out));
}

#[test]
fn has_magic_refuses_short_and_altered_buffers() {
    assert!(!has_magic(&Vec::new()));
    assert!(!has_magic(&b"FAR!byA".to_vec()));
    assert!(!has_magic(&b"FAR!byAz".to_vec()));
    assert!(!has_magic(&b"fAR!byAZ".to_vec()));
    assert!(has_magic(&b"FAR!byAZ and more".to_vec()));
}

#[test]
fn read_u32_le_exact_values() {
    let bytes = vec![0x78u8, 0x56, 0x34, 0x12, 0xff, 0xff, 0xff, 0xff, 0x00];
    assert_eq!(read_u32_le(&bytes, 0), Some(0x1234_5678));
    assert_eq!(read_u32_le(&bytes, 1), Some(0xff12_3456));
    assert_eq!(read_u32_le(&bytes, 4), Some(u32::MAX));
    assert_eq!(read_u32_le(&bytes, 5), Some(0x00ff_ffff));
}

#[test]
fn read_u32_le_agrees_with_std() {
    let bytes: Vec<u8> = (0u8..=255).collect();
    for at in 0..=252usize {
        let want = u32::from_le_bytes([bytes[at], bytes[at + 1], bytes[at + 2], bytes[at + 3]]);
        assert_eq!(read_u32_le(&bytes, at), Some(want));
    }
}

#[test]
fn read_u32_le_needs_four_bytes() {
    let bytes = vec![1u8, 2, 3, 4, 5];
    assert_eq!(read_u32_le(&bytes, 2), None);
    assert_eq!(read_u32_le(&bytes, 5), None);
    assert_eq!(read_u32_le(&bytes, usize::MAX), None);
    assert_eq!(read_u32_le(&vec![1u8, 2, 3], 0), None);
    assert_eq!(read_u32_le(&Vec::new(), 0), None);
}

#[test]
fn write_u32_le_exact_values() {
    let mut out = vec![9u8];
    write_u32_le(&mut out, 0x1234_5678);
    write_u32_le(&mut out, 0);
    write_u32_le(&mut out, u32::MAX);
    write_u32_le(&mut out, 256);
    assert_eq!(
        out,
        vec![9u8, 0x78, 0x56, 0x34, 0x12, 0, 0, 0, 0, 0xff, 0xff, 0xff, 0xff, 0, 1, 0, 0]
    );
}

#[test]
fn write_then_read_u32_le() {
    for x in [0u32, 1, 255, 256, 65535, 65536, 16_777_215, 16_777_216, 0xdead_beef, u32::MAX] {
        let mut out = Vec::new();
        write_u32_le(&mut out, x);
        assert_eq!(out, x.to_le_bytes().to_vec());
        assert_eq!(read_u32_le(&out, 0), Some(x));
    }
}
