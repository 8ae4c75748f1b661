use farlib::builder::{build, check_layout};
use farlib::model::{FarFile, FormatError};

fn file(name: &str, data: &[u8]) -> FarFile {
    FarFile { name: name.to_string(), size: data.len() as u32, data: data.to_vec() }
}

#[test]
fn example_archive_byte_for_byte() {
    let files = vec![file("a.txt", b"hi")];
    assert!(check_layout(&files));
    let bytes = build(1, &files).unwrap();
    let header_len = 16;
    let manifest_len = 4 + (4 + 4 + 4 + 4 + 5);
    assert_eq!(bytes.len(), header_len + manifest_len + 2);
    assert_eq!(bytes.len(), 43);
    let mut want = b"FAR!byAZ".to_vec();
    want.extend_from_slice(&[1, 0, 0, 0]);
    want.extend_from_slice(&[16, 0, 0, 0]);
    want.extend_from_slice(&[1, 0, 0, 0]);
    want.extend_from_slice(&[2, 0, 0, 0]);
    want.extend_from_slice(&[2, 0, 0, 0]);
    want.extend_from_slice(&[41, 0, 0, 0]);
    want.extend_from_slice(&[5, 0, 0, 0]);
    want.extend_from_slice(b"a.txt");
    want.extend_from_slice(b"hi");
    assert_eq!(bytes, want);
    assert_eq!(&bytes[header_len + manifest_len..], b"hi");
    assert_eq!(&bytes[41..43], b"hi");
}

#[test]
fn empty_archive_is_header_and_zero_count() {
    for version in [0u8, 1, 7, 255] {
        let files: Vec<FarFile> = Vec::new();
        assert!(check_layout(&files));
        let bytes = build(version, &files).unwrap();
        let mut want = b"FAR!byAZ".to_vec();
        want.extend_from_slice(&[version, 0, 0, 0, 16, 0, 0, 0, 0, 0, 0, 0]);
        assert_eq!(bytes, want);
        assert_eq!(bytes.len(), 20);
    }
}

#[test]
fn offsets_are_packed_without_gaps() {
    let files = vec![file("a", b"12345"), file("bb", b""), file("ccc", b"678"), file("", b"9")];
    assert!(check_layout(&files));
    let bytes = build(9, &files).unwrap();
    let manifest_len = 4 + 4 * 16 + (1 + 2 + 3 + 0);
    let data_start = 16 + manifest_len;
    assert_eq!(bytes.len(), data_start + 9);
    assert_eq!(&bytes[data_start..], b"123456789");
    let mut pos = 20;
    let mut offset = data_start as u32;
    for f in &files {
        assert_eq!(bytes[pos..pos + 4], f.size.to_le_bytes());
        assert_eq!(bytes[pos + 4..pos + 8], f.size.to_le_bytes());
        assert_eq!(bytes[pos + 8..pos + 12], offset.to_le_bytes());
        assert_eq!(bytes[pos + 12..pos + 16], (f.name.len() as u32).to_le_bytes());
        assert_eq!(&bytes[pos + 16..pos + 16 + f.name.len()], f.name.as_bytes());
        pos += 16 + f.name.len();
        offset += f.size;
    }
    assert_eq!(pos, data_start);
}

#[test]
fn names_are_written_as_utf8_with_their_byte_length() {
    let name = "caf\u{e9}-\u{65e5}\u{672c}-\u{1f600}";
    let files = vec![file(name, b"x")];
    let bytes = build(1, &files).unwrap();
    let name_len = name.len();
    assert_eq!(name_len, 3 + 2 + 1 + 6 + 1 + 4);
    assert_eq!(bytes[32..36], (name_len as u32).to_le_bytes());
    assert_eq!(&bytes[36..36 + name_len], name.as_bytes());
    assert_eq!(bytes.len(), 36 + name_len + 1);
    assert_eq!(bytes[28..32], ((36 + name_len) as u32).to_le_bytes());
}

#[test]
fn size_mismatch_names_the_first_offending_file() {
    let good = file("good", b"abc");
    let long = FarFile { name: "long".to_string(), size: 4, data: b"abc".to_vec() };
    let short = FarFile { name: "short".to_string(), size: 0, data: b"abc".to_vec() };
    assert_eq!(
        build(1, &vec![good.clone(), long.clone(), short.clone()]),
        Err(FormatError::SizeMismatch(1))
    );
    assert_eq!(build(1, &vec![short.clone(), good.clone()]), Err(FormatError::SizeMismatch(0)));
    assert_eq!(
        build(1, &vec![good.clone(), good.clone(), short]),
        Err(FormatError::SizeMismatch(2))
    );
    assert_eq!(build(1, &vec![long]), Err(FormatError::SizeMismatch(0)));
    assert!(build(1, &vec![good]).is_ok());
}

#[test]
fn check_layout_accepts_what_fits() {
    assert!(check_layout(&Vec::new()));
    assert!(check_layout(&vec![file("a", b"")]));
    assert!(check_layout(&vec![file("a", &[0u8; 100_000]), file("b", &[1u8; 100_000])]));
    let stated_wrong = FarFile { name: "n".to_string(), size: u32::MAX, data: vec![1, 2] };
    assert!(check_layout(&vec![stated_wrong.clone(), stated_wrong]));
}

#[test]
fn version_is_the_ninth_byte_only() {
    let files = vec![file("n", b"d")];
    let one = build(1, &files).unwrap();
    let two = build(2, &files).unwrap();
    assert_eq!(one[8], 1);
    assert_eq!(two[8], 2);
    assert_eq!(one[..8], two[..8]);
    assert_eq!(one[9..], two[9..]);
}
