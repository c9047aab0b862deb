use cap_img::{exif_read_faults, parse_exif_minimal, read_basic_exif, ExifMap};

/// A big-endian TIFF block whose IFD0 holds Model -> "TEST" at offset 26.
fn tiff_be() -> Vec<u8> {
    let mut tiff: Vec<u8> = Vec::new();
    tiff.extend_from_slice(b"MM");
    tiff.extend_from_slice(&0x002Au16.to_be_bytes());
    tiff.extend_from_slice(&8u32.to_be_bytes());
    tiff.extend_from_slice(&1u16.to_be_bytes());
    tiff.extend_from_slice(&0x0110u16.to_be_bytes());
    tiff.extend_from_slice(&2u16.to_be_bytes());
    tiff.extend_from_slice(&5u32.to_be_bytes());
    tiff.extend_from_slice(&26u32.to_be_bytes());
    tiff.extend_from_slice(&0u32.to_be_bytes());
    tiff.extend_from_slice(b"TEST\0");
    while tiff.len() < 40 {
        tiff.push(0);
    }
    tiff
}

fn value(m: &ExifMap, k: &str) -> Option<String> {
    m.get(k).cloned()
}

#[test]
fn reads_model_from_big_endian_block() {
    let m = parse_exif_minimal(&tiff_be());
    assert_eq!(value(&m, "Model").as_deref(), Some("TEST"));
    assert_eq!(value(&m, "Make"), None);
    assert_eq!(m.to_pairs().len(), 1);
}

#[test]
fn reads_little_endian_block_and_trims_values() {
    let mut t: Vec<u8> = Vec::new();
    t.extend_from_slice(b"II");
    t.extend_from_slice(&0x002Au16.to_le_bytes());
    t.extend_from_slice(&8u32.to_le_bytes());
    t.extend_from_slice(&3u16.to_le_bytes());
    // Make at 50, an unknown tag, Copyright at 60
    for (tag, at) in [(0x010Fu16, 50u32), (0x9999u16, 50u32), (0x8298u16, 60u32)] {
        t.extend_from_slice(&tag.to_le_bytes());
        t.extend_from_slice(&2u16.to_le_bytes());
        t.extend_from_slice(&4u32.to_le_bytes());
        t.extend_from_slice(&at.to_le_bytes());
    }
    while t.len() < 50 {
        t.push(0);
    }
    t.extend_from_slice(b"  Canon\t\0");
    while t.len() < 60 {
        t.push(0);
    }
    t.extend_from_slice(b"\xa9 me\0");
    while t.len() < 80 {
        t.push(0);
    }
    let m = parse_exif_minimal(&t);
    assert_eq!(value(&m, "Make").as_deref(), Some("Canon"));
    assert_eq!(value(&m, "Copyright").as_deref(), Some("\u{a9} me"));
    assert_eq!(m.to_pairs().len(), 2);
}

#[test]
fn short_or_misplaced_blocks_give_nothing() {
    assert_eq!(parse_exif_minimal(b"MM\x00\x2a").to_pairs().len(), 0);
    let mut t = tiff_be();
    t[4..8].copy_from_slice(&100u32.to_be_bytes());
    assert_eq!(parse_exif_minimal(&t).to_pairs().len(), 0);
    // a value offset within 8 bytes of the end is skipped
    let mut t = tiff_be();
    t[18..22].copy_from_slice(&35u32.to_be_bytes());
    assert_eq!(parse_exif_minimal(&t).to_pairs().len(), 0);
    // an entry count larger than the block stops at the block's end
    let mut t = tiff_be();
    t[8..10].copy_from_slice(&500u16.to_be_bytes());
    assert_eq!(value(&parse_exif_minimal(&t), "Model").as_deref(), Some("TEST"));
}

fn jpeg_with(tiff: &[u8]) -> Vec<u8> {
    let mut j = vec![0xFF, 0xD8];
    // an APP0 segment first
    j.extend_from_slice(&[0xFF, 0xE0, 0x00, 0x06, b'J', b'F', b'I', b'F']);
    let mut body = b"Exif\0\0".to_vec();
    body.extend_from_slice(tiff);
    j.extend_from_slice(&[0xFF, 0xE1]);
    j.extend_from_slice(&((body.len() + 2) as u16).to_be_bytes());
    j.extend_from_slice(&body);
    j.extend_from_slice(&[0xFF, 0xDA, 0x00, 0x02, 0x00, 0x00, 0xFF, 0xD9]);
    j
}

#[test]
fn finds_the_exif_segment_of_a_jpeg() {
    let j = jpeg_with(&tiff_be());
    assert!(!exif_read_faults(&j));
    let m = read_basic_exif(&j).expect("the EXIF block is read");
    assert_eq!(value(&m, "Model").as_deref(), Some("TEST"));
}

#[test]
fn no_exif_where_there_is_none() {
    assert!(read_basic_exif(b"not a jpeg at all....").is_none());
    let mut j = vec![0xFF, 0xD8, 0xFF, 0xDA, 0x00, 0x02];
    j.extend_from_slice(&[0u8; 12]);
    assert!(read_basic_exif(&j).is_none());
    // an APP1 segment that is not EXIF is passed over
    let mut j = vec![0xFF, 0xD8, 0xFF, 0xE1, 0x00, 0x0A];
    j.extend_from_slice(b"http:/xmp");
    j.extend_from_slice(&[0xFF, 0xDA, 0, 2, 0, 0, 0, 0, 0, 0]);
    assert!(!exif_read_faults(&j));
    assert!(read_basic_exif(&j).is_none());
}

#[test]
fn truncated_exif_segments_are_recognised() {
    let mut j = jpeg_with(&tiff_be());
    j.truncate(30);
    assert!(exif_read_faults(&j));
    let mut j = vec![0xFF, 0xD8, 0xFF, 0xE1, 0x00, 0x04];
    j.extend_from_slice(b"Exif\0\0");
    j.extend_from_slice(&[0u8; 8]);
    assert!(exif_read_faults(&j));
}

#[test]
fn exif_map_inserts_replace() {
    let mut m = ExifMap::new();
    m.insert("Make".to_string(), "a".to_string());
    m.insert("Model".to_string(), "b".to_string());
    m.insert("Make".to_string(), "c".to_string());
    assert_eq!(value(&m, "Make").as_deref(), Some("c"));
    assert_eq!(value(&m, "Model").as_deref(), Some("b"));
    assert_eq!(m.to_pairs().len(), 2);
}
