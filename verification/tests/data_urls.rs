use base64::engine::general_purpose::STANDARD;
use base64::Engine;
use cap_img::{base64_decode_padded, decode_data_url, encode_data_url, DataUrl};

#[test]
fn decodes_a_plain_data_url() {
    let d = decode_data_url("data:image/png;base64,aGVsbG8=").unwrap();
    assert_eq!(d, DataUrl { mime: "image/png".to_string(), bytes: b"hello".to_vec() });
}

#[test]
fn payload_padding_is_optional() {
    let padded = decode_data_url("data:image/gif;base64,AA==").unwrap();
    let bare = decode_data_url("data:image/gif;base64,AA").unwrap();
    assert_eq!(padded, bare);
    assert_eq!(bare.bytes, vec![0u8]);
    assert_eq!(base64_decode_padded(" aGVsbA ").unwrap(), b"hell".to_vec());
}

#[test]
fn mime_is_lowercased_and_parameters_dropped() {
    let d = decode_data_url("data: Image/PNG ;charset=utf-8;BASE64, aGk= ").unwrap();
    assert_eq!(d.mime, "image/png");
    assert_eq!(d.bytes, b"hi".to_vec());
}

#[test]
fn refuses_what_is_not_a_base64_data_url() {
    assert_eq!(decode_data_url("http://x/y.png"), None);
    assert_eq!(decode_data_url("data:image/png;base64"), None);
    assert_eq!(decode_data_url("data:image/png,aGVsbG8="), None);
    assert_eq!(decode_data_url("data:image/png;base64,@@@@"), None);
    assert_eq!(decode_data_url("Data:image/png;base64,aGVsbG8="), None);
}

#[test]
fn decode_error_names_base64() {
    let err = base64_decode_padded("a*b").unwrap_err();
    assert!(err.starts_with("Base64 解码失败: "), "got {}", err);
}

#[test]
fn encodes_a_data_url() {
    assert_eq!(encode_data_url(b"hello", "image/png"), "data:image/png;base64,aGVsbG8=");
    assert_eq!(encode_data_url(b"", "text/plain"), "data:text/plain;base64,");
    assert_eq!(encode_data_url(&[0xff, 0xfe], "x"), format!("data:x;base64,{}", STANDARD.encode([0xffu8, 0xfe])));
}

#[test]
fn encoding_then_decoding_gives_the_bytes_back() {
    for bytes in [vec![], vec![0u8], vec![1, 2], vec![1, 2, 3], (0..=255u8).collect::<Vec<u8>>()] {
        for mime in ["image/png", "IMAGE/JPEG", "image/svg+xml; charset=utf-8", " text/plain "] {
            let url = encode_data_url(&bytes, mime);
            let d = decode_data_url(&url).unwrap();
            assert_eq!(d.bytes, bytes);
            let expected = mime.split(';').next().unwrap().trim().to_ascii_lowercase();
            assert_eq!(d.mime, expected);
        }
    }
}

#[test]
fn a_plain_mime_comes_back_trimmed_and_lowercased() {
    let url = encode_data_url(b"\x00\x01\x02", "  Image/WebP\t");
    assert_eq!(
        decode_data_url(&url),
        Some(DataUrl { mime: "image/webp".to_string(), bytes: vec![0, 1, 2] })
    );
}
