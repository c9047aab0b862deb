//! The behaviour checks that carry over to the library: what the file
//! operations decide, checked through the functions that decide it.

use base64::{engine::general_purpose::STANDARD, Engine as _};

/// A real 4x4 JPEG with an APP1/EXIF segment inserted after its APPn segments;
/// IFD0 holds one entry, Model -> "TEST".
fn jpeg_with_exif() -> Vec<u8> {
    let mut base: Vec<u8> = Vec::new();
    image::DynamicImage::new_rgb8(4, 4)
        .write_to(&mut std::io::Cursor::new(&mut base), image::ImageFormat::Jpeg)
        .unwrap();

    let mut tiff: Vec<u8> = Vec::new();
    tiff.extend_from_slice(b"MM");
    tiff.extend_from_slice(&0x002Au16.to_be_bytes());
    tiff.extend_from_slice(&8u32.to_be_bytes());
    tiff.extend_from_slice(&1u16.to_be_bytes());
    tiff.extend_from_slice(&0x0110u16.to_be_bytes());
    tiff.extend_from_slice(&2u16.to_be_bytes());
    tiff.extend_from_slice(&5u32.to_be_bytes());
    tiff.extend_from_slice(&26u32.to_be_bytes());
    tiff.extend_from_slice(&0u32.to_be_bytes());
    tiff.extend_from_slice(b"TEST\0");
    while tiff.len() < 40 {
        tiff.push(0);
    }
    let mut body: Vec<u8> = Vec::new();
    body.extend_from_slice(b"Exif\0\0");
    body.extend_from_slice(&tiff);
    let seg = (body.len() + 2) as u16;

    let mut pos = 2;
    while pos + 4 <= base.len() && base[pos] == 0xFF && (0xE0..=0xEF).contains(&base[pos + 1]) {
        let l = u16::from_be_bytes([base[pos + 2], base[pos + 3]]) as usize;
        pos += 2 + l;
    }
    let mut out = base[..pos].to_vec();
    out.extend_from_slice(&[0xFF, 0xE1]);
    out.extend_from_slice(&seg.to_be_bytes());
    out.extend_from_slice(&body);
    out.extend_from_slice(&base[pos..]);
    out
}

#[test]
fn info_actually_reads_exif_from_a_jpeg() {
    let bytes = jpeg_with_exif();
    assert!(cap_img::format_carries_exif(&cap_img::detect_format("a.jpg")));
    assert!(!cap_img::exif_read_faults(&bytes));
    let exif = cap_img::read_basic_exif(&bytes).expect("JPEG 里的 EXIF 必须被读出来");
    assert_eq!(exif.get("Model").map(|s| s.as_str()), Some("TEST"));
}

#[test]
fn rotate_rejects_unknown_angle() {
    let err = cap_img::rotation_for(45).expect_err("45° 不该被接受");
    assert!(err.contains("不支持的角度"), "实得 {}", err);
}

#[test]
fn crop_rejects_out_of_range() {
    let err = cap_img::check_crop(4, 4, 0, 0, 8, 8).expect_err("4x4 的图裁 8x8 必须被拒绝");
    assert!(err.contains("超出图片范围"), "实得 {}", err);
}

#[test]
fn filter_rejects_unknown_name() {
    let err = cap_img::filter_for_name("vaporwave").expect_err("未知滤镜必须被拒绝");
    assert!(err.contains("不支持的滤镜"), "实得 {}", err);
}

#[test]
fn save_bytes_still_writes_bytes() {
    let bytes = cap_img::prepare_save(STANDARD.encode(b"payload").as_str(), "sub/blob.bin", "bin")
        .unwrap();
    assert_eq!(bytes.len() as u64, 7);
    assert_eq!(bytes, b"payload");
}

#[test]
fn save_bytes_refuses_extension_format_mismatch() {
    let err = cap_img::prepare_save(STANDARD.encode(b"pngbytes").as_str(), "d/lie.jpg", "png")
        .expect_err("扩展名与格式不符时必须拒绝");
    assert!(err.contains("格式不符"), "实得 {}", err);
    // 大小写与 jpeg 别名不能把这条闸拦掉
    cap_img::prepare_save(STANDARD.encode(b"pngbytes").as_str(), "d/real.jpeg", "JPEG").unwrap();
}

#[test]
fn detect_format_normalizes_known_extensions() {
    assert_eq!(cap_img::detect_format("a.JPG"), "jpg");
    assert_eq!(cap_img::detect_format("a.jpeg"), "jpg");
    assert_eq!(cap_img::detect_format("a.tif"), "tiff");
    assert_eq!(cap_img::detect_format("a.heic"), "png"); // 未知扩展名默认 png
}
