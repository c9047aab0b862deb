use cap_img::{
    check_crop, check_frame, encode_frame_jpeg, export_quality, filter_for_name,
    format_carries_exif, frame_encode_fits, frame_needs_downscale, frame_quality,
    frame_target_size, invert_rgba, plan_export, try_encode_frame_jpeg,
    prepare_save, rotation_for, thumbnail_size, Filter, Rotation,
};
use base64::engine::general_purpose::STANDARD;
use base64::Engine;
use image::{GenericImageView, ImageFormat};

#[test]
fn thumbnail_size_defaults_to_200() {
    assert_eq!(thumbnail_size(0), 200);
    assert_eq!(thumbnail_size(64), 64);
}

#[test]
fn only_quarter_turns_rotate() {
    assert_eq!(rotation_for(90), Ok(Rotation::Cw90));
    assert_eq!(rotation_for(180), Ok(Rotation::Cw180));
    assert_eq!(rotation_for(270), Ok(Rotation::Cw270));
    let err = rotation_for(45).unwrap_err();
    assert_eq!(err, "不支持的角度: 45，仅支持 90/180/270");
    assert!(rotation_for(360).is_err());
}

#[test]
fn crop_must_stay_inside() {
    assert!(check_crop(4, 4, 0, 0, 2, 2).is_ok());
    assert!(check_crop(4, 4, 2, 2, 2, 2).is_ok());
    let err = check_crop(4, 4, 0, 0, 8, 8).unwrap_err();
    assert_eq!(err, "裁剪区域超出图片范围: 图片4x4, 裁剪(0,0)+8x8");
    assert!(check_crop(4, 4, 3, 0, 2, 1).is_err());
    assert!(check_crop(4, 4, 0, 4, 1, 1).is_err());
}

#[test]
fn filters_are_named_exactly() {
    assert_eq!(filter_for_name("grayscale"), Ok(Filter::Grayscale));
    assert_eq!(filter_for_name("sepia"), Ok(Filter::Sepia));
    assert_eq!(filter_for_name("invert"), Ok(Filter::Invert));
    assert_eq!(filter_for_name("brightness"), Ok(Filter::Brightness));
    assert_eq!(filter_for_name("contrast"), Ok(Filter::Contrast));
    assert_eq!(filter_for_name("blur"), Ok(Filter::Blur));
    assert_eq!(filter_for_name("sharpen"), Ok(Filter::Sharpen));
    let err = filter_for_name("vaporwave").unwrap_err();
    assert!(err.contains("不支持的滤镜"), "got {}", err);
    assert!(filter_for_name("Blur").is_err());
}

#[test]
fn invert_keeps_alpha_and_undoes_itself() {
    let mut p = vec![0u8, 10, 255, 128, 1, 2, 3, 4];
    invert_rgba(&mut p);
    assert_eq!(p, vec![255, 245, 0, 128, 254, 253, 252, 4]);
    invert_rgba(&mut p);
    assert_eq!(p, vec![0, 10, 255, 128, 1, 2, 3, 4]);
}

#[test]
fn qualities_are_clamped() {
    assert_eq!(export_quality(0), 1);
    assert_eq!(export_quality(90), 90);
    assert_eq!(export_quality(200), 100);
    assert_eq!(frame_quality(0), 10);
    assert_eq!(frame_quality(50), 50);
    assert_eq!(frame_quality(255), 100);
}

#[test]
fn export_plans() {
    let p = plan_export("jpeg", 0).unwrap();
    assert!(p.jpeg);
    assert_eq!(p.format, ImageFormat::Jpeg);
    assert_eq!(p.quality, 1);
    let p = plan_export("PNG", 90).unwrap();
    assert!(!p.jpeg);
    assert_eq!(p.format, ImageFormat::Png);
    assert!(plan_export("heic", 90).is_err());
}

#[test]
fn exif_only_for_jpeg_and_tiff() {
    assert!(format_carries_exif("jpg"));
    assert!(format_carries_exif("tiff"));
    assert!(!format_carries_exif("png"));
    assert!(!format_carries_exif("JPEG"));
}

#[test]
fn prepare_save_checks_extension_against_format() {
    let data = STANDARD.encode(b"payload");
    assert_eq!(prepare_save(&data, "out/sub/blob.bin", "bin").unwrap(), b"payload".to_vec());
    let err = prepare_save(&STANDARD.encode(b"pngbytes"), "d/lie.jpg", "png").unwrap_err();
    assert!(err.contains("格式不符"), "got {}", err);
    assert_eq!(err, "目标扩展名与所选格式不符: d/lie.jpg vs png");
    assert!(prepare_save(&data, "d/real.jpeg", "JPEG").is_ok());
    assert!(prepare_save(&data, "d/real.JPG", "jpeg").is_ok());
    assert!(prepare_save(&data, "d/real.jpg", "jpg").is_ok());
    assert!(prepare_save(&data, "d/noext", "png").is_err());
    let err = prepare_save("abc", "d/a.png", "png").unwrap_err();
    assert!(err.starts_with("Base64 解码失败: "), "got {}", err);
    let err = prepare_save("ab?=", "d/a.png", "png").unwrap_err();
    assert!(err.starts_with("Base64 解码失败: "), "got {}", err);
    let err = prepare_save("***", "d/a.png", "png").unwrap_err();
    assert!(err.starts_with("Base64 解码失败: "), "got {}", err);
}

#[test]
fn frames_are_checked() {
    assert_eq!(check_frame(16, 2, 2), Ok(16));
    let err = check_frame(15, 2, 2).unwrap_err();
    assert_eq!(err, "RGBA 数据长度不符: 期望 16 字节, 实得 15 字节 (2x2)");
    assert_eq!(
        check_frame(0, u32::MAX, u32::MAX).unwrap_err(),
        "尺寸溢出: 4294967295x4294967295"
    );
    assert!(frame_needs_downscale(100, 50));
    assert!(!frame_needs_downscale(100, 0));
    assert!(!frame_needs_downscale(50, 50));
}

#[test]
fn frames_encode_to_base64_jpeg() {
    let rgba = vec![200u8; 4 * 4 * 4];
    let f = encode_frame_jpeg(&rgba, 4, 4, 80, 0).unwrap();
    assert_eq!((f.width, f.height), (4, 4));
    let jpeg = STANDARD.decode(&f.base64).unwrap();
    assert_eq!(&jpeg[..2], &[0xFF, 0xD8]);
    let g = encode_frame_jpeg(&rgba, 4, 4, 80, 2).unwrap();
    assert_eq!((g.width, g.height), (2, 2));
    let img = image::load_from_memory(&STANDARD.decode(&g.base64).unwrap()).unwrap();
    assert_eq!((img.width(), img.height()), (2, 2));
    let same = encode_frame_jpeg(&rgba, 4, 4, 80, 4).unwrap();
    assert_eq!((same.width, same.height), (4, 4));
    assert_eq!(same.base64, f.base64);
}

#[test]
fn frames_of_the_wrong_length_are_refused() {
    let err = encode_frame_jpeg(&[0u8; 15], 2, 2, 80, 0).unwrap_err();
    assert_eq!(err, "RGBA 数据长度不符: 期望 16 字节, 实得 15 字节 (2x2)");
    assert_eq!(
        encode_frame_jpeg(&[], u32::MAX, u32::MAX, 80, 1).unwrap_err(),
        "尺寸溢出: 4294967295x4294967295"
    );
}

#[test]
fn frames_the_encoder_cannot_take_are_reported() {
    let err = encode_frame_jpeg(&[], 4, 0, 80, 0).unwrap_err();
    assert!(err.starts_with("编码 JPEG 失败: "), "got {}", err);
    let wide = vec![0u8; 65536 * 4];
    let err = encode_frame_jpeg(&wide, 65536, 1, 80, 0).unwrap_err();
    assert!(err.starts_with("编码 JPEG 失败: "), "got {}", err);
    let f = encode_frame_jpeg(&wide, 65536, 1, 80, 65535).unwrap();
    assert_eq!((f.width, f.height), (65535, 1));
    let jpeg = STANDARD.decode(&f.base64).unwrap();
    assert_eq!(&jpeg[..3], &[0xFF, 0xD8, 0xFF]);
}

#[test]
fn frames_scale_with_height_rounded_up() {
    assert_eq!(frame_target_size(4, 3, 2), Some((2, 2)));
    assert_eq!(frame_target_size(10, 7, 3), Some((3, 3)));
    assert_eq!(frame_target_size(10, 10, 5), Some((5, 5)));
    assert_eq!(frame_target_size(10, 0, 3), Some((3, 1)));
    assert_eq!(frame_target_size(10, 7, 0), None);
    assert_eq!(frame_target_size(10, 7, 10), None);
    let rgba = vec![10u8; 4 * 3 * 4];
    let f = encode_frame_jpeg(&rgba, 4, 3, 80, 2).unwrap();
    assert_eq!((f.width, f.height), (2, 2));
    assert!(frame_encode_fits(48, 4, 3, 2));
    let (w, h) = (u32::MAX, 1u32 << 30);
    let len = (w as usize) * (h as usize) * 4;
    assert!(!frame_encode_fits(len, w, h, w - 1));
    assert!(frame_encode_fits(len - 1, w, h, w - 1));
    assert!(frame_encode_fits(len, w, h, 0));
}

#[test]
fn frame_quality_outside_the_range_acts_as_its_bound() {
    let rgba: Vec<u8> = (0..8 * 8 * 4).map(|i| (i * 7 % 251) as u8).collect();
    let low = encode_frame_jpeg(&rgba, 8, 8, 0, 0).unwrap();
    let ten = encode_frame_jpeg(&rgba, 8, 8, 10, 0).unwrap();
    assert_eq!(low.base64, ten.base64);
    let high = encode_frame_jpeg(&rgba, 8, 8, 255, 0).unwrap();
    let hundred = encode_frame_jpeg(&rgba, 8, 8, 100, 0).unwrap();
    assert_eq!(high.base64, hundred.base64);
    assert_ne!(ten.base64, hundred.base64);
}

#[test]
fn save_checks_windows_style_destinations() {
    let data = STANDARD.encode(b"pngbytes");
    assert_eq!(prepare_save(&data, "C:\\out\\a.png", "png").unwrap(), b"pngbytes".to_vec());
    let err = prepare_save(&data, "C:\\out\\a.gif", "png").unwrap_err();
    assert_eq!(err, "目标扩展名与所选格式不符: C:\\out\\a.gif vs png");
}

#[test]
fn frame_base64_decodes_to_a_jpeg() {
    let f = encode_frame_jpeg(&[255u8; 16], 2, 2, 80, 0).unwrap();
    assert_eq!((f.width, f.height), (2, 2));
    assert_eq!(cap_img::sniff_format(&STANDARD.decode(&f.base64).unwrap()), Some("jpg"));
    let g = try_encode_frame_jpeg(&[255u8; 16], 2, 2, 80, 0).unwrap().unwrap();
    assert_eq!(g.base64, f.base64);
    assert!(try_encode_frame_jpeg(&[0u8; 3], 2, 2, 80, 0).unwrap().is_err());
}

#[test]
fn base64_fits_up_to_isize_max() {
    let limit = (isize::MAX as usize) / 4 * 3;
    assert!(cap_img::base64_fits(0));
    assert!(cap_img::base64_fits(limit));
    assert!(!cap_img::base64_fits(limit + 1));
    assert!(!cap_img::base64_fits(usize::MAX));
}
