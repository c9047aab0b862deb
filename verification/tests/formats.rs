use cap_img::{
    detect_format, ext_for_mime, format_from_extension, mime_for_ext, parse_format,
    parse_format_kind, sniff_format, source_format, ImageKind,
};
use image::ImageFormat;

#[test]
fn detect_format_covers_every_known_extension() {
    assert_eq!(detect_format("/x/y/photo.PNG"), "png");
    assert_eq!(detect_format("a.gif"), "gif");
    assert_eq!(detect_format("a.BMP"), "bmp");
    assert_eq!(detect_format("a.webp"), "webp");
    assert_eq!(detect_format("a.ico"), "ico");
    assert_eq!(detect_format("a.TIFF"), "tiff");
    assert_eq!(detect_format("noext"), "png");
    assert_eq!(detect_format(".jpg"), "png");
    assert_eq!(detect_format("archive.tar.jpeg"), "jpg");
}

#[test]
fn format_from_extension_is_case_insensitive() {
    assert_eq!(format_from_extension(Some("JpEg")), "jpg");
    assert_eq!(format_from_extension(Some("tif")), "tiff");
    assert_eq!(format_from_extension(Some("heic")), "png");
    assert_eq!(format_from_extension(None), "png");
}

#[test]
fn parse_format_accepts_names_and_aliases() {
    assert_eq!(parse_format("jpg").unwrap(), ImageFormat::Jpeg);
    assert_eq!(parse_format("JPEG").unwrap(), ImageFormat::Jpeg);
    assert_eq!(parse_format("png").unwrap(), ImageFormat::Png);
    assert_eq!(parse_format("Gif").unwrap(), ImageFormat::Gif);
    assert_eq!(parse_format("bmp").unwrap(), ImageFormat::Bmp);
    assert_eq!(parse_format("webp").unwrap(), ImageFormat::WebP);
    assert_eq!(parse_format("ico").unwrap(), ImageFormat::Ico);
    assert_eq!(parse_format("tif").unwrap(), ImageFormat::Tiff);
    assert_eq!(parse_format_kind("TIFF"), Some(ImageKind::Tiff));
}

#[test]
fn parse_format_rejects_unknown_names() {
    let err = parse_format("heic").unwrap_err();
    assert_eq!(err, "不支持的图片格式: heic，支持: jpg/png/gif/bmp/webp");
    assert_eq!(parse_format_kind(""), None);
}

#[test]
fn every_detected_format_parses() {
    for p in ["a.jpg", "a.png", "a.gif", "a.bmp", "a.webp", "a.ico", "a.tif", "a.zzz", "a"] {
        assert!(parse_format(&detect_format(p)).is_ok());
    }
    assert_eq!(source_format("x/shot.JPEG"), ImageFormat::Jpeg);
    assert_eq!(source_format("x/shot.heic"), ImageFormat::Png);
}

#[test]
fn sniffs_magic_bytes() {
    assert_eq!(sniff_format(b"\x89PNG\r\n\x1a\nrest"), Some("png"));
    assert_eq!(sniff_format(b"\xff\xd8\xff\xe0"), Some("jpg"));
    assert_eq!(sniff_format(b"GIF87a..."), Some("gif"));
    assert_eq!(sniff_format(b"GIF89a"), Some("gif"));
    assert_eq!(sniff_format(b"RIFF\x00\x00\x00\x00WEBPVP8 "), Some("webp"));
    assert_eq!(sniff_format(b"RIFF\x00\x00\x00\x00WAVE"), None);
    assert_eq!(sniff_format(b"\x89PNG"), None);
    assert_eq!(sniff_format(b""), None);
    assert_eq!(sniff_format(b"GIF88a"), None);
}

#[test]
fn mime_for_ext_takes_unknown_as_png() {
    assert_eq!(mime_for_ext("png"), "image/png");
    assert_eq!(mime_for_ext("jpg"), "image/jpeg");
    assert_eq!(mime_for_ext("jpeg"), "image/jpeg");
    assert_eq!(mime_for_ext("gif"), "image/gif");
    assert_eq!(mime_for_ext("webp"), "image/webp");
    assert_eq!(mime_for_ext("PNG"), "image/png");
    assert_eq!(mime_for_ext("bmp"), "image/png");
    assert_eq!(mime_for_ext(""), "image/png");
}

#[test]
fn ext_for_mime_takes_the_subtype() {
    assert_eq!(ext_for_mime("image/jpeg"), "jpg");
    assert_eq!(ext_for_mime("IMAGE/JPG"), "jpg");
    assert_eq!(ext_for_mime("image/svg+xml"), "svg");
    assert_eq!(ext_for_mime("image/PNG"), "png");
    assert_eq!(ext_for_mime("garbage"), "png");
    assert_eq!(ext_for_mime("a/"), "png");
    assert_eq!(ext_for_mime("image/"), "png");
    assert_eq!(ext_for_mime("image/+xml"), "png");
    assert_eq!(ext_for_mime("a/b/c"), "b/c");
}

#[test]
fn known_extensions_survive_a_mime_round_trip() {
    for (ext, back) in [("png", "png"), ("jpg", "jpg"), ("jpeg", "jpg"), ("gif", "gif"), ("webp", "webp")] {
        assert_eq!(ext_for_mime(mime_for_ext(ext)), back);
    }
    let f = sniff_format(b"GIF89a").unwrap();
    assert_eq!(ext_for_mime(mime_for_ext(f)), f);
}

#[test]
fn detecting_a_detected_format_gives_it_again() {
    for p in ["a.JPEG", "b/c.tif", "noext", "x.PnG", "d.weird", "e.ICO", "f.Bmp", "g.gif", "h.webp"] {
        let f = detect_format(p);
        assert_eq!(detect_format(&format!("x.{}", f)), f);
    }
}

#[test]
fn detected_format_follows_the_extension_up_to_case() {
    assert_eq!(detect_format("one/a.JpEg"), detect_format("two/b.jpeg"));
    assert_eq!(detect_format("a.TIF"), detect_format("zz/y.tif"));
    assert_eq!(detect_format("a"), detect_format("b/c"));
    assert_eq!(format_from_extension(Some("GIF")), format_from_extension(Some("gif")));
}

#[test]
fn windows_style_paths_are_detected_by_their_final_part() {
    assert_eq!(detect_format("C:\\img\\a.JPG"), "jpg");
    assert_eq!(detect_format("dir\\sub\\b.tif"), "tiff");
    assert_eq!(detect_format("C:c.webp"), "webp");
    assert_eq!(source_format("C:\\x\\a.gif"), ImageFormat::Gif);
    assert_eq!(source_format("D:\\shots\\s.Jpeg"), ImageFormat::Jpeg);
}
