//! The decisions behind the file operations: thumbnail size, rotation, crop
//! bounds, filter names and the invert filter, export settings, saving bytes.

use vstd::prelude::*;
use crate::codec::{
    base64_standard_decode, decode_error_prefix, decode_error_text, is_base64_symbol,
    standard_decode,
};
use crate::format::{
    evident_extension, extension_of_path, format_kind, image_format_of, is_extension_of,
    is_plain_path, parse_format,
    path_extension, unsupported_format_message, ImageKind,
};
use crate::text::{
    append_decimal, ascii_lower, chars_eq_str, chars_of, decimal, lower_ascii_char, lower_chars,
};

verus! {

/// The bound of a thumbnail's sides: `max_size`, or 200 when it is 0.
pub fn thumbnail_size(max_size: u32) -> (r: u32)
    ensures
        r == (if max_size == 0 {
            200
        } else {
            max_size
        }),
{
    if max_size == 0 {
        200
    } else {
        max_size
    }
}

/// Whether EXIF tags are looked for in a file of this (canonical) format.
pub open spec fn carries_exif(format: Seq<char>) -> bool {
    format == "jpg"@ || format == "tiff"@
}

/// Whether EXIF tags are looked for in a file of this canonical format: JPEG and TIFF.
pub fn format_carries_exif(format: &str) -> (r: bool)
    ensures
        r == carries_exif(format@),
{
    let v = chars_of(format);
    chars_eq_str(v.as_slice(), "jpg") || chars_eq_str(v.as_slice(), "tiff")
}

/// A clockwise rotation by a quarter, half or three quarters of a turn.
#[derive(Debug, Clone, Copy, PartialEq, Eq, Structural)]
pub enum Rotation {
    Cw90,
    Cw180,
    Cw270,
}

/// The rotation by `degrees`: only 90, 180 and 270 are supported.
pub open spec fn rotation_of(degrees: u32) -> Option<Rotation> {
    if degrees == 90 {
        Some(Rotation::Cw90)
    } else if degrees == 180 {
        Some(Rotation::Cw180)
    } else if degrees == 270 {
        Some(Rotation::Cw270)
    } else {
        None
    }
}

/// The message for an unsupported angle.
pub open spec fn rotation_message(degrees: u32) -> Seq<char> {
    "不支持的角度: "@ + decimal(degrees as nat) + "，仅支持 90/180/270"@
}

/// The rotation by `degrees`, or the message that the angle is not supported.
pub fn rotation_for(degrees: u32) -> (r: Result<Rotation, String>)
    ensures
        match rotation_of(degrees) {
            Some(x) => r == Ok::<Rotation, String>(x),
            None => r matches Err(m) && m@ == rotation_message(degrees),
        },
{
    if degrees == 90 {
        Ok(Rotation::Cw90)
    } else if degrees == 180 {
        Ok(Rotation::Cw180)
    } else if degrees == 270 {
        Ok(Rotation::Cw270)
    } else {
        let mut m = String::new();
        m.append("不支持的角度: ");
        append_decimal(&mut m, degrees as u64);
        m.append("，仅支持 90/180/270");
        Err(m)
    }
}

/// The message for a crop region that leaves the image.
pub open spec fn crop_message(width: u32, height: u32, x: u32, y: u32, w: u32, h: u32) -> Seq<
    char,
> {
    "裁剪区域超出图片范围: 图片"@ + decimal(width as nat) + "x"@ + decimal(height as nat)
        + ", 裁剪("@ + decimal(x as nat) + ","@ + decimal(y as nat) + ")+"@ + decimal(w as nat)
        + "x"@ + decimal(h as nat)
}

/// Checks that the region of size `w`×`h` at (`x`, `y`) lies within a
/// `width`×`height` image. The sums are taken in `u32`: the first must not
/// overflow, nor the second where the first is within the width.
pub fn check_crop(width: u32, height: u32, x: u32, y: u32, w: u32, h: u32) -> (r: Result<(), String>)
    requires
        x + w <= u32::MAX,
        x + w <= width ==> y + h <= u32::MAX,
    ensures
        r is Ok <==> x + w <= width && y + h <= height,
        r matches Err(m) ==> m@ == crop_message(width, height, x, y, w, h),
{
    if x + w > width || y + h > height {
        let mut m = String::new();
        m.append("裁剪区域超出图片范围: 图片");
        append_decimal(&mut m, width as u64);
        m.append("x");
        append_decimal(&mut m, height as u64);
        m.append(", 裁剪(");
        append_decimal(&mut m, x as u64);
        m.append(",");
        append_decimal(&mut m, y as u64);
        m.append(")+");
        append_decimal(&mut m, w as u64);
        m.append("x");
        append_decimal(&mut m, h as u64);
        Err(m)
    } else {
        Ok(())
    }
}

/// The filters that `apply_filter` knows.
#[derive(Debug, Clone, Copy, PartialEq, Eq, Structural)]
pub enum Filter {
    Grayscale,
    Sepia,
    Invert,
    Brightness,
    Contrast,
    Blur,
    Sharpen,
}

/// The filter of this exact (case-sensitive) name.
pub open spec fn filter_named(name: Seq<char>) -> Option<Filter> {
    if name == "grayscale"@ {
        Some(Filter::Grayscale)
    } else if name == "sepia"@ {
        Some(Filter::Sepia)
    } else if name == "invert"@ {
        Some(Filter::Invert)
    } else if name == "brightness"@ {
        Some(Filter::Brightness)
    } else if name == "contrast"@ {
        Some(Filter::Contrast)
    } else if name == "blur"@ {
        Some(Filter::Blur)
    } else if name == "sharpen"@ {
        Some(Filter::Sharpen)
    } else {
        None
    }
}

/// The message for an unknown filter name.
pub open spec fn filter_message(name: Seq<char>) -> Seq<char> {
    "不支持的滤镜: "@ + name + "，支持: grayscale/sepia/invert/brightness/contrast/blur/sharpen"@
}

/// The filter of this name, or the message that it is not supported.
pub fn filter_for_name(name: &str) -> (r: Result<Filter, String>)
    ensures
        match filter_named(name@) {
            Some(f) => r == Ok::<Filter, String>(f),
            None => r matches Err(m) && m@ == filter_message(name@),
        },
{
    let v = chars_of(name);
    let n = v.as_slice();
    if chars_eq_str(n, "grayscale") {
        Ok(Filter::Grayscale)
    } else if chars_eq_str(n, "sepia") {
        Ok(Filter::Sepia)
    } else if chars_eq_str(n, "invert") {
        Ok(Filter::Invert)
    } else if chars_eq_str(n, "brightness") {
        Ok(Filter::Brightness)
    } else if chars_eq_str(n, "contrast") {
        Ok(Filter::Contrast)
    } else if chars_eq_str(n, "blur") {
        Ok(Filter::Blur)
    } else if chars_eq_str(n, "sharpen") {
        Ok(Filter::Sharpen)
    } else {
        let mut m = String::new();
        m.append("不支持的滤镜: ");
        m.append(name);
        m.append("，支持: grayscale/sepia/invert/brightness/contrast/blur/sharpen");
        Err(m)
    }
}

/// RGBA samples with red, green and blue inverted (`255 - v`) and alpha kept.
pub open spec fn inverted(p: Seq<u8>) -> Seq<u8> {
    Seq::new(p.len(), |i: int| if i % 4 == 3 { p[i] } else { (255 - p[i]) as u8 })
}

/// The invert filter on raw RGBA samples.
pub fn invert_rgba(pixels: &mut Vec<u8>)
    ensures
        final(pixels)@ == inverted(old(pixels)@),
{
    let ghost orig = pixels@;
    let n = pixels.len();
    let mut i: usize = 0;
    while i < n
        invariant
            i <= n == pixels@.len() == orig.len(),
            forall|j: int| 0 <= j < i ==> pixels@[j] == inverted(orig)[j],
            forall|j: int| i <= j < n ==> pixels@[j] == orig[j],
        decreases n - i,
    {
        if i % 4 != 3 {
            let v = pixels[i];
            pixels.set(i, 255 - v);
        }
        i += 1;
    }
    assert(pixels@ =~= inverted(orig));
}

/// Inversion keeps every alpha sample (each fourth one) and replaces every
/// colour sample `v` by `255 - v`.
pub proof fn law_invert_keeps_alpha(p: Seq<u8>)
    ensures
        inverted(p).len() == p.len(),
        forall|i: int| 0 <= i < p.len() && i % 4 == 3 ==> #[trigger] inverted(p)[i] == p[i],
        forall|i: int| 0 <= i < p.len() && i % 4 != 3 ==> #[trigger] inverted(p)[i] + p[i] == 255,
{
}

/// Inverting twice gives the image back.
pub proof fn law_invert_twice(p: Seq<u8>)
    ensures
        inverted(inverted(p)) == p,
{
    assert(inverted(inverted(p)) =~= p);
}

/// `v` clamped to `[lo, hi]`.
pub open spec fn clamped(v: u8, lo: u8, hi: u8) -> u8 {
    if v < lo {
        lo
    } else if v > hi {
        hi
    } else {
        v
    }
}

/// The JPEG quality of an export: clamped to 1..=100.
pub fn export_quality(quality: u8) -> (r: u8)
    ensures
        r == clamped(quality, 1, 100),
{
    if quality < 1 {
        1
    } else if quality > 100 {
        100
    } else {
        quality
    }
}

/// How an image is exported: in which format, whether through the JPEG
/// encoder with an explicit quality, and that quality.
pub struct ExportPlan {
    pub format: image::ImageFormat,
    pub jpeg: bool,
    pub quality: u8,
}

/// The plan for exporting in the named format (see `format_kind`) at the
/// given quality, or the message that the format is not supported.
pub fn plan_export(format: &str, quality: u8) -> (r: Result<ExportPlan, String>)
    ensures
        match format_kind(format@) {
            Some(k) => r matches Ok(p) && p.format == image_format_of(k) && p.jpeg == (k
                == ImageKind::Jpeg) && p.quality == clamped(quality, 1, 100),
            None => r matches Err(m) && m@ == unsupported_format_message(format@),
        },
{
    let f = match parse_format(format) {
        Ok(f) => f,
        Err(m) => {
            return Err(m);
        },
    };
    let k = crate::format::parse_format_kind(format);
    let jpeg = match k {
        Some(ImageKind::Jpeg) => true,
        _ => false,
    };
    Ok(ExportPlan { format: f, jpeg, quality: export_quality(quality) })
}

/// Whether a destination with extension `ext` may hold bytes saved as
/// `format`: the extension, folded to lower case, equals the format folded to
/// lower case, except that `jpeg` admits both `jpg` and `jpeg`. A destination
/// without an extension admits none.
pub open spec fn save_extension_matches(ext: Option<Seq<char>>, format: Seq<char>) -> bool {
    match ext {
        None => false,
        Some(e) => {
            let le = ascii_lower(e);
            let lf = ascii_lower(format);
            if lf == "jpeg"@ {
                le == "jpg"@ || le == "jpeg"@
            } else {
                le == lf
            }
        },
    }
}

proof fn lemma_ascii_lower_idempotent(s: Seq<char>)
    ensures
        ascii_lower(ascii_lower(s)) == ascii_lower(s),
{
    assert forall|i: int| 0 <= i < s.len() implies lower_ascii_char(lower_ascii_char(s[i]))
        == lower_ascii_char(s[i]) by {
        let c = s[i];
        if 'A' <= c && c <= 'Z' {
            assert(lower_ascii_char(c) as u32 == c as u32 + 32);
        }
    }
    assert(ascii_lower(ascii_lower(s)) =~= ascii_lower(s));
}

/// Whether a destination fits a format depends on its extension and the
/// format only up to ASCII case; every format fits an extension named like
/// it, `jpeg` also fits `jpg`, no other extension fits, and a destination
/// without an extension fits none.
pub proof fn law_save_extension_case_insensitive(e: Seq<char>, f: Seq<char>)
    ensures
        save_extension_matches(Some(e), f) == save_extension_matches(Some(ascii_lower(e)), f),
        save_extension_matches(Some(e), f) == save_extension_matches(Some(e), ascii_lower(f)),
        save_extension_matches(Some(f), f),
        ascii_lower(f) == "jpeg"@ ==> save_extension_matches(Some("jpg"@), f),
        !save_extension_matches(None, f),
        save_extension_matches(Some(e), f) ==> (ascii_lower(e) == ascii_lower(f) || (ascii_lower(f)
            == "jpeg"@ && ascii_lower(e) == "jpg"@)),
{
    reveal_strlit("jpg");
    lemma_ascii_lower_idempotent(e);
    lemma_ascii_lower_idempotent(f);
    assert("jpg"@.len() == 3);
    assert(ascii_lower("jpg"@) =~= "jpg"@);
}

/// The message for a destination whose extension does not fit the format.
pub open spec fn save_mismatch_message(dest: Seq<char>, format: Seq<char>) -> Seq<char> {
    "目标扩展名与所选格式不符: "@ + dest + " vs "@ + format
}

fn extension_matches(ext: &Option<String>, format: &str) -> (r: bool)
    ensures
        r == save_extension_matches(
            match ext {
                Some(e) => Some(e@),
                None => None,
            },
            format@,
        ),
{
    match ext {
        None => false,
        Some(e) => {
            let ev = chars_of(e.as_str());
            let le = lower_chars(ev.as_slice(), 0, ev.len());
            let fv = chars_of(format);
            let lf = lower_chars(fv.as_slice(), 0, fv.len());
            assert(ev@.subrange(0, ev@.len() as int) =~= ev@);
            assert(fv@.subrange(0, fv@.len() as int) =~= fv@);
            if chars_eq_str(lf.as_slice(), "jpeg") {
                chars_eq_str(le.as_slice(), "jpg") || chars_eq_str(le.as_slice(), "jpeg")
            } else {
                let mut same = le.len() == lf.len();
                let mut i: usize = 0;
                while same && i < le.len()
                    invariant
                        le@.len() == lf@.len() || !same,
                        i <= le@.len(),
                        same ==> forall|j: int| 0 <= j < i ==> le@[j] == lf@[j],
                        !same ==> le@ != lf@,
                    decreases le@.len() - i,
                {
                    if le[i] != lf[i] {
                        same = false;
                        assert(le@[i as int] != lf@[i as int]);
                    }
                    i += 1;
                }
                if same {
                    assert(le@ =~= lf@);
                }
                same
            }
        },
    }
}

/// The bytes that `save_bytes` writes: `data` decoded from standard base64,
/// once the destination's extension is found to fit `format`. The decoding
/// error comes first; then the mismatch.
pub fn prepare_save(data: &str, dest: &str, format: &str) -> (r: Result<Vec<u8>, String>)
    ensures
        base64_standard_decode(data@) is None ==> (r matches Err(m) && decode_error_prefix().is_prefix_of(m@)),
        data@.len() % 4 != 0 || (exists|i: int|
            0 <= i < data@.len() && !is_base64_symbol(#[trigger] data@[i])) ==> r is Err,
        base64_standard_decode(data@) matches Some(b) ==> (is_plain_path(dest@) ==> (
        if save_extension_matches(extension_of_path(dest@), format@) {
            r matches Ok(v) && v@ == b
        } else {
            r matches Err(m) && m@ == save_mismatch_message(dest@, format@)
        })),
        base64_standard_decode(data@) matches Some(b) ==> (evident_extension(dest@) matches Some(x)
            ==> if save_extension_matches(Some(x), format@) {
            r matches Ok(v) && v@ == b
        } else {
            r matches Err(m) && m@ == save_mismatch_message(dest@, format@)
        }),
        base64_standard_decode(data@) matches Some(b) ==> exists|e: Option<Seq<char>>|
            is_extension_of(dest@, e) && (if save_extension_matches(e, format@) {
                r matches Ok(v) && v@ == b
            } else {
                r matches Err(m) && m@ == save_mismatch_message(dest@, format@)
            }),
{
    let bytes = match standard_decode(data) {
        Ok(b) => b,
        Err(e) => {
            let mut m = String::new();
            m.append("Base64 解码失败: ");
            let ghost pre = m@;
            m.append(decode_error_text(&e).as_str());
            assert(m@.subrange(0, pre.len() as int) =~= pre);
            return Err(m);
        },
    };
    let ext = path_extension(dest);
    let ok = extension_matches(&ext, format);
    let ghost e = match ext {
        Some(e) => Some(e@),
        None => None::<Seq<char>>,
    };
    assert(is_extension_of(dest@, e));
    if !ok {
        let mut m = String::new();
        m.append("目标扩展名与所选格式不符: ");
        m.append(dest);
        m.append(" vs ");
        m.append(format);
        return Err(m);
    }
    Ok(bytes)
}

} // verus!
