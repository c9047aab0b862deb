//! Encoding raw RGBA frames (screen captures with no file behind them) as
//! base64 JPEG.

use vstd::prelude::*;
use crate::codec::{
    base64_fits, base64_standard_decode, base64_standard_encode, encoded_len, standard_base64,
};
use crate::ops::clamped;
use crate::text::{append_decimal, decimal};
use crate::types::FrameJpeg;

verus! {

#[verifier::external_type_specification]
#[verifier::external_body]
pub struct ExImageError(image::ImageError);

/// What `image::imageops::resize` with `FilterType::Triangle` makes of a
/// `w`×`h` RGBA image, as raw samples of the `nw`×`nh` result.
pub uninterp spec fn triangle_resized(rgba: Seq<u8>, w: u32, h: u32, nw: u32, nh: u32) -> Seq<u8>;

/// The JPEG that `image::codecs::jpeg::JpegEncoder` writes at `quality` for a
/// `w`×`h` RGBA image converted to RGB (`DynamicImage::to_rgb8`); `None` where
/// the encoder reports an error.
pub uninterp spec fn rgba_jpeg(rgba: Seq<u8>, w: u32, h: u32, quality: u8) -> Option<Seq<u8>>;

/// The number of bytes of a `w`×`h` RGBA frame.
pub open spec fn frame_len(w: u32, h: u32) -> int {
    (w * h) * 4
}

/// Builds an `image::RgbaImage` with `ImageBuffer::from_raw` and resizes it
/// with `image::imageops::resize` and `FilterType::Triangle`. Claimed:
/// `from_raw` fails exactly when the samples are too few (its documentation),
/// and the result is the named one, `nw`×`nh` pixels of 4 samples.
/// `resize` allocates a `w`×`nh` image of `f32` samples and the `nw`×`nh`
/// result; where either would exceed `isize::MAX` bytes it panics, so those
/// inputs are left out.
#[verifier::external_body]
fn resize_rgba(rgba: &[u8], w: u32, h: u32, nw: u32, nh: u32) -> (r: Option<Vec<u8>>)
    requires
        scale_fits(w, nw, nh),
    ensures
        r is Some <==> frame_len(w, h) <= rgba@.len(),
        r matches Some(v) ==> v@ == triangle_resized(rgba@, w, h, nw, nh) && v@.len() == frame_len(
            nw,
            nh,
        ),
{
    let img = image::RgbaImage::from_raw(w, h, rgba.to_vec())?;
    Some(image::imageops::resize(&img, nw, nh, image::imageops::FilterType::Triangle).into_raw())
}

/// The sizes that the JPEG encoder accepts: both sides from 1 to 65535.
pub open spec fn jpeg_size_ok(w: u32, h: u32) -> bool {
    1 <= w <= 65535 && 1 <= h <= 65535
}

/// Whether bytes begin as a JPEG file does: the start-of-image marker
/// `FF D8` and the `FF` of the next marker.
pub open spec fn starts_as_jpeg(j: Seq<u8>) -> bool {
    j.len() >= 3 && j[0] == 0xFF && j[1] == 0xD8 && j[2] == 0xFF
}

/// Builds an `image::RgbaImage` with `ImageBuffer::from_raw`, converts it with
/// `DynamicImage::to_rgb8` and encodes it with `JpegEncoder::new_with_quality`.
/// Claimed: `from_raw` fails exactly when the samples are too few; the
/// encoder's output is the named one; it fails exactly where a side is 0 or
/// above 65535 (`InvalidSize`; writing into a `Vec` cannot fail); its output
/// starts with the SOI marker and then the APP0 segment's marker; and, as for
/// every `Vec`, its length is at most `isize::MAX`.
#[verifier::external_body]
fn rgba_to_jpeg(rgba: &[u8], w: u32, h: u32, quality: u8) -> (r: Option<
    Result<Vec<u8>, image::ImageError>,
>)
    ensures
        r is Some <==> frame_len(w, h) <= rgba@.len(),
        r matches Some(e) ==> (e is Ok <==> jpeg_size_ok(w, h)),
        r matches Some(Ok(v)) ==> rgba_jpeg(rgba@, w, h, quality) == Some(v@) && v@.len()
            <= isize::MAX && starts_as_jpeg(v@),
        r matches Some(Err(_)) ==> rgba_jpeg(rgba@, w, h, quality) is None,
{
    let img = image::RgbaImage::from_raw(w, h, rgba.to_vec())?;
    let rgb = image::DynamicImage::ImageRgba8(img).to_rgb8();
    let mut buf: Vec<u8> = Vec::new();
    let done = image::codecs::jpeg::JpegEncoder::new_with_quality(&mut buf, quality).encode(
        rgb.as_raw(),
        w,
        h,
        image::ExtendedColorType::Rgb8,
    );
    match done {
        Ok(()) => Some(Ok(buf)),
        Err(e) => Some(Err(e)),
    }
}

/// The `Display` text of an `image::ImageError`; nothing is claimed of it.
#[verifier::external_body]
fn image_error_text(e: &image::ImageError) -> String {
    e.to_string()
}

/// Whether scaling a `w`-wide frame to `nw`×`nh` stays within the buffers
/// that `resize` allocates: the `w`×`nh` intermediate of `f32` samples and the
/// `nw`×`nh` result, each at most `isize::MAX` bytes.
pub open spec fn scale_fits(w: u32, nw: u32, nh: u32) -> bool {
    frame_len(nw, nh) <= isize::MAX && 4 * frame_len(w, nh) <= isize::MAX
}

/// Whether scaling fits (see `scale_fits`).
pub fn frame_scale_fits(w: u32, nw: u32, nh: u32) -> (r: bool)
    ensures
        r == scale_fits(w, nw, nh),
{
    let limit = isize::MAX as usize;
    let out = match (nw as usize).checked_mul(nh as usize) {
        Some(px) => px.checked_mul(4),
        None => {
            assert(frame_len(nw, nh) > usize::MAX) by (nonlinear_arith)
                requires
                    nw * nh > usize::MAX,
            ;
            None
        },
    };
    let mid = match (w as usize).checked_mul(nh as usize) {
        Some(px) => px.checked_mul(16),
        None => {
            assert(4 * frame_len(w, nh) > usize::MAX) by (nonlinear_arith)
                requires
                    w * nh > usize::MAX,
            ;
            None
        },
    };
    match (out, mid) {
        (Some(o), Some(m)) => o <= limit && m <= limit,
        _ => false,
    }
}

/// The message for frame dimensions whose byte count overflows `usize`.
pub open spec fn frame_overflow_message(w: u32, h: u32) -> Seq<char> {
    "尺寸溢出: "@ + decimal(w as nat) + "x"@ + decimal(h as nat)
}

/// The message for samples of the wrong length.
pub open spec fn frame_length_message(expected: nat, got: nat, w: u32, h: u32) -> Seq<char> {
    "RGBA 数据长度不符: 期望 "@ + decimal(expected) + " 字节, 实得 "@ + decimal(got) + " 字节 ("@
        + decimal(w as nat) + "x"@ + decimal(h as nat) + ")"@
}

/// Checks that `len` bytes are exactly one `width`×`height` RGBA frame and
/// returns that count: an error where `width * height * 4` overflows `usize`,
/// another where `len` differs from it.
pub fn check_frame(len: usize, width: u32, height: u32) -> (r: Result<usize, String>)
    ensures
        frame_len(width, height) > usize::MAX ==> (r matches Err(m) && m@ == frame_overflow_message(
            width,
            height,
        )),
        frame_len(width, height) <= usize::MAX && len != frame_len(width, height) ==> (r matches Err(
            m,
        ) && m@ == frame_length_message(frame_len(width, height) as nat, len as nat, width, height)),
        frame_len(width, height) <= usize::MAX && len == frame_len(width, height) ==> r == Ok::<
            usize,
            String,
        >(len),
{
    let expected = match (width as usize).checked_mul(height as usize) {
        Some(px) => px.checked_mul(4),
        None => {
            assert(frame_len(width, height) > usize::MAX) by (nonlinear_arith)
                requires
                    width * height > usize::MAX,
            ;
            None
        },
    };
    match expected {
        None => {
            let mut m = String::new();
            m.append("尺寸溢出: ");
            append_decimal(&mut m, width as u64);
            m.append("x");
            append_decimal(&mut m, height as u64);
            Err(m)
        },
        Some(e) => {
            if len != e {
                let mut m = String::new();
                m.append("RGBA 数据长度不符: 期望 ");
                append_decimal(&mut m, e as u64);
                m.append(" 字节, 实得 ");
                append_decimal(&mut m, len as u64);
                m.append(" 字节 (");
                append_decimal(&mut m, width as u64);
                m.append("x");
                append_decimal(&mut m, height as u64);
                m.append(")");
                Err(m)
            } else {
                Ok(len)
            }
        },
    }
}

/// Whether a frame is scaled down before encoding: when a maximum width is
/// set (non-zero) and the frame is wider.
pub fn frame_needs_downscale(width: u32, max_width: u32) -> (r: bool)
    ensures
        r == (max_width != 0 && width > max_width),
{
    max_width != 0 && width > max_width
}

/// The JPEG quality of a frame: clamped to 10..=100.
pub fn frame_quality(quality: u8) -> (r: u8)
    ensures
        r == clamped(quality, 10, 100),
{
    if quality < 10 {
        10
    } else if quality > 100 {
        100
    } else {
        quality
    }
}

/// The message prefix of a JPEG encoding error.
pub open spec fn frame_encode_error_prefix() -> Seq<char> {
    "编码 JPEG 失败: "@
}

/// The JPEG bytes of a frame: resized to `target` first where one is given,
/// then encoded at the clamped quality.
pub open spec fn frame_jpeg(
    rgba: Seq<u8>,
    w: u32,
    h: u32,
    quality: u8,
    target: Option<(u32, u32)>,
) -> Option<Seq<u8>> {
    match target {
        Some((nw, nh)) => rgba_jpeg(triangle_resized(rgba, w, h, nw, nh), nw, nh, clamped(quality, 10, 100)),
        None => rgba_jpeg(rgba, w, h, clamped(quality, 10, 100)),
    }
}

/// The JPEG bytes of one `width`×`height` RGBA frame of exactly
/// `width * height * 4` samples: scaled to `target` first where one is given
/// (Triangle filter), encoded at the quality clamped to 10..=100. The error
/// is the encoder's, prefixed.
fn frame_jpeg_bytes(
    rgba: &[u8],
    width: u32,
    height: u32,
    quality: u8,
    target: Option<(u32, u32)>,
) -> (r: Result<Vec<u8>, String>)
    requires
        rgba@.len() == frame_len(width, height),
        target matches Some((nw, nh)) ==> scale_fits(width, nw, nh),
    ensures
        match frame_jpeg(rgba@, width, height, quality, target) {
            Some(j) => r matches Ok(v) && v@ == j,
            None => r matches Err(m) && frame_encode_error_prefix().is_prefix_of(m@),
        },
        frame_jpeg(rgba@, width, height, quality, target) is Some <==> (match target {
            Some((nw, nh)) => jpeg_size_ok(nw, nh),
            None => jpeg_size_ok(width, height),
        }),
        frame_jpeg(rgba@, width, height, quality, target) matches Some(j) ==> starts_as_jpeg(j),
{
    let q = frame_quality(quality);
    let encoded = match target {
        Some((nw, nh)) => {
            let pixels = match resize_rgba(rgba, width, height, nw, nh) {
                Some(p) => p,
                None => {
                    assert(false);
                    return Err(String::new());
                },
            };
            rgba_to_jpeg(pixels.as_slice(), nw, nh, q)
        },
        None => rgba_to_jpeg(rgba, width, height, q),
    };
    match encoded {
        Some(Ok(jpeg)) => Ok(jpeg),
        Some(Err(e)) => {
            let mut m = String::new();
            m.append("编码 JPEG 失败: ");
            let ghost pre = m@;
            m.append(image_error_text(&e).as_str());
            assert(m@.subrange(0, pre.len() as int) =~= pre);
            Err(m)
        },
        None => {
            assert(false);
            Err(String::new())
        },
    }
}

/// The height of a `w`-wide, `h`-high frame scaled to width `mw`:
/// `h * mw / w` rounded up, and at least 1.
pub open spec fn scaled_height(h: u32, mw: u32, w: u32) -> u32 {
    let q = (h * mw + w - 1) / (w as int);
    if q < 1 {
        1
    } else {
        q as u32
    }
}

/// The size a `w`×`h` frame is scaled to before encoding: `max_width` wide
/// and `scaled_height` high when a maximum width is set (non-zero) and the
/// frame is wider; `None` when it is encoded at its own size.
pub open spec fn frame_target(w: u32, h: u32, max_width: u32) -> Option<(u32, u32)> {
    if max_width != 0 && w > max_width {
        Some((max_width, scaled_height(h, max_width, w)))
    } else {
        None
    }
}

/// The size a frame is scaled to before encoding (see `frame_target`).
pub fn frame_target_size(width: u32, height: u32, max_width: u32) -> (r: Option<(u32, u32)>)
    ensures
        r == frame_target(width, height, max_width),
{
    if frame_needs_downscale(width, max_width) {
        let w = width as u64;
        let m = max_width as u64;
        let h = height as u64;
        assert(h * m <= 0xffff_ffff * 0xffff_fffe) by (nonlinear_arith)
            requires
                h <= 0xffff_ffff,
                m <= 0xffff_fffe,
        ;
        let num: u64 = h * m + (w - 1);
        let q: u64 = num / w;
        assert(q <= h) by (nonlinear_arith)
            requires
                q == num / w,
                num == h * m + (w - 1),
                m < w,
                w > 0,
        {
            assert(h * m + (w - 1) < (h + 1) * w);
        }
        let nh: u32 = if q < 1 {
            1
        } else {
            q as u32
        };
        Some((max_width, nh))
    } else {
        None
    }
}

/// The size a `w`×`h` frame is encoded at: its target size where it is
/// scaled, else its own.
pub open spec fn frame_out_size(w: u32, h: u32, max_width: u32) -> (u32, u32) {
    match frame_target(w, h, max_width) {
        Some(p) => p,
        None => (w, h),
    }
}

/// What a frame encodes to: `None` where the samples are not exactly one
/// `w`×`h` RGBA frame or the encoder fails; otherwise the standard base64 of
/// the JPEG and the width and height it was encoded at.
pub open spec fn encoded_frame(rgba: Seq<u8>, w: u32, h: u32, quality: u8, max_width: u32) -> Option<
    (Seq<char>, u32, u32),
> {
    if rgba.len() != frame_len(w, h) {
        None
    } else {
        let t = frame_target(w, h, max_width);
        let (ow, oh) = frame_out_size(w, h, max_width);
        match frame_jpeg(rgba, w, h, quality, t) {
            Some(j) => Some((base64_standard_encode(j), ow, oh)),
            None => None,
        }
    }
}

/// Whether encoding `len` samples of a `w`×`h` frame with `max_width` stays
/// within what scaling can allocate: it does, unless the samples are exactly
/// one frame that is scaled to a size for which `scale_fits` fails.
pub open spec fn frame_fits(len: int, w: u32, h: u32, max_width: u32) -> bool {
    len == frame_len(w, h) ==> match frame_target(w, h, max_width) {
        Some((nw, nh)) => scale_fits(w, nw, nh),
        None => true,
    }
}

/// Whether a frame can be encoded without exhausting memory (see `frame_fits`).
pub fn frame_encode_fits(len: usize, width: u32, height: u32, max_width: u32) -> (r: bool)
    ensures
        r == frame_fits(len as int, width, height, max_width),
{
    match check_frame(len, width, height) {
        Ok(_) => match frame_target_size(width, height, max_width) {
            Some((nw, nh)) => frame_scale_fits(width, nw, nh),
            None => true,
        },
        Err(_) => true,
    }
}

/// Whether the standard base64 text of a frame's JPEG stays within what a
/// `String` can hold (`isize::MAX` bytes); so it does where there is no JPEG.
pub open spec fn frame_base64_fits(
    rgba: Seq<u8>,
    w: u32,
    h: u32,
    quality: u8,
    max_width: u32,
) -> bool {
    rgba.len() == frame_len(w, h) ==> match frame_jpeg(
        rgba,
        w,
        h,
        quality,
        frame_target(w, h, max_width),
    ) {
        Some(j) => encoded_len(j.len()) <= isize::MAX,
        None => true,
    }
}

/// What encoding a frame gives back:
/// - success exactly where `encoded_frame` is `Some`, that is where the
///   samples are exactly one frame and the encoded size has both sides in
///   1..=65535; the result is then that of `encoded_frame`, and its base64
///   decodes to the frame's JPEG, which starts as a JPEG file does;
/// - the overflow message where `width * height * 4` exceeds `usize`;
/// - the length message where the samples are not exactly one frame;
/// - otherwise the encoder's error, prefixed.
pub open spec fn frame_encoding(
    r: Result<FrameJpeg, String>,
    rgba: Seq<u8>,
    w: u32,
    h: u32,
    quality: u8,
    max_width: u32,
) -> bool {
    let jpeg = frame_jpeg(rgba, w, h, quality, frame_target(w, h, max_width));
    &&& (r is Ok <==> encoded_frame(rgba, w, h, quality, max_width) is Some)
    &&& (encoded_frame(rgba, w, h, quality, max_width) is Some <==> (rgba.len() == frame_len(w, h)
        && jpeg_size_ok(frame_out_size(w, h, max_width).0, frame_out_size(w, h, max_width).1)))
    &&& (r matches Ok(f) ==> encoded_frame(rgba, w, h, quality, max_width) == Some(
        (f.base64@, f.width, f.height),
    ))
    &&& (r matches Ok(f) ==> (jpeg matches Some(j) && base64_standard_decode(f.base64@) == Some(j)
        && starts_as_jpeg(j)))
    &&& (frame_len(w, h) > usize::MAX ==> (r matches Err(m) && m@ == frame_overflow_message(w, h)))
    &&& (frame_len(w, h) <= usize::MAX && rgba.len() != frame_len(w, h) ==> (r matches Err(m)
        && m@ == frame_length_message(frame_len(w, h) as nat, rgba.len() as nat, w, h)))
    &&& (rgba.len() == frame_len(w, h) ==> (r matches Err(m)
        ==> frame_encode_error_prefix().is_prefix_of(m@)))
}

/// Encodes one raw RGBA frame (a screen capture with no file behind it) as
/// base64 JPEG. The samples must be exactly `width * height * 4` bytes, else
/// an error comes back; a frame wider than a non-zero `max_width` is scaled
/// to that width (Triangle filter, height rounded up); the quality is clamped
/// to 10..=100. The encoder fails where a side of the encoded size is 0 or
/// above 65535; that is reported with its message, prefixed. What comes back
/// is stated by `frame_encoding`.
pub fn encode_frame_jpeg(
    rgba_raw: &[u8],
    width: u32,
    height: u32,
    quality: u8,
    max_width: u32,
) -> (r: Result<FrameJpeg, String>)
    requires
        frame_fits(rgba_raw@.len() as int, width, height, max_width),
        frame_base64_fits(rgba_raw@, width, height, quality, max_width),
    ensures
        frame_encoding(r, rgba_raw@, width, height, quality, max_width),
{
    match check_frame(rgba_raw.len(), width, height) {
        Err(m) => {
            return Err(m);
        },
        Ok(_) => {},
    }
    let target = frame_target_size(width, height, max_width);
    let jpeg = match frame_jpeg_bytes(rgba_raw, width, height, quality, target) {
        Ok(j) => j,
        Err(m) => {
            return Err(m);
        },
    };
    let data = standard_base64(jpeg.as_slice());
    let (w, h) = match target {
        Some(p) => p,
        None => (width, height),
    };
    Ok(FrameJpeg { base64: data, width: w, height: h })
}

/// Encodes a frame as `encode_frame_jpeg` does, where the base64 text of its
/// JPEG fits in a `String`; `None` where it would not, which the frame's JPEG
/// alone decides (the base64 encoder could not allocate its buffer there).
/// The JPEG is made once to be measured and again by `encode_frame_jpeg`.
pub fn try_encode_frame_jpeg(
    rgba_raw: &[u8],
    width: u32,
    height: u32,
    quality: u8,
    max_width: u32,
) -> (r: Option<Result<FrameJpeg, String>>)
    requires
        frame_fits(rgba_raw@.len() as int, width, height, max_width),
    ensures
        r is None <==> !frame_base64_fits(rgba_raw@, width, height, quality, max_width),
        r matches Some(e) ==> frame_encoding(e, rgba_raw@, width, height, quality, max_width),
{
    if let Ok(_) = check_frame(rgba_raw.len(), width, height) {
        let target = frame_target_size(width, height, max_width);
        if let Ok(jpeg) = frame_jpeg_bytes(rgba_raw, width, height, quality, target) {
            if !base64_fits(jpeg.len()) {
                return None;
            }
        }
    }
    Some(encode_frame_jpeg(rgba_raw, width, height, quality, max_width))
}

/// Encoding a frame at any quality gives what it gives at that quality
/// clamped to 10..=100: qualities below 10 all act as 10, those above 100 as
/// 100.
pub proof fn law_frame_quality_clamped(rgba: Seq<u8>, w: u32, h: u32, quality: u8, max_width: u32)
    ensures
        encoded_frame(rgba, w, h, quality, max_width) == encoded_frame(
            rgba,
            w,
            h,
            clamped(quality, 10, 100),
            max_width,
        ),
{
}

/// Scaling keeps the aspect ratio: a frame wider than a non-zero
/// `max_width` goes to exactly that width, and to the least height, at
/// least 1, whose ratio to it is no less than the frame's (`h * max_width / w`
/// rounded up); any other frame keeps its size.
pub proof fn law_scaling_keeps_aspect(w: u32, h: u32, max_width: u32)
    ensures
        max_width != 0 && w > max_width ==> (frame_target(w, h, max_width) matches Some((nw, nh))
            && nw == max_width && nh >= 1 && nh * w >= h * max_width && (nh > 1 ==> (nh - 1) * w
            < h * max_width)),
        !(max_width != 0 && w > max_width) ==> frame_target(w, h, max_width) is None,
{
    if max_width != 0 && w > max_width {
        let mw = max_width as int;
        let wi = w as int;
        let hi = h as int;
        let q = (hi * mw + wi - 1) / wi;
        assert(q * wi <= hi * mw + wi - 1 < (q + 1) * wi && 0 <= q <= hi && q * wi >= hi * mw && (q
            - 1) * wi < hi * mw) by (nonlinear_arith)
            requires
                q == (hi * mw + wi - 1) / wi,
                wi > mw > 0,
                hi >= 0,
        {
            assert(hi * mw + wi - 1 < (hi + 1) * wi);
        }
        if q >= 1 {
            assert(scaled_height(h, max_width, w) == q);
        } else {
            assert(scaled_height(h, max_width, w) == 1);
            assert(hi * mw <= 0);
            assert(1 * wi >= hi * mw);
        }
    }
}

} // verus!
