//! Image format names: from file extensions, from user input, and as the
//! `image` crate's `ImageFormat`.

use vstd::prelude::*;
use crate::text::{ascii_lower, chars_eq_str, chars_of, lower_chars, owned_string};

verus! {

#[verifier::external_type_specification]
#[verifier::external_body]
pub struct ExImageFormat(image::ImageFormat);

/// The image formats this library names.
#[derive(Debug, Clone, Copy, PartialEq, Eq, Structural)]
pub enum ImageKind {
    Jpeg,
    Png,
    Gif,
    Bmp,
    WebP,
    Ico,
    Tiff,
}

/// The `image::ImageFormat` variant of the same name as `k`.
pub uninterp spec fn image_format_of(k: ImageKind) -> image::ImageFormat;

/// Gives the `image::ImageFormat` variant of the same name (`Jpeg`, `Png`,
/// `Gif`, `Bmp`, `WebP`, `Ico`, `Tiff`); claimed: it is the named one, and,
/// since those are distinct variants, no other kind names the same format.
#[verifier::external_body]
fn to_image_format(k: ImageKind) -> (r: image::ImageFormat)
    ensures
        r == image_format_of(k),
        forall|j: ImageKind| j != k ==> image_format_of(j) != r,
{
    match k {
        ImageKind::Jpeg => image::ImageFormat::Jpeg,
        ImageKind::Png => image::ImageFormat::Png,
        ImageKind::Gif => image::ImageFormat::Gif,
        ImageKind::Bmp => image::ImageFormat::Bmp,
        ImageKind::WebP => image::ImageFormat::WebP,
        ImageKind::Ico => image::ImageFormat::Ico,
        ImageKind::Tiff => image::ImageFormat::Tiff,
    }
}

/// The canonical format name for a file extension: `jpg`, `png`, `gif`, `bmp`,
/// `webp`, `ico` or `tiff`, case-insensitively (`jpeg` is `jpg`, `tif` is
/// `tiff`); `png` for every other extension and for none.
pub open spec fn format_for_extension(ext: Option<Seq<char>>) -> Seq<char> {
    let e = match ext {
        Some(e) => ascii_lower(e),
        None => Seq::empty(),
    };
    if e == "jpg"@ || e == "jpeg"@ {
        "jpg"@
    } else if e == "png"@ {
        "png"@
    } else if e == "gif"@ {
        "gif"@
    } else if e == "bmp"@ {
        "bmp"@
    } else if e == "webp"@ {
        "webp"@
    } else if e == "ico"@ {
        "ico"@
    } else if e == "tiff"@ || e == "tif"@ {
        "tiff"@
    } else {
        "png"@
    }
}

/// The canonical format names.
pub open spec fn is_format_name(f: Seq<char>) -> bool {
    ||| f == "jpg"@
    ||| f == "png"@
    ||| f == "gif"@
    ||| f == "bmp"@
    ||| f == "webp"@
    ||| f == "ico"@
    ||| f == "tiff"@
}

/// What holds of the extension that `Path::extension` finds in `path` on any
/// platform: it follows a `.` in `path` and holds no `.` itself; a path without
/// a `.` has none.
pub open spec fn is_extension_of(path: Seq<char>, ext: Option<Seq<char>>) -> bool {
    &&& (!path.contains('.') ==> ext is None)
    &&& match ext {
        Some(e) => !e.contains('.') && exists|i: int|
            0 <= i && i + 1 + e.len() <= path.len() && #[trigger] path.subrange(i, i + 1 + e.len())
                == seq!['.'] + e,
        None => true,
    }
}

/// The index of the last `c` in `s`, or -1.
pub open spec fn last_index_of(s: Seq<char>, c: char) -> int
    decreases s.len(),
{
    if s.len() == 0 {
        -1
    } else if s.last() == c {
        s.len() - 1
    } else {
        last_index_of(s.drop_last(), c)
    }
}

pub proof fn lemma_last_index_of_bounds(s: Seq<char>, c: char)
    ensures
        -1 <= last_index_of(s, c) < s.len(),
        last_index_of(s, c) >= 0 ==> s[last_index_of(s, c)] == c,
        forall|j: int| last_index_of(s, c) < j < s.len() ==> s[j] != c,
    decreases s.len(),
{
    if s.len() > 0 && s.last() != c {
        let t = s.drop_last();
        lemma_last_index_of_bounds(t, c);
        assert forall|j: int| last_index_of(s, c) < j < s.len() implies s[j] != c by {
            if j < t.len() {
                assert(s[j] == t[j]);
            }
        }
    }
}

/// The file name of a `/`-separated path, as `Path::file_name` finds it:
/// the last component, where trailing separators and `.` components do not
/// count; none where the path ends in `..`, or has no component but `.`.
pub open spec fn file_name_of(p: Seq<char>) -> Option<Seq<char>>
    decreases p.len(),
{
    let k = last_index_of(p, '/');
    if k < 0 {
        if p.len() == 0 || p == "."@ || p == ".."@ {
            None
        } else {
            Some(p)
        }
    } else {
        let seg = p.skip(k + 1);
        if seg.len() == 0 || seg == "."@ {
            proof {
                lemma_last_index_of_bounds(p, '/');
            }
            file_name_of(p.take(k))
        } else if seg == ".."@ {
            None
        } else {
            Some(seg)
        }
    }
}

/// The extension of a file name, as `Path::extension` finds it: what follows
/// the last `.`, unless there is none or the only one opens the name.
pub open spec fn name_extension(name: Seq<char>) -> Option<Seq<char>> {
    let k = last_index_of(name, '.');
    if k <= 0 {
        None
    } else {
        Some(name.skip(k + 1))
    }
}

/// The extension of a `/`-separated path.
pub open spec fn extension_of_path(p: Seq<char>) -> Option<Seq<char>> {
    match file_name_of(p) {
        Some(n) => name_extension(n),
        None => None,
    }
}

/// The paths that every platform splits the same way, at `/` alone: no `\`,
/// no `:` (drive prefixes), and no leading `//` (network prefixes).
pub open spec fn is_plain_path(p: Seq<char>) -> bool {
    !p.contains('\\') && !p.contains(':') && !(p.len() >= 2 && p[0] == '/' && p[1] == '/')
}

/// The characters at which some platform splits a path: `/` everywhere, `\`
/// and the drive colon on Windows.
pub open spec fn is_any_separator(c: char) -> bool {
    c == '/' || c == '\\' || c == ':'
}

/// The index of the last separator of any platform in `s`, or -1.
pub open spec fn last_separator(s: Seq<char>) -> int
    decreases s.len(),
{
    if s.len() == 0 {
        -1
    } else if is_any_separator(s.last()) {
        s.len() - 1
    } else {
        last_separator(s.drop_last())
    }
}

/// The extension that `Path::extension` finds in `p` on every platform alike,
/// where that is decided by `p`'s final part: `p` does not begin with two
/// separators (network and verbatim prefixes), and its final part, after the
/// last `/`, `\` or `:`, is not `..` and has a `.` after its first character.
/// The extension is then what follows the last `.`; `None` where these
/// conditions do not hold.
pub open spec fn evident_extension(p: Seq<char>) -> Option<Seq<char>> {
    let tail = p.skip(last_separator(p) + 1);
    let k = last_index_of(tail, '.');
    if p.len() >= 2 && (p[0] == '/' || p[0] == '\\') && (p[1] == '/' || p[1] == '\\') {
        None
    } else if tail == ".."@ || k <= 0 {
        None
    } else {
        Some(tail.skip(k + 1))
    }
}

proof fn lemma_last_separator_plain(s: Seq<char>)
    requires
        !s.contains('\\'),
        !s.contains(':'),
    ensures
        last_separator(s) == last_index_of(s, '/'),
    decreases s.len(),
{
    if s.len() > 0 {
        let t = s.drop_last();
        assert(!t.contains('\\')) by {
            if t.contains('\\') {
                let j = choose|j: int| 0 <= j < t.len() && t[j] == '\\';
                assert(s[j] == '\\');
            }
        }
        assert(!t.contains(':')) by {
            if t.contains(':') {
                let j = choose|j: int| 0 <= j < t.len() && t[j] == ':';
                assert(s[j] == ':');
            }
        }
        assert(s.last() != '\\' && s.last() != ':') by {
            assert(s[s.len() - 1] == s.last());
        }
        lemma_last_separator_plain(t);
    }
}

/// On a plain path the two accounts of its extension agree: where
/// `evident_extension` gives one, `extension_of_path` gives the same.
pub proof fn lemma_evident_extension_agrees(p: Seq<char>)
    requires
        is_plain_path(p),
        evident_extension(p) is Some,
    ensures
        extension_of_path(p) == evident_extension(p),
{
    reveal_strlit(".");
    reveal_strlit("..");
    lemma_last_separator_plain(p);
    lemma_last_index_of_bounds(p, '/');
    let k = last_index_of(p, '/');
    let tail = p.skip(k + 1);
    lemma_last_index_of_bounds(tail, '.');
    let d = last_index_of(tail, '.');
    assert(d > 0);
    assert(tail.len() >= 2);
    assert(tail != "."@);
    if k < 0 {
        assert(tail =~= p);
        assert(file_name_of(p) == Some(p));
    } else {
        assert(file_name_of(p) == Some(tail));
    }
}

/// Calls `std::path::Path::extension` on `path` and returns the extension as
/// a `String` (lossless, since it came from a `&str`). Claimed, from the
/// documentation of `Path::file_name` and `Path::extension`: on a plain path
/// (see `is_plain_path`) the result is `extension_of_path`; on any path, what
/// `is_extension_of` says; and where `evident_extension` gives one, that one.
/// That last holds on every platform: the final part lies within the file
/// name that Unix (splitting at `/`) and Windows (splitting at `/` and `\\`,
/// after a drive prefix such as `C:`) find, and the extension is what follows
/// the file name's last `.`. Beyond that, paths with `\\`, `:` or a leading
/// `//` are split differently on different platforms, and nothing more is
/// said of them.
#[verifier::external_body]
pub(crate) fn path_extension(path: &str) -> (r: Option<String>)
    ensures
        evident_extension(path@) is Some ==> match r {
            Some(x) => Some(x@) == evident_extension(path@),
            None => false,
        },
        is_extension_of(
            path@,
            match r {
                Some(e) => Some(e@),
                None => None,
            },
        ),
        is_plain_path(path@) ==> extension_of_path(path@) == match r {
            Some(e) => Some(e@),
            None => None,
        },
{
    match std::path::Path::new(path).extension() {
        Some(e) => Some(e.to_string_lossy().into_owned()),
        None => None,
    }
}

/// The canonical format name for an extension (see `format_for_extension`).
pub fn format_from_extension(ext: Option<&str>) -> (r: String)
    ensures
        r@ == format_for_extension(
            match ext {
                Some(e) => Some(e@),
                None => None,
            },
        ),
        is_format_name(r@),
{
    let e: Vec<char> = match ext {
        Some(s) => {
            let v = chars_of(s);
            let l = lower_chars(v.as_slice(), 0, v.len());
            assert(v@.subrange(0, v@.len() as int) =~= v@);
            l
        },
        None => Vec::new(),
    };
    let e = e.as_slice();
    if chars_eq_str(e, "jpg") || chars_eq_str(e, "jpeg") {
        owned_string("jpg")
    } else if chars_eq_str(e, "png") {
        owned_string("png")
    } else if chars_eq_str(e, "gif") {
        owned_string("gif")
    } else if chars_eq_str(e, "bmp") {
        owned_string("bmp")
    } else if chars_eq_str(e, "webp") {
        owned_string("webp")
    } else if chars_eq_str(e, "ico") {
        owned_string("ico")
    } else if chars_eq_str(e, "tiff") || chars_eq_str(e, "tif") {
        owned_string("tiff")
    } else {
        owned_string("png")
    }
}

/// The format of a file by its extension (not by its content), as a lower-case
/// canonical name; `png` for an unknown or missing extension.
pub fn detect_format(path: &str) -> (r: String)
    ensures
        is_format_name(r@),
        !path@.contains('.') ==> r@ == "png"@,
        is_plain_path(path@) ==> r@ == format_for_extension(extension_of_path(path@)),
        evident_extension(path@) matches Some(e) ==> r@ == format_for_extension(Some(e)),
        exists|e: Option<Seq<char>>| is_extension_of(path@, e) && r@ == format_for_extension(e),
{
    let ext = path_extension(path);
    let r = match &ext {
        Some(e) => format_from_extension(Some(e.as_str())),
        None => format_from_extension(None),
    };
    let ghost e = match ext {
        Some(e) => Some(e@),
        None => None::<Seq<char>>,
    };
    assert(is_extension_of(path@, e) && r@ == format_for_extension(e));
    proof {
        reveal_strlit("jpg");
        reveal_strlit("jpeg");
        reveal_strlit("png");
        reveal_strlit("gif");
        reveal_strlit("bmp");
        reveal_strlit("webp");
        reveal_strlit("ico");
        reveal_strlit("tiff");
        reveal_strlit("tif");
        if !path@.contains('.') {
            assert(e is None);
            let z = Seq::<char>::empty();
            assert("jpg"@.len() == 3);
            assert(z.len() == 0);
            assert(z != "jpg"@);
            assert(format_for_extension(None) == "png"@);
        }
    }
    r
}

/// The format a user names: `jpg`/`jpeg`, `png`, `gif`, `bmp`, `webp`, `ico`,
/// `tiff`/`tif`, in any case.
pub open spec fn format_kind(f: Seq<char>) -> Option<ImageKind> {
    let e = ascii_lower(f);
    if e == "jpg"@ || e == "jpeg"@ {
        Some(ImageKind::Jpeg)
    } else if e == "png"@ {
        Some(ImageKind::Png)
    } else if e == "gif"@ {
        Some(ImageKind::Gif)
    } else if e == "bmp"@ {
        Some(ImageKind::Bmp)
    } else if e == "webp"@ {
        Some(ImageKind::WebP)
    } else if e == "ico"@ {
        Some(ImageKind::Ico)
    } else if e == "tiff"@ || e == "tif"@ {
        Some(ImageKind::Tiff)
    } else {
        None
    }
}

/// The message for a format name that is not supported.
pub open spec fn unsupported_format_message(f: Seq<char>) -> Seq<char> {
    "不支持的图片格式: "@ + f + "，支持: jpg/png/gif/bmp/webp"@
}

/// The format a user names (see `format_kind`).
pub fn parse_format_kind(format: &str) -> (r: Option<ImageKind>)
    ensures
        r == format_kind(format@),
{
    let v = chars_of(format);
    let l = lower_chars(v.as_slice(), 0, v.len());
    assert(v@.subrange(0, v@.len() as int) =~= v@);
    let e = l.as_slice();
    if chars_eq_str(e, "jpg") || chars_eq_str(e, "jpeg") {
        Some(ImageKind::Jpeg)
    } else if chars_eq_str(e, "png") {
        Some(ImageKind::Png)
    } else if chars_eq_str(e, "gif") {
        Some(ImageKind::Gif)
    } else if chars_eq_str(e, "bmp") {
        Some(ImageKind::Bmp)
    } else if chars_eq_str(e, "webp") {
        Some(ImageKind::WebP)
    } else if chars_eq_str(e, "ico") {
        Some(ImageKind::Ico)
    } else if chars_eq_str(e, "tiff") || chars_eq_str(e, "tif") {
        Some(ImageKind::Tiff)
    } else {
        None
    }
}

/// Parses a format name into the `image` crate's format, or the message that
/// it is not supported.
pub fn parse_format(format: &str) -> (r: Result<image::ImageFormat, String>)
    ensures
        match format_kind(format@) {
            Some(k) => r == Ok::<image::ImageFormat, String>(image_format_of(k)),
            None => r matches Err(m) && m@ == unsupported_format_message(format@),
        },
{
    match parse_format_kind(format) {
        Some(k) => Ok(to_image_format(k)),
        None => {
            let mut m = String::new();
            m.append("不支持的图片格式: ");
            m.append(format);
            m.append("，支持: jpg/png/gif/bmp/webp");
            Err(m)
        },
    }
}

/// Every canonical name that `format_for_extension` gives is a format that
/// `format_kind` accepts.
pub proof fn law_detected_format_parses(ext: Option<Seq<char>>)
    ensures
        format_kind(format_for_extension(ext)) is Some,
{
    reveal_strlit("jpg");
    reveal_strlit("png");
    reveal_strlit("gif");
    reveal_strlit("bmp");
    reveal_strlit("webp");
    reveal_strlit("ico");
    reveal_strlit("tiff");
    let f = format_for_extension(ext);
    assert(ascii_lower(f) =~= f);
}

/// The format in which an edited image is saved: that of its source file,
/// by the source's extension.
pub fn source_format(src: &str) -> (r: image::ImageFormat)
    ensures
        is_plain_path(src@) ==> (format_kind(format_for_extension(extension_of_path(src@)))
            matches Some(k) && r == image_format_of(k)),
        evident_extension(src@) matches Some(e) ==> (format_kind(format_for_extension(Some(e)))
            matches Some(k) && r == image_format_of(k)),
        exists|e: Option<Seq<char>>|
            is_extension_of(src@, e) && (format_kind(format_for_extension(e)) matches Some(k) && r
                == image_format_of(k)),
{
    let name = detect_format(src);
    let k = parse_format_kind(name.as_str());
    proof {
        let e = choose|e: Option<Seq<char>>|
            is_extension_of(src@, e) && name@ == format_for_extension(e);
        law_detected_format_parses(e);
        law_detected_format_parses(extension_of_path(src@));
        if let Some(e) = evident_extension(src@) {
            law_detected_format_parses(Some(e));
        }
    }
    match k {
        Some(k) => to_image_format(k),
        None => to_image_format(ImageKind::Png),
    }
}

/// The format detected for a path depends on its extension alone, and on it
/// only up to ASCII case: two extensions that are equal in lower case (or two
/// missing ones) give the same format.
pub proof fn law_format_follows_lowered_extension(a: Option<Seq<char>>, b: Option<Seq<char>>)
    requires
        match (a, b) {
            (Some(x), Some(y)) => ascii_lower(x) == ascii_lower(y),
            (None, None) => true,
            _ => false,
        },
    ensures
        format_for_extension(a) == format_for_extension(b),
{
}

/// Detecting the format of a file that is named after a detected format
/// (`x.<format>`) gives that format again.
pub proof fn law_detect_format_idempotent(f: Seq<char>)
    requires
        is_format_name(f),
    ensures
        is_plain_path(seq!['x', '.'] + f),
        format_for_extension(extension_of_path(seq!['x', '.'] + f)) == f,
{
    reveal_strlit("jpg");
    reveal_strlit("jpeg");
    reveal_strlit("png");
    reveal_strlit("gif");
    reveal_strlit("bmp");
    reveal_strlit("webp");
    reveal_strlit("ico");
    reveal_strlit("tiff");
    reveal_strlit("tif");
    reveal_strlit(".");
    reveal_strlit("..");
    let p = seq!['x', '.'] + f;
    assert forall|j: int| 0 <= j < f.len() implies 'a' <= #[trigger] f[j] <= 'z' by {}
    assert forall|j: int| 0 <= j < p.len() implies p[j] != '/' && p[j] != '\\' && p[j] != ':' by {
        if j >= 2 {
            assert(p[j] == f[j - 2]);
        }
    }
    assert(!p.contains('\\'));
    assert(!p.contains(':'));
    lemma_last_index_of_bounds(p, '/');
    assert(last_index_of(p, '/') == -1);
    assert(p.len() >= 3);
    assert(p != "."@ && p != ".."@);
    assert(file_name_of(p) == Some(p));
    lemma_last_index_of_bounds(p, '.');
    let k = last_index_of(p, '.');
    assert forall|j: int| 2 <= j < p.len() implies p[j] != '.' by {
        assert(p[j] == f[j - 2]);
    }
    assert(p[1] == '.');
    assert(k == 1);
    assert(p.skip(2) =~= f);
    assert(extension_of_path(p) == Some(f));
    assert(ascii_lower(f) =~= f);
}

} // verus!
