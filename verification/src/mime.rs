//! MIME types and file extensions, and telling a format by its magic bytes.

use vstd::prelude::*;
use crate::text::{
    ascii_lower, before_first, chars_eq_str, chars_of, lemma_split_once_at,
    lemma_split_once_none, lower_chars, owned_string, split_once, split_once_in, string_of,
};

verus! {

/// The eight bytes that open a PNG file.
pub open spec fn png_magic() -> Seq<u8> {
    seq![0x89u8, 0x50u8, 0x4eu8, 0x47u8, 0x0du8, 0x0au8, 0x1au8, 0x0au8]
}

/// The format a file's leading bytes announce: `png`, `jpg`, `gif` (87a or
/// 89a) or `webp` (a RIFF container of type WEBP); the extension does not count.
pub open spec fn sniffed_format(b: Seq<u8>) -> Option<Seq<char>> {
    if b.len() >= 8 && b.take(8) == png_magic() {
        Some("png"@)
    } else if b.len() >= 3 && b.take(3) == seq![0xffu8, 0xd8u8, 0xffu8] {
        Some("jpg"@)
    } else if b.len() >= 6 && (b.take(6) == seq![0x47u8, 0x49u8, 0x46u8, 0x38u8, 0x37u8, 0x61u8]
        || b.take(6) == seq![0x47u8, 0x49u8, 0x46u8, 0x38u8, 0x39u8, 0x61u8]) {
        Some("gif"@)
    } else if b.len() >= 12 && b.take(4) == seq![0x52u8, 0x49u8, 0x46u8, 0x46u8] && b.subrange(
        8,
        12,
    ) == seq![0x57u8, 0x45u8, 0x42u8, 0x50u8] {
        Some("webp"@)
    } else {
        None
    }
}

/// Whether `b[at..at + pat.len()]` is `pat`.
fn bytes_at(b: &[u8], at: usize, pat: &[u8]) -> (r: bool)
    ensures
        r == (at + pat@.len() <= b@.len() && b@.subrange(at as int, at + pat@.len()) == pat@),
{
    let m = pat.len();
    if at > b.len() || b.len() - at < m {
        return false;
    }
    let mut i: usize = 0;
    while i < m
        invariant
            i <= m == pat@.len(),
            at + m <= b@.len(),
            b@.len() <= usize::MAX,
            forall|j: int| 0 <= j < i ==> b@[at + j] == pat@[j],
        decreases m - i,
    {
        if b[at + i] != pat[i] {
            assert(b@.subrange(at as int, at + m)[i as int] != pat@[i as int]);
            return false;
        }
        i += 1;
    }
    assert(b@.subrange(at as int, at + m) =~= pat@);
    true
}

/// Tells the format of image bytes by their magic number (see `sniffed_format`).
pub fn sniff_format(bytes: &[u8]) -> (r: Option<&'static str>)
    ensures
        match r {
            Some(s) => sniffed_format(bytes@) == Some(s@),
            None => sniffed_format(bytes@) is None,
        },
{
    let png = [0x89u8, 0x50, 0x4e, 0x47, 0x0d, 0x0a, 0x1a, 0x0a];
    let jpg = [0xffu8, 0xd8, 0xff];
    let gif87 = [0x47u8, 0x49, 0x46, 0x38, 0x37, 0x61];
    let gif89 = [0x47u8, 0x49, 0x46, 0x38, 0x39, 0x61];
    let riff = [0x52u8, 0x49, 0x46, 0x46];
    let webp = [0x57u8, 0x45, 0x42, 0x50];
    assert(png@ =~= png_magic());
    assert(bytes@.subrange(0, 8) == bytes@.take(8));
    assert(bytes@.subrange(0, 3) == bytes@.take(3));
    assert(bytes@.subrange(0, 6) == bytes@.take(6));
    assert(bytes@.subrange(0, 4) == bytes@.take(4));
    if bytes_at(bytes, 0, &png) {
        Some("png")
    } else if bytes_at(bytes, 0, &jpg) {
        Some("jpg")
    } else if bytes_at(bytes, 0, &gif87) || bytes_at(bytes, 0, &gif89) {
        Some("gif")
    } else if bytes.len() >= 12 && bytes_at(bytes, 0, &riff) && bytes_at(bytes, 8, &webp) {
        Some("webp")
    } else {
        None
    }
}

/// The MIME type of an extension: `image/png`, `image/jpeg` (for `jpg` and
/// `jpeg`), `image/gif`, `image/webp`; an extension not recognised is taken
/// as PNG. The match is exact: case counts.
pub open spec fn mime_of_ext(ext: Seq<char>) -> Seq<char> {
    if ext == "png"@ {
        "image/png"@
    } else if ext == "jpg"@ || ext == "jpeg"@ {
        "image/jpeg"@
    } else if ext == "gif"@ {
        "image/gif"@
    } else if ext == "webp"@ {
        "image/webp"@
    } else {
        "image/png"@
    }
}

/// The MIME type of an extension (see `mime_of_ext`).
pub fn mime_for_ext(ext: &str) -> (r: &'static str)
    ensures
        r@ == mime_of_ext(ext@),
{
    let v = chars_of(ext);
    let e = v.as_slice();
    if chars_eq_str(e, "png") {
        "image/png"
    } else if chars_eq_str(e, "jpg") || chars_eq_str(e, "jpeg") {
        "image/jpeg"
    } else if chars_eq_str(e, "gif") {
        "image/gif"
    } else if chars_eq_str(e, "webp") {
        "image/webp"
    } else {
        "image/png"
    }
}

/// The extension for a MIME type, in ASCII lower case: the subtype after the
/// first `/`, up to the first `+` (`svg+xml` gives `svg`), with `jpeg` given as
/// `jpg`; `png` when there is no `/` or that part is empty.
pub open spec fn ext_of_mime(mime: Seq<char>) -> Seq<char> {
    match split_once(ascii_lower(mime), '/') {
        Some((_, sub)) => if sub == "jpeg"@ || sub == "jpg"@ {
            "jpg"@
        } else if before_first(sub, '+').len() == 0 {
            "png"@
        } else {
            before_first(sub, '+')
        },
        None => "png"@,
    }
}

/// The extension for a MIME type (see `ext_of_mime`).
pub fn ext_for_mime(mime: &str) -> (r: String)
    ensures
        r@ == ext_of_mime(mime@),
{
    let v = chars_of(mime);
    let low = lower_chars(v.as_slice(), 0, v.len());
    assert(v@.subrange(0, v@.len() as int) =~= v@);
    let n = low.len();
    let l = low.as_slice();
    assert(low@.subrange(0, n as int) =~= low@);
    match split_once_in(l, 0, n, '/') {
        Some(k) => {
            let sub = slice_after(l, k + 1);
            if chars_eq_str(sub.as_slice(), "jpeg") || chars_eq_str(sub.as_slice(), "jpg") {
                owned_string("jpg")
            } else {
                let end = match split_once_in(sub.as_slice(), 0, sub.len(), '+') {
                    Some(p) => p,
                    None => sub.len(),
                };
                assert(sub@.subrange(0, sub@.len() as int) =~= sub@);
                if end == 0 {
                    owned_string("png")
                } else {
                    string_of(sub.as_slice(), 0, end)
                }
            }
        },
        None => owned_string("png"),
    }
}

fn slice_after(v: &[char], from: usize) -> (r: Vec<char>)
    requires
        from <= v@.len(),
    ensures
        r@ == v@.subrange(from as int, v@.len() as int),
{
    let mut r: Vec<char> = Vec::new();
    let mut i = from;
    while i < v.len()
        invariant
            from <= i <= v@.len(),
            r@ == v@.subrange(from as int, i as int),
        decreases v@.len() - i,
    {
        r.push(v[i]);
        assert(v@.subrange(from as int, i + 1) =~= v@.subrange(from as int, i as int).push(v@[i as int]));
        i += 1;
    }
    r
}

} // verus!

verus! {

proof fn lemma_ext_of_image_mime(sub: Seq<char>)
    requires
        sub.len() > 0,
        forall|i: int| 0 <= i < sub.len() ==> 'a' <= #[trigger] sub[i] <= 'z',
    ensures
        ext_of_mime("image/"@ + sub) == (if sub == "jpeg"@ || sub == "jpg"@ {
            "jpg"@
        } else {
            sub
        }),
{
    reveal_strlit("image/");
    let m = "image/"@ + sub;
    assert(ascii_lower(m) =~= m);
    assert forall|j: int| 0 <= j < 5 implies m[j] != '/' by {}
    lemma_split_once_at(m, '/', 5);
    assert(m.skip(6) =~= sub);
    assert forall|j: int| 0 <= j < sub.len() implies sub[j] != '+' by {
        assert('a' <= sub[j] <= 'z');
    }
    lemma_split_once_none(sub, '+');
    assert(before_first(sub, '+') == sub);
}

/// The MIME type of a known extension names that extension again (`jpeg` coming
/// back as `jpg`).
pub proof fn law_ext_mime_roundtrip(ext: Seq<char>)
    requires
        ext == "png"@ || ext == "jpg"@ || ext == "jpeg"@ || ext == "gif"@ || ext == "webp"@,
    ensures
        ext_of_mime(mime_of_ext(ext)) == (if ext == "jpeg"@ {
            "jpg"@
        } else {
            ext
        }),
{
    reveal_strlit("png");
    reveal_strlit("jpg");
    reveal_strlit("jpeg");
    reveal_strlit("gif");
    reveal_strlit("webp");
    reveal_strlit("image/");
    reveal_strlit("image/png");
    reveal_strlit("image/jpeg");
    reveal_strlit("image/gif");
    reveal_strlit("image/webp");
    if ext == "png"@ {
        assert("image/png"@ =~= "image/"@ + "png"@);
        assert("png"@.len() == 3);
        lemma_ext_of_image_mime("png"@);
    } else if ext == "jpg"@ || ext == "jpeg"@ {
        assert("image/jpeg"@ =~= "image/"@ + "jpeg"@);
        assert("jpeg"@.len() == 4);
        lemma_ext_of_image_mime("jpeg"@);
    } else if ext == "gif"@ {
        assert("image/gif"@ =~= "image/"@ + "gif"@);
        assert("gif"@.len() == 3);
        lemma_ext_of_image_mime("gif"@);
    } else {
        assert("image/webp"@ =~= "image/"@ + "webp"@);
        assert("webp"@.len() == 4);
        lemma_ext_of_image_mime("webp"@);
    }
}

/// Every format that magic bytes announce has a MIME type that names it again.
pub proof fn law_sniffed_format_has_mime(b: Seq<u8>)
    ensures
        sniffed_format(b) matches Some(f) ==> ext_of_mime(mime_of_ext(f)) == f,
{
    reveal_strlit("png");
    reveal_strlit("jpg");
    reveal_strlit("jpeg");
    reveal_strlit("gif");
    reveal_strlit("webp");
    reveal_strlit("image/png");
    reveal_strlit("image/jpeg");
    reveal_strlit("image/gif");
    reveal_strlit("image/webp");
    if let Some(f) = sniffed_format(b) {
        law_ext_mime_roundtrip(f);
        assert("jpeg"@[0] == 'j' && "jpeg"@.len() == 4);
        assert(f != "jpeg"@) by {
            if f == "webp"@ {
                assert(f[0] != "jpeg"@[0]);
            } else {
                assert(f.len() != "jpeg"@.len());
            }
        }
    }
}

} // verus!

verus! {

/// Whatever the extension, the MIME type given for it names one of the four
/// image extensions `png`, `jpg`, `gif`, `webp`.
pub proof fn law_mime_names_known_extension(ext: Seq<char>)
    ensures
        ({
            let back = ext_of_mime(mime_of_ext(ext));
            back == "png"@ || back == "jpg"@ || back == "gif"@ || back == "webp"@
        }),
{
    reveal_strlit("png");
    reveal_strlit("jpg");
    reveal_strlit("jpeg");
    reveal_strlit("gif");
    reveal_strlit("webp");
    assert("png"@.len() == 3 && "jpeg"@.len() == 4 && "gif"@.len() == 3 && "webp"@.len() == 4);
    assert("jpeg"@[0] == 'j' && "webp"@[0] == 'w' && "png"@[0] == 'p' && "gif"@[0] == 'g');
    assert(mime_of_ext("png"@) == "image/png"@);
    assert(mime_of_ext("jpeg"@) == "image/jpeg"@);
    assert(mime_of_ext("gif"@) == "image/gif"@);
    assert(mime_of_ext("webp"@) == "image/webp"@);
    let m = mime_of_ext(ext);
    if m == "image/jpeg"@ {
        law_ext_mime_roundtrip("jpeg"@);
    } else if m == "image/gif"@ {
        law_ext_mime_roundtrip("gif"@);
    } else if m == "image/webp"@ {
        law_ext_mime_roundtrip("webp"@);
    } else {
        law_ext_mime_roundtrip("png"@);
    }
}

} // verus!
