//! `data:<mime>;base64,<payload>` URLs: parsing into MIME type and bytes, and building them.

use vstd::prelude::*;
use vstd::utf8::{encode_utf8, is_ascii_chars, is_ascii_chars_encode_utf8};
use crate::codec::{
    base64_decode_padded, base64_standard_decode, base64_standard_encode, decode_padded,
    encoded_len, is_base64_symbol, lemma_encode_utf8_push, pad_count, pad_to_quad,
    standard_base64,
};
use crate::text::{
    ascii_lower, before_first, chars_of, contains_run, has_prefix, has_run, is_unicode_whitespace,
    lemma_before_first_extended, lemma_split_once_concat, lemma_split_once_none, lemma_trim_ends,
    lemma_trim_fixed,
    lower_chars, split_once, split_once_in, string_of, trim, trim_bounds,
};

verus! {

/// A parsed data URL: the MIME type (lower case, parameters dropped) and the bytes.
#[derive(Debug, Clone, PartialEq, Eq)]
pub struct DataUrl {
    pub mime: String,
    pub bytes: Vec<u8>,
}

/// The metadata and the payload of a data URL: what lies between `data:` and
/// the first `,`, and what follows it.
pub open spec fn data_url_parts(u: Seq<char>) -> Option<(Seq<char>, Seq<char>)> {
    if u.len() >= 5 && u.take(5) == "data:"@ {
        split_once(u.skip(5), ',')
    } else {
        None
    }
}

/// The MIME type named by data URL metadata: the part before the first `;`,
/// trimmed and in ASCII lower case.
pub open spec fn data_url_mime(meta: Seq<char>) -> Seq<char> {
    ascii_lower(trim(before_first(meta, ';')))
}

/// What a data URL decodes to: its MIME type and bytes, or `None` where the
/// prefix, the comma or the `base64` marker is missing, or the payload is not base64.
pub open spec fn data_url_decoded(u: Seq<char>) -> Option<(Seq<char>, Seq<u8>)> {
    match data_url_parts(u) {
        Some((meta, payload)) => {
            if contains_run(ascii_lower(meta), "base64"@) {
                match decode_padded(trim(payload)) {
                    Some(bytes) => Some((data_url_mime(meta), bytes)),
                    None => None,
                }
            } else {
                None
            }
        },
        None => None,
    }
}

/// The data URL that carries `bytes` under the MIME type `mime`.
pub open spec fn data_url_encoded(bytes: Seq<u8>, mime: Seq<char>) -> Seq<char> {
    "data:"@ + mime + ";base64,"@ + base64_standard_encode(bytes)
}

/// Parses `data:<mime>;base64,<payload>` into the MIME type and the bytes.
/// `None` when the `data:` prefix or the comma is missing, when the metadata
/// holds no `base64` marker (in any case), or when the payload is not base64;
/// the payload may omit its `=` padding.
pub fn decode_data_url(url: &str) -> (r: Option<DataUrl>)
    ensures
        match data_url_decoded(url@) {
            Some((mime, bytes)) => r matches Some(d) && d.mime@ == mime && d.bytes@ == bytes,
            None => r is None,
        },
{
    let v = chars_of(url);
    let n = v.len();
    if !has_prefix(&v, "data:") {
        proof {
            reveal_strlit("data:");
        }
        return None;
    }
    proof {
        reveal_strlit("data:");
        assert(v@.subrange(5, n as int) =~= v@.skip(5));
    }
    let comma = match split_once_in(&v, 5, n, ',') {
        Some(k) => k,
        None => {
            return None;
        },
    };
    let ghost meta = v@.subrange(5, comma as int);
    let ghost payload = v@.subrange(comma + 1, n as int);
    let lowered = lower_chars(&v, 5, comma);
    let marker = vec!['b', 'a', 's', 'e', '6', '4'];
    proof {
        reveal_strlit("base64");
        assert(marker@ =~= "base64"@);
    }
    if !has_run(lowered.as_slice(), marker.as_slice()) {
        return None;
    }
    let mime_end = match split_once_in(&v, 5, comma, ';') {
        Some(k) => k,
        None => comma,
    };
    assert(v@.subrange(5, mime_end as int) == before_first(meta, ';'));
    let (ma, mb) = trim_bounds(&v, 5, mime_end);
    let mime_chars = lower_chars(&v, ma, mb);
    let mime = string_of(mime_chars.as_slice(), 0, mime_chars.len());
    assert(mime_chars@.subrange(0, mime_chars@.len() as int) =~= mime_chars@);
    let (pa, pb) = trim_bounds(&v, comma + 1, n);
    let body = string_of(&v, pa, pb);
    match base64_decode_padded(body.as_str()) {
        Ok(bytes) => Some(DataUrl { mime, bytes }),
        Err(_) => None,
    }
}

/// Builds `data:<mime>;base64,<payload>` from the bytes. Decoding the result
/// gives the bytes back, under the MIME type that `mime` names, wherever `mime`
/// holds no comma; where it holds no `;` either, that MIME type is `mime`
/// itself, trimmed and in ASCII lower case.
pub fn encode_data_url(bytes: &[u8], mime: &str) -> (r: String)
    requires
        encoded_len(bytes@.len()) <= isize::MAX,
    ensures
        r@ == data_url_encoded(bytes@, mime@),
        !mime@.contains(',') ==> data_url_decoded(r@) == Some((data_url_mime(mime@), bytes@)),
        !mime@.contains(',') && !mime@.contains(';') ==> data_url_decoded(r@) == Some(
            (ascii_lower(trim(mime@)), bytes@),
        ),
{
    let encoded = standard_base64(bytes);
    let mut r = String::new();
    r.append("data:");
    r.append(mime);
    r.append(";base64,");
    r.append(encoded.as_str());
    proof {
        if !mime@.contains(',') {
            lemma_data_url_roundtrip(bytes@, mime@, encoded@);
        }
        if !mime@.contains(';') {
            assert forall|j: int| 0 <= j < mime@.len() implies mime@[j] != ';' by {
                if mime@[j] == ';' {
                    assert(mime@.contains(';'));
                }
            }
            lemma_split_once_none(mime@, ';');
        }
    }
    r
}

proof fn lemma_data_url_roundtrip(bytes: Seq<u8>, mime: Seq<char>, enc: Seq<char>)
    requires
        !mime.contains(','),
        enc == base64_standard_encode(bytes),
        enc.len() == encoded_len(bytes.len()),
        forall|i: int| 0 <= i < enc.len() ==> is_base64_symbol(#[trigger] enc[i]),
        base64_standard_decode(enc) == Some(bytes),
    ensures
        data_url_decoded(data_url_encoded(bytes, mime)) == Some((data_url_mime(mime), bytes)),
{
    reveal_strlit("data:");
    reveal_strlit(";base64,");
    reveal_strlit(";base64");
    reveal_strlit("base64");
    let u = data_url_encoded(bytes, mime);
    let meta = mime + ";base64"@;
    assert(u.take(5) =~= "data:"@);
    assert(u.skip(5) =~= meta + seq![','] + enc);
    assert forall|j: int| 0 <= j < meta.len() implies meta[j] != ',' by {
        if j < mime.len() {
            assert(meta[j] == mime[j]);
            if mime[j] == ',' {
                assert(mime.contains(','));
            }
        }
    }
    lemma_split_once_concat(meta, ',', enc);
    assert(data_url_parts(u) == Some((meta, enc)));
    let low = ascii_lower(meta);
    let at = mime.len() as int + 1;
    assert(low.subrange(at, at + 6) =~= "base64"@);
    assert(contains_run(low, "base64"@));
    // the payload is its own trim, and already padded
    assert forall|i: int| 0 <= i < enc.len() implies !is_unicode_whitespace(#[trigger] enc[i]) by {
        assert(is_base64_symbol(enc[i]));
    }
    lemma_trim_fixed(enc);
    assert(is_ascii_chars(enc)) by {
        assert forall|i: int| 0 <= i < enc.len() implies '\0' <= #[trigger] enc[i] <= '\u{7f}' by {
            assert(is_base64_symbol(enc[i]));
        }
    }
    is_ascii_chars_encode_utf8(enc);
    assert(pad_count(enc) == 0);
    assert(pad_to_quad(enc) =~= enc);
    assert(decode_padded(trim(enc)) == Some(bytes));
    // the MIME type ends at the first ';'
    assert(meta =~= mime + seq![';'] + "base64"@);
    lemma_before_first_extended(mime, ';', "base64"@);
}

proof fn lemma_encode_utf8_pad(t: Seq<char>, k: nat)
    ensures
        encode_utf8(t + Seq::new(k, |i: int| '=')).len() == encode_utf8(t).len() + k,
    decreases k,
{
    if k == 0 {
        assert(t + Seq::new(0, |i: int| '=') =~= t);
    } else {
        let prev = t + Seq::new((k - 1) as nat, |i: int| '=');
        assert(t + Seq::new(k, |i: int| '=') =~= prev.push('='));
        lemma_encode_utf8_pad(t, (k - 1) as nat);
        lemma_encode_utf8_push(prev, '=');
    }
}

/// A payload decodes the same with or without its `=` padding: padding what
/// was already trimmed and padded changes nothing.
pub proof fn law_padding_is_optional(s: Seq<char>)
    ensures
        decode_padded(pad_to_quad(trim(s))) == decode_padded(s),
{
    let t = trim(s);
    let p = pad_to_quad(t);
    lemma_trim_ends(s);
    lemma_encode_utf8_pad(t, pad_count(t));
    if p.len() > 0 {
        if pad_count(t) > 0 {
            assert(p.last() == '=');
        } else {
            assert(p =~= t);
        }
        if t.len() > 0 {
            assert(p[0] == t[0]);
        } else {
            assert(encode_utf8(t).len() == 0);
            assert(false);
        }
    }
    lemma_trim_fixed(p);
    assert(pad_count(p) == 0);
    assert(pad_to_quad(p) =~= p);
}

/// Padding completes the last quad: it appends at most three `=` to the
/// text, exactly as many as bring its UTF-8 length to a multiple of 4.
pub proof fn law_padding_completes_quads(t: Seq<char>)
    ensures
        pad_to_quad(t).len() < t.len() + 4,
        pad_to_quad(t).subrange(0, t.len() as int) == t,
        forall|i: int| t.len() <= i < pad_to_quad(t).len() ==> #[trigger] pad_to_quad(t)[i] == '=',
        encode_utf8(pad_to_quad(t)).len() % 4 == 0,
        encode_utf8(t).len() % 4 == 0 ==> pad_to_quad(t) == t,
{
    lemma_encode_utf8_pad(t, pad_count(t));
    assert(pad_to_quad(t).subrange(0, t.len() as int) =~= t);
    if encode_utf8(t).len() % 4 == 0 {
        assert(pad_to_quad(t) =~= t);
    }
}

/// The `=` that end a base64 text may be left off: a text whose UTF-8 length
/// is a multiple of 4 and that holds no whitespace decodes, with up to three
/// of its trailing `=` dropped, as it does in full. So the standard encoding
/// of any bytes (see `standard_base64`) decodes back to them with or without
/// its padding.
pub proof fn law_trailing_padding_may_be_dropped(enc: Seq<char>, k: nat)
    requires
        encode_utf8(enc).len() % 4 == 0,
        k <= 3,
        k <= enc.len(),
        forall|i: int| enc.len() - k <= i < enc.len() ==> #[trigger] enc[i] == '=',
        forall|i: int| 0 <= i < enc.len() ==> !is_unicode_whitespace(#[trigger] enc[i]),
    ensures
        decode_padded(enc.subrange(0, enc.len() - k)) == base64_standard_decode(enc),
{
    let t = enc.subrange(0, enc.len() - k);
    assert(enc =~= t + Seq::new(k, |i: int| '='));
    lemma_encode_utf8_pad(t, k);
    if t.len() > 0 {
        assert(t[0] == enc[0]);
        assert(t.last() == enc[t.len() - 1]);
    }
    lemma_trim_fixed(t);
    assert(pad_count(t) == k);
    assert(pad_to_quad(t) =~= enc);
}

} // verus!
