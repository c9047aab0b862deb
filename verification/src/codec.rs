//! Standard base64 (RFC 4648, with `=` padding) through the `base64` crate,
//! and the lenient, padding-tolerant decoding that data URLs use.

use vstd::prelude::*;
use vstd::utf8::*;
use crate::text::{chars_of, push_char, string_of, trim, trim_bounds};
use base64::Engine;

verus! {

#[verifier::external_type_specification]
#[verifier::external_body]
pub struct ExDecodeError(base64::DecodeError);

/// What `base64::engine::general_purpose::STANDARD.decode` makes of the
/// UTF-8 bytes of these characters: `None` where it reports an error.
pub uninterp spec fn base64_standard_decode(input: Seq<char>) -> Option<Seq<u8>>;

/// What `base64::engine::general_purpose::STANDARD.encode` makes of these bytes.
pub uninterp spec fn base64_standard_encode(bytes: Seq<u8>) -> Seq<char>;

/// The symbols that standard padded base64 writes: `A-Z a-z 0-9 + /` and `=`.
pub open spec fn is_base64_symbol(c: char) -> bool {
    ||| 'A' <= c <= 'Z'
    ||| 'a' <= c <= 'z'
    ||| '0' <= c <= '9'
    ||| c == '+'
    ||| c == '/'
    ||| c == '='
}

/// The length of the padded standard encoding of `n` bytes.
pub open spec fn encoded_len(n: nat) -> nat {
    ((n + 2) / 3 * 4) as nat
}

/// Calls `STANDARD.decode` from the `base64` crate (alphabet `A-Z a-z 0-9 + /`,
/// canonical `=` padding required, no trailing bits). Claimed: the call succeeds
/// exactly where the named result exists, and then returns that result; it
/// fails on input with a character outside the alphabet and `=` (every byte is
/// looked up in the decoding table), and on input whose length is not a
/// multiple of 4 (the last, short quad fails the length or the canonical
/// padding check).
#[verifier::external_body]
pub(crate) fn standard_decode(input: &str) -> (r: Result<Vec<u8>, base64::DecodeError>)
    ensures
        r is Ok <==> base64_standard_decode(input@) is Some,
        r matches Ok(v) ==> base64_standard_decode(input@) == Some(v@),
        (exists|i: int| 0 <= i < input@.len() && !is_base64_symbol(#[trigger] input@[i])) ==> r is Err,
        input@.len() % 4 != 0 ==> r is Err,
{
    base64::engine::general_purpose::STANDARD.decode(input.as_bytes())
}

/// Calls `STANDARD.encode` from the `base64` crate. The crate computes the
/// output length (panicking where it overflows `usize`) and allocates it with
/// `vec![0; len]`, which panics above `isize::MAX` bytes; so inputs whose
/// output would be longer than `isize::MAX` are left out. Claimed,
/// besides the name: the output has the padded length `4 * ceil(n / 3)`
/// (`base64::encoded_len`), is made of alphabet symbols and `=` only, and
/// `STANDARD.decode` gives the input back (the crate's `encode_slice` example).
#[verifier::external_body]
pub(crate) fn standard_encode(bytes: &[u8]) -> (r: String)
    requires
        encoded_len(bytes@.len()) <= isize::MAX,
    ensures
        r@ == base64_standard_encode(bytes@),
        r@.len() == encoded_len(bytes@.len()),
        forall|i: int| 0 <= i < r@.len() ==> is_base64_symbol(#[trigger] r@[i]),
        base64_standard_decode(r@) == Some(bytes@),
{
    base64::engine::general_purpose::STANDARD.encode(bytes)
}

/// The `Display` text of a `base64::DecodeError`; nothing is claimed of it.
#[verifier::external_body]
pub(crate) fn decode_error_text(e: &base64::DecodeError) -> String {
    e.to_string()
}

/// The number of `=` that bring the UTF-8 length of `t` to a multiple of 4.
pub open spec fn pad_count(t: Seq<char>) -> nat {
    ((4 - encode_utf8(t).len() % 4) % 4) as nat
}

/// `t` followed by `pad_count(t)` padding characters.
pub open spec fn pad_to_quad(t: Seq<char>) -> Seq<char> {
    t + Seq::new(pad_count(t), |i: int| '=')
}

/// What `base64_decode_padded` decodes `s` to: trimmed, padded, then decoded.
pub open spec fn decode_padded(s: Seq<char>) -> Option<Seq<u8>> {
    base64_standard_decode(pad_to_quad(trim(s)))
}

/// The message prefix of a base64 decoding error.
pub open spec fn decode_error_prefix() -> Seq<char> {
    "Base64 解码失败: "@
}

/// The number of bytes that UTF-8 spends on `c`.
pub open spec fn utf8_width(c: char) -> nat {
    let u = c as u32;
    if u <= 0x7f {
        1
    } else if u <= 0x7ff {
        2
    } else if u <= 0xffff {
        3
    } else {
        4
    }
}

proof fn lemma_encode_scalar_len(c: char)
    ensures
        encode_scalar(c as u32).len() == utf8_width(c),
{
    broadcast use char_is_scalar;

}

/// The UTF-8 encoding of `s` with `c` appended is that of `s` followed by that of `c`.
pub proof fn lemma_encode_utf8_push(s: Seq<char>, c: char)
    ensures
        encode_utf8(s.push(c)) == encode_utf8(s) + encode_scalar(c as u32),
    decreases s.len(),
{
    if s.len() == 0 {
        assert(s.push(c).drop_first() =~= Seq::<char>::empty());
        assert(encode_utf8(Seq::<char>::empty()) =~= Seq::<u8>::empty());
        assert(encode_utf8(s) =~= Seq::<u8>::empty());
        assert(encode_utf8(s.push(c)) =~= encode_scalar(c as u32) + Seq::<u8>::empty());
        assert(encode_scalar(c as u32) + Seq::<u8>::empty() =~= encode_scalar(c as u32));
    } else {
        assert(s.push(c).drop_first() =~= s.drop_first().push(c));
        lemma_encode_utf8_push(s.drop_first(), c);
        assert(encode_utf8(s.push(c)) =~= encode_scalar(s[0] as u32) + encode_utf8(
            s.drop_first().push(c),
        ));
    }
}

/// The UTF-8 length of `v[from..to]`, modulo 4.
fn utf8_len_mod4(v: &[char], from: usize, to: usize) -> (r: usize)
    requires
        from <= to <= v@.len(),
    ensures
        r == encode_utf8(v@.subrange(from as int, to as int)).len() % 4,
{
    let mut r: usize = 0;
    let mut i = from;
    assert(v@.subrange(from as int, from as int) =~= Seq::<char>::empty());
    assert(encode_utf8(Seq::<char>::empty()).len() == 0);
    while i < to
        invariant
            from <= i <= to <= v@.len(),
            r == encode_utf8(v@.subrange(from as int, i as int)).len() % 4,
        decreases to - i,
    {
        let c = v[i];
        let u = c as u32;
        let w: usize = if u <= 0x7f {
            1
        } else if u <= 0x7ff {
            2
        } else if u <= 0xffff {
            3
        } else {
            4
        };
        proof {
            assert(v@.subrange(from as int, i + 1) =~= v@.subrange(from as int, i as int).push(c));
            lemma_encode_utf8_push(v@.subrange(from as int, i as int), c);
            lemma_encode_scalar_len(c);
        }
        r = (r + w) % 4;
        i += 1;
    }
    r
}

/// Base64 decoding that accepts the payload with or without its `=` padding:
/// surrounding whitespace is trimmed and the missing `=` are added before decoding.
pub fn base64_decode_padded(s: &str) -> (r: Result<Vec<u8>, String>)
    ensures
        r is Ok <==> decode_padded(s@) is Some,
        r matches Ok(v) ==> decode_padded(s@) == Some(v@),
        r matches Err(m) ==> decode_error_prefix().is_prefix_of(m@),
{
    let v = chars_of(s);
    let (a, b) = trim_bounds(&v, 0, v.len());
    let mut t = string_of(&v, a, b);
    let ghost tt = t@;
    let k: usize = (4 - utf8_len_mod4(&v, a, b)) % 4;
    let mut i: usize = 0;
    while i < k
        invariant
            i <= k,
            t@ == tt + Seq::new(i as nat, |j: int| '='),
        decreases k - i,
    {
        push_char(&mut t, '=');
        assert(tt + Seq::new((i + 1) as nat, |j: int| '=') =~= (tt + Seq::new(
            i as nat,
            |j: int| '=',
        )).push('='));
        i += 1;
    }
    assert(v@.subrange(0, v@.len() as int) =~= v@);
    match standard_decode(t.as_str()) {
        Ok(bytes) => Ok(bytes),
        Err(e) => {
            let mut m = String::new();
            m.append("Base64 解码失败: ");
            let ghost pre = m@;
            m.append(decode_error_text(&e).as_str());
            assert(m@.subrange(0, pre.len() as int) =~= pre);
            Err(m)
        },
    }
}

/// Whether the padded base64 text of `n` bytes can be held in a `String`:
/// its length is at most `isize::MAX`.
pub fn base64_fits(n: usize) -> (r: bool)
    ensures
        r == (encoded_len(n as nat) <= isize::MAX),
{
    let groups = n / 3 + if n % 3 == 0 {
        0
    } else {
        1
    };
    assert(groups == (n + 2) / 3);
    let limit = (isize::MAX as usize) / 4;
    groups <= limit
}

/// Base64-encodes `bytes` with the standard padded alphabet.
pub fn standard_base64(bytes: &[u8]) -> (r: String)
    requires
        encoded_len(bytes@.len()) <= isize::MAX,
    ensures
        r@ == base64_standard_encode(bytes@),
        r@.len() == encoded_len(bytes@.len()),
        forall|i: int| 0 <= i < r@.len() ==> is_base64_symbol(#[trigger] r@[i]),
        base64_standard_decode(r@) == Some(bytes@),
{
    standard_encode(bytes)
}

} // verus!
