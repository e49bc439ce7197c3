//! Query-string parameters of control request paths.
use vstd::prelude::*;
use crate::http::{utf8_lossy, utf8_lossy_text};
use crate::strs::{split_by, split_chars, split_once, split_once_chars, views};
use crate::text::{chars_equal_str, chars_of, string_from_chars};
use vstd::utf8::encode_utf8;

verus! {

/// The value of a hexadecimal digit byte.
pub open spec fn hex_value(b: u8) -> Option<u8> {
    if 48 <= b && b <= 57 {
        Some((b - 48) as u8)
    } else if 97 <= b && b <= 102 {
        Some((b - 97 + 10) as u8)
    } else if 65 <= b && b <= 70 {
        Some((b - 65 + 10) as u8)
    } else {
        None
    }
}

/// The value of a hexadecimal digit byte, if it is one.
pub fn from_hex(byte: u8) -> (r: Option<u8>)
    ensures
        r == hex_value(byte),
{
    if 48u8 <= byte && byte <= 57u8 {
        Some(byte - 48u8)
    } else if 97u8 <= byte && byte <= 102u8 {
        Some(byte - 97u8 + 10)
    } else if 65u8 <= byte && byte <= 70u8 {
        Some(byte - 65u8 + 10)
    } else {
        None
    }
}

/// Form decoding of bytes: `+` becomes a space and `%XY` the byte `0xXY`; a `%` not followed
/// by two hexadecimal digits stays as it is.
pub open spec fn percent_decode_bytes(b: Seq<u8>) -> Seq<u8>
    decreases b.len(),
{
    if b.len() == 0 {
        Seq::empty()
    } else if b[0] == 43u8 {
        seq![32u8] + percent_decode_bytes(b.drop_first())
    } else if b[0] == 37u8 && b.len() >= 3 && hex_value(b[1]) is Some && hex_value(b[2]) is Some {
        seq![(hex_value(b[1]).unwrap() * 16 + hex_value(b[2]).unwrap()) as u8]
            + percent_decode_bytes(b.skip(3))
    } else {
        seq![b[0]] + percent_decode_bytes(b.drop_first())
    }
}

/// An ASCII letter or digit.
pub open spec fn is_ascii_alnum(c: u8) -> bool {
    (48 <= c && c <= 57) || (65 <= c && c <= 90) || (97 <= c && c <= 122)
}

/// `e` is a form encoding of `b`: each byte stands as itself where it is an ASCII letter or
/// digit, as `+` where it is a space, or as `%` and its two hexadecimal digits (either case).
pub open spec fn form_encodes(e: Seq<u8>, b: Seq<u8>) -> bool
    decreases b.len(),
{
    if b.len() == 0 {
        e.len() == 0
    } else {
        let c = b[0];
        ||| (is_ascii_alnum(c) && e.len() >= 1 && e[0] == c && form_encodes(e.drop_first(), b.drop_first()))
        ||| (c == 32 && e.len() >= 1 && e[0] == 43 && form_encodes(e.drop_first(), b.drop_first()))
        ||| (e.len() >= 3 && e[0] == 37 && hex_value(e[1]) == Some((c / 16) as u8)
            && hex_value(e[2]) == Some((c % 16) as u8) && form_encodes(e.skip(3), b.drop_first()))
    }
}

/// Form decoding undoes form encoding, byte for byte.
pub proof fn lemma_form_decode_bytes(e: Seq<u8>, b: Seq<u8>)
    requires
        form_encodes(e, b),
    ensures
        percent_decode_bytes(e) == b,
    decreases b.len(),
{
    if b.len() == 0 {
        assert(e =~= Seq::<u8>::empty());
    } else {
        let c = b[0];
        if is_ascii_alnum(c) && e.len() >= 1 && e[0] == c && form_encodes(e.drop_first(), b.drop_first()) {
            lemma_form_decode_bytes(e.drop_first(), b.drop_first());
            assert(seq![c] + b.drop_first() =~= b);
        } else if c == 32 && e.len() >= 1 && e[0] == 43 && form_encodes(e.drop_first(), b.drop_first()) {
            lemma_form_decode_bytes(e.drop_first(), b.drop_first());
            assert(seq![32u8] + b.drop_first() =~= b);
        } else {
            lemma_form_decode_bytes(e.skip(3), b.drop_first());
            assert((c / 16) * 16 + c % 16 == c) by (nonlinear_arith);
            assert(seq![c] + b.drop_first() =~= b);
        }
    }
}

/// A query component that form-encodes the UTF-8 bytes of a text decodes to bytes that are
/// valid UTF-8 and spell that text: decoding inverts form encoding.
pub proof fn lemma_form_decoding_round_trip(text: Seq<char>, value: Seq<char>)
    requires
        form_encodes(encode_utf8(value), encode_utf8(text)),
    ensures
        percent_decode_bytes(encode_utf8(value)) == encode_utf8(text),
        vstd::utf8::valid_utf8(percent_decode_bytes(encode_utf8(value))),
        vstd::utf8::decode_utf8(percent_decode_bytes(encode_utf8(value))) == text,
{
    lemma_form_decode_bytes(encode_utf8(value), encode_utf8(text));
    vstd::utf8::encode_utf8_valid_utf8(text);
    vstd::utf8::encode_utf8_decode_utf8(text);
}

/// The text a query component decodes to.
pub open spec fn percent_decode_text(v: Seq<char>) -> Seq<char> {
    utf8_lossy_text(percent_decode_bytes(encode_utf8(v)))
}

/// Decodes one query-string component.
pub fn percent_decode_query_component(value: &str) -> (r: String)
    ensures
        r@ == percent_decode_text(value@),
        vstd::utf8::valid_utf8(percent_decode_bytes(encode_utf8(value@)))
            ==> r@ == vstd::utf8::decode_utf8(percent_decode_bytes(encode_utf8(value@))),
{
    let bytes = value.as_bytes();
    let ghost b = bytes@;
    let mut out: Vec<u8> = Vec::new();
    let mut idx: usize = 0;
    let n = bytes.len();
    assert(b.skip(0) =~= b);
    while idx < n
        invariant
            n == b.len(),
            b == bytes@,
            idx <= n,
            percent_decode_bytes(b) == out@ + percent_decode_bytes(b.skip(idx as int)),
        decreases n - idx,
    {
        let ghost rest = b.skip(idx as int);
        let c = bytes[idx];
        assert(rest[0] == c);
        if c == 43u8 {
            assert(rest.drop_first() =~= b.skip(idx as int + 1));
            out.push(32u8);
            assert(percent_decode_bytes(b) =~= out@ + percent_decode_bytes(b.skip(idx as int + 1)));
            idx += 1;
        } else if c == 37u8 && n - idx > 2 {
            let hi = from_hex(bytes[idx + 1]);
            let lo = from_hex(bytes[idx + 2]);
            assert(rest[1] == bytes@[idx + 1] && rest[2] == bytes@[idx + 2]);
            match (hi, lo) {
                (Some(h), Some(l)) => {
                    assert(rest.skip(3) =~= b.skip(idx as int + 3));
                    let v: u8 = h * 16 + l;
                    out.push(v);
                    assert(percent_decode_bytes(b) =~= out@ + percent_decode_bytes(
                        b.skip(idx as int + 3),
                    ));
                    idx += 3;
                },
                _ => {
                    assert(rest.drop_first() =~= b.skip(idx as int + 1));
                    out.push(c);
                    assert(percent_decode_bytes(b) =~= out@ + percent_decode_bytes(
                        b.skip(idx as int + 1),
                    ));
                    idx += 1;
                },
            }
        } else {
            assert(rest.drop_first() =~= b.skip(idx as int + 1));
            out.push(c);
            assert(percent_decode_bytes(b) =~= out@ + percent_decode_bytes(b.skip(idx as int + 1)));
            idx += 1;
        }
    }
    assert(b.skip(n as int) =~= Seq::<u8>::empty());
    assert(out@ =~= percent_decode_bytes(b));
    utf8_lossy(out.as_slice())
}

/// The name of a `name=value` pair (the whole pair when it has no `=`).
pub open spec fn param_key(p: Seq<char>) -> Seq<char> {
    match split_once(p, '=') {
        Some((k, _)) => k,
        None => p,
    }
}

/// The raw value of a `name=value` pair (empty when it has no `=`).
pub open spec fn param_raw_value(p: Seq<char>) -> Seq<char> {
    match split_once(p, '=') {
        Some((_, v)) => v,
        None => Seq::empty(),
    }
}

/// The raw value of the first pair named `name`.
pub open spec fn first_param(ps: Seq<Seq<char>>, name: Seq<char>) -> Option<Seq<char>>
    decreases ps.len(),
{
    if ps.len() == 0 {
        None
    } else if param_key(ps[0]) == name {
        Some(param_raw_value(ps[0]))
    } else {
        first_param(ps.drop_first(), name)
    }
}

/// The decoded value of the first query parameter named `name` in a request path.
pub open spec fn query_param(path: Seq<char>, name: Seq<char>) -> Option<Seq<char>> {
    match split_once(path, '?') {
        None => None,
        Some((_, q)) => match first_param(split_by(q, Some('&')), name) {
            Some(v) => Some(percent_decode_text(v)),
            None => None,
        },
    }
}

/// The decoded value of the first query parameter named `name`, if the path has one.
pub fn query_param_value(path: &str, name: &str) -> (r: Option<String>)
    ensures
        match r {
            Some(v) => query_param(path@, name@) == Some(v@),
            None => query_param(path@, name@) is None,
        },
{
    let pv = chars_of(path);
    let (_, query) = match split_once_chars(pv.as_slice(), '?') {
        Some(p) => p,
        None => {
            return None;
        },
    };
    let pairs = split_chars(query.as_slice(), Some('&'));
    let ghost ps = views(pairs@);
    let mut i: usize = 0;
    assert(ps.skip(0) =~= ps);
    while i < pairs.len()
        invariant
            i <= pairs@.len(),
            ps == views(pairs@),
            ps == split_by(query@, Some('&')),
            split_once(path@, '?') is Some,
            split_once(path@, '?').unwrap().1 == query@,
            first_param(ps, name@) == first_param(ps.skip(i as int), name@),
        decreases pairs@.len() - i,
    {
        let ghost rest = ps.skip(i as int);
        assert(rest[0] == pairs@[i as int]@);
        assert(rest.drop_first() =~= ps.skip(i as int + 1));
        let pair = &pairs[i];
        let (key, value) = match split_once_chars(pair.as_slice(), '=') {
            Some(kv) => kv,
            None => (pair.clone(), Vec::new()),
        };
        assert(key@ == param_key(pair@));
        assert(value@ == param_raw_value(pair@));
        if chars_equal_str(key.as_slice(), name) {
            assert(first_param(rest, name@) == Some(param_raw_value(rest[0])));
            let raw = string_from_chars(value.as_slice());
            return Some(percent_decode_query_component(raw.as_str()));
        }
        i += 1;
    }
    assert(ps.skip(i as int) =~= Seq::<Seq<char>>::empty());
    None
}

} // verus!
