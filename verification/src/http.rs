//! Parsing of control-plane HTTP requests and rendering of error responses.
use vstd::prelude::*;
use crate::numparse::{IntErrorKind, int_error_message, parse_unsigned, parse_usize};
use crate::strs::{
    contains, contains_str, first_index, is_first_index, lines, split_lines, split_once, split_once_chars, views,
};
use crate::text::{
    chars_equal_str, chars_of, decimal, is_whitespace, lemma_trim_no_edge_whitespace, lemma_utf8_len_bound, lower,
    lower_chars, push_decimal, push_str, trim, trim_chars, utf8_len, utf8_len_of,
};
use crate::numparse::{lemma_decimal_digits, lemma_decimal_len, lemma_parse_decimal, pow10};
use vstd::string::*;

verus! {

/// Longest accepted header line, in bytes.
pub const MAX_CONTROL_REQUEST_HEADER_LINE_BYTES: usize = 8192;

/// Why a control request was refused before it reached a handler.
#[derive(Debug, Clone, Copy, PartialEq, Eq, Structural)]
pub enum RequestError {
    ConnectionClosedBeforeHeaders,
    HeaderTooLarge,
    MissingRequestLine,
    MissingMethod,
    MissingPath,
    MissingHttpVersion,
    InvalidRequestLine,
    UnsupportedHttpVersion,
    MethodTooLarge,
    PathTooLarge,
    InvalidHeaderLine,
    InvalidHeaderName,
    UnsupportedTransferEncoding,
    InvalidContentLength(IntErrorKind),
    ConflictingContentLength,
    BodyTooLarge,
    ConnectionClosedBeforeBody,
    InvalidUtf8Body { valid_up_to: usize, error_len: Option<u8> },
}

/// The text of a request error, as the control plane reports it.
pub open spec fn request_error_message(e: RequestError) -> Seq<char> {
    match e {
        RequestError::ConnectionClosedBeforeHeaders => "connection closed before headers"@,
        RequestError::HeaderTooLarge => "request header too large"@,
        RequestError::MissingRequestLine => "missing request line"@,
        RequestError::MissingMethod => "missing method"@,
        RequestError::MissingPath => "missing path"@,
        RequestError::MissingHttpVersion => "missing http version"@,
        RequestError::InvalidRequestLine => "invalid request line"@,
        RequestError::UnsupportedHttpVersion => "unsupported http version"@,
        RequestError::MethodTooLarge => "request method too large"@,
        RequestError::PathTooLarge => "request path too large"@,
        RequestError::InvalidHeaderLine => "invalid header line"@,
        RequestError::InvalidHeaderName => "invalid header name"@,
        RequestError::UnsupportedTransferEncoding => "unsupported transfer-encoding"@,
        RequestError::InvalidContentLength(k) => int_error_message(k),
        RequestError::ConflictingContentLength => "conflicting content-length"@,
        RequestError::BodyTooLarge => "request body too large"@,
        RequestError::ConnectionClosedBeforeBody => "connection closed before body"@,
        RequestError::InvalidUtf8Body { valid_up_to, error_len } => match error_len {
            Some(n) => "invalid utf-8 sequence of "@ + decimal(n as nat) + " bytes from index "@
                + decimal(valid_up_to as nat),
            None => "incomplete utf-8 byte sequence from index "@ + decimal(valid_up_to as nat),
        },
    }
}

impl RequestError {
    /// The text of this error.
    pub fn message(&self) -> (s: String)
        ensures
            s@ == request_error_message(*self),
    {
        let mut s = String::new();
        match self {
            RequestError::ConnectionClosedBeforeHeaders => push_str(&mut s, "connection closed before headers"),
            RequestError::HeaderTooLarge => push_str(&mut s, "request header too large"),
            RequestError::MissingRequestLine => push_str(&mut s, "missing request line"),
            RequestError::MissingMethod => push_str(&mut s, "missing method"),
            RequestError::MissingPath => push_str(&mut s, "missing path"),
            RequestError::MissingHttpVersion => push_str(&mut s, "missing http version"),
            RequestError::InvalidRequestLine => push_str(&mut s, "invalid request line"),
            RequestError::UnsupportedHttpVersion => push_str(&mut s, "unsupported http version"),
            RequestError::MethodTooLarge => push_str(&mut s, "request method too large"),
            RequestError::PathTooLarge => push_str(&mut s, "request path too large"),
            RequestError::InvalidHeaderLine => push_str(&mut s, "invalid header line"),
            RequestError::InvalidHeaderName => push_str(&mut s, "invalid header name"),
            RequestError::UnsupportedTransferEncoding => push_str(&mut s, "unsupported transfer-encoding"),
            RequestError::InvalidContentLength(k) => push_str(&mut s, k.message()),
            RequestError::ConflictingContentLength => push_str(&mut s, "conflicting content-length"),
            RequestError::BodyTooLarge => push_str(&mut s, "request body too large"),
            RequestError::ConnectionClosedBeforeBody => push_str(&mut s, "connection closed before body"),
            RequestError::InvalidUtf8Body { valid_up_to, error_len } => match error_len {
                Some(n) => {
                    push_str(&mut s, "invalid utf-8 sequence of ");
                    push_decimal(&mut s, *n as u128);
                    push_str(&mut s, " bytes from index ");
                    push_decimal(&mut s, *valid_up_to as u128);
                },
                None => {
                    push_str(&mut s, "incomplete utf-8 byte sequence from index ");
                    push_decimal(&mut s, *valid_up_to as u128);
                },
            },
        }
        s
    }
}

/// An optional `usize` as an optional natural number.
pub open spec fn opt_nat(o: Option<usize>) -> Option<nat> {
    match o {
        Some(v) => Some(v as nat),
        None => None,
    }
}

/// The lines after the first one (`lines().skip(1)`).
pub open spec fn after_first(ls: Seq<Seq<char>>) -> Seq<Seq<char>> {
    if ls.len() == 0 {
        ls
    } else {
        ls.drop_first()
    }
}

/// What one header line does to the content length seen so far.
pub open spec fn check_header_line(line: Seq<char>, seen: Option<nat>) -> Result<
    Option<nat>,
    RequestError,
> {
    if utf8_len(line) > MAX_CONTROL_REQUEST_HEADER_LINE_BYTES {
        Err(RequestError::HeaderTooLarge)
    } else {
        match split_once(line, ':') {
            None => Err(RequestError::InvalidHeaderLine),
            Some((name, value)) => if trim(name).len() == 0 {
                Err(RequestError::InvalidHeaderName)
            } else if lower(name) == "transfer-encoding"@ && trim(value).len() > 0 {
                Err(RequestError::UnsupportedTransferEncoding)
            } else if lower(name) == "content-length"@ {
                match parse_unsigned(trim(value), usize::MAX as nat) {
                    Err(k) => Err(RequestError::InvalidContentLength(k)),
                    Ok(parsed) => match seen {
                        Some(previous) => if previous != parsed {
                            Err(RequestError::ConflictingContentLength)
                        } else {
                            Ok(seen)
                        },
                        None => Ok(Some(parsed)),
                    },
                }
            } else {
                Ok(seen)
            },
        }
    }
}

/// Header lines checked in order; the first refusal wins.
pub open spec fn check_header_lines(ls: Seq<Seq<char>>) -> Result<Option<nat>, RequestError>
    decreases ls.len(),
{
    if ls.len() == 0 {
        Ok(None)
    } else {
        match check_header_lines(ls.drop_last()) {
            Err(e) => Err(e),
            Ok(seen) => check_header_line(ls.last(), seen),
        }
    }
}

/// The declared body length of a request head, or why the head is refused.
pub open spec fn content_length_of(head: Seq<char>) -> Result<nat, RequestError> {
    match check_header_lines(after_first(lines(head))) {
        Err(e) => Err(e),
        Ok(None) => Ok(0),
        Ok(Some(n)) => Ok(n),
    }
}

fn check_header_line_exec(line: &[char], seen: Option<usize>) -> (r: Result<
    Option<usize>,
    RequestError,
>)
    ensures
        match r {
            Ok(Some(n)) => check_header_line(line@, opt_nat(seen)) == Ok::<
                Option<nat>,
                RequestError,
            >(Some(n as nat)),
            Ok(None) => check_header_line(line@, opt_nat(seen)) == Ok::<
                Option<nat>,
                RequestError,
            >(None),
            Err(e) => check_header_line(line@, opt_nat(seen)) == Err::<
                Option<nat>,
                RequestError,
            >(e),
        },
{
    match utf8_len_of(line) {
        Some(n) => {
            if n > MAX_CONTROL_REQUEST_HEADER_LINE_BYTES {
                return Err(RequestError::HeaderTooLarge);
            }
        },
        None => {
            return Err(RequestError::HeaderTooLarge);
        },
    }
    let (name, value) = match split_once_chars(line, ':') {
        Some(p) => p,
        None => {
            return Err(RequestError::InvalidHeaderLine);
        },
    };
    let tname = trim_chars(name.as_slice());
    if tname.len() == 0 {
        return Err(RequestError::InvalidHeaderName);
    }
    let lname = lower_chars(name.as_slice());
    let tvalue = trim_chars(value.as_slice());
    if chars_equal_str(lname.as_slice(), "transfer-encoding") && tvalue.len() > 0 {
        return Err(RequestError::UnsupportedTransferEncoding);
    }
    if chars_equal_str(lname.as_slice(), "content-length") {
        match parse_usize(tvalue.as_slice()) {
            Err(k) => Err(RequestError::InvalidContentLength(k)),
            Ok(parsed) => match seen {
                Some(previous) => if previous != parsed {
                    Err(RequestError::ConflictingContentLength)
                } else {
                    Ok(seen)
                },
                None => Ok(Some(parsed)),
            },
        }
    } else {
        Ok(seen)
    }
}

/// A header line `name: value` splits at the colon after the name.
proof fn lemma_split_header(name: Seq<char>, value: Seq<char>)
    requires
        forall|i: int| 0 <= i < name.len() ==> #[trigger] name[i] != ':',
    ensures
        split_once(name + ": "@ + value, ':') == Some((name, " "@ + value)),
{
    reveal_strlit(": ");
    reveal_strlit(" ");
    let line = name + ": "@ + value;
    let k = name.len() as int;
    assert(line[k] == ':');
    assert forall|j: int| 0 <= j < k implies line[j] != ':' by {
        assert(line[j] == name[j]);
    }
    assert(is_first_index(line, ':', k));
    let c = choose|i: int| is_first_index(line, ':', i);
    assert(c == k) by {
        if c < k {
            assert(line[c] != ':');
        } else if c > k {
            assert(line[k] != ':');
        }
    }
    assert(first_index(line, ':') == Some(k));
    assert(line.take(k) =~= name);
    assert(line.skip(k + 1) =~= " "@ + value);
}

/// A header line other than a length or a transfer encoding leaves the length seen so far.
pub proof fn lemma_plain_header_line(name: Seq<char>, value: Seq<char>, seen: Option<nat>)
    requires
        name.len() > 0,
        forall|i: int| 0 <= i < name.len() ==> #[trigger] name[i] != ':' && !is_whitespace(name[i]),
        lower(name) != "transfer-encoding"@,
        lower(name) != "content-length"@,
        utf8_len(name + ": "@ + value) <= MAX_CONTROL_REQUEST_HEADER_LINE_BYTES,
    ensures
        check_header_line(name + ": "@ + value, seen) == Ok::<Option<nat>, RequestError>(seen),
{
    lemma_split_header(name, value);
    lemma_trim_no_edge_whitespace(name);
}

/// The line `content-length: n` declares `n`.
pub proof fn lemma_content_length_header_line(n: nat)
    requires
        n <= MAX_CONTROL_REQUEST_BODY_BYTES,
    ensures
        check_header_line("content-length: "@ + decimal(n), None) == Ok::<Option<nat>, RequestError>(Some(n)),
{
    reveal_strlit("content-length: ");
    reveal_strlit("content-length");
    reveal_strlit("transfer-encoding");
    reveal_strlit(": ");
    reveal_strlit(" ");
    let name = "content-length"@;
    let d = decimal(n);
    assert("content-length: "@ + d =~= name + ": "@ + d);
    assert forall|i: int| 0 <= i < name.len() implies #[trigger] name[i] != ':' && !is_whitespace(name[i]) by {}
    lemma_split_header(name, d);
    lemma_trim_no_edge_whitespace(name);
    assert(lower(name) =~= name);
    lemma_decimal_digits(n);
    assert(trim(" "@ + d) == d) by {
        let t = " "@ + d;
        assert(is_whitespace(t[0]));
        assert(t.drop_first() =~= d);
        lemma_trim_no_edge_whitespace(d);
        assert(!is_whitespace(d[0]));
    }
    lemma_parse_decimal(n, usize::MAX as nat);
    assert(pow10(7) == 10000000) by {
        reveal_with_fuel(pow10, 8);
    }
    lemma_decimal_len(n, 7);
    lemma_utf8_len_bound(name + ": "@ + d);
}

/// Validates the header lines of a request head and returns its content length.
///
/// A request that declares a transfer encoding, a malformed or oversized header line,
/// or two different content lengths is refused.
pub fn parse_content_length_and_validate_headers(headers: &str) -> (r: Result<
    usize,
    RequestError,
>)
    ensures
        match r {
            Ok(n) => content_length_of(headers@) == Ok::<nat, RequestError>(n as nat),
            Err(e) => content_length_of(headers@) == Err::<nat, RequestError>(e),
        },
{
    let hv = chars_of(headers);
    let ls = split_lines(hv.as_slice());
    let ghost lv = views(ls@);
    let ghost rest = after_first(lv);
    let mut seen: Option<usize> = None;
    if ls.len() == 0 {
        return Ok(0);
    }
    let mut i: usize = 1;
    assert(rest.take(0) =~= Seq::<Seq<char>>::empty());
    while i < ls.len()
        invariant
            1 <= i <= ls@.len(),
            lv == views(ls@),
            lv == lines(headers@),
            rest == lv.drop_first(),
            check_header_lines(rest.take(i - 1)) == Ok::<Option<nat>, RequestError>(
                opt_nat(seen),
            ),
        decreases ls@.len() - i,
    {
        assert(rest.take(i as int).drop_last() =~= rest.take(i - 1));
        assert(rest.take(i as int).last() == ls@[i as int]@);
        match check_header_line_exec(ls[i].as_slice(), seen) {
            Ok(next) => {
                seen = next;
            },
            Err(e) => {
                proof {
                    lemma_check_lines_err_sticky(rest, i as nat);
                }
                return Err(e);
            },
        }
        i += 1;
    }
    assert(rest.take(i - 1) =~= rest);
    match seen {
        Some(n) => Ok(n),
        None => Ok(0),
    }
}

proof fn lemma_check_lines_err_sticky(ls: Seq<Seq<char>>, k: nat)
    requires
        k <= ls.len(),
        check_header_lines(ls.take(k as int)) is Err,
    ensures
        check_header_lines(ls) == check_header_lines(ls.take(k as int)),
    decreases ls.len(),
{
    if k == ls.len() {
        assert(ls.take(k as int) =~= ls);
    } else {
        assert(ls.drop_last().take(k as int) =~= ls.take(k as int));
        lemma_check_lines_err_sticky(ls.drop_last(), k);
    }
}

} // verus!

verus! {

/// Longest accepted request head, in bytes.
pub const MAX_CONTROL_REQUEST_HEADER_BYTES: usize = 1048576;

/// Longest accepted request body, in bytes.
pub const MAX_CONTROL_REQUEST_BODY_BYTES: usize = 4194304;

/// Longest accepted request method, in bytes.
pub const MAX_CONTROL_REQUEST_METHOD_BYTES: usize = 16;

/// Longest accepted request path, in bytes.
pub const MAX_CONTROL_REQUEST_PATH_BYTES: usize = 4096;

/// The status code for a request that failed with the given error text.
pub open spec fn status_for_error_text(error: Seq<char>) -> u16 {
    if contains(error, "request body too large"@) {
        413
    } else if contains(error, "request header too large"@) || contains(
        error,
        "request method too large"@,
    ) || contains(error, "request path too large"@) {
        431
    } else {
        400
    }
}

/// Maps a request error text to its HTTP status: 413 for an oversized body, 431 for an
/// oversized head, method or path, and 400 otherwise.
pub fn status_for_request_error(error: &str) -> (status: u16)
    ensures
        status == status_for_error_text(error@),
{
    let e = chars_of(error);
    if contains_str(e.as_slice(), "request body too large") {
        413
    } else if contains_str(e.as_slice(), "request header too large") || contains_str(
        e.as_slice(),
        "request method too large",
    ) || contains_str(e.as_slice(), "request path too large") {
        431
    } else {
        400
    }
}

/// The reason phrase of an error status.
pub open spec fn error_status_reason(status: u16) -> Seq<char> {
    if status == 400 {
        "Bad Request"@
    } else if status == 413 {
        "Payload Too Large"@
    } else if status == 431 {
        "Request Header Fields Too Large"@
    } else {
        "Bad Request"@
    }
}

/// The reason phrase of an error status; unknown codes read as "Bad Request".
pub fn status_reason(status: u16) -> (r: &'static str)
    ensures
        r@ == error_status_reason(status),
{
    match status {
        400 => "Bad Request",
        413 => "Payload Too Large",
        431 => "Request Header Fields Too Large",
        _ => "Bad Request",
    }
}

/// The raw HTTP response sent for a request that could not be parsed.
pub open spec fn error_response_text(status: u16, body: Seq<char>) -> Seq<char> {
    "HTTP/1.1 "@ + decimal(status as nat) + " "@ + error_status_reason(status)
        + "\r\ncontent-type: text/plain; charset=utf-8\r\ncontent-length: "@ + decimal(
        utf8_len(body),
    ) + "\r\nconnection: close\r\n\r\n"@ + body
}

/// Renders the plain-text error response for a refused request.
pub fn control_error_http_response(status: u16, body: &str) -> (r: String)
    ensures
        r@ == error_response_text(status, body@),
{
    let mut out = String::new();
    push_str(&mut out, "HTTP/1.1 ");
    push_decimal(&mut out, status as u128);
    push_str(&mut out, " ");
    push_str(&mut out, status_reason(status));
    push_str(&mut out, "\r\ncontent-type: text/plain; charset=utf-8\r\ncontent-length: ");
    let n = crate::text::str_byte_len(body);
    push_decimal(&mut out, n as u128);
    push_str(&mut out, "\r\nconnection: close\r\n\r\n");
    push_str(&mut out, body);
    out
}

/// The (name, value) pairs of the header lines: names trimmed and lower-cased, values
/// trimmed, lines without a colon skipped.
pub open spec fn header_pairs(ls: Seq<Seq<char>>) -> Seq<(Seq<char>, Seq<char>)>
    decreases ls.len(),
{
    if ls.len() == 0 {
        Seq::empty()
    } else {
        let r = header_pairs(ls.drop_last());
        match split_once(ls.last(), ':') {
            Some((n, v)) => r.push((lower(trim(n)), trim(v))),
            None => r,
        }
    }
}

/// The views of header pairs.
pub open spec fn pair_views(v: Seq<(String, String)>) -> Seq<(Seq<char>, Seq<char>)> {
    v.map_values(|p: (String, String)| (p.0@, p.1@))
}

/// Extracts the headers of a request head.
pub fn parse_headers(headers: &str) -> (r: Vec<(String, String)>)
    ensures
        pair_views(r@) == header_pairs(after_first(lines(headers@))),
{
    let hv = chars_of(headers);
    let ls = split_lines(hv.as_slice());
    let ghost lv = views(ls@);
    let ghost rest = after_first(lv);
    let mut out: Vec<(String, String)> = Vec::new();
    if ls.len() == 0 {
        return out;
    }
    let mut i: usize = 1;
    assert(rest.take(0) =~= Seq::<Seq<char>>::empty());
    while i < ls.len()
        invariant
            1 <= i <= ls@.len(),
            lv == views(ls@),
            rest == lv.drop_first(),
            pair_views(out@) == header_pairs(rest.take(i - 1)),
        decreases ls@.len() - i,
    {
        assert(rest.take(i as int).drop_last() =~= rest.take(i - 1));
        assert(rest.take(i as int).last() == ls@[i as int]@);
        match split_once_chars(ls[i].as_slice(), ':') {
            Some((n, v)) => {
                let tn = trim_chars(n.as_slice());
                let name = lower_chars(tn.as_slice());
                let value = trim_chars(v.as_slice());
                let ghost before = out@;
                let pair = (
                    crate::text::string_from_chars(name.as_slice()),
                    crate::text::string_from_chars(value.as_slice()),
                );
                out.push(pair);
                assert(pair_views(out@) =~= pair_views(before).push((name@, value@)));
            },
            None => {},
        }
        i += 1;
    }
    assert(rest.take(i - 1) =~= rest);
    out
}

/// Position of the first blank line (`\r\n\r\n`) in a buffer.
pub open spec fn header_end_at(b: Seq<u8>, i: int) -> bool {
    0 <= i && i + 4 <= b.len() && b[i] == 13u8 && b[i + 1] == 10u8 && b[i + 2] == 13u8 && b[i
        + 3] == 10u8
}

/// Finds the first `\r\n\r\n` in a buffer.
pub fn find_header_end(buffer: &[u8]) -> (r: Option<usize>)
    ensures
        match r {
            Some(i) => header_end_at(buffer@, i as int) && forall|j: int|
                0 <= j < i ==> !header_end_at(buffer@, j),
            None => forall|j: int| !header_end_at(buffer@, j),
        },
{
    let n = buffer.len();
    if n < 4 {
        return None;
    }
    let mut i: usize = 0;
    while i <= n - 4
        invariant
            n == buffer@.len(),
            n >= 4,
            i <= n - 3,
            forall|j: int| 0 <= j < i ==> !header_end_at(buffer@, j),
        decreases n - i,
    {
        if buffer[i] == 13 && buffer[i + 1] == 10 && buffer[i + 2] == 13 && buffer[i + 3] == 10 {
            return Some(i);
        }
        i += 1;
    }
    None
}

} // verus!

verus! {

/// The request line and declared body length of a request head.
#[derive(Debug)]
pub struct RequestHead {
    pub method: String,
    pub path: String,
    pub content_length: usize,
}

/// What the request line and headers of a head yield: method, path and body length.
pub open spec fn request_head_of(head: Seq<char>) -> Result<(Seq<char>, Seq<char>, nat), RequestError> {
    let ls = lines(head);
    if ls.len() == 0 {
        Err(RequestError::MissingRequestLine)
    } else {
        let ws = crate::strs::words(ls[0]);
        if ws.len() < 1 {
            Err(RequestError::MissingMethod)
        } else if ws.len() < 2 {
            Err(RequestError::MissingPath)
        } else if ws.len() < 3 {
            Err(RequestError::MissingHttpVersion)
        } else if ws.len() > 3 {
            Err(RequestError::InvalidRequestLine)
        } else if !crate::strs::starts_with(ws[2], "HTTP/1."@) {
            Err(RequestError::UnsupportedHttpVersion)
        } else if utf8_len(ws[0]) > MAX_CONTROL_REQUEST_METHOD_BYTES {
            Err(RequestError::MethodTooLarge)
        } else if utf8_len(ws[1]) > MAX_CONTROL_REQUEST_PATH_BYTES {
            Err(RequestError::PathTooLarge)
        } else {
            match content_length_of(head) {
                Err(e) => Err(e),
                Ok(n) => if n > MAX_CONTROL_REQUEST_BODY_BYTES {
                    Err(RequestError::BodyTooLarge)
                } else {
                    Ok((ws[0], ws[1], n))
                },
            }
        }
    }
}

fn over_limit(s: &[char], max: usize) -> (r: bool)
    ensures
        r == (utf8_len(s@) > max),
{
    match utf8_len_of(s) {
        Some(n) => n > max,
        None => true,
    }
}

/// Parses the request line of a head and validates its headers.
pub fn parse_request_head(head: &str) -> (r: Result<RequestHead, RequestError>)
    ensures
        match r {
            Ok(h) => request_head_of(head@) == Ok::<(Seq<char>, Seq<char>, nat), RequestError>(
                (h.method@, h.path@, h.content_length as nat),
            ),
            Err(e) => request_head_of(head@) == Err::<(Seq<char>, Seq<char>, nat), RequestError>(
                e,
            ),
        },
{
    let hv = chars_of(head);
    let ls = split_lines(hv.as_slice());
    if ls.len() == 0 {
        return Err(RequestError::MissingRequestLine);
    }
    assert(ls@[0]@ == lines(head@)[0]);
    let ws = crate::strs::split_words(ls[0].as_slice());
    if ws.len() < 1 {
        return Err(RequestError::MissingMethod);
    }
    if ws.len() < 2 {
        return Err(RequestError::MissingPath);
    }
    if ws.len() < 3 {
        return Err(RequestError::MissingHttpVersion);
    }
    if ws.len() > 3 {
        return Err(RequestError::InvalidRequestLine);
    }
    assert(ws@[0]@ == views(ws@)[0] && ws@[1]@ == views(ws@)[1] && ws@[2]@ == views(ws@)[2]);
    if !crate::strs::starts_with_str(ws[2].as_slice(), "HTTP/1.") {
        return Err(RequestError::UnsupportedHttpVersion);
    }
    if over_limit(ws[0].as_slice(), MAX_CONTROL_REQUEST_METHOD_BYTES) {
        return Err(RequestError::MethodTooLarge);
    }
    if over_limit(ws[1].as_slice(), MAX_CONTROL_REQUEST_PATH_BYTES) {
        return Err(RequestError::PathTooLarge);
    }
    let content_length = match parse_content_length_and_validate_headers(head) {
        Ok(n) => n,
        Err(e) => {
            return Err(e);
        },
    };
    if content_length > MAX_CONTROL_REQUEST_BODY_BYTES {
        return Err(RequestError::BodyTooLarge);
    }
    Ok(
        RequestHead {
            method: crate::text::string_from_chars(ws[0].as_slice()),
            path: crate::text::string_from_chars(ws[1].as_slice()),
            content_length,
        },
    )
}

/// The characters that `String::from_utf8_lossy` makes of a byte sequence.
pub uninterp spec fn utf8_lossy_text(b: Seq<u8>) -> Seq<char>;

/// Decodes bytes as UTF-8, replacing invalid sequences (`String::from_utf8_lossy`).
///
/// The result is named; on valid UTF-8 it is the decoded text. What replacement characters
/// appear for invalid input is not stated.
#[verifier::external_body]
pub(crate) fn utf8_lossy(b: &[u8]) -> (s: String)
    ensures
        s@ == utf8_lossy_text(b@),
        vstd::utf8::valid_utf8(b@) ==> s@ == vstd::utf8::decode_utf8(b@),
{
    String::from_utf8_lossy(b).into_owned()
}

/// Decodes bytes as UTF-8 (`std::str::from_utf8`): the text when the bytes are valid,
/// otherwise the length of the valid prefix and the length of the bad sequence
/// (`None` when the input ends inside a sequence).
#[verifier::external_body]
pub(crate) fn utf8_strict(b: &[u8]) -> (r: Result<String, (usize, Option<usize>)>)
    ensures
        match r {
            Ok(s) => vstd::utf8::valid_utf8(b@) && s@ == vstd::utf8::decode_utf8(b@),
            Err((valid_up_to, _)) => !vstd::utf8::valid_utf8(b@) && valid_up_to <= b@.len()
                && vstd::utf8::valid_utf8(b@.take(valid_up_to as int)),
        },
{
    match std::str::from_utf8(b) {
        Ok(s) => Ok(s.to_string()),
        Err(e) => Err((e.valid_up_to(), e.error_len())),
    }
}

/// How far reading a request's head has come.
#[derive(Debug, Clone, Copy, PartialEq, Eq, Structural)]
pub enum HeaderScan {
    /// The blank line ending the head starts here.
    Complete(usize),
    /// No blank line yet, and the buffer is past the head limit.
    TooLarge,
    /// No blank line yet; read more.
    NeedMore,
}

/// Decides, after each read, whether the buffered bytes hold the whole request head.
pub fn scan_request_head(buffer: &[u8]) -> (r: HeaderScan)
    ensures
        match r {
            HeaderScan::Complete(pos) => (exists|i: int| header_end_at(buffer@, i)) && header_end_at(buffer@, pos as int)
                && forall|j: int| 0 <= j < pos ==> !header_end_at(buffer@, j),
            HeaderScan::TooLarge => !(exists|i: int| header_end_at(buffer@, i)) && buffer@.len() > MAX_CONTROL_REQUEST_HEADER_BYTES,
            HeaderScan::NeedMore => !(exists|i: int| header_end_at(buffer@, i)) && buffer@.len() <= MAX_CONTROL_REQUEST_HEADER_BYTES,
        },
{
    match find_header_end(buffer) {
        Some(pos) => HeaderScan::Complete(pos),
        None => if buffer.len() > MAX_CONTROL_REQUEST_HEADER_BYTES {
            HeaderScan::TooLarge
        } else {
            HeaderScan::NeedMore
        },
    }
}

/// Parses the head of a buffered request whose blank line starts at `header_end`.
pub fn request_head_from_bytes(buffer: &[u8], header_end: usize) -> (r: Result<
    RequestHead,
    RequestError,
>)
    requires
        header_end <= buffer@.len(),
    ensures
        match r {
            Ok(h) => request_head_of(utf8_lossy_text(buffer@.take(header_end as int))) == Ok::<
                (Seq<char>, Seq<char>, nat),
                RequestError,
            >((h.method@, h.path@, h.content_length as nat)),
            Err(e) => request_head_of(utf8_lossy_text(buffer@.take(header_end as int))) == Err::<
                (Seq<char>, Seq<char>, nat),
                RequestError,
            >(e),
        },
        vstd::utf8::valid_utf8(buffer@.take(header_end as int)) ==> match r {
            Ok(h) => request_head_of(vstd::utf8::decode_utf8(buffer@.take(header_end as int))) == Ok::<
                (Seq<char>, Seq<char>, nat),
                RequestError,
            >((h.method@, h.path@, h.content_length as nat)),
            Err(e) => request_head_of(vstd::utf8::decode_utf8(buffer@.take(header_end as int))) == Err::<
                (Seq<char>, Seq<char>, nat),
                RequestError,
            >(e),
        },
{
    let head_bytes = crate::bytes::prefix(buffer, header_end);
    let text = utf8_lossy(head_bytes.as_slice());
    parse_request_head(text.as_str())
}

/// A control request as the node's handlers see it.
#[derive(Debug)]
pub struct ControlRequest {
    pub method: String,
    pub path: String,
    pub body: String,
    pub headers: Vec<(String, String)>,
}

/// The request made of a complete buffer: the head before `header_end`, the body after the
/// blank line.
pub fn request_from_buffer(buffer: &[u8], header_end: usize, head: RequestHead) -> (r: Result<
    ControlRequest,
    RequestError,
>)
    requires
        header_end as int + 4 + head.content_length as int <= buffer@.len(),
    ensures
        match r {
            Ok(req) => {
                &&& req.method@ == head.method@
                &&& req.path@ == head.path@
                &&& vstd::utf8::valid_utf8(
                    buffer@.subrange(header_end + 4, header_end + 4 + head.content_length),
                )
                &&& req.body@ == vstd::utf8::decode_utf8(
                    buffer@.subrange(header_end + 4, header_end + 4 + head.content_length),
                )
                &&& pair_views(req.headers@) == header_pairs(
                    after_first(lines(utf8_lossy_text(buffer@.take(header_end as int)))),
                )
            },
            Err(e) => !vstd::utf8::valid_utf8(
                buffer@.subrange(header_end + 4, header_end + 4 + head.content_length),
            ) && e is InvalidUtf8Body,
        },
{
    let blen = buffer.len();
    assert(blen == buffer@.len());
    let start = header_end + 4;
    let end = start + head.content_length;
    let body_bytes = crate::bytes::range(buffer, start, end);
    let body = match utf8_strict(body_bytes.as_slice()) {
        Ok(s) => s,
        Err((valid_up_to, error_len)) => {
            let el: Option<u8> = match error_len {
                Some(n) => if n <= 255 { Some(n as u8) } else { Some(255u8) },
                None => None,
            };
            return Err(RequestError::InvalidUtf8Body { valid_up_to, error_len: el });
        },
    };
    let head_bytes = crate::bytes::prefix(buffer, header_end);
    let text = utf8_lossy(head_bytes.as_slice());
    let headers = parse_headers(text.as_str());
    Ok(ControlRequest { method: head.method, path: head.path, body, headers })
}

} // verus!
