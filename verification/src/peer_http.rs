//! The HTTP exchange with another node's control server: where to connect, what to send,
//! and what to make of the reply.
use vstd::prelude::*;
use crate::dht::strip_trailing_slashes;
use crate::http::{
    after_first, check_header_lines, header_end_at, content_length_of, lemma_content_length_header_line,
    lemma_plain_header_line, request_head_of, RequestError, MAX_CONTROL_REQUEST_BODY_BYTES,
    MAX_CONTROL_REQUEST_HEADER_LINE_BYTES, MAX_CONTROL_REQUEST_METHOD_BYTES,
    MAX_CONTROL_REQUEST_PATH_BYTES,
};
use crate::numparse::lemma_decimal_digits;
use crate::strs::{
    contains, contains_str, crlf_join, first_index, lemma_crlf_join_line_feeds, lemma_lines_crlf_join, lemma_words_three, lines,
    slice_chars, split_lines, split_once_chars, split_once_str, split_once_str_chars, starts_with,
    starts_with_str, words, };
use crate::text::{
    char_utf8_len, chars_of, decimal, is_whitespace, lemma_encode_ascii_char, lemma_encode_concat,
    lemma_encode_scalar_bytes, lemma_utf8_len_concat, lemma_utf8_len_prefix_monotone,
    lemma_utf8_len_bound, lemma_utf8_len_encode, lemma_utf8_len_zero, lower, push_chars,
    push_decimal, push_str, str_byte_len, string_from_chars, trim, trim_chars, utf8_len,
};
use vstd::string::*;

verus! {

/// Where a control peer's URL leads: host and port, and the path prefix (empty, or `/`
/// and what followed the host); an error for anything but `http://`.
pub open spec fn peer_target(url: Seq<char>) -> Result<(Seq<char>, Seq<char>), Seq<char>> {
    let n = strip_trailing_slashes(trim(url));
    if !starts_with(n, "http://"@) {
        Err("only http:// control peers are supported"@)
    } else {
        let w = n.skip(7);
        match first_index(w, '/') {
            Some(i) => Ok((w.take(i), "/"@ + w.skip(i + 1))),
            None => Ok((w, Seq::empty())),
        }
    }
}

/// The host, port and path prefix of a control peer's URL.
pub fn control_peer_target(url: &str) -> (r: Result<(String, String), String>)
    ensures
        match (r, peer_target(url@)) {
            (Ok((h, p)), Ok((hs, ps))) => h@ == hs && p@ == ps,
            (Err(e), Err(es)) => e@ == es,
            _ => false,
        },
{
    let chars = chars_of(url);
    let t = trim_chars(chars.as_slice());
    let mut j: usize = t.len();
    assert(t@.take(j as int) =~= t@);
    while j > 0 && t[j - 1] == '/'
        invariant
            j <= t@.len(),
            strip_trailing_slashes(t@) == strip_trailing_slashes(t@.take(j as int)),
        decreases j,
    {
        assert(t@.take(j as int).drop_last() =~= t@.take(j - 1));
        j -= 1;
    }
    let n = slice_chars(t.as_slice(), 0, j);
    assert(n@ =~= t@.take(j as int));
    proof {
        reveal_strlit("http://");
    }
    if !starts_with_str(n.as_slice(), "http://") {
        let mut e = String::new();
        push_str(&mut e, "only http:// control peers are supported");
        return Err(e);
    }
    let w = slice_chars(n.as_slice(), 7, n.len());
    assert(w@ =~= n@.skip(7));
    match split_once_chars(w.as_slice(), '/') {
        Some((host, path)) => {
            let mut prefix = String::new();
            push_str(&mut prefix, "/");
            push_chars(&mut prefix, path.as_slice());
            Ok((string_from_chars(host.as_slice()), prefix))
        },
        None => Ok((string_from_chars(w.as_slice()), String::new())),
    }
}

/// The request sent to a control peer: request line with the prefixed path, host, a bearer
/// token where one is configured, a JSON content type and length where there is a body,
/// `connection: close`, then the body.
pub open spec fn peer_request_text(
    method: Seq<char>,
    path_prefix: Seq<char>,
    path: Seq<char>,
    host_port: Seq<char>,
    token: Option<Seq<char>>,
    body: Seq<char>,
) -> Seq<char> {
    let auth = match token {
        Some(t) => "authorization: Bearer "@ + t + "\r\n"@,
        None => Seq::empty(),
    };
    let content = if body.len() == 0 {
        Seq::empty()
    } else {
        "content-type: application/json\r\ncontent-length: "@ + decimal(utf8_len(body)) + "\r\n"@
    };
    method + " "@ + path_prefix + path + " HTTP/1.1\r\nhost: "@ + host_port + "\r\n"@ + auth + content
        + "connection: close\r\n\r\n"@ + body
}

/// The request text for a control peer.
pub fn control_peer_request_text(
    method: &str,
    path_prefix: &str,
    path: &str,
    host_port: &str,
    token: Option<&str>,
    body: &str,
) -> (r: String)
    ensures
        r@ == peer_request_text(method@, path_prefix@, path@, host_port@, match token {
            Some(t) => Some(t@),
            None => None,
        }, body@),
{
    let mut out = String::new();
    push_str(&mut out, method);
    push_str(&mut out, " ");
    push_str(&mut out, path_prefix);
    push_str(&mut out, path);
    push_str(&mut out, " HTTP/1.1\r\nhost: ");
    push_str(&mut out, host_port);
    push_str(&mut out, "\r\n");
    if let Some(t) = token {
        push_str(&mut out, "authorization: Bearer ");
        push_str(&mut out, t);
        push_str(&mut out, "\r\n");
    }
    let n = str_byte_len(body);
    proof {
        crate::text::lemma_utf8_len_zero(body@);
    }
    if n > 0 {
        push_str(&mut out, "content-type: application/json\r\ncontent-length: ");
        push_decimal(&mut out, n as u128);
        push_str(&mut out, "\r\n");
    }
    push_str(&mut out, "connection: close\r\n\r\n");
    push_str(&mut out, body);
    out
}

/// What a control peer's reply comes to: the body after the blank line where the status
/// line reports 200 or 201; an error otherwise.
pub open spec fn peer_response_body(response: Seq<char>) -> Result<Seq<char>, Seq<char>> {
    match split_once_str(response, "\r\n\r\n"@) {
        None => Err("invalid http response"@),
        Some((head, body)) => {
            let ls = lines(head);
            if ls.len() == 0 {
                Err("missing status line"@)
            } else if !contains(ls[0], " 200 "@) && !contains(ls[0], " 201 "@) {
                Err("control peer returned "@ + ls[0])
            } else {
                Ok(body)
            }
        },
    }
}

/// The body of a control peer's reply, if it reports success.
pub fn control_peer_response_body(response: &str) -> (r: Result<String, String>)
    ensures
        match (r, peer_response_body(response@)) {
            (Ok(b), Ok(bs)) => b@ == bs,
            (Err(e), Err(es)) => e@ == es,
            _ => false,
        },
{
    let chars = chars_of(response);
    let sep = chars_of("\r\n\r\n");
    match split_once_str_chars(chars.as_slice(), sep.as_slice()) {
        None => {
            let mut e = String::new();
            push_str(&mut e, "invalid http response");
            Err(e)
        },
        Some((head, body)) => {
            let ls = split_lines(head.as_slice());
            if ls.len() == 0 {
                let mut e = String::new();
                push_str(&mut e, "missing status line");
                return Err(e);
            }
            let first = &ls[0];
            assert(first@ == lines(head@)[0]);
            if !contains_str(first.as_slice(), " 200 ") && !contains_str(first.as_slice(), " 201 ") {
                let mut e = String::new();
                push_str(&mut e, "control peer returned ");
                push_chars(&mut e, first.as_slice());
                return Err(e);
            }
            Ok(string_from_chars(body.as_slice()))
        },
    }
}

/// Whether a blank line (`\r\n\r\n`) starts at `i`.
pub open spec fn blank_line_at(s: Seq<char>, i: int) -> bool {
    0 <= i && i + 4 <= s.len() && s[i] == '\r' && s[i + 1] == '\n' && s[i + 2] == '\r' && s[i + 3] == '\n'
}

/// The header lines of a request sent to a control peer, in order.
pub open spec fn peer_header_lines(host_port: Seq<char>, token: Option<Seq<char>>, body: Seq<char>) -> Seq<Seq<char>> {
    let with_host = seq!["host"@ + ": "@ + host_port];
    let with_auth = match token {
        Some(t) => with_host.push("authorization"@ + ": "@ + ("Bearer "@ + t)),
        None => with_host,
    };
    let with_content = if body.len() == 0 {
        with_auth
    } else {
        with_auth.push("content-type"@ + ": "@ + "application/json"@).push("content-length: "@ + decimal(utf8_len(body)))
    };
    with_content.push("connection"@ + ": "@ + "close"@)
}

/// The lines of the head of a request sent to a control peer: the request line, then the
/// header lines.
pub open spec fn peer_request_lines(
    method: Seq<char>,
    path_prefix: Seq<char>,
    path: Seq<char>,
    host_port: Seq<char>,
    token: Option<Seq<char>>,
    body: Seq<char>,
) -> Seq<Seq<char>> {
    seq![method + " "@ + (path_prefix + path) + " "@ + "HTTP/1.1"@] + peer_header_lines(host_port, token, body)
}

proof fn lemma_crlf_join_push(ls: Seq<Seq<char>>, l: Seq<char>)
    requires
        ls.len() >= 1,
    ensures
        crlf_join(ls.push(l)) == crlf_join(ls) + "\r\n"@ + l,
{
    assert(ls.push(l).drop_last() =~= ls);
    assert(ls.push(l).last() == l);
}

proof fn lemma_no_colon_name(name: Seq<char>)
    requires
        name == "host"@ || name == "authorization"@ || name == "content-type"@ || name == "connection"@,
    ensures
        name.len() > 0,
        forall|i: int| 0 <= i < name.len() ==> #[trigger] name[i] != ':' && !is_whitespace(name[i]),
        lower(name) != "transfer-encoding"@,
        lower(name) != "content-length"@,
{
    reveal_strlit("host");
    reveal_strlit("authorization");
    reveal_strlit("content-type");
    reveal_strlit("connection");
    reveal_strlit("transfer-encoding");
    reveal_strlit("content-length");
    assert(lower(name).len() == name.len());
}

proof fn lemma_peer_text_shape(
    method: Seq<char>,
    path_prefix: Seq<char>,
    path: Seq<char>,
    host_port: Seq<char>,
    token: Option<Seq<char>>,
    body: Seq<char>,
)
    ensures
        peer_request_text(method, path_prefix, path, host_port, token, body)
            == crlf_join(peer_request_lines(method, path_prefix, path, host_port, token, body)) + "\r\n\r\n"@ + body,
{
    reveal_strlit(" ");
    reveal_strlit("HTTP/1.1");
    reveal_strlit("\r\n");
    reveal_strlit("\r\n\r\n");
    reveal_strlit(": ");
    reveal_strlit("host");
    reveal_strlit(" HTTP/1.1\r\nhost: ");
    reveal_strlit("connection");
    reveal_strlit("close");
    reveal_strlit("connection: close\r\n\r\n");
    let pp = path_prefix + path;
    let n = utf8_len(body);
    let l0 = method + " "@ + pp + " "@ + "HTTP/1.1"@;
    let lh = "host"@ + ": "@ + host_port;
    let lct = "content-type"@ + ": "@ + "application/json"@;
    let lcl = "content-length: "@ + decimal(n);
    let lc = "connection"@ + ": "@ + "close"@;
    let ls = peer_request_lines(method, path_prefix, path, host_port, token, body);
    let base = seq![l0, lh];
    assert(seq![l0] + seq![lh] =~= base);
    let with_auth = match token {
        Some(t) => base.push("authorization"@ + ": "@ + ("Bearer "@ + t)),
        None => base,
    };
    let with_content = if body.len() == 0 { with_auth } else { with_auth.push(lct).push(lcl) };
    assert(ls =~= with_content.push(lc));
    assert(crlf_join(base) == l0 + "\r\n"@ + lh) by {
        lemma_crlf_join_push(seq![l0], lh);
        assert(seq![l0].push(lh) =~= base);
    }
    let auth = match token {
        Some(t) => "authorization: Bearer "@ + t + "\r\n"@,
        None => Seq::<char>::empty(),
    };
    let content = if body.len() == 0 {
        Seq::<char>::empty()
    } else {
        "content-type: application/json\r\ncontent-length: "@ + decimal(n) + "\r\n"@
    };
    assert(crlf_join(with_auth) + "\r\n"@ =~= crlf_join(base) + "\r\n"@ + auth) by {
        if let Some(t) = token {
            reveal_strlit("authorization");
            reveal_strlit("Bearer ");
            reveal_strlit("authorization: Bearer ");
            lemma_crlf_join_push(base, "authorization"@ + ": "@ + ("Bearer "@ + t));
        }
    }
    assert(crlf_join(with_content) + "\r\n"@ =~= crlf_join(with_auth) + "\r\n"@ + content) by {
        if body.len() > 0 {
            reveal_strlit("content-type");
            reveal_strlit("application/json");
            reveal_strlit("content-type: application/json\r\ncontent-length: ");
            reveal_strlit("content-length: ");
            lemma_crlf_join_push(with_auth, lct);
            lemma_crlf_join_push(with_auth.push(lct), lcl);
            assert(lct + "\r\n"@ + "content-length: "@ =~= "content-type: application/json\r\ncontent-length: "@);
            assert(crlf_join(with_content) + "\r\n"@ =~= crlf_join(with_auth) + "\r\n"@
                + (lct + "\r\n"@ + "content-length: "@) + decimal(n) + "\r\n"@);
        }
    }
    lemma_crlf_join_push(with_content, lc);
    let head_start = method + " "@ + path_prefix + path + " HTTP/1.1\r\nhost: "@ + host_port;
    assert(head_start =~= crlf_join(base));
    assert(lc + "\r\n\r\n"@ =~= "connection: close\r\n\r\n"@);
    let text = peer_request_text(method, path_prefix, path, host_port, token, body);
    assert(text =~= head_start + "\r\n"@ + auth + content + "connection: close\r\n\r\n"@ + body);
    assert(crlf_join(ls) + "\r\n\r\n"@ + body =~= crlf_join(with_content) + "\r\n"@ + (lc + "\r\n\r\n"@) + body);
    assert(crlf_join(with_content) + "\r\n"@ =~= head_start + "\r\n"@ + auth + content);
}

proof fn lemma_peer_lines_plain(
    method: Seq<char>,
    path_prefix: Seq<char>,
    path: Seq<char>,
    host_port: Seq<char>,
    token: Option<Seq<char>>,
    body: Seq<char>,
)
    requires
        method.len() > 0,
        forall|i: int| 0 <= i < method.len() ==> !is_whitespace(#[trigger] method[i]),
        forall|i: int| 0 <= i < (path_prefix + path).len() ==> !is_whitespace(#[trigger] (path_prefix + path)[i]),
        forall|i: int| 0 <= i < host_port.len() ==> #[trigger] host_port[i] != '\n',
        token matches Some(t) ==> forall|i: int| 0 <= i < t.len() ==> #[trigger] t[i] != '\n',
    ensures
        ({
            let ls = peer_request_lines(method, path_prefix, path, host_port, token, body);
            &&& ls.len() >= 1
            &&& forall|i: int| 0 <= i < ls.len() ==> (#[trigger] ls[i]).len() > 0
            &&& forall|i: int, j: int| 0 <= i < ls.len() && 0 <= j < ls[i].len() ==> (#[trigger] ls[i][j]) != '\n'
        }),
{
    reveal_strlit(" ");
    reveal_strlit("HTTP/1.1");
    reveal_strlit(": ");
    reveal_strlit("host");
    reveal_strlit("authorization");
    reveal_strlit("Bearer ");
    reveal_strlit("content-type");
    reveal_strlit("application/json");
    reveal_strlit("content-length: ");
    reveal_strlit("connection");
    reveal_strlit("close");
    let pp = path_prefix + path;
    let n = utf8_len(body);
    let ls = peer_request_lines(method, path_prefix, path, host_port, token, body);
    let l0 = method + " "@ + pp + " "@ + "HTTP/1.1"@;
    lemma_decimal_digits(n);
    assert(is_whitespace('\n'));
    assert forall|i: int| 0 <= i < ls.len() implies (#[trigger] ls[i]).len() > 0 by {}
    assert forall|i: int, j: int| 0 <= i < ls.len() && 0 <= j < ls[i].len() implies (#[trigger] ls[i][j]) != '\n' by {
        if i == 0 {
            assert(ls[0] == l0);
            if j < method.len() {
                assert(l0[j] == method[j]);
            } else if j > method.len() && j < method.len() + 1 + pp.len() {
                assert(l0[j] == pp[j - method.len() - 1]);
            }
        } else {
            let h = ls[i];
            if h == "content-length: "@ + decimal(n) {
                if j >= 16 {
                    assert(h[j] == decimal(n)[j - 16]);
                }
            } else if token is Some && h == "authorization"@ + ": "@ + ("Bearer "@ + token.unwrap()) {
                if j >= 22 {
                    assert(h[j] == token.unwrap()[j - 22]);
                }
            } else if h == "host"@ + ": "@ + host_port {
                if j >= 6 {
                    assert(h[j] == host_port[j - 6]);
                }
            }
        }
    }
}

proof fn lemma_peer_headers_checked(host_port: Seq<char>, token: Option<Seq<char>>, body: Seq<char>)
    requires
        utf8_len(body) <= MAX_CONTROL_REQUEST_BODY_BYTES,
        utf8_len("host"@ + ": "@ + host_port) <= MAX_CONTROL_REQUEST_HEADER_LINE_BYTES,
        token matches Some(t) ==> utf8_len("authorization"@ + ": "@ + ("Bearer "@ + t)) <= MAX_CONTROL_REQUEST_HEADER_LINE_BYTES,
    ensures
        check_header_lines(peer_header_lines(host_port, token, body))
            == Ok::<Option<nat>, RequestError>(if body.len() == 0 { None } else { Some(utf8_len(body)) }),
{
    let n = utf8_len(body);
    let lh = "host"@ + ": "@ + host_port;
    let lct = "content-type"@ + ": "@ + "application/json"@;
    let lcl = "content-length: "@ + decimal(n);
    let lc = "connection"@ + ": "@ + "close"@;
    lemma_no_colon_name("host"@);
    lemma_plain_header_line("host"@, host_port, None);
    let hb = seq![lh];
    let ha = match token {
        Some(t) => hb.push("authorization"@ + ": "@ + ("Bearer "@ + t)),
        None => hb,
    };
    assert(hb.drop_last() =~= Seq::<Seq<char>>::empty());
    assert(hb.last() == lh);
    assert(check_header_lines(Seq::<Seq<char>>::empty()) == Ok::<Option<nat>, RequestError>(None));
    assert(check_header_lines(hb) == Ok::<Option<nat>, RequestError>(None));
    assert(check_header_lines(ha) == Ok::<Option<nat>, RequestError>(None)) by {
        if let Some(t) = token {
            lemma_no_colon_name("authorization"@);
            lemma_plain_header_line("authorization"@, "Bearer "@ + t, None);
            assert(ha.drop_last() =~= hb);
            assert(ha.last() == "authorization"@ + ": "@ + ("Bearer "@ + t));
        }
    }
    let hc = if body.len() == 0 { ha } else { ha.push(lct).push(lcl) };
    let seen: Option<nat> = if body.len() == 0 { None } else { Some(n) };
    assert(check_header_lines(hc) == Ok::<Option<nat>, RequestError>(seen)) by {
        if body.len() > 0 {
            lemma_no_colon_name("content-type"@);
            lemma_utf8_len_bound(lct);
            reveal_strlit("content-type");
            reveal_strlit("application/json");
            reveal_strlit(": ");
            lemma_plain_header_line("content-type"@, "application/json"@, None);
            assert(ha.push(lct).drop_last() =~= ha);
            assert(ha.push(lct).last() == lct);
            assert(check_header_lines(ha.push(lct)) == Ok::<Option<nat>, RequestError>(None));
            assert(ha.push(lct).push(lcl).drop_last() =~= ha.push(lct));
            assert(ha.push(lct).push(lcl).last() == lcl);
            lemma_content_length_header_line(n);
        }
    }
    assert(peer_header_lines(host_port, token, body) =~= hc.push(lc));
    lemma_no_colon_name("connection"@);
    lemma_utf8_len_bound(lc);
    reveal_strlit("connection");
    reveal_strlit("close");
    reveal_strlit(": ");
    lemma_plain_header_line("connection"@, "close"@, seen);
    assert(hc.push(lc).drop_last() =~= hc);
    assert(hc.push(lc).last() == lc);
}

/// A request written for a control peer is its head, a blank line and the body; and the
/// node's own request reader reads that head back as the method, the prefixed path and the
/// body's length in bytes. This holds where the method and the prefixed path are single
/// words within their size limits, the host and token hold no line feed, and their header
/// lines and the body are within the limits.
pub proof fn lemma_peer_request_reads_back(
    method: Seq<char>,
    path_prefix: Seq<char>,
    path: Seq<char>,
    host_port: Seq<char>,
    token: Option<Seq<char>>,
    body: Seq<char>,
)
    requires
        method.len() > 0,
        forall|i: int| 0 <= i < method.len() ==> !is_whitespace(#[trigger] method[i]),
        (path_prefix + path).len() > 0,
        forall|i: int| 0 <= i < (path_prefix + path).len() ==> !is_whitespace(#[trigger] (path_prefix + path)[i]),
        forall|i: int| 0 <= i < host_port.len() ==> #[trigger] host_port[i] != '\n',
        token matches Some(t) ==> forall|i: int| 0 <= i < t.len() ==> #[trigger] t[i] != '\n',
        utf8_len(method) <= MAX_CONTROL_REQUEST_METHOD_BYTES,
        utf8_len(path_prefix + path) <= MAX_CONTROL_REQUEST_PATH_BYTES,
        utf8_len(body) <= MAX_CONTROL_REQUEST_BODY_BYTES,
        utf8_len("host"@ + ": "@ + host_port) <= MAX_CONTROL_REQUEST_HEADER_LINE_BYTES,
        token matches Some(t) ==> utf8_len("authorization"@ + ": "@ + ("Bearer "@ + t)) <= MAX_CONTROL_REQUEST_HEADER_LINE_BYTES,
    ensures
        peer_request_text(method, path_prefix, path, host_port, token, body)
            == crlf_join(peer_request_lines(method, path_prefix, path, host_port, token, body)) + "\r\n\r\n"@ + body,
        request_head_of(crlf_join(peer_request_lines(method, path_prefix, path, host_port, token, body)))
            == Ok::<(Seq<char>, Seq<char>, nat), RequestError>((method, path_prefix + path, utf8_len(body))),
        ({
            let head = crlf_join(peer_request_lines(method, path_prefix, path, host_port, token, body));
            let text = peer_request_text(method, path_prefix, path, host_port, token, body);
            &&& blank_line_at(text, head.len() as int)
            &&& forall|i: int| 0 <= i < head.len() ==> !#[trigger] blank_line_at(text, i)
        }),
{
    let ls = peer_request_lines(method, path_prefix, path, host_port, token, body);
    let head = crlf_join(ls);
    lemma_peer_text_shape(method, path_prefix, path, host_port, token, body);
    lemma_peer_lines_plain(method, path_prefix, path, host_port, token, body);
    lemma_lines_crlf_join(ls);
    lemma_crlf_join_line_feeds(ls);
    let text = peer_request_text(method, path_prefix, path, host_port, token, body);
    reveal_strlit("\r\n\r\n");
    let n = head.len() as int;
    assert(text[n] == '\r' && text[n + 1] == '\n' && text[n + 2] == '\r' && text[n + 3] == '\n');
    assert forall|i: int| 0 <= i < head.len() implies !#[trigger] blank_line_at(text, i) by {
        if blank_line_at(text, i) {
            if i + 3 < n {
                assert(text[i + 1] == head[i + 1] && text[i + 3] == head[i + 3]);
            } else if i + 3 == n {
                assert(text[i + 3] == '\r');
            } else if i + 3 == n + 1 {
                assert(text[i + 1] == head[n - 1]);
            } else {
                assert(text[i + 2] == text[n + 1]);
            }
        }
    }
    lemma_peer_headers_checked(host_port, token, body);
    lemma_utf8_len_zero(body);
    reveal_strlit("HTTP/1.1");
    reveal_strlit("HTTP/1.");
    assert forall|i: int| 0 <= i < "HTTP/1.1"@.len() implies !is_whitespace(#[trigger] "HTTP/1.1"@[i]) by {}
    lemma_words_three(method, path_prefix + path, "HTTP/1.1"@);
    assert("HTTP/1.1"@.take(7) =~= "HTTP/1."@);
    assert(lines(head)[0] == method + " "@ + (path_prefix + path) + " "@ + "HTTP/1.1"@);
    assert(after_first(lines(head)) =~= peer_header_lines(host_port, token, body));
}

/// The first character of a text whose encoding starts with a byte below `0x80` is that
/// byte, and takes that one byte.
proof fn lemma_ascii_first_byte(s: Seq<char>)
    requires
        vstd::utf8::encode_utf8(s).len() > 0,
        vstd::utf8::encode_utf8(s)[0] < 0x80,
    ensures
        s.len() > 0,
        s[0] as u32 == vstd::utf8::encode_utf8(s)[0] as u32,
        vstd::utf8::encode_utf8(s).drop_first() == vstd::utf8::encode_utf8(s.drop_first()),
{
    if s.len() == 0 {
        assert(vstd::utf8::encode_utf8(s) =~= Seq::<u8>::empty());
    }
    let e0 = vstd::utf8::encode_scalar(s[0] as u32);
    lemma_encode_scalar_bytes(s[0]);
    let b = vstd::utf8::encode_utf8(s);
    assert(b == e0 + vstd::utf8::encode_utf8(s.drop_first()));
    assert(b[0] == e0[0]);
    assert(b.drop_first() =~= vstd::utf8::encode_utf8(s.drop_first()));
}

/// A blank line in the encoding of a text is the encoding of a blank line of the text.
proof fn lemma_encoded_blank_line(s: Seq<char>, j: int) -> (k: int)
    requires
        header_end_at(vstd::utf8::encode_utf8(s), j),
    ensures
        0 <= k,
        blank_line_at(s, k),
        utf8_len(s.take(k)) == j,
    decreases s.len(),
{
    let b = vstd::utf8::encode_utf8(s);
    if s.len() == 0 {
        assert(b =~= Seq::<u8>::empty());
    }
    let c = s[0];
    let e0 = vstd::utf8::encode_scalar(c as u32);
    let rest = s.drop_first();
    lemma_encode_scalar_bytes(c);
    assert(b == e0 + vstd::utf8::encode_utf8(rest));
    if j >= e0.len() {
        let br = vstd::utf8::encode_utf8(rest);
        let d = j - e0.len();
        assert(b[j] == br[d] && b[j + 1] == br[d + 1] && b[j + 2] == br[d + 2] && b[j + 3] == br[d + 3]);
        let k1 = lemma_encoded_blank_line(rest, j - e0.len());
        let k = k1 + 1;
        assert(s.take(k).drop_first() =~= rest.take(k1));
        assert(s.take(k)[0] == c);
        assert(s[k] == rest[k1] && s[k + 1] == rest[k1 + 1] && s[k + 2] == rest[k1 + 2] && s[k + 3] == rest[k1 + 3]);
        k
    } else {
        // The byte is a carriage return, so the character is one, and so are the next three.
        assert(b[j] == 13u8);
        if (c as u32) >= 0x80 {
            assert(e0[j] >= 0x80);
        }
        assert(j == 0);
        lemma_ascii_first_byte(s);
        let b1 = vstd::utf8::encode_utf8(rest);
        assert(b1[0] == b[1] && b1[1] == b[2] && b1[2] == b[3]);
        lemma_ascii_first_byte(rest);
        let r2 = rest.drop_first();
        let b2 = vstd::utf8::encode_utf8(r2);
        assert(b2[0] == b[2] && b2[1] == b[3]);
        lemma_ascii_first_byte(r2);
        let r3 = r2.drop_first();
        let b3 = vstd::utf8::encode_utf8(r3);
        assert(b3[0] == b[3]);
        lemma_ascii_first_byte(r3);
        assert(s[1] == rest[0] && s[2] == r2[0] && s[3] == r3[0]);
        vstd::utf8::char_u32_cast(s[0], 13u32);
        vstd::utf8::char_u32_cast('\r', 13u32);
        vstd::utf8::char_u32_cast(s[1], 10u32);
        vstd::utf8::char_u32_cast('\n', 10u32);
        vstd::utf8::char_u32_cast(s[2], 13u32);
        vstd::utf8::char_u32_cast(s[3], 10u32);
        assert(s.take(0) =~= Seq::<char>::empty());
        0
    }
}

/// The bytes of a request written for a control peer, as the receiving node reads them:
/// the first blank line starts right after the head's bytes, which are valid UTF-8 and
/// decode to a head that reads back as the method, the prefixed path and the body's
/// length. This holds under the conditions of `lemma_peer_request_reads_back`.
pub proof fn lemma_peer_request_bytes_read_back(
    method: Seq<char>,
    path_prefix: Seq<char>,
    path: Seq<char>,
    host_port: Seq<char>,
    token: Option<Seq<char>>,
    body: Seq<char>,
)
    requires
        method.len() > 0,
        forall|i: int| 0 <= i < method.len() ==> !is_whitespace(#[trigger] method[i]),
        (path_prefix + path).len() > 0,
        forall|i: int| 0 <= i < (path_prefix + path).len() ==> !is_whitespace(#[trigger] (path_prefix + path)[i]),
        forall|i: int| 0 <= i < host_port.len() ==> #[trigger] host_port[i] != '\n',
        token matches Some(t) ==> forall|i: int| 0 <= i < t.len() ==> #[trigger] t[i] != '\n',
        utf8_len(method) <= MAX_CONTROL_REQUEST_METHOD_BYTES,
        utf8_len(path_prefix + path) <= MAX_CONTROL_REQUEST_PATH_BYTES,
        utf8_len(body) <= MAX_CONTROL_REQUEST_BODY_BYTES,
        utf8_len("host"@ + ": "@ + host_port) <= MAX_CONTROL_REQUEST_HEADER_LINE_BYTES,
        token matches Some(t) ==> utf8_len("authorization"@ + ": "@ + ("Bearer "@ + t)) <= MAX_CONTROL_REQUEST_HEADER_LINE_BYTES,
    ensures
        ({
            let head = crlf_join(peer_request_lines(method, path_prefix, path, host_port, token, body));
            let bytes = vstd::utf8::encode_utf8(peer_request_text(method, path_prefix, path, host_port, token, body));
            let end = utf8_len(head) as int;
            &&& header_end_at(bytes, end)
            &&& forall|j: int| 0 <= j < end ==> !#[trigger] header_end_at(bytes, j)
            &&& vstd::utf8::valid_utf8(bytes.take(end))
            &&& vstd::utf8::decode_utf8(bytes.take(end)) == head
            &&& request_head_of(vstd::utf8::decode_utf8(bytes.take(end)))
                == Ok::<(Seq<char>, Seq<char>, nat), RequestError>((method, path_prefix + path, utf8_len(body)))
        }),
{
    lemma_peer_request_reads_back(method, path_prefix, path, host_port, token, body);
    let head = crlf_join(peer_request_lines(method, path_prefix, path, host_port, token, body));
    let text = peer_request_text(method, path_prefix, path, host_port, token, body);
    let bytes = vstd::utf8::encode_utf8(text);
    let end = utf8_len(head) as int;
    reveal_strlit("\r\n\r\n");
    let blank = "\r\n\r\n"@;
    assert(blank =~= seq!['\r'] + seq!['\n'] + seq!['\r'] + seq!['\n']);
    lemma_encode_ascii_char('\r');
    lemma_encode_ascii_char('\n');
    lemma_encode_concat(seq!['\r'], seq!['\n']);
    lemma_encode_concat(seq!['\r'] + seq!['\n'], seq!['\r']);
    lemma_encode_concat(seq!['\r'] + seq!['\n'] + seq!['\r'], seq!['\n']);
    let eb = vstd::utf8::encode_utf8(blank);
    assert(eb =~= seq![13u8, 10u8, 13u8, 10u8]);
    lemma_encode_concat(head, blank);
    lemma_encode_concat(head + blank, body);
    lemma_utf8_len_encode(head);
    let eh = vstd::utf8::encode_utf8(head);
    assert(bytes == eh + eb + vstd::utf8::encode_utf8(body));
    assert(bytes[end] == 13u8 && bytes[end + 1] == 10u8 && bytes[end + 2] == 13u8 && bytes[end + 3] == 10u8);
    assert(bytes.take(end) =~= eh);
    vstd::utf8::encode_utf8_valid_utf8(head);
    vstd::utf8::encode_utf8_decode_utf8(head);
    assert forall|j: int| 0 <= j < end implies !#[trigger] header_end_at(bytes, j) by {
        if header_end_at(bytes, j) {
            let k = lemma_encoded_blank_line(text, j);
            assert(text.take(head.len() as int) =~= head);
            if k >= head.len() {
                lemma_utf8_len_prefix_monotone(text, head.len() as int, k);
            }
        }
    }
}

/// Largest reply accepted from another node's control server, in bytes (8 MiB).
pub const MAX_CONTROL_PEER_RESPONSE_BYTES: usize = 8388608;

/// Whether a reply of which `len` bytes have come in so far is still accepted: over
/// `MAX_CONTROL_PEER_RESPONSE_BYTES` it is refused as too large.
pub fn check_control_peer_response_len(len: usize) -> (r: Result<(), String>)
    ensures
        r is Ok <==> len <= MAX_CONTROL_PEER_RESPONSE_BYTES,
        r matches Err(e) ==> e@ == "control peer response too large"@,
{
    if len > MAX_CONTROL_PEER_RESPONSE_BYTES {
        let mut e = String::new();
        push_str(&mut e, "control peer response too large");
        Err(e)
    } else {
        Ok(())
    }
}

} // verus!
