//! The responses the control server sends, and their HTTP rendering.
use vstd::prelude::*;
use crate::text::{decimal, push_decimal, push_str, str_byte_len, utf8_len};

verus! {

/// A response as the node's request handlers produce it.
#[derive(Debug, Clone)]
pub struct ControlResponse {
    pub status: u16,
    pub content_type: String,
    pub body: String,
}

/// A response of the control server: status, content type and body.
#[derive(Debug, Clone)]
pub struct ControlHttpResponse {
    pub status: u16,
    pub content_type: String,
    pub body: String,
}

/// The content type of plain-text responses.
pub open spec fn text_content_type() -> Seq<char> {
    "text/plain; charset=utf-8"@
}

/// The content type of JSON responses.
pub open spec fn json_content_type() -> Seq<char> {
    "application/json; charset=utf-8"@
}

/// The content type of metrics expositions.
pub open spec fn openmetrics_content_type() -> Seq<char> {
    "application/openmetrics-text; version=1.0.0; charset=utf-8"@
}

/// The reason phrase the server writes for a status; unknown codes read as "OK".
pub open spec fn reason_phrase(status: u16) -> Seq<char> {
    if status == 200 {
        "OK"@
    } else if status == 201 {
        "Created"@
    } else if status == 400 {
        "Bad Request"@
    } else if status == 401 {
        "Unauthorized"@
    } else if status == 403 {
        "Forbidden"@
    } else if status == 404 {
        "Not Found"@
    } else if status == 405 {
        "Method Not Allowed"@
    } else if status == 429 {
        "Too Many Requests"@
    } else if status == 500 {
        "Internal Server Error"@
    } else {
        "OK"@
    }
}

/// The full HTTP/1.1 response: status line, content type, the fixed security and CORS
/// headers with the given allowed origin, the body's length in bytes, then the body.
pub open spec fn http_text(status: u16, content_type: Seq<char>, origin: Seq<char>, body: Seq<char>) -> Seq<char> {
    "HTTP/1.1 "@ + decimal(status as nat) + " "@ + reason_phrase(status) + "\r\ncontent-type: "@ + content_type
        + "\r\ncache-control: no-store\r\nx-content-type-options: nosniff\r\nreferrer-policy: no-referrer\r\npermissions-policy: camera=(), microphone=(), geolocation=(), payment=(), usb=()\r\ncontent-security-policy: default-src 'none'; frame-ancestors 'none'; base-uri 'none'\r\naccess-control-allow-origin: "@
        + origin
        + "\r\naccess-control-allow-methods: GET,POST,OPTIONS\r\naccess-control-allow-headers: content-type,authorization\r\naccess-control-allow-private-network: true\r\ncontent-length: "@
        + decimal(utf8_len(body)) + "\r\nconnection: close\r\n\r\n"@ + body
}

fn reason(status: u16) -> (r: &'static str)
    ensures
        r@ == reason_phrase(status),
{
    match status {
        200 => "OK",
        201 => "Created",
        400 => "Bad Request",
        401 => "Unauthorized",
        403 => "Forbidden",
        404 => "Not Found",
        405 => "Method Not Allowed",
        429 => "Too Many Requests",
        500 => "Internal Server Error",
        _ => "OK",
    }
}

fn owned(s: &str) -> (r: String)
    ensures
        r@ == s@,
{
    let mut r = String::new();
    push_str(&mut r, s);
    r
}

impl ControlHttpResponse {
    /// A plain-text response.
    pub fn text(status: u16, body: &str) -> (r: Self)
        ensures
            r.status == status,
            r.content_type@ == text_content_type(),
            r.body@ == body@,
    {
        ControlHttpResponse { status, content_type: owned("text/plain; charset=utf-8"), body: owned(body) }
    }

    /// A JSON response from the outcome of serializing its value: the JSON text with
    /// `status`, or a 500 naming the serialization error.
    pub fn json(status: u16, serialized: Result<String, String>) -> (r: Self)
        ensures
            match serialized {
                Ok(body) => r.status == status && r.content_type@ == json_content_type() && r.body@ == body@,
                Err(e) => r.status == 500 && r.content_type@ == text_content_type() && r.body@ == "serialization error: "@ + e@,
            },
    {
        match serialized {
            Ok(body) => ControlHttpResponse { status, content_type: owned("application/json; charset=utf-8"), body },
            Err(e) => {
                let mut body = String::new();
                push_str(&mut body, "serialization error: ");
                push_str(&mut body, e.as_str());
                Self::text(500, body.as_str())
            },
        }
    }

    /// A metrics exposition response.
    pub fn openmetrics(status: u16, body: String) -> (r: Self)
        ensures
            r.status == status,
            r.content_type@ == openmetrics_content_type(),
            r.body == body,
    {
        ControlHttpResponse { status, content_type: owned("application/openmetrics-text; version=1.0.0; charset=utf-8"), body }
    }

    /// The response a request handler produced, as sent.
    pub fn from_control(response: ControlResponse) -> (r: Self)
        ensures
            r.status == response.status,
            r.content_type == response.content_type,
            r.body == response.body,
    {
        ControlHttpResponse { status: response.status, content_type: response.content_type, body: response.body }
    }

    /// The HTTP/1.1 text of the response, allowing `access_control_origin`.
    pub fn to_http_string(&self, access_control_origin: &str) -> (r: String)
        ensures
            r@ == http_text(self.status, self.content_type@, access_control_origin@, self.body@),
    {
        let mut out = String::new();
        push_str(&mut out, "HTTP/1.1 ");
        push_decimal(&mut out, self.status as u128);
        push_str(&mut out, " ");
        push_str(&mut out, reason(self.status));
        push_str(&mut out, "\r\ncontent-type: ");
        push_str(&mut out, self.content_type.as_str());
        push_str(&mut out, "\r\ncache-control: no-store\r\nx-content-type-options: nosniff\r\nreferrer-policy: no-referrer\r\npermissions-policy: camera=(), microphone=(), geolocation=(), payment=(), usb=()\r\ncontent-security-policy: default-src 'none'; frame-ancestors 'none'; base-uri 'none'\r\naccess-control-allow-origin: ");
        push_str(&mut out, access_control_origin);
        push_str(&mut out, "\r\naccess-control-allow-methods: GET,POST,OPTIONS\r\naccess-control-allow-headers: content-type,authorization\r\naccess-control-allow-private-network: true\r\ncontent-length: ");
        let n = str_byte_len(self.body.as_str());
        push_decimal(&mut out, n as u128);
        push_str(&mut out, "\r\nconnection: close\r\n\r\n");
        push_str(&mut out, self.body.as_str());
        out
    }
}

} // verus!
