//! Bearer-token, CORS and loopback policy of the control plane.
use vstd::prelude::*;
use crate::http::ControlRequest;
use crate::strs::{first_index, is_first_index, lemma_first_index_none, slice_chars, split_once, split_once_chars, starts_with, starts_with_str};
use crate::text::{chars_equal, chars_equal_str, chars_of, lower, lower_chars, push_chars, push_str, string_from_chars};
use vstd::utf8::encode_utf8;

verus! {

/// Compares two byte strings, looking at every byte when the lengths match.
pub fn constant_time_eq(a: &[u8], b: &[u8]) -> (r: bool)
    ensures
        r == (a@ == b@),
{
    if a.len() != b.len() {
        return false;
    }
    let mut diff: u8 = 0;
    let mut i: usize = 0;
    while i < a.len()
        invariant
            a@.len() == b@.len(),
            i <= a@.len(),
            (diff == 0) <==> (forall|j: int| 0 <= j < i ==> a@[j] == b@[j]),
        decreases a@.len() - i,
    {
        let x = a[i];
        let y = b[i];
        let d = diff;
        assert(((d | (x ^ y)) == 0) <==> (d == 0 && x == y)) by (bit_vector);
        diff = diff | (x ^ y);
        i += 1;
    }
    assert((diff == 0) ==> a@ =~= b@);
    diff == 0
}

/// Who may use the control plane.
#[derive(Debug, Clone)]
pub struct ControlSecurityConfig {
    pub token: Option<String>,
    pub previous_tokens: Vec<String>,
    pub cors_allow_origins: Vec<String>,
}

impl ControlSecurityConfig {
    /// Whether `v` is the current token or one of the previous ones.
    pub open spec fn accepts_token(&self, v: Seq<char>) -> bool {
        ||| (self.token matches Some(t) && t@ == v)
        ||| exists|i: int| 0 <= i < self.previous_tokens@.len() && self.previous_tokens@[i]@ == v
    }

    /// Whether any origin is allowed: no list, or a `*` entry.
    pub open spec fn any_origin(&self) -> bool {
        ||| self.cors_allow_origins@.len() == 0
        ||| exists|i: int| 0 <= i < self.cors_allow_origins@.len() && self.cors_allow_origins@[i]@ == "*"@
    }

    /// Whether a bearer token is configured.
    pub fn has_bearer_tokens(&self) -> (r: bool)
        ensures
            r == (self.token is Some || self.previous_tokens@.len() > 0),
    {
        self.token.is_some() || self.previous_tokens.len() > 0
    }

    /// Without any token only loopback clients are served.
    pub fn is_loopback_only(&self) -> (r: bool)
        ensures
            r == (self.token is None && self.previous_tokens@.len() == 0),
    {
        !self.has_bearer_tokens()
    }

    /// Whether `value` equals the current token or one of the previous tokens (compared
    /// byte by byte over the whole length).
    pub fn token_matches(&self, value: &str) -> (r: bool)
        ensures
            r == self.accepts_token(value@),
    {
        let vb = value.as_bytes();
        let mut found = false;
        match &self.token {
            Some(t) => {
                let tb = t.as_str().as_bytes();
                if constant_time_eq(vb, tb) {
                    proof {
                        vstd::utf8::encode_utf8_decode_utf8(value@);
                        vstd::utf8::encode_utf8_decode_utf8(t@);
                    }
                    found = true;
                } else {
                    assert(t@ != value@);
                }
            },
            None => {},
        }
        let mut i: usize = 0;
        while i < self.previous_tokens.len()
            invariant
                i <= self.previous_tokens@.len(),
                vb@ == encode_utf8(value@),
                found == ((self.token matches Some(t) && t@ == value@) || exists|j: int|
                    0 <= j < i && self.previous_tokens@[j]@ == value@),
            decreases self.previous_tokens@.len() - i,
        {
            let tb = self.previous_tokens[i].as_str().as_bytes();
            if constant_time_eq(vb, tb) {
                proof {
                    vstd::utf8::encode_utf8_decode_utf8(value@);
                    vstd::utf8::encode_utf8_decode_utf8(self.previous_tokens@[i as int]@);
                }
                found = true;
            } else {
                assert(self.previous_tokens@[i as int]@ != value@);
            }
            i += 1;
        }
        found
    }

    /// Whether a request from `origin` passes the CORS allow list: always without a list
    /// or without an `Origin` header; otherwise when a listed entry is `*` or the origin.
    pub fn allows_origin(&self, origin: Option<&str>) -> (r: bool)
        ensures
            r == (self.cors_allow_origins@.len() == 0 || origin is None || exists|i: int|
                0 <= i < self.cors_allow_origins@.len() && (self.cors_allow_origins@[i]@ == "*"@
                    || self.cors_allow_origins@[i]@ == origin.unwrap()@)),
    {
        if self.cors_allow_origins.len() == 0 {
            return true;
        }
        let o = match origin {
            Some(o) => o,
            None => {
                return true;
            },
        };
        let mut i: usize = 0;
        while i < self.cors_allow_origins.len()
            invariant
                i <= self.cors_allow_origins@.len(),
                origin == Some(o),
                forall|j: int| 0 <= j < i ==> !(self.cors_allow_origins@[j]@ == "*"@
                    || self.cors_allow_origins@[j]@ == o@),
            decreases self.cors_allow_origins@.len() - i,
        {
            let a = chars_of(self.cors_allow_origins[i].as_str());
            if chars_equal_str(a.as_slice(), "*") || chars_equal_str(a.as_slice(), o) {
                return true;
            }
            i += 1;
        }
        false
    }

    /// The `access-control-allow-origin` value: `*` when any origin is allowed, otherwise
    /// the request's origin, or `null` without one.
    pub fn access_control_origin(&self, request_origin: Option<&str>) -> (r: String)
        ensures
            r@ == if self.any_origin() {
                "*"@
            } else {
                match request_origin {
                    Some(o) => o@,
                    None => "null"@,
                }
            },
    {
        let mut any = self.cors_allow_origins.len() == 0;
        let mut i: usize = 0;
        while i < self.cors_allow_origins.len() && !any
            invariant
                i <= self.cors_allow_origins@.len(),
                any == (self.cors_allow_origins@.len() == 0 || exists|j: int|
                    0 <= j < i && self.cors_allow_origins@[j]@ == "*"@),
            decreases self.cors_allow_origins@.len() - i,
        {
            let a = chars_of(self.cors_allow_origins[i].as_str());
            if chars_equal_str(a.as_slice(), "*") {
                any = true;
            }
            i += 1;
        }
        assert(any == self.any_origin()) by {
            if !any {
                assert(i == self.cors_allow_origins@.len());
            }
        }
        let mut out = String::new();
        if any {
            push_str(&mut out, "*");
        } else {
            match request_origin {
                Some(o) => push_str(&mut out, o),
                None => push_str(&mut out, "null"),
            }
        }
        assert(out@ =~= if self.any_origin() { "*"@ } else {
            match request_origin {
                Some(o) => o@,
                None => "null"@,
            }
        });
        out
    }
}

impl ControlRequest {
    /// The first header whose name equals `name`, ignoring ASCII case.
    pub open spec fn header_index(&self, name: Seq<char>) -> Option<int> {
        if exists|i: int| self.is_first_header(name, i) {
            Some(choose|i: int| self.is_first_header(name, i))
        } else {
            None
        }
    }

    pub open spec fn is_first_header(&self, name: Seq<char>, i: int) -> bool {
        &&& 0 <= i < self.headers@.len()
        &&& lower(self.headers@[i].0@) == lower(name)
        &&& forall|j: int| 0 <= j < i ==> lower(self.headers@[j].0@) != lower(name)
    }

    /// The value of the first header named `name` (ignoring ASCII case).
    pub fn header(&self, name: &str) -> (r: Option<&str>)
        ensures
            match r {
                Some(v) => self.header_index(name@) matches Some(i) && v@ == self.headers@[i].1@,
                None => self.header_index(name@) is None,
            },
    {
        let nv = chars_of(name);
        let ln = lower_chars(nv.as_slice());
        let mut i: usize = 0;
        while i < self.headers.len()
            invariant
                i <= self.headers@.len(),
                ln@ == lower(name@),
                forall|j: int| 0 <= j < i ==> lower(self.headers@[j].0@) != lower(name@),
            decreases self.headers@.len() - i,
        {
            let kv = chars_of(self.headers[i].0.as_str());
            let lk = lower_chars(kv.as_slice());
            if chars_equal(lk.as_slice(), ln.as_slice()) {
                assert(self.is_first_header(name@, i as int));
                proof {
                    let k = choose|k: int| self.is_first_header(name@, k);
                    assert(k == i as int) by {
                        if k < i as int {
                        } else if k > i as int {
                            assert(lower(self.headers@[i as int].0@) != lower(name@));
                        }
                    }
                }
                return Some(self.headers[i].1.as_str());
            }
            i += 1;
        }
        None
    }

    /// The method and the path without its query, as metrics key endpoints.
    pub open spec fn endpoint_key(&self) -> Seq<char> {
        self.method@ + " "@ + match split_once(self.path@, '?') {
            Some((p, _)) => p,
            None => self.path@,
        }
    }
}

/// An endpoint key is the method, a space, and the part of the path before its first `?`:
/// that part holds no `?`, and the path goes on from it only at a `?`. So requests that
/// differ only in their query strings share one key.
pub proof fn lemma_endpoint_key_drops_query(request: ControlRequest)
    ensures
        ({
            let key = request.endpoint_key();
            let n = request.method@.len() as int + 1;
            let q = key.skip(n);
            &&& key.len() >= n
            &&& key.take(n) == request.method@ + " "@
            &&& q.len() <= request.path@.len()
            &&& q == request.path@.take(q.len() as int)
            &&& forall|i: int| 0 <= i < q.len() ==> q[i] != '?'
            &&& q.len() < request.path@.len() ==> request.path@[q.len() as int] == '?'
        }),
{
    reveal_strlit(" ");
    let path = request.path@;
    let key = request.endpoint_key();
    let n = request.method@.len() as int + 1;
    match first_index(path, '?') {
        Some(i) => {
            assert(is_first_index(path, '?', i));
            assert(key.take(n) =~= request.method@ + " "@);
            assert(key.skip(n) =~= path.take(i));
        },
        None => {
            lemma_first_index_none(path, '?');
            assert(key.take(n) =~= request.method@ + " "@);
            assert(key.skip(n) =~= path);
            assert(path.take(path.len() as int) =~= path);
        },
    }
}

/// The key under which a request is counted: its method, a space, and its path without
/// the query string.
pub fn control_endpoint_key(request: &ControlRequest) -> (r: String)
    ensures
        r@ == request.endpoint_key(),
{
    let pv = chars_of(request.path.as_str());
    let mut out = String::new();
    push_str(&mut out, request.method.as_str());
    push_str(&mut out, " ");
    match split_once_chars(pv.as_slice(), '?') {
        Some((p, _)) => push_chars(&mut out, p.as_slice()),
        None => push_str(&mut out, request.path.as_str()),
    }
    out
}

/// The path a control request is handled by: a path under `/api/` is the same path
/// without that prefix (`/api/health` is `/health`).
pub open spec fn route_path(p: Seq<char>) -> Seq<char> {
    if starts_with(p, "/api/"@) { p.skip(4) } else { p }
}

/// The path a control request is handled by.
pub fn route_path_chars(p: &[char]) -> (r: Vec<char>)
    ensures
        r@ == route_path(p@),
{
    if starts_with_str(p, "/api/") {
        proof { reveal_strlit("/api/"); }
        let r = slice_chars(p, 4, p.len());
        assert(r@ =~= p@.skip(4));
        r
    } else {
        slice_chars(p, 0, p.len())
    }
}

/// Whether a request is a health probe (a `GET` of `/health`, also under `/api/`), which
/// is never rate limited or authenticated.
pub open spec fn is_health_probe(request: &ControlRequest) -> bool {
    request.method@ == "GET"@ && starts_with(route_path(request.path@), "/health"@)
}

pub(crate) fn health_probe(request: &ControlRequest) -> (r: bool)
    ensures
        r == is_health_probe(request),
{
    let m = chars_of(request.method.as_str());
    let p = chars_of(request.path.as_str());
    let rp = route_path_chars(p.as_slice());
    chars_equal_str(m.as_slice(), "GET") && starts_with_str(rp.as_slice(), "/health")
}

/// Whether a request may proceed: health probes always; with tokens configured, an
/// `authorization: Bearer <token>` header carrying an accepted token; without tokens,
/// only a client known to be on the loopback interface.
pub open spec fn authorized(
    request: &ControlRequest,
    security: &ControlSecurityConfig,
    peer_is_loopback: Option<bool>,
) -> bool {
    if is_health_probe(request) {
        true
    } else if security.token is Some || security.previous_tokens@.len() > 0 {
        match request.header_index("authorization"@) {
            Some(i) => starts_with(request.headers@[i].1@, "Bearer "@) && security.accepts_token(
                request.headers@[i].1@.skip(7),
            ),
            None => false,
        }
    } else {
        peer_is_loopback == Some(true)
    }
}

/// Decides whether a control request is authorized.
pub fn request_is_authorized(
    request: &ControlRequest,
    security: &ControlSecurityConfig,
    peer_is_loopback: Option<bool>,
) -> (r: bool)
    ensures
        r == authorized(request, security, peer_is_loopback),
{
    if health_probe(request) {
        return true;
    }
    if security.has_bearer_tokens() {
        match request.header("authorization") {
            Some(value) => {
                let vv = chars_of(value);
                if starts_with_str(vv.as_slice(), "Bearer ") {
                    proof {
                        reveal_strlit("Bearer ");
                    }
                    let rest = crate::strs::slice_chars(vv.as_slice(), 7, vv.len());
                    assert(rest@ =~= value@.skip(7));
                    let token = string_from_chars(rest.as_slice());
                    security.token_matches(token.as_str())
                } else {
                    false
                }
            },
            None => false,
        }
    } else {
        security.is_loopback_only() && match peer_is_loopback {
            Some(b) => b,
            None => false,
        }
    }
}

} // verus!
