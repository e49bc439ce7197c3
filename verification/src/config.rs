//! Command-line arguments, secrets and the node's configuration choices.
use vstd::prelude::*;
use crate::strs::{nonempty_pieces, split_by, split_chars, views};
use crate::numparse::{parse_unsigned, parse_u64_bounded, IntErrorKind};
use crate::dht::{clone_opt, config_view, copy_config, SyncPeerConfig};
use crate::text::{chars_equal_str, chars_of, lower, lower_chars, push_str, string_from_chars, trim, trim_chars};

verus! {

/// `i` is the first position of `name` among the arguments.
pub open spec fn is_first_arg(args: Seq<String>, name: Seq<char>, i: int) -> bool {
    &&& 0 <= i < args.len()
    &&& args[i]@ == name
    &&& forall|j: int| 0 <= j < i ==> args[j]@ != name
}

/// The first position of `name` among the arguments, if it occurs.
pub open spec fn arg_index(args: Seq<String>, name: Seq<char>) -> Option<int> {
    if exists|i: int| is_first_arg(args, name, i) {
        Some(choose|i: int| is_first_arg(args, name, i))
    } else {
        None
    }
}

proof fn lemma_arg_index(args: Seq<String>, name: Seq<char>, i: int)
    requires
        is_first_arg(args, name, i),
    ensures
        arg_index(args, name) == Some(i),
{
    let k = choose|k: int| is_first_arg(args, name, k);
    assert(k == i) by {
        if k < i {
            assert(args[k]@ != name);
        } else if k > i {
            assert(args[i]@ != name);
        }
    }
}

/// The value given for `--flag`: the argument after its first occurrence; an error
/// where the flag is the last argument; nothing where it is absent.
pub open spec fn optional_arg_value(args: Seq<String>, name: Seq<char>) -> Result<Option<Seq<char>>, Seq<char>> {
    match arg_index(args, name) {
        None => Ok(None),
        Some(i) => if i + 1 < args.len() {
            Ok(Some(args[i + 1]@))
        } else {
            Err("missing value for "@ + name)
        },
    }
}

/// The view of an optional string.
pub open spec fn opt_view(x: Option<String>) -> Option<Seq<char>> {
    match x {
        Some(s) => Some(s@),
        None => None,
    }
}

/// The value given for `name`, if the flag is present.
pub fn optional_arg(args: &[String], name: &str) -> (r: Result<Option<String>, String>)
    ensures
        match (r, optional_arg_value(args@, name@)) {
            (Ok(v), Ok(w)) => opt_view(v) == w,
            (Err(e), Err(f)) => e@ == f,
            _ => false,
        },
{
    let mut i: usize = 0;
    while i < args.len()
        invariant
            i <= args@.len(),
            forall|j: int| 0 <= j < i ==> args@[j]@ != name@,
        decreases args@.len() - i,
    {
        let a = chars_of(args[i].as_str());
        if chars_equal_str(a.as_slice(), name) {
            proof {
                lemma_arg_index(args@, name@, i as int);
            }
            if i + 1 < args.len() {
                return Ok(Some(args[i + 1].clone()));
            } else {
                let mut e = String::new();
                push_str(&mut e, "missing value for ");
                push_str(&mut e, name);
                return Err(e);
            }
        }
        i += 1;
    }
    assert(!exists|k: int| is_first_arg(args@, name@, k));
    Ok(None)
}

/// The value given for `name`: an error where the flag is absent or has no value.
pub open spec fn required_arg_value(args: Seq<String>, name: Seq<char>) -> Result<Seq<char>, Seq<char>> {
    match optional_arg_value(args, name) {
        Ok(Some(v)) => Ok(v),
        Ok(None) => Err("missing "@ + name),
        Err(e) => Err(e),
    }
}

/// The value given for `name`, which must be present.
pub fn required_arg(args: &[String], name: &str) -> (r: Result<String, String>)
    ensures
        match (r, required_arg_value(args@, name@)) {
            (Ok(v), Ok(w)) => v@ == w,
            (Err(e), Err(f)) => e@ == f,
            _ => false,
        },
{
    match optional_arg(args, name) {
        Ok(Some(v)) => Ok(v),
        Ok(None) => {
            let mut e = String::new();
            push_str(&mut e, "missing ");
            push_str(&mut e, name);
            Err(e)
        },
        Err(e) => Err(e),
    }
}

/// The trimmed, non-empty items of a comma-separated list.
pub open spec fn csv_items(s: Seq<char>) -> Seq<Seq<char>> {
    nonempty_pieces(split_by(s, Some(',')).map_values(|p: Seq<char>| trim(p)))
}

/// Splits a comma-separated list, trimming each item and dropping empty ones.
pub fn parse_csv(value: &str) -> (r: Vec<String>)
    ensures
        r@.map_values(|x: String| x@) == csv_items(value@),
{
    let chars = chars_of(value);
    let pieces = split_chars(chars.as_slice(), Some(','));
    let ghost pv = views(pieces@).map_values(|p: Seq<char>| trim(p));
    let mut out: Vec<String> = Vec::new();
    let mut i: usize = 0;
    assert(pv.take(0) =~= Seq::<Seq<char>>::empty());
    assert(out@.map_values(|x: String| x@) =~= Seq::<Seq<char>>::empty());
    while i < pieces.len()
        invariant
            i <= pieces@.len(),
            pv == views(pieces@).map_values(|p: Seq<char>| trim(p)),
            pv.len() == pieces@.len(),
            out@.map_values(|x: String| x@) == nonempty_pieces(pv.take(i as int)),
        decreases pieces@.len() - i,
    {
        assert(pv.take(i as int + 1).drop_last() =~= pv.take(i as int));
        assert(pv.take(i as int + 1).last() == trim(pieces@[i as int]@));
        let t = trim_chars(pieces[i].as_slice());
        if t.len() > 0 {
            let ghost before = out@;
            let s = string_from_chars(t.as_slice());
            out.push(s);
            assert(out@.map_values(|x: String| x@) =~= before.map_values(|x: String| x@).push(t@));
        }
        i += 1;
    }
    assert(pv.take(pieces@.len() as int) =~= pv);
    assert(views(pieces@) == split_by(value@, Some(',')));
    out
}

/// A secret given directly wins over one read from a file.
pub fn choose_secret(direct: Option<String>, file_value: Option<String>) -> (r: Option<String>)
    ensures
        r == (match direct {
            Some(d) => Some(d),
            None => file_value,
        }),
{
    match direct {
        Some(d) => Some(d),
        None => file_value,
    }
}

/// The path of a file beside another: its path with a suffix appended (the `-wal` and
/// `-shm` files of a database).
pub fn path_with_suffix(path: &str, suffix: &str) -> (r: String)
    ensures
        r@ == path@ + suffix@,
{
    let mut value = String::new();
    push_str(&mut value, path);
    push_str(&mut value, suffix);
    value
}

/// The refusal given when the state database must be encrypted.
pub open spec fn state_db_encryption_error() -> Seq<char> {
    "state_db encryption is required but this build uses plain SQLite (encryption_mode is plain); enable SQLCipher/equivalent before production"@
}

/// Fails closed: this build stores state in plain SQLite, so requiring encryption is an error.
pub fn validate_state_db_encryption_requirement(required: bool) -> (r: Result<(), String>)
    ensures
        required <==> r is Err,
        r matches Err(e) ==> e@ == state_db_encryption_error(),
{
    if required {
        let mut e = String::new();
        push_str(&mut e, "state_db encryption is required but this build uses plain SQLite (encryption_mode is plain); enable SQLCipher/equivalent before production");
        Err(e)
    } else {
        Ok(())
    }
}

/// What `{:?}` writes for a string slice: the text quoted, with std's escapes.
pub uninterp spec fn str_debug_text(s: Seq<char>) -> Seq<char>;

/// `<str as Debug>::fmt` through `format!("{:?}")`: the result is `str_debug_text` of the
/// argument. Which characters std escapes, and how, is left unsaid.
#[verifier::external_body]
fn debug_quoted(s: &str) -> (r: String)
    ensures
        r@ == str_debug_text(s@),
{
    format!("{s:?}")
}

/// How the DHT runners reach their peers.
#[derive(Debug, Clone, Copy, PartialEq, Eq, Structural)]
pub enum DhtTransportKind {
    HttpControl,
    Libp2p,
}

/// The canonical name of a transport.
pub open spec fn transport_name(k: DhtTransportKind) -> Seq<char> {
    match k {
        DhtTransportKind::HttpControl => "http-control"@,
        DhtTransportKind::Libp2p => "libp2p"@,
    }
}

impl DhtTransportKind {
    /// The canonical name of the transport.
    pub fn as_str(self) -> (r: &'static str)
        ensures
            r@ == transport_name(self),
    {
        match self {
            DhtTransportKind::HttpControl => "http-control",
            DhtTransportKind::Libp2p => "libp2p",
        }
    }
}

/// The transport a normalized (trimmed, lower-cased) name selects, if any.
pub open spec fn transport_for_name(t: Seq<char>) -> Option<DhtTransportKind> {
    if t == "http"@ || t == "http-control"@ || t == "control"@ {
        Some(DhtTransportKind::HttpControl)
    } else if t == "libp2p"@ {
        Some(DhtTransportKind::Libp2p)
    } else {
        None
    }
}

/// A name as the configuration compares it: trimmed and ASCII lower-cased.
pub open spec fn normalized_name(value: Seq<char>) -> Seq<char> {
    lower(trim(value))
}

/// The refusal of an unknown transport name.
pub open spec fn transport_error(t: Seq<char>) -> Seq<char> {
    "unsupported dht transport "@ + str_debug_text(t) + "; expected http-control or libp2p"@
}

/// Parses a transport name, ignoring surrounding whitespace and ASCII case.
pub fn parse_dht_transport_kind(value: &str) -> (r: Result<DhtTransportKind, String>)
    ensures
        match transport_for_name(normalized_name(value@)) {
            Some(k) => r == Ok::<DhtTransportKind, String>(k),
            None => r matches Err(e) && e@ == transport_error(normalized_name(value@)),
        },
{
    let chars = chars_of(value);
    let trimmed = trim_chars(chars.as_slice());
    let t = lower_chars(trimmed.as_slice());
    proof {
        reveal_strlit("http");
        reveal_strlit("http-control");
        reveal_strlit("control");
        reveal_strlit("libp2p");
    }
    if chars_equal_str(t.as_slice(), "http") || chars_equal_str(t.as_slice(), "http-control")
        || chars_equal_str(t.as_slice(), "control") {
        Ok(DhtTransportKind::HttpControl)
    } else if chars_equal_str(t.as_slice(), "libp2p") {
        Ok(DhtTransportKind::Libp2p)
    } else {
        let other = string_from_chars(t.as_slice());
        let quoted = debug_quoted(other.as_str());
        let mut e = String::new();
        push_str(&mut e, "unsupported dht transport ");
        push_str(&mut e, quoted.as_str());
        push_str(&mut e, "; expected http-control or libp2p");
        Err(e)
    }
}

/// A transport's canonical name parses back to that transport.
pub proof fn lemma_transport_name_round_trip(k: DhtTransportKind)
    ensures
        transport_for_name(normalized_name(transport_name(k))) == Some(k),
{
    reveal_strlit("http-control");
    reveal_strlit("libp2p");
    reveal_strlit("http");
    reveal_strlit("control");
    let n = transport_name(k);
    assert(trim(n) =~= n) by {
        crate::text::lemma_trim_no_edge_whitespace(n);
    }
    assert(lower(n) =~= n);
}

/// How the control server writes its log lines.
#[derive(Debug, Clone, Copy, PartialEq, Eq, Structural)]
pub enum LogFormat {
    Text,
    Json,
}

/// The log format a normalized name selects, if any.
pub open spec fn log_format_for_name(t: Seq<char>) -> Option<LogFormat> {
    if t == ""@ || t == "text"@ || t == "plain"@ {
        Some(LogFormat::Text)
    } else if t == "json"@ || t == "structured"@ {
        Some(LogFormat::Json)
    } else {
        None
    }
}

/// The refusal of an unknown log format name.
pub open spec fn log_format_error(t: Seq<char>) -> Seq<char> {
    "invalid log format: "@ + t + "; expected text or json"@
}

/// Parses a log format name, ignoring surrounding whitespace and ASCII case; an empty
/// name selects text.
pub fn parse_log_format(value: &str) -> (r: Result<LogFormat, String>)
    ensures
        match log_format_for_name(normalized_name(value@)) {
            Some(f) => r == Ok::<LogFormat, String>(f),
            None => r matches Err(e) && e@ == log_format_error(normalized_name(value@)),
        },
{
    let chars = chars_of(value);
    let trimmed = trim_chars(chars.as_slice());
    let t = lower_chars(trimmed.as_slice());
    proof {
        reveal_strlit("");
        reveal_strlit("text");
        reveal_strlit("plain");
        reveal_strlit("json");
        reveal_strlit("structured");
    }
    if chars_equal_str(t.as_slice(), "") || chars_equal_str(t.as_slice(), "text")
        || chars_equal_str(t.as_slice(), "plain") {
        Ok(LogFormat::Text)
    } else if chars_equal_str(t.as_slice(), "json") || chars_equal_str(t.as_slice(), "structured") {
        Ok(LogFormat::Json)
    } else {
        let mut e = String::new();
        push_str(&mut e, "invalid log format: ");
        let other = string_from_chars(t.as_slice());
        push_str(&mut e, other.as_str());
        push_str(&mut e, "; expected text or json");
        Err(e)
    }
}

/// Writes the control server's log lines in one format.
#[derive(Debug, Clone, Copy)]
pub struct ControlLogger {
    pub format: LogFormat,
}

impl ControlLogger {
    /// A logger writing in `format`.
    pub fn new(format: LogFormat) -> (r: Self)
        ensures
            r.format == format,
    {
        ControlLogger { format }
    }
}

/// The per-client request budget of the control server.
#[derive(Debug, Clone, Copy, PartialEq, Eq, Structural)]
pub struct RateLimitConfig {
    pub window_seconds: u64,
    pub max_requests: u32,
}

/// Limiting is on only with a positive window and a positive budget.
pub open spec fn limit_enabled(c: RateLimitConfig) -> bool {
    c.window_seconds > 0 && c.max_requests > 0
}

impl RateLimitConfig {
    /// Limiting is on only with a positive window and a positive budget.
    pub fn is_enabled(self) -> (r: bool)
        ensures
            r == limit_enabled(self),
    {
        self.window_seconds > 0 && self.max_requests > 0
    }
}

/// Consecutive sync failures after which the DHT runners skip a peer, by default.
pub const DEFAULT_DHT_PEER_QUARANTINE_CONSECUTIVE_FAILURES: u32 = 3;

/// How the DHT maintenance runners are set up.
#[derive(Debug, Clone, Copy, PartialEq, Eq, Structural)]
pub struct DhtRunnerConfig {
    pub replication_factor: usize,
    pub routing_refresh_limit: usize,
    pub routing_refresh_max_targets: usize,
    pub transport: DhtTransportKind,
    pub peer_quarantine_consecutive_failures: u32,
}

impl Default for DhtRunnerConfig {
    fn default() -> (r: Self)
        ensures
            r.replication_factor == 3,
            r.routing_refresh_limit == 8,
            r.routing_refresh_max_targets == 8,
            r.transport == DhtTransportKind::HttpControl,
            r.peer_quarantine_consecutive_failures == DEFAULT_DHT_PEER_QUARANTINE_CONSECUTIVE_FAILURES,
    {
        DhtRunnerConfig {
            replication_factor: 3,
            routing_refresh_limit: 8,
            routing_refresh_max_targets: 8,
            transport: DhtTransportKind::HttpControl,
            peer_quarantine_consecutive_failures: DEFAULT_DHT_PEER_QUARANTINE_CONSECUTIVE_FAILURES,
        }
    }
}

/// Why a secret file is refused, given what its metadata says: a symlink, not a regular
/// file, or readable, writable or executable by group or others (any of mode `0o077`).
pub open spec fn secret_file_refusal(path: Seq<char>, is_symlink: bool, is_file: bool, mode: u32) -> Option<Seq<char>> {
    if is_symlink {
        Some("secret file must not be a symlink: "@ + path)
    } else if !is_file {
        Some("secret path is not a regular file: "@ + path)
    } else if mode & 0o077u32 != 0 {
        Some("secret file permissions too broad: "@ + path + "; use chmod 600"@)
    } else {
        None
    }
}

/// Checks the metadata of a secret file (its type and Unix permission bits).
pub fn validate_secret_file_permissions(path: &str, is_symlink: bool, is_file: bool, mode: u32) -> (r: Result<(), String>)
    ensures
        match secret_file_refusal(path@, is_symlink, is_file, mode) {
            Some(e) => r matches Err(m) && m@ == e,
            None => r is Ok,
        },
{
    if is_symlink {
        let mut e = String::new();
        push_str(&mut e, "secret file must not be a symlink: ");
        push_str(&mut e, path);
        return Err(e);
    }
    if !is_file {
        let mut e = String::new();
        push_str(&mut e, "secret path is not a regular file: ");
        push_str(&mut e, path);
        return Err(e);
    }
    if mode & 0o077 != 0 {
        let mut e = String::new();
        push_str(&mut e, "secret file permissions too broad: ");
        push_str(&mut e, path);
        push_str(&mut e, "; use chmod 600");
        return Err(e);
    }
    Ok(())
}

/// The secret a file holds: its contents trimmed; an error where nothing is left.
pub fn secret_from_file_contents(path: &str, contents: &str) -> (r: Result<String, String>)
    ensures
        trim(contents@).len() == 0 ==> (r matches Err(e) && e@ == "secret file is empty: "@ + path@),
        trim(contents@).len() > 0 ==> (r matches Ok(v) && v@ == trim(contents@)),
{
    let c = chars_of(contents);
    let t = trim_chars(c.as_slice());
    if t.len() == 0 {
        let mut e = String::new();
        push_str(&mut e, "secret file is empty: ");
        push_str(&mut e, path);
        Err(e)
    } else {
        Ok(string_from_chars(t.as_slice()))
    }
}

/// A numeric setting: the value given on the command line or in the environment (parsed,
/// refused where it does not parse or exceeds `max`), else the config file's, else the
/// default.
pub open spec fn number_setting(given: Option<Seq<char>>, file: Option<u64>, default: u64, max: u64) -> Result<u64, IntErrorKind> {
    match given {
        Some(text) => match parse_unsigned(text, max as nat) {
            Ok(n) => Ok(n as u64),
            Err(e) => Err(e),
        },
        None => match file {
            Some(v) => Ok(v),
            None => Ok(default),
        },
    }
}

/// Resolves a numeric setting from its sources, most specific first.
pub fn resolve_number_setting(given: Option<&str>, file: Option<u64>, default: u64, max: u64) -> (r: Result<u64, IntErrorKind>)
    ensures
        r == number_setting(match given {
            Some(t) => Some(t@),
            None => None,
        }, file, default, max),
{
    match given {
        Some(text) => {
            let c = chars_of(text);
            parse_u64_bounded(c.as_slice(), max)
        },
        None => match file {
            Some(v) => Ok(v),
            None => Ok(default),
        },
    }
}

/// The snapshot-sync peers: with `--sync-peer`, its URLs, each with the shared token and
/// no peer id; otherwise the config file's peers, those without a token taking the shared
/// one.
pub open spec fn sync_peers_of(
    file_peers: Seq<(Seq<char>, Option<Seq<char>>, Option<Seq<char>>)>,
    urls: Option<Seq<char>>,
    shared_token: Option<Seq<char>>,
) -> Seq<(Seq<char>, Option<Seq<char>>, Option<Seq<char>>)> {
    match urls {
        Some(u) => csv_items(u).map_values(|url: Seq<char>| (url, shared_token, None::<Seq<char>>)),
        None => file_peers.map_values(|p: (Seq<char>, Option<Seq<char>>, Option<Seq<char>>)| (p.0, if p.1 is None { shared_token } else { p.1 }, p.2)),
    }
}

/// Assembles the snapshot-sync peers from the config file's peers, a `--sync-peer` list and
/// a shared token.
pub fn configured_sync_peers(file_peers: &Vec<SyncPeerConfig>, sync_peer_urls: Option<&str>, shared_token: Option<String>) -> (r: Vec<SyncPeerConfig>)
    ensures
        r@.map_values(|c: SyncPeerConfig| config_view(c)) == sync_peers_of(
            file_peers@.map_values(|c: SyncPeerConfig| config_view(c)),
            match sync_peer_urls {
                Some(u) => Some(u@),
                None => None,
            },
            opt_view(shared_token),
        ),
{
    let mut out: Vec<SyncPeerConfig> = Vec::new();
    match sync_peer_urls {
        Some(u) => {
            let urls = parse_csv(u);
            let ghost uv = urls@.map_values(|x: String| x@);
            let mut i: usize = 0;
            while i < urls.len()
                invariant
                    i <= urls@.len(),
                    uv == urls@.map_values(|x: String| x@),
                    out@.map_values(|c: SyncPeerConfig| config_view(c)) == uv.take(i as int).map_values(|url: Seq<char>| (url, opt_view(shared_token), None::<Seq<char>>)),
                decreases urls@.len() - i,
            {
                let ghost before = out@;
                out.push(SyncPeerConfig { url: urls[i].clone(), token: clone_opt(&shared_token), peer_id: None });
                assert(out@.map_values(|c: SyncPeerConfig| config_view(c)) =~= before.map_values(|c: SyncPeerConfig| config_view(c)).push((uv[i as int], opt_view(shared_token), None::<Seq<char>>)));
                assert(uv.take(i as int + 1) =~= uv.take(i as int).push(uv[i as int]));
                assert(uv.take(i as int + 1).map_values(|url: Seq<char>| (url, opt_view(shared_token), None::<Seq<char>>)) =~= uv.take(i as int).map_values(|url: Seq<char>| (url, opt_view(shared_token), None::<Seq<char>>)).push((uv[i as int], opt_view(shared_token), None::<Seq<char>>)));
                i += 1;
            }
            assert(uv.take(i as int) =~= uv);
        },
        None => {
            let ghost fv = file_peers@.map_values(|c: SyncPeerConfig| config_view(c));
            let ghost f = |p: (Seq<char>, Option<Seq<char>>, Option<Seq<char>>)| (p.0, if p.1 is None { opt_view(shared_token) } else { p.1 }, p.2);
            let mut i: usize = 0;
            while i < file_peers.len()
                invariant
                    i <= file_peers@.len(),
                    fv == file_peers@.map_values(|c: SyncPeerConfig| config_view(c)),
                    f == (|p: (Seq<char>, Option<Seq<char>>, Option<Seq<char>>)| (p.0, if p.1 is None { opt_view(shared_token) } else { p.1 }, p.2)),
                    out@.map_values(|c: SyncPeerConfig| config_view(c)) == fv.take(i as int).map_values(f),
                decreases file_peers@.len() - i,
            {
                let ghost before = out@;
                let mut c = copy_config(&file_peers[i]);
                if c.token.is_none() {
                    c.token = clone_opt(&shared_token);
                }
                assert(config_view(c) == f(fv[i as int]));
                out.push(c);
                assert(out@.map_values(|c: SyncPeerConfig| config_view(c)) =~= before.map_values(|c: SyncPeerConfig| config_view(c)).push(f(fv[i as int])));
                assert(fv.take(i as int + 1) =~= fv.take(i as int).push(fv[i as int]));
                assert(fv.take(i as int + 1).map_values(f) =~= fv.take(i as int).map_values(f).push(f(fv[i as int])));
                i += 1;
            }
            assert(fv.take(i as int) =~= fv);
        },
    }
    out
}

} // verus!
