//! Peer ids and multiaddresses, as libp2p parses them from text.
use vstd::prelude::*;
use libp2p::{Multiaddr, PeerId};
use crate::config::{csv_items, parse_csv};
use crate::dht::SyncPeerConfig;
use crate::strs::{rsplit_once, rsplit_once_chars, slice_chars, starts_with, starts_with_str};
use crate::text::{chars_of, push_str, string_from_chars};

verus! {

#[verifier::external_type_specification]
#[verifier::external_body]
pub struct ExPeerId(PeerId);

#[verifier::external_type_specification]
#[verifier::external_body]
pub struct ExMultiaddr(Multiaddr);

/// What parsing a peer id from text comes to: `None` where it parses, else the error's text.
pub uninterp spec fn peer_id_parse_error(s: Seq<char>) -> Option<Seq<char>>;

/// What parsing a multiaddress from text comes to: `None` where it parses, else the
/// error's text.
pub uninterp spec fn multiaddr_parse_error(s: Seq<char>) -> Option<Seq<char>>;

/// The bytes of the peer id that a text parses to (`PeerId::to_bytes`: its multihash).
pub uninterp spec fn peer_id_bytes_of(s: Seq<char>) -> Seq<u8>;

/// The bytes of the multiaddress that a text parses to (`Multiaddr::to_vec`).
pub uninterp spec fn multiaddr_bytes_of(s: Seq<char>) -> Seq<u8>;

/// `<PeerId as FromStr>::from_str` (base-58 decoding, then a multihash check): the outcome
/// is `peer_id_parse_error` of the text, the error rendered by its `Display`; a parsed id
/// comes with its bytes (`PeerId::to_bytes`), `peer_id_bytes_of` the text.
#[verifier::external_body]
pub(crate) fn parse_peer_id(s: &str) -> (r: Result<(PeerId, Vec<u8>), String>)
    ensures
        match r {
            Ok((_, b)) => peer_id_parse_error(s@) is None && b@ == peer_id_bytes_of(s@),
            Err(e) => peer_id_parse_error(s@) == Some(e@),
        },
{
    match s.parse::<PeerId>() {
        Ok(p) => Ok((p, p.to_bytes())),
        Err(e) => Err(e.to_string()),
    }
}

/// `<Multiaddr as FromStr>::from_str`: the outcome is `multiaddr_parse_error` of the text,
/// the error rendered by its `Display`; a parsed address comes with its bytes
/// (`Multiaddr::to_vec`), `multiaddr_bytes_of` the text. As its source shows, a non-empty
/// text that does not start with `/` is refused.
#[verifier::external_body]
pub(crate) fn parse_multiaddr(s: &str) -> (r: Result<(Multiaddr, Vec<u8>), String>)
    ensures
        match r {
            Ok((_, b)) => multiaddr_parse_error(s@) is None && b@ == multiaddr_bytes_of(s@),
            Err(e) => multiaddr_parse_error(s@) == Some(e@),
        },
        s@.len() > 0 && s@[0] != '/' ==> r is Err,
{
    match s.parse::<Multiaddr>() {
        Ok(a) => {
            let b = a.to_vec();
            Ok((a, b))
        },
        Err(e) => Err(e.to_string()),
    }
}

/// A libp2p peer to dial (a bootstrap peer, or a configured DHT peer): its id and address,
/// each beside its bytes.
#[derive(Debug)]
pub struct Libp2pBootstrapPeer {
    pub peer_id: PeerId,
    pub address: Multiaddr,
    pub peer_id_bytes: Vec<u8>,
    pub address_bytes: Vec<u8>,
}

/// Whether `peer` is what the peer id text `id` and the multiaddress text `address` parse to,
/// as far as their bytes show.
pub open spec fn peer_parsed_from(peer: Libp2pBootstrapPeer, id: Seq<char>, address: Seq<char>) -> bool {
    &&& peer.peer_id_bytes@ == peer_id_bytes_of(id)
    &&& peer.address_bytes@ == multiaddr_bytes_of(address)
}

/// Whether `peer` is what the bootstrap entry `entry` (`[libp2p://]<multiaddr>|<peer id>`)
/// parses to.
pub open spec fn peer_parsed_from_entry(peer: Libp2pBootstrapPeer, entry: Seq<char>) -> bool {
    match rsplit_once(entry, '|') {
        None => false,
        Some((address, peer_id)) => peer_parsed_from(peer, peer_id, without_libp2p_scheme(address)),
    }
}

/// `s` without a leading `libp2p://`, where it has one.
pub open spec fn without_libp2p_scheme(s: Seq<char>) -> Seq<char> {
    if starts_with(s, "libp2p://"@) { s.skip(9) } else { s }
}

fn strip_libp2p_scheme(s: &[char]) -> (r: Vec<char>)
    ensures
        r@ == without_libp2p_scheme(s@),
{
    proof {
        reveal_strlit("libp2p://");
    }
    if starts_with_str(s, "libp2p://") {
        let r = slice_chars(s, 9, s.len());
        assert(r@ =~= s@.skip(9));
        r
    } else {
        let r = slice_chars(s, 0, s.len());
        assert(r@ =~= s@);
        r
    }
}

/// Why a `libp2p://<multiaddr>|<peer id>` bootstrap entry is refused, if it is: no `|`,
/// an address (after the last `|`, without the scheme) that does not parse, or a peer id
/// that does not parse, in that order.
pub open spec fn bootstrap_entry_error(entry: Seq<char>) -> Option<Seq<char>> {
    match rsplit_once(entry, '|') {
        None => Some("libp2p bootstrap peers must use libp2p://<multiaddr>|<peer_id>"@),
        Some((address, peer_id)) => match multiaddr_parse_error(without_libp2p_scheme(address)) {
            Some(e) => Some(e),
            None => peer_id_parse_error(peer_id),
        },
    }
}

/// What a list of bootstrap entries comes to: the refusal of the first bad entry, or the
/// number of peers.
pub open spec fn bootstrap_outcome(entries: Seq<Seq<char>>) -> Result<nat, Seq<char>>
    decreases entries.len(),
{
    if entries.len() == 0 {
        Ok(0)
    } else {
        match bootstrap_outcome(entries.drop_last()) {
            Err(e) => Err(e),
            Ok(n) => match bootstrap_entry_error(entries.last()) {
                Some(e) => Err(e),
                None => Ok(n + 1),
            },
        }
    }
}

fn parse_bootstrap_entry(entry: &str) -> (r: Result<Libp2pBootstrapPeer, String>)
    ensures
        match (r, bootstrap_entry_error(entry@)) {
            (Ok(p), None) => peer_parsed_from_entry(p, entry@),
            (Err(e), Some(f)) => e@ == f,
            _ => false,
        },
{
    let chars = chars_of(entry);
    match rsplit_once_chars(chars.as_slice(), '|') {
        None => {
            let mut e = String::new();
            push_str(&mut e, "libp2p bootstrap peers must use libp2p://<multiaddr>|<peer_id>");
            Err(e)
        },
        Some((address, peer_id)) => {
            let a = strip_libp2p_scheme(address.as_slice());
            let a_text = string_from_chars(a.as_slice());
            let (address, address_bytes) = match parse_multiaddr(a_text.as_str()) {
                Ok(m) => m,
                Err(e) => {
                    return Err(e);
                },
            };
            let p_text = string_from_chars(peer_id.as_slice());
            match parse_peer_id(p_text.as_str()) {
                Ok((p, peer_id_bytes)) => Ok(
                    Libp2pBootstrapPeer { peer_id: p, address, peer_id_bytes, address_bytes },
                ),
                Err(e) => Err(e),
            }
        },
    }
}

/// Parses a comma-separated list of `libp2p://<multiaddr>|<peer id>` bootstrap peers,
/// refusing the whole list at its first bad entry; the peers come in the entries' order.
pub fn parse_libp2p_bootstrap_peers(value: &str) -> (r: Result<Vec<Libp2pBootstrapPeer>, String>)
    ensures
        match (r, bootstrap_outcome(csv_items(value@))) {
            (Ok(v), Ok(n)) => {
                &&& v@.len() == n
                &&& forall|i: int|
                    0 <= i < n ==> #[trigger] peer_parsed_from_entry(v@[i], csv_items(value@)[i])
            },
            (Err(e), Err(f)) => e@ == f,
            _ => false,
        },
{
    let items = parse_csv(value);
    let ghost iv = items@.map_values(|x: String| x@);
    let mut out: Vec<Libp2pBootstrapPeer> = Vec::new();
    let mut i: usize = 0;
    assert(iv.take(0) =~= Seq::<Seq<char>>::empty());
    while i < items.len()
        invariant
            i <= items@.len(),
            iv == items@.map_values(|x: String| x@),
            iv == csv_items(value@),
            bootstrap_outcome(iv.take(i as int)) == Ok::<nat, Seq<char>>(i as nat),
            out@.len() == i,
            forall|j: int| 0 <= j < i ==> #[trigger] peer_parsed_from_entry(out@[j], iv[j]),
        decreases items@.len() - i,
    {
        assert(iv.take(i as int + 1).drop_last() =~= iv.take(i as int));
        assert(iv.take(i as int + 1).last() == items@[i as int]@);
        match parse_bootstrap_entry(items[i].as_str()) {
            Ok(p) => out.push(p),
            Err(e) => {
                proof {
                    lemma_bootstrap_outcome_err(iv, i as nat);
                }
                return Err(e);
            },
        }
        i += 1;
    }
    assert(iv.take(i as int) =~= iv);
    Ok(out)
}

proof fn lemma_bootstrap_outcome_err(entries: Seq<Seq<char>>, k: nat)
    requires
        k < entries.len(),
        bootstrap_outcome(entries.take(k as int)) is Ok,
        bootstrap_entry_error(entries[k as int]) is Some,
    ensures
        bootstrap_outcome(entries) == Err::<nat, Seq<char>>(bootstrap_entry_error(entries[k as int]).unwrap()),
    decreases entries.len(),
{
    if entries.len() == k + 1 {
        assert(entries.drop_last() =~= entries.take(k as int));
    } else {
        assert(entries.drop_last().take(k as int) =~= entries.take(k as int));
        lemma_bootstrap_outcome_err(entries.drop_last(), k);
    }
}

/// Why a configured peer cannot be reached over libp2p, if it cannot: no peer id, a peer id
/// that does not parse, or a URL (without `libp2p://`) that does not parse as a
/// multiaddress, in that order.
pub open spec fn dht_peer_error(peer: SyncPeerConfig) -> Option<Seq<char>> {
    match peer.peer_id {
        None => Some("libp2p DHT peers require peer_id"@),
        Some(id) => match peer_id_parse_error(id@) {
            Some(e) => Some(e),
            None => multiaddr_parse_error(without_libp2p_scheme(peer.url@)),
        },
    }
}

/// The peer id and address of a configured libp2p DHT peer.
pub fn parse_libp2p_dht_peer(peer: &SyncPeerConfig) -> (r: Result<Libp2pBootstrapPeer, String>)
    ensures
        match (r, dht_peer_error(*peer)) {
            (Ok(p), None) => peer_parsed_from(
                p,
                peer.peer_id.unwrap()@,
                without_libp2p_scheme(peer.url@),
            ),
            (Err(e), Some(f)) => e@ == f,
            _ => false,
        },
{
    let id = match &peer.peer_id {
        Some(id) => id,
        None => {
            let mut e = String::new();
            push_str(&mut e, "libp2p DHT peers require peer_id");
            return Err(e);
        },
    };
    let (peer_id, peer_id_bytes) = match parse_peer_id(id.as_str()) {
        Ok(p) => p,
        Err(e) => {
            return Err(e);
        },
    };
    let url = chars_of(peer.url.as_str());
    let a = strip_libp2p_scheme(url.as_slice());
    let a_text = string_from_chars(a.as_slice());
    match parse_multiaddr(a_text.as_str()) {
        Ok((address, address_bytes)) => Ok(
            Libp2pBootstrapPeer { peer_id, address, peer_id_bytes, address_bytes },
        ),
        Err(e) => Err(e),
    }
}

} // verus!
