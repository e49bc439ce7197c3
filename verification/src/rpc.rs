//! DHT RPC messages as the node exchanges them, and the checks made on a response.
use vstd::prelude::*;
use crate::dht::RoutingPeer;
use crate::text::{chars_equal, chars_of, push_str};

verus! {

/// A DHT RPC request.
#[derive(Debug, Clone)]
pub enum DhtRpcRequest {
    FindNode { request_id: String, target: [u8; 32], limit: usize },
    FindValue { request_id: String, key: String, limit: usize },
    StoreRecord { request_id: String, record_key: String },
}

/// A DHT RPC response.
#[derive(Debug, Clone)]
pub enum DhtRpcResponse {
    Nodes { request_id: String, nodes: Vec<RoutingPeer> },
    Value { request_id: String, record_key: Option<String>, closer_record_keys: Vec<String>, closer_nodes: Vec<RoutingPeer> },
    StoreResult { request_id: String, stored: bool, inserted: bool },
    Error { request_id: String, message: String },
}

/// The id a request carries.
pub open spec fn request_id_of(r: DhtRpcRequest) -> Seq<char> {
    match r {
        DhtRpcRequest::FindNode { request_id, .. } => request_id@,
        DhtRpcRequest::FindValue { request_id, .. } => request_id@,
        DhtRpcRequest::StoreRecord { request_id, .. } => request_id@,
    }
}

/// The request id a response answers.
pub open spec fn response_id_of(r: DhtRpcResponse) -> Seq<char> {
    match r {
        DhtRpcResponse::Nodes { request_id, .. } => request_id@,
        DhtRpcResponse::Value { request_id, .. } => request_id@,
        DhtRpcResponse::StoreResult { request_id, .. } => request_id@,
        DhtRpcResponse::Error { request_id, .. } => request_id@,
    }
}

/// The id a request carries.
pub fn dht_rpc_request_id(request: &DhtRpcRequest) -> (r: &str)
    ensures
        r@ == request_id_of(*request),
{
    match request {
        DhtRpcRequest::FindNode { request_id, .. } => request_id.as_str(),
        DhtRpcRequest::FindValue { request_id, .. } => request_id.as_str(),
        DhtRpcRequest::StoreRecord { request_id, .. } => request_id.as_str(),
    }
}

/// The request id a response answers.
pub fn dht_rpc_response_id(response: &DhtRpcResponse) -> (r: &str)
    ensures
        r@ == response_id_of(*response),
{
    match response {
        DhtRpcResponse::Nodes { request_id, .. } => request_id.as_str(),
        DhtRpcResponse::Value { request_id, .. } => request_id.as_str(),
        DhtRpcResponse::StoreResult { request_id, .. } => request_id.as_str(),
        DhtRpcResponse::Error { request_id, .. } => request_id.as_str(),
    }
}

/// What a response to `request` is taken as: a refusal where it answers another request, or
/// where it is an error response; the response itself otherwise.
pub open spec fn response_check(request: DhtRpcRequest, response: DhtRpcResponse) -> Result<(), Seq<char>> {
    if response_id_of(response) != request_id_of(request) {
        Err("dht rpc response request_id mismatch: expected "@ + request_id_of(request) + ", got "@ + response_id_of(response))
    } else {
        match response {
            DhtRpcResponse::Error { message, .. } => Err("dht rpc error response: "@ + message@),
            _ => Ok(()),
        }
    }
}

/// Accepts a response only where it answers `request` and is not an error response.
pub fn validate_dht_rpc_response(request: &DhtRpcRequest, response: DhtRpcResponse) -> (r: Result<DhtRpcResponse, String>)
    ensures
        match (r, response_check(*request, response)) {
            (Ok(x), Ok(())) => x == response,
            (Err(e), Err(f)) => e@ == f,
            _ => false,
        },
{
    let expected = dht_rpc_request_id(request);
    let actual = dht_rpc_response_id(&response);
    let ec = chars_of(expected);
    let ac = chars_of(actual);
    if !chars_equal(ac.as_slice(), ec.as_slice()) {
        let mut e = String::new();
        push_str(&mut e, "dht rpc response request_id mismatch: expected ");
        push_str(&mut e, expected);
        push_str(&mut e, ", got ");
        push_str(&mut e, actual);
        return Err(e);
    }
    if let DhtRpcResponse::Error { message, .. } = &response {
        let mut e = String::new();
        push_str(&mut e, "dht rpc error response: ");
        push_str(&mut e, message.as_str());
        return Err(e);
    }
    Ok(response)
}

/// The FindValue request for the record under `key` (its text form), asking for `limit`
/// records clamped to 1..=64; its id is `find-value-` and the key.
pub fn find_value_request(key: &str, limit: usize) -> (r: DhtRpcRequest)
    ensures
        r matches DhtRpcRequest::FindValue { request_id, key: k, limit: l }
            && request_id@ == "find-value-"@ + key@
            && k@ == key@
            && l == (if limit < 1 { 1 } else if limit > 64 { 64 } else { limit }),
{
    let mut request_id = String::new();
    push_str(&mut request_id, "find-value-");
    push_str(&mut request_id, key);
    let mut k = String::new();
    push_str(&mut k, key);
    let l: usize = if limit < 1 { 1 } else if limit > 64 { 64 } else { limit };
    DhtRpcRequest::FindValue { request_id, key: k, limit: l }
}

} // verus!
