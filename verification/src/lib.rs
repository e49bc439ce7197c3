//! The control plane of an LM Talk node: request parsing and security checks, runtime
//! counters and their OpenMetrics exposition, and the choice and scoring of the peers the
//! DHT maintenance runners talk to.
pub mod backoff;
pub mod bytes;
pub mod clock;
pub mod config;
pub mod control;
pub mod dht;
pub mod exposition;
pub mod http;
pub mod lookup;
pub mod maintenance;
pub mod metrics;
pub mod numparse;
pub mod p2p;
pub mod peer_http;
pub mod prekey;
pub mod prekey_store;
pub mod query;
pub mod ratelimit;
pub mod response;
pub mod rpc;
pub mod schedule;
pub mod security;
pub mod strs;
pub mod sync_status;
pub mod text;
