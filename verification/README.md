# lm_node

The control plane of an LM Talk node, with its behaviour stated as Verus contracts and
proved.

`src/` is the verified library:

- `http`, `query`, `security`, `control`, `ratelimit`, `response`: reading control requests
  (request line, headers, smuggling checks, size limits), query parameters, bearer-token and
  CORS checks, per-client rate limits, routing to handlers, and the HTTP responses sent.
- `metrics`, `exposition`, `maintenance`, `sync_status`: the runtime counters and their
  OpenMetrics exposition, and the sync health recorded per peer.
- `dht`, `lookup`, `backoff`, `rpc`, `p2p`, `peer_http`, `schedule`: choosing the peers the
  DHT runners talk to (quarantine, health order, routing-table discovery), the FindValue
  lookup's bookkeeping, retry backoff, DHT RPC checks, libp2p peer parsing, the HTTP exchange
  with other nodes, and the background timetable.
- `prekey_store`, `prekey`: the prekey bundles held for users, their signed one-time prekey
  records and the keys already handed out (publishing, taking, expiry, and merging from a
  snapshot), and the one-time prekey thresholds. Signature checks are the caller's verdict
  functions.
- `config`, `clock`: command-line and config-file settings, and the wall clock.
- `text`, `strs`, `numparse`, `bytes`: the character, string and number handling the rest
  is built on.

`tests/` exercises the library on concrete values. `app/` is the program around it: the
command line, sockets, files and the SQLite state database.
