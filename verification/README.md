# aimdb

The logic of an in-memory data bus for records: record keys and topic
patterns, the dependency graph of transforms, the session wire protocol and
its codec, the client and server session state machines, schema migration
planning and the build-time checks of record links. Everything under `src/`
is verified with Verus: each public function states what it returns in its
contract, and the laws of the library (what a decode gives back of an
encode, what a wildcard pattern reaches, which records a graph can order)
stand as proof functions beside the code they speak of.

## Layout

- `src/` — the verified library.
  - `segments`, `topic_match`, `pattern_rule`, `endpoint`, `text` — record
    keys, wildcard patterns, `host:port` endpoints.
  - `json`, `codec`, `codec_laws`, `session` — the JSON wire envelopes and
    their codec; `serde_json` parses and quotes, the rest is proved.
  - `client`, `server`, `dispatch`, `transport`, `time` — the decisions of
    the session engines: call and subscription demultiplexing, reconnect
    backoff, per-connection subscription caps, method routing and access
    policy.
  - `dag`, `record_key`, `links`, `pumps`, `records`, `error` — the record
    graph and the build-time checks.
  - `contracts`, `link_codec` — data contracts, and schema migration chains
    that run their steps one version at a time and read back what they
    write.
- `app/` — the asynchronous loops around the library (sockets, channels,
  timers) and the codecs that need `serde` derives; it calls the library for
  every decision.
- `tests/` — tests of the library on concrete values.
