//! Protocol-agnostic connector configuration and publishing errors.
//!
//! A URL scheme (`mqtt://`, `knx://`) selects the connector; the core knows
//! schemes and key/value options, never protocol semantics.

use vstd::prelude::*;

use crate::text::{chars_of, parse_unsigned};
use crate::text::parse_unsigned_chars;

verus! {

/// Protocol-agnostic connector configuration: the route's key/value options.
#[derive(Debug, Clone)]
pub struct ConnectorConfig {
    /// Optional timeout in milliseconds for the publish/operation.
    pub timeout_ms: Option<u32>,
    /// Protocol-specific options as key/value pairs, in route order.
    pub protocol_options: Vec<(String, String)>,
}

impl Default for ConnectorConfig {
    fn default() -> (r: Self)
        ensures
            r.timeout_ms == Some(5000u32),
            r.protocol_options@.len() == 0,
    {
        ConnectorConfig { timeout_ms: Some(5000), protocol_options: Vec::new() }
    }
}

/// The key that sets the typed timeout.
pub open spec fn timeout_key() -> Seq<char> {
    seq!['t', 'i', 'm', 'e', 'o', 'u', 't', '_', 'm', 's']
}

/// The timeout after reading the first `n` query pairs: the last
/// `timeout_ms` whose value parses as a `u32`, else the default.
pub open spec fn query_timeout(query: Seq<(String, String)>, n: int) -> Option<u32>
    decreases n,
{
    if n <= 0 {
        Some(5000u32)
    } else if query[n - 1].0@ == timeout_key() && parse_unsigned(query[n - 1].1@, u32::MAX as nat) is Some {
        Some(parse_unsigned(query[n - 1].1@, u32::MAX as nat).unwrap() as u32)
    } else {
        query_timeout(query, n - 1)
    }
}

/// The pairs of `query` whose key is not `timeout_ms`, in order, as text.
pub open spec fn passthrough(query: Seq<(String, String)>) -> Seq<(Seq<char>, Seq<char>)> {
    query.filter(|p: (String, String)| p.0@ != timeout_key()).map_values(
        |p: (String, String)| (p.0@, p.1@),
    )
}

/// The text of a list of option pairs.
pub open spec fn pair_views(v: Seq<(String, String)>) -> Seq<(Seq<char>, Seq<char>)> {
    v.map_values(|p: (String, String)| (p.0@, p.1@))
}

impl ConnectorConfig {
    /// Builds a config from a route's URL-query key/value pairs.
    ///
    /// Only `timeout_ms` is lifted into the typed field, when its value
    /// parses as a `u32` (the last such pair wins; an unparsable one is
    /// dropped); every other pair passes through verbatim, in order.
    pub fn from_query(query: &[(String, String)]) -> (r: ConnectorConfig)
        ensures
            r.timeout_ms == query_timeout(query@, query@.len() as int),
            pair_views(r.protocol_options@) == passthrough(query@),
    {
        let mut cfg = ConnectorConfig::default();
        let key = "timeout_ms".to_owned();
        proof {
            reveal_strlit("timeout_ms");
        }
        assert(key@ == timeout_key());
        let mut i: usize = 0;
        while i < query.len()
            invariant
                i <= query@.len(),
                key@ == timeout_key(),
                cfg.timeout_ms == query_timeout(query@, i as int),
                pair_views(cfg.protocol_options@) == passthrough(query@.take(i as int)),
            decreases query.len() - i,
        {
            let ghost before = query@.take(i as int);
            assert(query@.take(i + 1) == before.push(query@[i as int]));
            proof {
                lemma_filter_push(before, query@[i as int]);
            }
            let (k, v) = (&query[i].0, &query[i].1);
            if *k == key {
                let cs = chars_of(v.as_str());
                match parse_unsigned_chars(cs.as_slice(), 4294967295u64) {
                    Some(n) => {
                        cfg.timeout_ms = Some(n as u32);
                    },
                    None => {},
                }
            } else {
                let ghost old_opts = cfg.protocol_options@;
                cfg.protocol_options.push((k.clone(), v.clone()));
                assert(pair_views(cfg.protocol_options@) == pair_views(old_opts).push((k@, v@)));
            }
            i = i + 1;
        }
        assert(query@.take(query@.len() as int) == query@);
        cfg
    }
}

/// Filtering then mapping a list grown by one pair.
proof fn lemma_filter_push(s: Seq<(String, String)>, p: (String, String))
    ensures
        passthrough(s.push(p)) == if p.0@ != timeout_key() {
            passthrough(s).push((p.0@, p.1@))
        } else {
            passthrough(s)
        },
{
    let f = |q: (String, String)| q.0@ != timeout_key();
    let g = |q: (String, String)| (q.0@, q.1@);
    reveal(Seq::filter);
    assert(s.push(p).drop_last() =~= s);
    let fs = s.filter(f);
    if f(p) {
        assert(s.push(p).filter(f) == fs.push(p));
        assert(fs.push(p).map_values(g) =~= fs.map_values(g).push(g(p)));
    } else {
        assert(s.push(p).filter(f) == fs);
    }
}

/// Error that can occur during connector publishing.
#[derive(Debug, Clone, Copy, PartialEq, Eq, Structural)]
pub enum PublishError {
    /// Failed to connect to endpoint.
    ConnectionFailed,
    /// Message payload too large for buffer.
    MessageTooLarge,
    /// Quality of Service level not supported.
    UnsupportedQoS,
    /// Network or operation timeout occurred.
    Timeout,
    /// Buffer full, cannot queue message.
    BufferFull,
    /// Invalid destination (topic, segment, endpoint).
    InvalidDestination,
}

impl PublishError {
    /// A human-readable description of the error.
    pub fn message(&self) -> (r: &'static str)
        ensures
            r@ == publish_error_text(*self),
    {
        match self {
            PublishError::ConnectionFailed => "Failed to connect to endpoint",
            PublishError::MessageTooLarge => "Message payload too large",
            PublishError::UnsupportedQoS => "QoS level not supported",
            PublishError::Timeout => "Operation timeout",
            PublishError::BufferFull => "Buffer full, cannot queue message",
            PublishError::InvalidDestination => "Invalid destination",
        }
    }
}

/// The description of a publishing error.
pub open spec fn publish_error_text(e: PublishError) -> Seq<char> {
    match e {
        PublishError::ConnectionFailed => "Failed to connect to endpoint"@,
        PublishError::MessageTooLarge => "Message payload too large"@,
        PublishError::UnsupportedQoS => "QoS level not supported"@,
        PublishError::Timeout => "Operation timeout"@,
        PublishError::BufferFull => "Buffer full, cannot queue message"@,
        PublishError::InvalidDestination => "Invalid destination"@,
    }
}

} // verus!
