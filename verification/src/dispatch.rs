//! The method semantics of remote access: which call a method name selects,
//! what a security policy lets a peer write, what the handshake advertises,
//! and which records a wildcard subscription reaches.

use vstd::prelude::*;

use crate::dag::{holds_string, views};
use crate::session::RpcError;
use crate::topic_match::{is_wildcard, is_wildcard_spec, topic_match_spec, topic_matches};

verus! {

broadcast use vstd::seq_lib::group_seq_properties;

/// The calls a peer can make.
#[derive(Debug, Clone, Copy, PartialEq, Eq, Structural)]
pub enum Method {
    /// `hello`: the version-gated handshake.
    Hello,
    /// `record.list`: every record's metadata.
    RecordList,
    /// `record.get`: a record's current value.
    RecordGet,
    /// `record.set`: a permission-checked write that echoes the new value.
    RecordSet,
    /// `record.drain`: what accumulated since the previous drain.
    RecordDrain,
    /// `record.query`: a query against the persistence handler.
    RecordQuery,
    /// `graph.nodes`: the dependency graph's nodes.
    GraphNodes,
    /// `graph.edges`: the dependency graph's edges.
    GraphEdges,
    /// `graph.topo_order`: the records in dependency order.
    GraphTopoOrder,
    /// `profiling.reset`: clears the stage profiling (an admin write).
    ProfilingReset,
    /// `buffer_metrics.reset`: clears the buffer metrics (an admin write).
    BufferMetricsReset,
}

/// The call a method name selects, if any.
pub open spec fn method_of(name: Seq<char>) -> Option<Method> {
    if name == "hello"@ {
        Some(Method::Hello)
    } else if name == "record.list"@ {
        Some(Method::RecordList)
    } else if name == "record.get"@ {
        Some(Method::RecordGet)
    } else if name == "record.set"@ {
        Some(Method::RecordSet)
    } else if name == "record.drain"@ {
        Some(Method::RecordDrain)
    } else if name == "record.query"@ {
        Some(Method::RecordQuery)
    } else if name == "graph.nodes"@ {
        Some(Method::GraphNodes)
    } else if name == "graph.edges"@ {
        Some(Method::GraphEdges)
    } else if name == "graph.topo_order"@ {
        Some(Method::GraphTopoOrder)
    } else if name == "profiling.reset"@ {
        Some(Method::ProfilingReset)
    } else if name == "buffer_metrics.reset"@ {
        Some(Method::BufferMetricsReset)
    } else {
        None
    }
}

/// Selects the call a method name names; an unknown method is `NotFound`.
pub fn route_method(name: &str) -> (r: Result<Method, RpcError>)
    ensures
        match method_of(name@) {
            Some(m) => r == Ok::<Method, RpcError>(m),
            None => r == Err::<Method, RpcError>(RpcError::NotFound),
        },
{
    let n = name.to_owned();
    if n == "hello".to_owned() {
        Ok(Method::Hello)
    } else if n == "record.list".to_owned() {
        Ok(Method::RecordList)
    } else if n == "record.get".to_owned() {
        Ok(Method::RecordGet)
    } else if n == "record.set".to_owned() {
        Ok(Method::RecordSet)
    } else if n == "record.drain".to_owned() {
        Ok(Method::RecordDrain)
    } else if n == "record.query".to_owned() {
        Ok(Method::RecordQuery)
    } else if n == "graph.nodes".to_owned() {
        Ok(Method::GraphNodes)
    } else if n == "graph.edges".to_owned() {
        Ok(Method::GraphEdges)
    } else if n == "graph.topo_order".to_owned() {
        Ok(Method::GraphTopoOrder)
    } else if n == "profiling.reset".to_owned() {
        Ok(Method::ProfilingReset)
    } else if n == "buffer_metrics.reset".to_owned() {
        Ok(Method::BufferMetricsReset)
    } else {
        Err(RpcError::NotFound)
    }
}

/// Who may write what over remote access.
#[derive(Debug, Clone)]
pub enum SecurityPolicy {
    /// Every record can be read; nothing can be written.
    ReadOnly,
    /// Every record can be read; the named records can be written.
    ReadWrite { writable_records: Vec<String> },
}

/// Whether the policy lets a peer write the record `name`.
pub open spec fn may_write(policy: SecurityPolicy, name: Seq<char>) -> bool {
    match policy {
        SecurityPolicy::ReadOnly => false,
        SecurityPolicy::ReadWrite { writable_records } => views(writable_records@).contains(name),
    }
}

/// Denies unless the policy is read-write and names `name` as writable.
pub fn ensure_writable(policy: &SecurityPolicy, name: &str) -> (r: Result<(), RpcError>)
    ensures
        r == if may_write(*policy, name@) {
            Ok::<(), RpcError>(())
        } else {
            Err::<(), RpcError>(RpcError::Denied)
        },
{
    match policy {
        SecurityPolicy::ReadWrite { writable_records } => {
            if holds_string(writable_records, &name.to_owned()) {
                Ok(())
            } else {
                Err(RpcError::Denied)
            }
        },
        SecurityPolicy::ReadOnly => Err(RpcError::Denied),
    }
}

/// Denies under a read-only policy (the admin `*.reset` methods).
pub fn ensure_write_permission(policy: &SecurityPolicy) -> (r: Result<(), RpcError>)
    ensures
        r == match *policy {
            SecurityPolicy::ReadOnly => Err::<(), RpcError>(RpcError::Denied),
            SecurityPolicy::ReadWrite { .. } => Ok::<(), RpcError>(()),
        },
{
    match policy {
        SecurityPolicy::ReadOnly => Err(RpcError::Denied),
        SecurityPolicy::ReadWrite { .. } => Ok(()),
    }
}

/// The permissions a policy grants: reading always, writing under a
/// read-write policy.
pub open spec fn permissions_of(policy: SecurityPolicy) -> Seq<Seq<char>> {
    match policy {
        SecurityPolicy::ReadOnly => seq!["read"@],
        SecurityPolicy::ReadWrite { .. } => seq!["read"@, "write"@],
    }
}

/// The records the handshake advertises as writable: those the policy names
/// that exist, in the policy's order.
pub open spec fn advertised_writable(policy: SecurityPolicy, existing: Seq<Seq<char>>) -> Seq<Seq<char>> {
    match policy {
        SecurityPolicy::ReadOnly => Seq::empty(),
        SecurityPolicy::ReadWrite { writable_records } => views(writable_records@).filter(
            |n: Seq<char>| existing.contains(n),
        ),
    }
}

/// What the handshake grants: the permissions, and the writable records
/// among the `existing` record keys.
pub fn welcome_access(policy: &SecurityPolicy, existing: &Vec<String>) -> (r: (Vec<String>, Vec<String>))
    ensures
        views(r.0@) == permissions_of(*policy),
        views(r.1@) == advertised_writable(*policy, views(existing@)),
{
    let mut permissions: Vec<String> = Vec::new();
    permissions.push("read".to_owned());
    match policy {
        SecurityPolicy::ReadOnly => {
            assert(views(permissions@) =~= permissions_of(*policy));
            (permissions, Vec::new())
        },
        SecurityPolicy::ReadWrite { writable_records } => {
            permissions.push("write".to_owned());
            assert(views(permissions@) =~= permissions_of(*policy));
            let ghost exists_pred = |n: Seq<char>| views(existing@).contains(n);
            let mut writable: Vec<String> = Vec::new();
            let mut i: usize = 0;
            while i < writable_records.len()
                invariant
                    i <= writable_records.len(),
                    exists_pred == (|n: Seq<char>| views(existing@).contains(n)),
                    views(writable@) == views(writable_records@.take(i as int)).filter(exists_pred),
                decreases writable_records.len() - i,
            {
                let name = &writable_records[i];
                proof {
                    assert(views(writable_records@.take(i as int + 1)) =~= views(
                        writable_records@.take(i as int),
                    ).push(name@));
                    views(writable_records@.take(i as int)).lemma_filter_push(name@, exists_pred);
                }
                if holds_string(existing, name) {
                    writable.push(name.clone());
                    assert(views(writable@) =~= views(writable_records@.take(i as int)).filter(exists_pred).push(name@));
                } else {
                    assert(views(writable@) =~= views(writable_records@.take(i as int)).filter(exists_pred));
                }
                i = i + 1;
            }
            assert(writable_records@.take(i as int) =~= writable_records@);
            (permissions, writable)
        },
    }
}

/// The handshake's reply: the protocol version and server name, the
/// permissions and writable records the policy grants, the subscription
/// limit, and whether the peer was authenticated.
#[derive(Debug, Clone)]
pub struct WelcomeMessage {
    /// The server's protocol version.
    pub version: String,
    /// The server's name.
    pub server: String,
    /// What the peer may do: `read`, and `write` under a read-write policy.
    pub permissions: Vec<String>,
    /// The existing records the peer may write.
    pub writable_records: Vec<String>,
    /// The most subscriptions one connection may hold.
    pub max_subscriptions: Option<usize>,
    /// Whether the peer was authenticated.
    pub authenticated: Option<bool>,
}

/// Builds the handshake's reply for a server speaking `protocol_version`
/// under `policy`, given the `existing` record keys and the per-connection
/// subscription limit. Access rests on the connection alone, so the peer is
/// never reported as authenticated.
pub fn welcome(
    policy: &SecurityPolicy,
    existing: &Vec<String>,
    protocol_version: &str,
    max_subs_per_connection: usize,
) -> (r: WelcomeMessage)
    ensures
        r.version@ == protocol_version@,
        r.server@ == "aimdb"@,
        views(r.permissions@) == permissions_of(*policy),
        views(r.writable_records@) == advertised_writable(*policy, views(existing@)),
        r.max_subscriptions == Some(max_subs_per_connection),
        r.authenticated == Some(false),
{
    let (permissions, writable_records) = welcome_access(policy, existing);
    WelcomeMessage {
        version: protocol_version.to_owned(),
        server: "aimdb".to_owned(),
        permissions,
        writable_records,
        max_subscriptions: Some(max_subs_per_connection),
        authenticated: Some(false),
    }
}

/// The handshake never advertises a phantom key: every record it lists as
/// writable exists and may be written, and every existing record the policy
/// lets a peer write is listed.
pub proof fn law_advertised_records_exist_and_are_writable(policy: SecurityPolicy, existing: Seq<Seq<char>>, k: Seq<char>)
    ensures
        advertised_writable(policy, existing).contains(k) <==> (existing.contains(k) && may_write(policy, k)),
{
    match policy {
        SecurityPolicy::ReadOnly => {},
        SecurityPolicy::ReadWrite { writable_records } => {
            let w = views(writable_records@);
            let pred = |n: Seq<char>| existing.contains(n);
            broadcast use vstd::seq_lib::group_filter_ensures;
            if w.filter(pred).contains(k) {
                let j = choose|j: int| 0 <= j < w.filter(pred).len() && w.filter(pred)[j] == k;
                assert(pred(w.filter(pred)[j]));
                lemma_filtered_from(w, pred, j);
            }
            if existing.contains(k) && w.contains(k) {
                let j = choose|j: int| 0 <= j < w.len() && w[j] == k;
                assert(w.filter(pred).contains(w[j]));
            }
        },
    }
}

/// Every element a filter keeps comes from the filtered sequence.
proof fn lemma_filtered_from(s: Seq<Seq<char>>, pred: spec_fn(Seq<char>) -> bool, j: int)
    requires
        0 <= j < s.filter(pred).len(),
    ensures
        s.contains(s.filter(pred)[j]),
    decreases s.len(),
{
    reveal(Seq::filter);
    if s.len() > 0 {
        let sub = s.drop_last().filter(pred);
        if j < sub.len() {
            lemma_filtered_from(s.drop_last(), pred, j);
            let m = choose|m: int| 0 <= m < s.drop_last().len() && s.drop_last()[m] == sub[j];
            assert(s[m] == s.filter(pred)[j]);
        } else {
            assert(s[s.len() - 1] == s.filter(pred)[j]);
        }
    }
}

/// The record keys a subscription pattern reaches, in their order.
pub open spec fn keys_matching(pattern: Seq<char>, keys: Seq<Seq<char>>) -> Seq<Seq<char>> {
    keys.filter(|k: Seq<char>| topic_match_spec(pattern, k))
}

/// The record keys among `keys` that `pattern` matches, in their order.
pub fn matched_keys(pattern: &str, keys: &Vec<String>) -> (r: Vec<String>)
    ensures
        views(r@) == keys_matching(pattern@, views(keys@)),
{
    let ghost pred = |k: Seq<char>| topic_match_spec(pattern@, k);
    let mut out: Vec<String> = Vec::new();
    let mut i: usize = 0;
    while i < keys.len()
        invariant
            i <= keys.len(),
            pred == (|k: Seq<char>| topic_match_spec(pattern@, k)),
            views(out@) == views(keys@.take(i as int)).filter(pred),
        decreases keys.len() - i,
    {
        let key = &keys[i];
        proof {
            assert(views(keys@.take(i as int + 1)) =~= views(keys@.take(i as int)).push(key@));
            views(keys@.take(i as int)).lemma_filter_push(key@, pred);
        }
        if topic_matches(pattern, key.as_str()) {
            out.push(key.clone());
            assert(views(out@) =~= views(keys@.take(i as int)).filter(pred).push(key@));
        }
        i = i + 1;
    }
    assert(keys@.take(i as int) =~= keys@);
    out
}

/// A record's key with its current value, if it has one, as plain values.
pub open spec fn record_view(r: (String, Option<Vec<u8>>)) -> (Seq<char>, Option<Seq<u8>>) {
    (
        r.0@,
        match r.1 {
            Some(v) => Some(v@),
            None => None,
        },
    )
}

/// The records reached by `pattern` that have a current value, each with
/// that value, in the records' order.
pub open spec fn valued_matches(pattern: Seq<char>, recs: Seq<(Seq<char>, Option<Seq<u8>>)>) -> Seq<(Seq<char>, Seq<u8>)>
    decreases recs.len(),
{
    if recs.len() == 0 {
        Seq::empty()
    } else {
        let rest = valued_matches(pattern, recs.drop_last());
        let last = recs.last();
        match last.1 {
            Some(v) => if topic_match_spec(pattern, last.0) {
                rest.push((last.0, v))
            } else {
                rest
            },
            None => rest,
        }
    }
}

/// The late-join state of a subscription: for a wildcard pattern, the
/// current value of every matched record that has one; nothing for an
/// exact topic, whose subscription carries events only.
pub open spec fn snapshot_state(topic: Seq<char>, recs: Seq<(Seq<char>, Option<Seq<u8>>)>) -> Seq<(Seq<char>, Seq<u8>)> {
    if is_wildcard_spec(topic) {
        valued_matches(topic, recs)
    } else {
        Seq::empty()
    }
}

/// A record's current value is among the values `valued_matches` keeps
/// exactly when the pattern reaches the record's key and the record holds
/// that value.
proof fn lemma_valued_match_member(
    pattern: Seq<char>,
    recs: Seq<(Seq<char>, Option<Seq<u8>>)>,
    x: (Seq<char>, Seq<u8>),
)
    ensures
        valued_matches(pattern, recs).contains(x) <==> (topic_match_spec(pattern, x.0) && exists|i: int|
            0 <= i < recs.len() && #[trigger] recs[i] == (x.0, Some(x.1))),
    decreases recs.len(),
{
    if recs.len() > 0 {
        let init = recs.drop_last();
        let last = recs.last();
        let want = (x.0, Some(x.1));
        lemma_valued_match_member(pattern, init, x);
        let rest = valued_matches(pattern, init);
        assert((exists|i: int| 0 <= i < recs.len() && #[trigger] recs[i] == want) <==> ((exists|i: int|
            0 <= i < init.len() && #[trigger] init[i] == want) || last == want)) by {
            if exists|i: int| 0 <= i < recs.len() && #[trigger] recs[i] == want {
                let i = choose|i: int| 0 <= i < recs.len() && #[trigger] recs[i] == want;
                if i < init.len() {
                    assert(init[i] == recs[i]);
                }
            }
            if exists|i: int| 0 <= i < init.len() && #[trigger] init[i] == want {
                let i = choose|i: int| 0 <= i < init.len() && #[trigger] init[i] == want;
                assert(recs[i] == init[i]);
            }
            if last == want {
                assert(recs[recs.len() - 1] == want);
            }
        }
        match last.1 {
            Some(v) => {
                if topic_match_spec(pattern, last.0) {
                    let pushed = rest.push((last.0, v));
                    assert(pushed.contains(x) <==> (rest.contains(x) || x == (last.0, v))) by {
                        if pushed.contains(x) {
                            let j = choose|j: int| 0 <= j < pushed.len() && pushed[j] == x;
                            if j < rest.len() {
                                assert(rest[j] == x);
                            }
                        }
                        if rest.contains(x) {
                            let j = choose|j: int| 0 <= j < rest.len() && rest[j] == x;
                            assert(pushed[j] == x);
                        }
                        if x == (last.0, v) {
                            assert(pushed[rest.len() as int] == x);
                        }
                    }
                }
            },
            None => {},
        }
    }
}

/// Every pattern that holds a wildcard character (`#` or `*`) gets, as its
/// late-join state, the current value of each record it reaches: a value
/// is among the snapshots exactly when the pattern reaches a record that
/// holds it. An exact topic gets no snapshots.
pub proof fn law_wildcard_patterns_get_late_join_state(
    topic: Seq<char>,
    recs: Seq<(Seq<char>, Option<Seq<u8>>)>,
    x: (Seq<char>, Seq<u8>),
)
    ensures
        (topic.contains('#') || topic.contains('*')) ==> snapshot_state(topic, recs) == valued_matches(
            topic,
            recs,
        ),
        (topic.contains('#') || topic.contains('*')) ==> (snapshot_state(topic, recs).contains(x) <==> (
        topic_match_spec(topic, x.0) && exists|i: int|
            0 <= i < recs.len() && #[trigger] recs[i] == (x.0, Some(x.1)))),
        !(topic.contains('#') || topic.contains('*')) ==> snapshot_state(topic, recs).len() == 0,
{
    lemma_valued_match_member(topic, recs, x);
}

/// The late-join snapshots for a subscription to `topic`, given every
/// record's key and current value (if any).
pub fn snapshots(topic: &str, records: &Vec<(String, Option<Vec<u8>>)>) -> (r: Vec<(String, Vec<u8>)>)
    ensures
        r@.map_values(|e: (String, Vec<u8>)| (e.0@, e.1@)) == snapshot_state(
            topic@,
            records@.map_values(|x: (String, Option<Vec<u8>>)| record_view(x)),
        ),
{
    let ghost rv = records@.map_values(|x: (String, Option<Vec<u8>>)| record_view(x));
    let mut out: Vec<(String, Vec<u8>)> = Vec::new();
    if !is_wildcard(topic) {
        assert(out@.map_values(|e: (String, Vec<u8>)| (e.0@, e.1@)) =~= Seq::<(Seq<char>, Seq<u8>)>::empty());
        return out;
    }
    let mut i: usize = 0;
    while i < records.len()
        invariant
            i <= records.len(),
            rv == records@.map_values(|x: (String, Option<Vec<u8>>)| record_view(x)),
            out@.map_values(|e: (String, Vec<u8>)| (e.0@, e.1@)) == valued_matches(topic@, rv.take(i as int)),
        decreases records.len() - i,
    {
        let rec = &records[i];
        proof {
            assert(rv.take(i as int + 1).drop_last() =~= rv.take(i as int));
            assert(rv.take(i as int + 1).last() == record_view(*rec));
        }
        match &rec.1 {
            Some(v) => {
                if topic_matches(topic, rec.0.as_str()) {
                    let value = v.clone();
                    assert(value@ =~= v@);
                    out.push((rec.0.clone(), value));
                    assert(out@.map_values(|e: (String, Vec<u8>)| (e.0@, e.1@)) =~= valued_matches(
                        topic@,
                        rv.take(i as int),
                    ).push((rec.0@, v@)));
                }
            },
            None => {},
        }
        i = i + 1;
    }
    assert(rv.take(i as int) =~= rv);
    out
}

/// The number of values a drain returns at most: the requested limit, or
/// no limit when none was given or it does not fit a `usize`.
pub fn drain_limit(limit: Option<u64>) -> (r: usize)
    ensures
        r == match limit {
            Some(v) => if v <= usize::MAX {
                v as usize
            } else {
                usize::MAX
            },
            None => usize::MAX,
        },
{
    match limit {
        Some(v) => if v as u128 <= usize::MAX as u128 {
            v as usize
        } else {
            usize::MAX
        },
        None => usize::MAX,
    }
}

} // verus!
