//! The record dependency graph: which record feeds which, and an order in
//! which transforms can be started so that each comes after its inputs.

use vstd::prelude::*;

use crate::error::DbError;

verus! {

broadcast use vstd::seq_lib::group_seq_properties;

/// How a record gets its values.
#[derive(Clone, Debug)]
pub enum RecordOrigin {
    /// Autonomous producer via `.source()`.
    Source,
    /// Inbound connector via `.link_from()`.
    Link { protocol: String, address: String },
    /// Single-input reactive derivation via `.transform()`.
    Transform { input: String },
    /// Multi-input reactive join via `.transform_join()`.
    TransformJoin { inputs: Vec<String> },
    /// No registered producer (writable from outside).
    Passive,
}

/// Metadata for one node in the dependency graph.
#[derive(Clone, Debug)]
pub struct GraphNode {
    /// Record key.
    pub key: String,
    /// How this record gets its values.
    pub origin: RecordOrigin,
    /// Buffer type (`spmc_ring`, `single_latest`, `mailbox`, `none`).
    pub buffer_type: String,
    /// Buffer capacity (`None` for unbounded or non-ring buffers).
    pub buffer_capacity: Option<usize>,
    /// Number of taps attached.
    pub tap_count: usize,
    /// Whether an outbound link is configured.
    pub has_outbound_link: bool,
}

/// One directed edge in the dependency graph.
#[derive(Clone, Debug)]
pub struct GraphEdge {
    /// Source record key (`None` for external origins like source/link).
    pub from: Option<String>,
    /// Target record key (`None` for side effects like taps/link-out).
    pub to: Option<String>,
    /// Classification of this edge.
    pub edge_type: EdgeType,
}

/// Classification of a dependency graph edge.
#[derive(Clone, Debug)]
pub enum EdgeType {
    Source,
    Link { protocol: String },
    Transform,
    TransformJoin,
    Tap { index: usize },
    LinkOut { protocol: String },
}

/// The dependency graph, built once and immutable thereafter.
#[derive(Clone, Debug)]
pub struct DependencyGraph {
    /// All nodes.
    pub nodes: Vec<GraphNode>,
    /// All edges (both internal and external).
    pub edges: Vec<GraphEdge>,
    /// Topological order of record keys (transforms come after their inputs).
    pub topo_order: Vec<String>,
}

/// The character sequences of a list of strings.
pub open spec fn views(s: Seq<String>) -> Seq<Seq<char>> {
    s.map_values(|x: String| x@)
}

/// The origin a record has, given the input keys of its transform (if
/// one is registered), the scheme and address of its first inbound link (if
/// any), and whether a producer service is registered: a transform wins over
/// a link, and a link over a producer.
pub open spec fn origin_is(
    transform: Option<Seq<Seq<char>>>,
    link: Option<(Seq<char>, Seq<char>)>,
    has_producer: bool,
    r: RecordOrigin,
) -> bool {
    match transform {
        Some(inputs) => if inputs.len() == 1 {
            r matches RecordOrigin::Transform { input } && input@ == inputs[0]
        } else {
            r matches RecordOrigin::TransformJoin { inputs: got } && views(got@) == inputs
        },
        None => match link {
            Some((protocol, address)) => r matches RecordOrigin::Link { protocol: p, address: a } && p@
                == protocol && a@ == address,
            None => if has_producer {
                r is Source
            } else {
                r is Passive
            },
        },
    }
}

/// How a record gets its values, from what was registered on it.
pub fn record_origin(transform_inputs: Option<Vec<String>>, first_link: Option<(String, String)>, has_producer: bool) -> (r: RecordOrigin)
    ensures
        origin_is(
            match transform_inputs {
                Some(v) => Some(views(v@)),
                None => None,
            },
            match first_link {
                Some(l) => Some((l.0@, l.1@)),
                None => None,
            },
            has_producer,
            r,
        ),
{
    match transform_inputs {
        Some(mut inputs) => {
            if inputs.len() == 1 {
                let input = inputs.pop().unwrap();
                RecordOrigin::Transform { input }
            } else {
                RecordOrigin::TransformJoin { inputs }
            }
        },
        None => match first_link {
            Some((protocol, address)) => RecordOrigin::Link { protocol, address },
            None => if has_producer {
                RecordOrigin::Source
            } else {
                RecordOrigin::Passive
            },
        },
    }
}

/// The `j`-th input of the `i`-th transform, as characters.
pub open spec fn input_of(ti: Seq<(String, Vec<String>)>, i: int, j: int) -> Seq<char> {
    ti[i].1@[j]@
}

/// The `j`-th input of the `i`-th transform is not a registered key.
pub open spec fn is_missing(ti: Seq<(String, Vec<String>)>, keys: Seq<Seq<char>>, i: int, j: int) -> bool {
    &&& 0 <= i < ti.len()
    &&& 0 <= j < ti[i].1@.len()
    &&& !keys.contains(input_of(ti, i, j))
}

/// Some transform names an input that is not a registered key.
pub open spec fn any_missing(ti: Seq<(String, Vec<String>)>, keys: Seq<Seq<char>>) -> bool {
    exists|i: int, j: int| is_missing(ti, keys, i, j)
}

/// `(i, j)` is the first missing input, transforms in order and each
/// transform's inputs in order.
pub open spec fn first_missing(ti: Seq<(String, Vec<String>)>, keys: Seq<Seq<char>>, i: int, j: int) -> bool {
    &&& is_missing(ti, keys, i, j)
    &&& forall|i2: int, j2: int| is_missing(ti, keys, i2, j2) ==> (i < i2 || (i == i2 && j <= j2))
}

/// The nodes of the graph: every registered key and every transform output.
pub open spec fn graph_nodes(ti: Seq<(String, Vec<String>)>, keys: Seq<Seq<char>>) -> Set<Seq<char>> {
    keys.to_set().union(Set::new(|k: Seq<char>| exists|i: int| 0 <= i < ti.len() && ti[i].0@ == k))
}

/// Every input of every transform whose output is `b` is in `done`.
pub open spec fn inputs_done(ti: Seq<(String, Vec<String>)>, done: Seq<Seq<char>>, b: Seq<char>) -> bool {
    forall|i: int, j: int|
        0 <= i < ti.len() && ti[i].0@ == b && 0 <= j < ti[i].1@.len() ==> done.contains(
            #[trigger] input_of(ti, i, j),
        )
}

/// `done` lists distinct nodes, each after every input that feeds it.
pub open spec fn peel_order(ti: Seq<(String, Vec<String>)>, nodes: Set<Seq<char>>, done: Seq<Seq<char>>) -> bool {
    &&& done.no_duplicates()
    &&& forall|k: int| 0 <= k < done.len() ==> nodes.contains(#[trigger] done[k])
    &&& forall|k: int| 0 <= k < done.len() ==> inputs_done(ti, done.take(k), #[trigger] done[k])
}

/// Every node of `s` is fed by some node of `s`: none of them can ever be
/// ordered after all of its inputs.
pub open spec fn stuck(ti: Seq<(String, Vec<String>)>, s: Set<Seq<char>>) -> bool {
    forall|b: Seq<char>|
        #[trigger] s.contains(b) ==> exists|i: int, j: int|
            0 <= i < ti.len() && ti[i].0@ == b && 0 <= j < ti[i].1@.len() && s.contains(
                input_of(ti, i, j),
            )
}

/// What the graph check settles on once no missing input is found: `done`
/// is every node that can be ordered after its inputs, in such an order, and
/// every other node is stuck behind a cycle.
pub open spec fn settled(ti: Seq<(String, Vec<String>)>, keys: Seq<Seq<char>>, done: Seq<Seq<char>>) -> bool {
    &&& peel_order(ti, graph_nodes(ti, keys), done)
    &&& stuck(ti, graph_nodes(ti, keys).difference(done.to_set()))
}

/// Position of the first string in `v` equal to `s`.
fn find_string(v: &Vec<String>, s: &String) -> (r: Option<usize>)
    ensures
        match r {
            Some(k) => k < v.len() && v@[k as int]@ == s@ && forall|m: int|
                0 <= m < k ==> v@[m]@ != s@,
            None => !views(v@).contains(s@),
        },
{
    let mut k: usize = 0;
    while k < v.len()
        invariant
            k <= v.len(),
            forall|m: int| 0 <= m < k ==> v@[m]@ != s@,
        decreases v.len() - k,
    {
        if v[k] == *s {
            return Some(k);
        }
        k = k + 1;
    }
    proof {
        if views(v@).contains(s@) {
            let m = choose|m: int| 0 <= m < views(v@).len() && views(v@)[m] == s@;
            assert(v@[m]@ == s@);
        }
    }
    None
}

/// Whether `v` holds a string equal to `s`.
pub(crate) fn holds_string(v: &Vec<String>, s: &String) -> (r: bool)
    ensures
        r == views(v@).contains(s@),
{
    match find_string(v, s) {
        Some(k) => {
            assert(views(v@)[k as int] == s@);
            true
        },
        None => false,
    }
}

/// The first transform input that is not a registered key.
fn first_unknown_input(transform_inputs: &[(String, Vec<String>)], keys: &Vec<String>) -> (r: Option<(usize, usize)>)
    ensures
        match r {
            Some((i, j)) => first_missing(transform_inputs@, views(keys@), i as int, j as int),
            None => !any_missing(transform_inputs@, views(keys@)),
        },
{
    let ghost ti = transform_inputs@;
    let ghost kv = views(keys@);
    let mut i: usize = 0;
    while i < transform_inputs.len()
        invariant
            ti == transform_inputs@,
            kv == views(keys@),
            i <= ti.len(),
            forall|i2: int, j2: int| is_missing(ti, kv, i2, j2) ==> i2 >= i,
        decreases ti.len() - i,
    {
        let ins = &transform_inputs[i].1;
        let mut j: usize = 0;
        while j < ins.len()
            invariant
                ti == transform_inputs@,
                kv == views(keys@),
                i < ti.len(),
                ins@ == ti[i as int].1@,
                j <= ins.len(),
                forall|i2: int, j2: int| is_missing(ti, kv, i2, j2) ==> i2 >= i,
                forall|j2: int| 0 <= j2 < j ==> !is_missing(ti, kv, i as int, j2),
            decreases ins.len() - j,
        {
            if !holds_string(keys, &ins[j]) {
                assert(is_missing(ti, kv, i as int, j as int));
                return Some((i, j));
            }
            j = j + 1;
        }
        i = i + 1;
    }
    None
}

/// Whether every input of every transform whose output is `b` is in `done`.
fn all_inputs_done(transform_inputs: &[(String, Vec<String>)], done: &Vec<String>, b: &String) -> (r: bool)
    ensures
        r == inputs_done(transform_inputs@, views(done@), b@),
{
    let ghost ti = transform_inputs@;
    let ghost dv = views(done@);
    let mut i: usize = 0;
    while i < transform_inputs.len()
        invariant
            ti == transform_inputs@,
            dv == views(done@),
            i <= ti.len(),
            forall|i2: int, j2: int|
                0 <= i2 < i && ti[i2].0@ == b@ && 0 <= j2 < ti[i2].1@.len() ==> dv.contains(
                    #[trigger] input_of(ti, i2, j2),
                ),
        decreases ti.len() - i,
    {
        if transform_inputs[i].0 == *b {
            let ins = &transform_inputs[i].1;
            let mut j: usize = 0;
            while j < ins.len()
                invariant
                    ti == transform_inputs@,
                    dv == views(done@),
                    i < ti.len(),
                    ti[i as int].0@ == b@,
                    ins@ == ti[i as int].1@,
                    j <= ins.len(),
                    forall|i2: int, j2: int|
                        0 <= i2 < i && ti[i2].0@ == b@ && 0 <= j2 < ti[i2].1@.len() ==> dv.contains(
                            #[trigger] input_of(ti, i2, j2),
                        ),
                    forall|j2: int| 0 <= j2 < j ==> dv.contains(#[trigger] input_of(ti, i as int, j2)),
                decreases ins.len() - j,
            {
                if !holds_string(done, &ins[j]) {
                    assert(!dv.contains(input_of(ti, i as int, j as int)));
                    return false;
                }
                j = j + 1;
            }
        }
        i = i + 1;
    }
    true
}

/// Every registered key, then each transform output that is not one, each once.
fn collect_nodes(transform_inputs: &[(String, Vec<String>)], keys: &Vec<String>) -> (nodes: Vec<String>)
    requires
        views(keys@).no_duplicates(),
    ensures
        views(nodes@).no_duplicates(),
        views(nodes@).to_set() == graph_nodes(transform_inputs@, views(keys@)),
{
    let ghost ti = transform_inputs@;
    let mut nodes: Vec<String> = keys.clone();
    assert(views(nodes@) == views(keys@));
    let mut i: usize = 0;
    while i < transform_inputs.len()
        invariant
            ti == transform_inputs@,
            i <= ti.len(),
            views(nodes@).no_duplicates(),
            forall|k: Seq<char>|
                views(nodes@).contains(k) <==> (views(keys@).contains(k) || exists|i2: int|
                    0 <= i2 < i && ti[i2].0@ == k),
        decreases ti.len() - i,
    {
        let out = &transform_inputs[i].0;
        if !holds_string(&nodes, out) {
            let ghost before = views(nodes@);
            nodes.push(out.clone());
            assert(views(nodes@) == before.push(out@));
            assert forall|k: Seq<char>|
                views(nodes@).contains(k) <==> (views(keys@).contains(k) || exists|i2: int|
                    0 <= i2 < i + 1 && ti[i2].0@ == k) by {
                if k == out@ {
                    assert(views(nodes@)[before.len() as int] == k);
                }
                if views(nodes@).contains(k) && k != out@ {
                    let m = choose|m: int| 0 <= m < views(nodes@).len() && views(nodes@)[m] == k;
                    assert(before[m] == k);
                }
            }
        } else {
            assert forall|k: Seq<char>|
                views(nodes@).contains(k) <==> (views(keys@).contains(k) || exists|i2: int|
                    0 <= i2 < i + 1 && ti[i2].0@ == k) by {
                if exists|i2: int| 0 <= i2 < i + 1 && ti[i2].0@ == k {
                    let i2 = choose|i2: int| 0 <= i2 < i + 1 && ti[i2].0@ == k;
                    if i2 < i {
                    } else {
                        assert(k == out@);
                    }
                }
            }
        }
        i = i + 1;
    }
    assert(views(nodes@).to_set() =~= graph_nodes(ti, views(keys@)));
    nodes
}

/// A list of distinct members of the node set is no longer than the node list.
proof fn lemma_done_fits(done: Seq<Seq<char>>, nodes: Seq<Seq<char>>)
    requires
        done.no_duplicates(),
        nodes.no_duplicates(),
        forall|k: int| 0 <= k < done.len() ==> nodes.to_set().contains(#[trigger] done[k]),
    ensures
        done.len() <= nodes.len(),
{
    broadcast use vstd::seq_lib::seq_to_set_is_finite;

    done.unique_seq_to_set();
    nodes.unique_seq_to_set();
    assert(done.to_set().subset_of(nodes.to_set()));
    vstd::set_lib::lemma_len_subset(done.to_set(), nodes.to_set());
}

/// Appending a node whose inputs are all listed keeps a peel order.
proof fn lemma_peel_push(ti: Seq<(String, Vec<String>)>, nodes: Set<Seq<char>>, done: Seq<Seq<char>>, x: Seq<char>)
    requires
        peel_order(ti, nodes, done),
        nodes.contains(x),
        !done.contains(x),
        inputs_done(ti, done, x),
    ensures
        peel_order(ti, nodes, done.push(x)),
{
    let d2 = done.push(x);
    assert forall|k: int| 0 <= k < d2.len() implies inputs_done(ti, d2.take(k), #[trigger] d2[k]) by {
        if k < done.len() {
            assert(d2.take(k) == done.take(k));
        } else {
            assert(d2.take(k) == done);
        }
    }
}

/// A node outside `done` whose inputs are not all in `done` is fed by a node
/// outside `done`.
proof fn lemma_fed_from_rest(ti: Seq<(String, Vec<String>)>, keys: Seq<Seq<char>>, done: Seq<Seq<char>>, b: Seq<char>)
    requires
        !any_missing(ti, keys),
        !inputs_done(ti, done, b),
    ensures
        exists|i: int, j: int|
            0 <= i < ti.len() && ti[i].0@ == b && 0 <= j < ti[i].1@.len() && graph_nodes(ti, keys).difference(
                done.to_set(),
            ).contains(input_of(ti, i, j)),
{
    let (i, j) = choose|i: int, j: int|
        0 <= i < ti.len() && ti[i].0@ == b && 0 <= j < ti[i].1@.len() && !done.contains(
            #[trigger] input_of(ti, i, j),
        );
    assert(!is_missing(ti, keys, i, j));
    assert(keys.to_set().contains(input_of(ti, i, j)));
    assert(graph_nodes(ti, keys).difference(done.to_set()).contains(input_of(ti, i, j)));
}

/// When no node outside `done` has all its inputs in `done`, the rest is stuck.
proof fn lemma_rest_stuck(ti: Seq<(String, Vec<String>)>, keys: Seq<Seq<char>>, done: Seq<Seq<char>>, nodes: Seq<Seq<char>>)
    requires
        !any_missing(ti, keys),
        nodes.to_set() == graph_nodes(ti, keys),
        forall|w: int| 0 <= w < nodes.len() ==> done.contains(#[trigger] nodes[w]) || !inputs_done(ti, done, nodes[w]),
    ensures
        stuck(ti, graph_nodes(ti, keys).difference(done.to_set())),
{
    let rest = graph_nodes(ti, keys).difference(done.to_set());
    assert forall|b: Seq<char>| #[trigger] rest.contains(b) implies exists|i: int, j: int|
        0 <= i < ti.len() && ti[i].0@ == b && 0 <= j < ti[i].1@.len() && rest.contains(input_of(ti, i, j)) by {
        assert(nodes.to_set().contains(b));
        let w = choose|w: int| 0 <= w < nodes.len() && nodes[w] == b;
        assert(!done.contains(nodes[w]));
        lemma_fed_from_rest(ti, keys, done, b);
    }
}

impl DependencyGraph {
    /// Checks the transform graph and orders the records.
    ///
    /// `transform_inputs` pairs each transform's output key with its input
    /// keys; `all_keys` is every registered record key. An input that is not
    /// registered is reported first (the first one, transforms and their
    /// inputs in order). Otherwise the records are peeled off one at a time,
    /// each after all of its inputs; if that does not account for as many
    /// records as are registered, the records left over are reported as a
    /// cycle. Each key of `all_keys` occurs once (it is a set).
    pub fn validate_dag(transform_inputs: &[(String, Vec<String>)], all_keys: &Vec<String>) -> (r: Result<
        Vec<String>,
        DbError,
    >)
        requires
            views(all_keys@).no_duplicates(),
        ensures
            any_missing(transform_inputs@, views(all_keys@)) ==> r matches Err(
                DbError::TransformInputNotFound { .. },
            ),
            match r {
                Err(DbError::TransformInputNotFound { output_key, input_key }) => exists|i: int, j: int|
                    first_missing(transform_inputs@, views(all_keys@), i, j) && output_key@
                        == transform_inputs@[i].0@ && input_key@ == input_of(transform_inputs@, i, j),
                Err(DbError::CyclicDependency { records }) => {
                    &&& !any_missing(transform_inputs@, views(all_keys@))
                    &&& exists|done: Seq<Seq<char>>|
                        {
                            &&& settled(transform_inputs@, views(all_keys@), done)
                            &&& done.len() != all_keys.len()
                            &&& views(records@).no_duplicates()
                            &&& views(records@).to_set() == graph_nodes(
                                transform_inputs@,
                                views(all_keys@),
                            ).difference(done.to_set())
                        }
                },
                Ok(order) => {
                    &&& !any_missing(transform_inputs@, views(all_keys@))
                    &&& settled(transform_inputs@, views(all_keys@), views(order@))
                    &&& order.len() == all_keys.len()
                },
                _ => false,
            },
    {
        let ghost ti = transform_inputs@;
        let ghost kv = views(all_keys@);
        match first_unknown_input(transform_inputs, all_keys) {
            Some((i, j)) => {
                proof {
                    assert(first_missing(ti, kv, i as int, j as int));
                }
                let output_key = transform_inputs[i].0.clone();
                let input_key = transform_inputs[i].1[j].clone();
                assert(output_key@ == ti[i as int].0@ && input_key@ == input_of(ti, i as int, j as int));
                return Err(DbError::TransformInputNotFound { output_key, input_key });
            },
            None => {},
        }
        let nodes = collect_nodes(transform_inputs, all_keys);
        let ghost nset = graph_nodes(ti, kv);
        let mut order: Vec<String> = Vec::new();
        assert(views(order@) =~= Seq::<Seq<char>>::empty());
        loop
            invariant
                ti == transform_inputs@,
                kv == views(all_keys@),
                nset == graph_nodes(ti, kv),
                !any_missing(ti, kv),
                views(nodes@).no_duplicates(),
                views(nodes@).to_set() == nset,
                peel_order(ti, nset, views(order@)),
            ensures
                peel_order(ti, nset, views(order@)),
                stuck(ti, nset.difference(views(order@).to_set())),
            decreases nodes.len() - order.len(),
        {
            proof {
                lemma_done_fits(views(order@), views(nodes@));
                assert(order.len() <= nodes.len());
            }
            let ghost start = views(order@);
            assert(start.len() == order.len());
            let mut progressed = false;
            let mut v: usize = 0;
            while v < nodes.len()
                invariant
                    ti == transform_inputs@,
                    nset == graph_nodes(ti, kv),
                    views(nodes@).to_set() == nset,
                    peel_order(ti, nset, views(order@)),
                    v <= nodes.len(),
                    start.len() <= order.len(),
                    !progressed ==> views(order@) == start,
                    progressed ==> start.len() < order.len(),
                    !progressed ==> forall|w: int|
                        0 <= w < v ==> views(order@).contains(#[trigger] views(nodes@)[w])
                            || !inputs_done(ti, views(order@), views(nodes@)[w]),
                decreases nodes.len() - v,
            {
                let ready = !holds_string(&order, &nodes[v]) && all_inputs_done(
                    transform_inputs,
                    &order,
                    &nodes[v],
                );
                if ready {
                    let ghost before = views(order@);
                    assert(nset.contains(views(nodes@)[v as int]));
                    proof {
                        lemma_peel_push(ti, nset, before, nodes@[v as int]@);
                    }
                    order.push(nodes[v].clone());
                    assert(views(order@) == before.push(nodes@[v as int]@));
                    progressed = true;
                }
                v = v + 1;
            }
            if !progressed {
                proof {
                    lemma_rest_stuck(ti, kv, views(order@), views(nodes@));
                }
                break;
            }
            proof {
                lemma_done_fits(views(order@), views(nodes@));
            }
            assert(start.len() < order.len() <= nodes.len());
        }
        let ghost done = views(order@);
        if order.len() == all_keys.len() {
            return Ok(order);
        }
        let mut records: Vec<String> = Vec::new();
        let mut v: usize = 0;
        while v < nodes.len()
            invariant
                views(nodes@).no_duplicates(),
                v <= nodes.len(),
                done == views(order@),
                views(records@).no_duplicates(),
                forall|k: Seq<char>|
                    views(records@).contains(k) <==> exists|w: int|
                        0 <= w < v && #[trigger] views(nodes@)[w] == k && !done.contains(k),
            decreases nodes.len() - v,
        {
            if !holds_string(&order, &nodes[v]) {
                let ghost before = views(records@);
                let ghost x = nodes@[v as int]@;
                assert forall|m: int| 0 <= m < before.len() implies before[m] != x by {
                    assert(before.contains(before[m]));
                    let w = choose|w: int| 0 <= w < v && #[trigger] views(nodes@)[w] == before[m] && !done.contains(before[m]);
                    assert(views(nodes@)[w] != views(nodes@)[v as int]);
                }
                records.push(nodes[v].clone());
                assert(views(records@) == before.push(x));
                assert forall|k: Seq<char>|
                    views(records@).contains(k) <==> exists|w: int|
                        0 <= w < v + 1 && #[trigger] views(nodes@)[w] == k && !done.contains(k) by {
                    if k == x {
                        assert(views(records@)[before.len() as int] == k);
                        assert(views(nodes@)[v as int] == k);
                    }
                    if views(records@).contains(k) && k != x {
                        let m = choose|m: int| 0 <= m < views(records@).len() && views(records@)[m] == k;
                        assert(before[m] == k);
                    }
                }
            } else {
                assert forall|k: Seq<char>|
                    views(records@).contains(k) <==> exists|w: int|
                        0 <= w < v + 1 && #[trigger] views(nodes@)[w] == k && !done.contains(k) by {
                    if exists|w: int| 0 <= w < v + 1 && #[trigger] views(nodes@)[w] == k && !done.contains(k) {
                        let w = choose|w: int| 0 <= w < v + 1 && #[trigger] views(nodes@)[w] == k && !done.contains(k);
                        if w == v {
                            assert(done.contains(views(nodes@)[v as int]));
                        }
                    }
                }
            }
            v = v + 1;
        }
        assert(views(records@).to_set() =~= nset.difference(done.to_set())) by {
            assert forall|k: Seq<char>| views(records@).to_set().contains(k) <==> nset.difference(done.to_set()).contains(k) by {
                if nset.contains(k) && !done.contains(k) {
                    assert(views(nodes@).to_set().contains(k));
                    let w = choose|w: int| 0 <= w < views(nodes@).len() && views(nodes@)[w] == k;
                    assert(views(nodes@)[w] == k);
                }
            }
        }
        Err(DbError::CyclicDependency { records })
    }
}

/// Every transform's output is a registered key.
pub open spec fn outputs_registered(ti: Seq<(String, Vec<String>)>, keys: Seq<Seq<char>>) -> bool {
    forall|i: int| 0 <= i < ti.len() ==> keys.contains(#[trigger] ti[i].0@)
}

/// No set of graph nodes is stuck except the empty one: the transform edges
/// form no cycle.
pub open spec fn acyclic(ti: Seq<(String, Vec<String>)>, keys: Seq<Seq<char>>) -> bool {
    forall|s: Set<Seq<char>>| s.subset_of(graph_nodes(ti, keys)) && #[trigger] stuck(ti, s) ==> s.is_empty()
}

/// Every node of a peel order that ends stuck is in any other peel order.
proof fn lemma_peel_within(ti: Seq<(String, Vec<String>)>, keys: Seq<Seq<char>>, d1: Seq<Seq<char>>, d2: Seq<Seq<char>>, k: int)
    requires
        settled(ti, keys, d1),
        peel_order(ti, graph_nodes(ti, keys), d2),
        0 <= k <= d2.len(),
    ensures
        forall|m: int| 0 <= m < k ==> d1.contains(#[trigger] d2[m]),
    decreases k,
{
    if k > 0 {
        lemma_peel_within(ti, keys, d1, d2, k - 1);
        let x = d2[k - 1];
        if !d1.contains(x) {
            let rest = graph_nodes(ti, keys).difference(d1.to_set());
            assert(rest.contains(x));
            let (i, j) = choose|i: int, j: int|
                0 <= i < ti.len() && ti[i].0@ == x && 0 <= j < ti[i].1@.len() && rest.contains(
                    input_of(ti, i, j),
                );
            assert(inputs_done(ti, d2.take(k - 1), d2[k - 1]));
            assert(d2.take(k - 1).contains(input_of(ti, i, j)));
            let m = choose|m: int| 0 <= m < k - 1 && #[trigger] d2.take(k - 1)[m] == input_of(ti, i, j);
            assert(d1.contains(d2[m]));
        }
    }
}

/// The records that the graph check orders do not depend on how the check
/// goes about it: any two settled orders hold the same records.
pub proof fn law_settled_records_are_determined(
    ti: Seq<(String, Vec<String>)>,
    keys: Seq<Seq<char>>,
    d1: Seq<Seq<char>>,
    d2: Seq<Seq<char>>,
)
    requires
        settled(ti, keys, d1),
        settled(ti, keys, d2),
    ensures
        d1.to_set() == d2.to_set(),
        d1.len() == d2.len(),
{
    lemma_peel_within(ti, keys, d1, d2, d2.len() as int);
    lemma_peel_within(ti, keys, d2, d1, d1.len() as int);
    assert(d1.to_set() =~= d2.to_set());
    d1.unique_seq_to_set();
    d2.unique_seq_to_set();
}

/// With every transform output registered, the graph nodes are the keys.
proof fn lemma_nodes_are_keys(ti: Seq<(String, Vec<String>)>, keys: Seq<Seq<char>>)
    requires
        outputs_registered(ti, keys),
    ensures
        graph_nodes(ti, keys) == keys.to_set(),
{
    assert forall|k: Seq<char>| graph_nodes(ti, keys).contains(k) implies keys.to_set().contains(k) by {
        if !keys.contains(k) {
            let i = choose|i: int| 0 <= i < ti.len() && ti[i].0@ == k;
            assert(keys.contains(ti[i].0@));
        }
    }
    assert(graph_nodes(ti, keys) =~= keys.to_set());
}

/// With every transform output registered, a settled order that reaches all
/// nodes has as many entries as there are keys, and conversely.
proof fn lemma_full_iff_len(ti: Seq<(String, Vec<String>)>, keys: Seq<Seq<char>>, done: Seq<Seq<char>>)
    requires
        keys.no_duplicates(),
        outputs_registered(ti, keys),
        settled(ti, keys, done),
    ensures
        (done.len() == keys.len()) <==> graph_nodes(ti, keys).difference(done.to_set()).is_empty(),
        done.len() == keys.len() ==> done.to_set() == keys.to_set(),
{
    broadcast use vstd::seq_lib::seq_to_set_is_finite;

    lemma_nodes_are_keys(ti, keys);
    done.unique_seq_to_set();
    keys.unique_seq_to_set();
    assert(done.to_set().subset_of(keys.to_set()));
    let rest = keys.to_set().difference(done.to_set());
    if done.len() == keys.len() {
        vstd::set_lib::lemma_subset_equality(done.to_set(), keys.to_set());
        assert(rest =~= Set::<Seq<char>>::empty());
    }
    if rest.is_empty() {
        assert(done.to_set() =~= keys.to_set()) by {
            assert forall|k: Seq<char>| keys.to_set().contains(k) implies done.to_set().contains(k) by {
                if !done.to_set().contains(k) {
                    assert(rest.contains(k));
                }
            }
        }
    }
}

/// When the transforms form no cycle and every transform output is a
/// registered record, the graph check orders every registered record, each
/// after all of its inputs.
pub proof fn law_acyclic_graph_orders_every_record(
    ti: Seq<(String, Vec<String>)>,
    keys: Seq<Seq<char>>,
    done: Seq<Seq<char>>,
)
    requires
        keys.no_duplicates(),
        outputs_registered(ti, keys),
        acyclic(ti, keys),
        settled(ti, keys, done),
    ensures
        done.len() == keys.len(),
        done.to_set() == keys.to_set(),
{
    let rest = graph_nodes(ti, keys).difference(done.to_set());
    assert(rest.subset_of(graph_nodes(ti, keys)));
    assert(stuck(ti, rest));
    lemma_full_iff_len(ti, keys, done);
}

/// When every transform output is a registered record, the graph check
/// leaves records out of its order only if the transforms form a cycle, and
/// then what it leaves out is a non-empty set in which every record is fed
/// by another of the set.
pub proof fn law_unordered_records_sit_on_a_cycle(
    ti: Seq<(String, Vec<String>)>,
    keys: Seq<Seq<char>>,
    done: Seq<Seq<char>>,
)
    requires
        keys.no_duplicates(),
        outputs_registered(ti, keys),
        settled(ti, keys, done),
        done.len() != keys.len(),
    ensures
        !acyclic(ti, keys),
        !graph_nodes(ti, keys).difference(done.to_set()).is_empty(),
        stuck(ti, graph_nodes(ti, keys).difference(done.to_set())),
{
    lemma_full_iff_len(ti, keys, done);
    let rest = graph_nodes(ti, keys).difference(done.to_set());
    assert(rest.subset_of(graph_nodes(ti, keys)));
}

/// `a` is an input of a transform whose output is `b`.
pub open spec fn feeds(ti: Seq<(String, Vec<String>)>, a: Seq<char>, b: Seq<char>) -> bool {
    exists|i: int, j: int|
        0 <= i < ti.len() && ti[i].0@ == b && 0 <= j < ti[i].1@.len() && #[trigger] input_of(ti, i, j) == a
}

/// The record before position `k` on the closed walk `p`.
pub open spec fn before_on(p: Seq<Seq<char>>, k: int) -> Seq<char> {
    if k == 0 {
        p.last()
    } else {
        p[k - 1]
    }
}

/// `p` is a cycle of the transform edges: each record feeds the next, and
/// the last feeds the first.
pub open spec fn is_cycle(ti: Seq<(String, Vec<String>)>, p: Seq<Seq<char>>) -> bool {
    &&& p.len() > 0
    &&& forall|k: int| 0 <= k < p.len() ==> feeds(ti, before_on(p, k), #[trigger] p[k])
}

/// No record of a stuck set is ordered: each would need an input of the set
/// ordered before it.
proof fn lemma_stuck_not_ordered(
    ti: Seq<(String, Vec<String>)>,
    nodes: Set<Seq<char>>,
    done: Seq<Seq<char>>,
    s: Set<Seq<char>>,
    t: int,
)
    requires
        peel_order(ti, nodes, done),
        stuck(ti, s),
        0 <= t <= done.len(),
    ensures
        forall|u: int| 0 <= u < t ==> !s.contains(#[trigger] done[u]),
    decreases t,
{
    if t > 0 {
        lemma_stuck_not_ordered(ti, nodes, done, s, t - 1);
        let x = done[t - 1];
        if s.contains(x) {
            let (i, j) = choose|i: int, j: int|
                0 <= i < ti.len() && ti[i].0@ == x && 0 <= j < ti[i].1@.len() && s.contains(input_of(ti, i, j));
            assert(inputs_done(ti, done.take(t - 1), done[t - 1]));
            assert(done.take(t - 1).contains(input_of(ti, i, j)));
            let u = choose|u: int| 0 <= u < t - 1 && #[trigger] done.take(t - 1)[u] == input_of(ti, i, j);
            assert(done[u] == input_of(ti, i, j));
        }
    }
}

/// The records of a cycle form a stuck set.
proof fn lemma_cycle_is_stuck(ti: Seq<(String, Vec<String>)>, p: Seq<Seq<char>>)
    requires
        is_cycle(ti, p),
    ensures
        stuck(ti, p.to_set()),
{
    assert forall|b: Seq<char>| #[trigger] p.to_set().contains(b) implies exists|i: int, j: int|
        0 <= i < ti.len() && ti[i].0@ == b && 0 <= j < ti[i].1@.len() && p.to_set().contains(input_of(ti, i, j)) by {
        let k = choose|k: int| 0 <= k < p.len() && p[k] == b;
        assert(feeds(ti, before_on(p, k), p[k]));
        let (i, j) = choose|i: int, j: int|
            0 <= i < ti.len() && ti[i].0@ == p[k] && 0 <= j < ti[i].1@.len() && #[trigger] input_of(ti, i, j)
                == before_on(p, k);
        if k == 0 {
            assert(p.contains(p[p.len() - 1]));
        } else {
            assert(p.contains(p[k - 1]));
        }
        assert(p.to_set().contains(input_of(ti, i, j)));
    }
}

/// When the graph check orders every record, the transforms form no cycle:
/// no set of records is stuck, and no record feeds itself around a loop.
pub proof fn law_ordered_graph_is_acyclic(
    ti: Seq<(String, Vec<String>)>,
    keys: Seq<Seq<char>>,
    done: Seq<Seq<char>>,
    p: Seq<Seq<char>>,
)
    requires
        keys.no_duplicates(),
        outputs_registered(ti, keys),
        settled(ti, keys, done),
        done.len() == keys.len(),
    ensures
        acyclic(ti, keys),
        !is_cycle(ti, p),
{
    lemma_full_iff_len(ti, keys, done);
    let nodes = graph_nodes(ti, keys);
    assert forall|s: Set<Seq<char>>| s.subset_of(nodes) && #[trigger] stuck(ti, s) implies s.is_empty() by {
        lemma_stuck_not_ordered(ti, nodes, done, s, done.len() as int);
        if !s.is_empty() {
            let x = s.choose();
            assert(nodes.contains(x));
            assert(!nodes.difference(done.to_set()).contains(x));
            assert(done.to_set().contains(x));
            let u = choose|u: int| 0 <= u < done.len() && done[u] == x;
            assert(!s.contains(done[u]));
        }
    }
    if is_cycle(ti, p) {
        lemma_cycle_is_stuck(ti, p);
        let k = 0int;
        assert(feeds(ti, before_on(p, k), p[k]));
        let (i, j) = choose|i: int, j: int|
            0 <= i < ti.len() && ti[i].0@ == p[k] && 0 <= j < ti[i].1@.len() && #[trigger] input_of(ti, i, j)
                == before_on(p, k);
        assert(nodes.contains(p[0]));
        assert forall|b: Seq<char>| p.to_set().contains(b) implies nodes.contains(b) by {
            let m = choose|m: int| 0 <= m < p.len() && p[m] == b;
            assert(feeds(ti, before_on(p, m), p[m]));
            let (i2, j2) = choose|i2: int, j2: int|
                0 <= i2 < ti.len() && ti[i2].0@ == p[m] && 0 <= j2 < ti[i2].1@.len() && #[trigger] input_of(
                    ti,
                    i2,
                    j2,
                ) == before_on(p, m);
            assert(keys.contains(ti[i2].0@));
        }
        assert(p.to_set().subset_of(nodes));
        assert(p.to_set().contains(p[0]));
    }
}

/// A record on a cycle that no entry of `done` is, is a graph node outside
/// `done`.
proof fn lemma_cycle_record_unordered(
    ti: Seq<(String, Vec<String>)>,
    keys: Seq<Seq<char>>,
    done: Seq<Seq<char>>,
    p: Seq<Seq<char>>,
    k: int,
)
    requires
        is_cycle(ti, p),
        0 <= k < p.len(),
        forall|u: int| 0 <= u < done.len() ==> !p.to_set().contains(#[trigger] done[u]),
    ensures
        graph_nodes(ti, keys).difference(done.to_set()).contains(p[k]),
{
    assert(feeds(ti, before_on(p, k), p[k]));
    let (i, j) = choose|i: int, j: int|
        0 <= i < ti.len() && ti[i].0@ == p[k] && 0 <= j < ti[i].1@.len() && #[trigger] input_of(ti, i, j)
            == before_on(p, k);
    assert(graph_nodes(ti, keys).contains(p[k]));
    assert(p.to_set().contains(p[k]));
    if done.to_set().contains(p[k]) {
        let u = choose|u: int| 0 <= u < done.len() && done[u] == p[k];
        assert(!p.to_set().contains(done[u]));
    }
}

/// Every record on a cycle of the transform edges is left out of the graph
/// check's order, so it is among the records a cyclic error reports.
pub proof fn law_cycle_records_are_reported(
    ti: Seq<(String, Vec<String>)>,
    keys: Seq<Seq<char>>,
    done: Seq<Seq<char>>,
    p: Seq<Seq<char>>,
)
    requires
        settled(ti, keys, done),
        is_cycle(ti, p),
    ensures
        forall|k: int| 0 <= k < p.len() ==> graph_nodes(ti, keys).difference(done.to_set()).contains(#[trigger] p[k]),
{
    lemma_cycle_is_stuck(ti, p);
    lemma_stuck_not_ordered(ti, graph_nodes(ti, keys), done, p.to_set(), done.len() as int);
    assert forall|k: int| 0 <= k < p.len() implies graph_nodes(ti, keys).difference(done.to_set()).contains(
        #[trigger] p[k],
    ) by {
        lemma_cycle_record_unordered(ti, keys, done, p, k);
    }
}

} // verus!
