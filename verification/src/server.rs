//! The decisions of the reactive server engine: what each request on a
//! connection leads to, the per-connection subscription cap, the
//! connection cap, and the numbering of subscription updates.
//!
//! The engine loop that reads frames, awaits the dispatch and owns the
//! subscription pumps acts on what these functions decide.

use vstd::prelude::*;

use crate::client::{decimal_string, decimal_text};
use crate::dag::views;
use crate::session::{Inbound, RpcError, SessionLimits};

verus! {

broadcast use vstd::seq_lib::group_seq_properties;

/// Per-session engine knobs.
#[derive(Debug, Clone, Copy)]
pub struct SessionConfig {
    /// Connection cap and per-connection subscription cap.
    pub limits: SessionLimits,
    /// Read one frame before authenticating and hand it over as a Hello.
    pub reads_hello: bool,
    /// Send an explicit subscription acknowledgement before the first event.
    pub acks_subscribe: bool,
}

impl Default for SessionConfig {
    fn default() -> (r: Self)
        ensures
            r.limits.max_connections == 16,
            r.limits.max_subs_per_connection == 32,
            !r.reads_hello,
            !r.acks_subscribe,
    {
        SessionConfig { limits: SessionLimits::default(), reads_hello: false, acks_subscribe: false }
    }
}

/// Bound for the per-connection event funnel.
pub const EVENT_BUFFER: usize = 256;

/// What the engine does with one decoded request.
#[derive(Debug)]
pub enum SessionAction {
    /// Call the dispatch and send its reply under `id`.
    Call { id: u64, method: String, params: Vec<u8> },
    /// Open a subscription to `topic` under the routing id `sub`; on success
    /// register it with [`ServerSession::register`], on failure reply with
    /// the error under `id`.
    Subscribe { id: u64, sub: String, topic: String },
    /// Reply with this error under `id`.
    ReplyError { id: u64, error: RpcError },
    /// Forward the write to the dispatch; no reply.
    Write { topic: String, payload: Vec<u8> },
    /// Send a keepalive response.
    Pong,
    /// Stop the pump of subscription `sub`, if one runs; nothing to send.
    Cancel { sub: String },
}

/// The live subscriptions of one connection.
#[derive(Debug, Clone)]
pub struct ServerSession {
    live: Vec<String>,
    cap: usize,
}

impl ServerSession {
    /// The ids of the live subscriptions.
    pub closed spec fn live_ids(self) -> Set<Seq<char>> {
        views(self.live@).to_set()
    }

    /// The subscription cap.
    pub closed spec fn cap_spec(self) -> usize {
        self.cap
    }

    /// Each live id once, and no more of them than the cap.
    pub closed spec fn wf(self) -> bool {
        &&& views(self.live@).no_duplicates()
        &&& self.live@.len() <= self.cap
    }

    /// The number of live subscriptions.
    pub closed spec fn live_count(self) -> nat {
        self.live@.len()
    }

    /// A connection with no subscription, capped at `limits`.
    pub fn new(limits: &SessionLimits) -> (r: Self)
        ensures
            r.wf(),
            r.live_ids().is_empty(),
            r.live_count() == 0,
            r.cap_spec() == limits.max_subs_per_connection,
    {
        let r = ServerSession { live: Vec::new(), cap: limits.max_subs_per_connection };
        assert(r.live_ids() =~= Set::empty());
        r
    }

    /// The number of live subscriptions.
    pub fn live_len(&self) -> (r: usize)
        ensures
            r == self.live_count(),
    {
        self.live.len()
    }

    /// The subscription cap.
    pub fn cap(&self) -> (r: usize)
        ensures
            r == self.cap_spec(),
    {
        self.cap
    }

    fn find(&self, sub: &String) -> (r: Option<usize>)
        ensures
            match r {
                Some(i) => i < self.live@.len() && self.live@[i as int]@ == sub@,
                None => !self.live_ids().contains(sub@),
            },
    {
        let mut i: usize = 0;
        while i < self.live.len()
            invariant
                i <= self.live@.len(),
                forall|k: int| 0 <= k < i ==> self.live@[k]@ != sub@,
            decreases self.live.len() - i,
        {
            if self.live[i] == *sub {
                return Some(i);
            }
            i = i + 1;
        }
        proof {
            if self.live_ids().contains(sub@) {
                let k = choose|k: int| 0 <= k < self.live@.len() && #[trigger] views(self.live@)[k] == sub@;
                assert(self.live@[k]@ == sub@);
            }
        }
        None
    }

    /// Decides what one decoded request does. A subscription request at the
    /// cap is refused with `Denied`; an unsubscribe drops its id from the
    /// live set.
    pub fn on_request(&mut self, msg: Inbound) -> (r: SessionAction)
        requires
            old(self).wf(),
        ensures
            final(self).wf(),
            final(self).cap_spec() == old(self).cap_spec(),
            msg is Unsubscribe ==> final(self).live_count() == if old(self).live_ids().contains(
                msg->sub@,
            ) {
                old(self).live_count() - 1
            } else {
                old(self).live_count() as int
            },
            !(msg is Unsubscribe) ==> final(self).live_count() == old(self).live_count(),
            match msg {
                Inbound::Request { id, method, params } => (r matches SessionAction::Call {
                    id: i,
                    method: m,
                    params: p,
                } && i == id && m@ == method@ && p@ == params@) && final(self).live_ids() == old(
                    self,
                ).live_ids(),
                Inbound::Subscribe { id, topic } => final(self).live_ids() == old(self).live_ids() && if old(
                    self,
                ).live_count() >= old(self).cap_spec() {
                    r == SessionAction::ReplyError { id, error: RpcError::Denied }
                } else {
                    r matches SessionAction::Subscribe { id: i, sub, topic: t } && i == id && sub@
                        == decimal_text(id as nat) && t@ == topic@
                },
                Inbound::Unsubscribe { sub } => (r matches SessionAction::Cancel { sub: s } && s@ == sub@)
                    && final(self).live_ids() == old(self).live_ids().remove(sub@),
                Inbound::Write { topic, payload } => (r matches SessionAction::Write {
                    topic: t,
                    payload: p,
                } && t@ == topic@ && p@ == payload@) && final(self).live_ids() == old(self).live_ids(),
                Inbound::Ping => r == SessionAction::Pong && final(self).live_ids() == old(
                    self,
                ).live_ids(),
            },
    {
        match msg {
            Inbound::Request { id, method, params } => SessionAction::Call { id, method, params },
            Inbound::Subscribe { id, topic } => {
                if self.live.len() >= self.cap {
                    SessionAction::ReplyError { id, error: RpcError::Denied }
                } else {
                    SessionAction::Subscribe { id, sub: decimal_string(id), topic }
                }
            },
            Inbound::Unsubscribe { sub } => {
                self.retire(&sub);
                SessionAction::Cancel { sub }
            },
            Inbound::Write { topic, payload } => SessionAction::Write { topic, payload },
            Inbound::Ping => SessionAction::Pong,
        }
    }

    /// Registers an opened subscription. Admitted only below the cap, which
    /// [`on_request`](Self::on_request) checked; an id already live is
    /// replaced in place.
    pub fn register(&mut self, sub: String)
        requires
            old(self).wf(),
            old(self).live_count() < old(self).cap_spec(),
        ensures
            final(self).wf(),
            final(self).cap_spec() == old(self).cap_spec(),
            final(self).live_ids() == old(self).live_ids().insert(sub@),
            final(self).live_count() == if old(self).live_ids().contains(sub@) {
                old(self).live_count()
            } else {
                old(self).live_count() + 1
            },
    {
        match self.find(&sub) {
            Some(_) => {
                assert(self.live_ids().contains(sub@)) by {
                    let i = choose|i: int| 0 <= i < self.live@.len() && self.live@[i]@ == sub@;
                    assert(views(self.live@)[i] == sub@);
                }
                assert(self.live_ids() =~= old(self).live_ids().insert(sub@));
            },
            None => {
                let ghost before = self.live@;
                let ghost v = sub@;
                self.live.push(sub);
                assert(self.live@ == before.push(self.live@.last()));
                assert(views(self.live@) =~= views(before).push(v));
                assert(self.live_ids() =~= old(self).live_ids().insert(v));
            },
        }
    }

    /// Drops a subscription whose pump ended, or that the peer cancelled.
    pub fn retire(&mut self, sub: &String)
        requires
            old(self).wf(),
        ensures
            final(self).wf(),
            final(self).cap_spec() == old(self).cap_spec(),
            final(self).live_ids() == old(self).live_ids().remove(sub@),
            final(self).live_count() == if old(self).live_ids().contains(sub@) {
                old(self).live_count() - 1
            } else {
                old(self).live_count() as int
            },
    {
        match self.find(sub) {
            Some(i) => {
                let ghost before = self.live@;
                let ghost vs = views(before);
                assert(vs[i as int] == sub@);
                assert(old(self).live_ids().contains(sub@));
                self.live.remove(i);
                assert(self.live@ == before.remove(i as int));
                assert(views(self.live@) =~= vs.remove(i as int));
                assert(self.live_ids() =~= old(self).live_ids().remove(sub@)) by {
                    assert forall|k: Seq<char>| self.live_ids().contains(k) <==> old(self).live_ids().remove(sub@).contains(k) by {
                        if old(self).live_ids().remove(sub@).contains(k) {
                            let j = choose|j: int| 0 <= j < vs.len() && vs[j] == k;
                            assert(j != i);
                            if j < i {
                                assert(vs.remove(i as int)[j] == k);
                            } else {
                                assert(vs.remove(i as int)[j - 1] == k);
                            }
                        }
                        if self.live_ids().contains(k) {
                            let j = choose|j: int| 0 <= j < vs.remove(i as int).len() && vs.remove(i as int)[j] == k;
                            let j0 = if j < i { j } else { j + 1 };
                            assert(vs[j0] == k);
                            assert(vs[i as int] == sub@);
                            assert(j0 != i);
                        }
                    }
                }
            },
            None => {
                assert(self.live_ids() =~= old(self).live_ids().remove(sub@));
            },
        }
    }
}

/// A connection never holds more live subscriptions than its cap: the
/// well-formedness that every operation keeps bounds the live count.
pub proof fn law_live_subscriptions_stay_within_cap(s: ServerSession)
    requires
        s.wf(),
    ensures
        s.live_count() <= s.cap_spec(),
{
}

/// Whether the accept loop serves one more connection while `active` are
/// being served: refused at the cap.
pub fn admits_connection(active: usize, limits: &SessionLimits) -> (r: bool)
    ensures
        r == (active < limits.max_connections),
{
    active < limits.max_connections
}

/// The sequence number of the next update of a subscription pump, counting
/// every update the stream produced (dropped ones too).
pub fn next_update_seq(seq: u64) -> (r: u64)
    requires
        seq < u64::MAX,
    ensures
        r == seq + 1,
{
    seq + 1
}

} // verus!
