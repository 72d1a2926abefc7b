//! The decisions of the proactive client engine: reconnect policy and
//! backoff, correlation ids, the demultiplexing of replies and subscription
//! updates, and the loss accounting of each subscription.
//!
//! The engine loop that dials, awaits frames and owns the reply channels
//! acts on what these functions decide.

use vstd::prelude::*;
use vstd::arithmetic::power2::pow2;

use crate::session::RpcError;

verus! {

broadcast use vstd::seq_lib::group_seq_properties;

/// Capacity of a subscription's client-side event sink.
pub const SUBSCRIBE_CHANNEL_CAP: usize = 256;

/// Ceiling on [`ClientConfig::max_offline_queue`].
pub const MAX_COMMAND_QUEUE_CAP: usize = 8192;

/// Client engine knobs. Durations are in milliseconds.
#[derive(Debug, Clone)]
pub struct ClientConfig {
    /// Redial after a dropped or failed connection instead of ending the engine.
    pub reconnect: bool,
    /// Base delay (ms) before the first redial; later redials grow
    /// exponentially, capped at `max_reconnect_delay`.
    pub reconnect_delay: u64,
    /// Upper bound (ms) for the reconnect backoff.
    pub max_reconnect_delay: u64,
    /// Maximum redial attempts before giving up; `0` is unlimited.
    pub max_reconnect_attempts: usize,
    /// Send a keepalive after this many ms of an idle connection.
    pub keepalive_interval: Option<u64>,
    /// Capacity of the command channel, clamped to `1..=MAX_COMMAND_QUEUE_CAP`.
    pub max_offline_queue: usize,
    /// Send a Ping handshake on connect and await the Pong before serving.
    pub sends_hello: bool,
}

impl Default for ClientConfig {
    fn default() -> (r: Self)
        ensures
            r.reconnect,
            r.reconnect_delay == 200,
            r.max_reconnect_delay == 200,
            r.max_reconnect_attempts == 0,
            r.keepalive_interval is None,
            r.max_offline_queue == 256,
            !r.sends_hello,
    {
        ClientConfig {
            reconnect: true,
            reconnect_delay: 200,
            max_reconnect_delay: 200,
            max_reconnect_attempts: 0,
            keepalive_interval: None,
            max_offline_queue: 256,
            sends_hello: false,
        }
    }
}

/// The command channel's capacity for a configured queue size.
pub open spec fn queue_capacity_spec(max_offline_queue: usize) -> usize {
    if max_offline_queue < 1 {
        1
    } else if max_offline_queue > MAX_COMMAND_QUEUE_CAP {
        MAX_COMMAND_QUEUE_CAP
    } else {
        max_offline_queue
    }
}

/// The command channel's capacity: the configured size clamped to
/// `1..=MAX_COMMAND_QUEUE_CAP`.
pub fn command_queue_capacity(config: &ClientConfig) -> (r: usize)
    ensures
        r == queue_capacity_spec(config.max_offline_queue),
        1 <= r <= MAX_COMMAND_QUEUE_CAP,
{
    if config.max_offline_queue < 1 {
        1
    } else if config.max_offline_queue > MAX_COMMAND_QUEUE_CAP {
        MAX_COMMAND_QUEUE_CAP
    } else {
        config.max_offline_queue
    }
}

/// The smaller of two numbers.
pub open spec fn min_int(a: int, b: int) -> int {
    if a <= b {
        a
    } else {
        b
    }
}

/// The backoff (ms) before the `attempt`-th redial (1-based): the base delay
/// doubled per earlier attempt, at most 16 times, saturating, and capped at
/// the larger of the configured cap and the base.
pub open spec fn backoff_spec(base: u64, max_delay: u64, attempt: usize) -> u64 {
    let cap: int = if max_delay >= base {
        max_delay as int
    } else {
        base as int
    };
    let shift: nat = min_int(if attempt >= 1 {
        attempt - 1
    } else {
        0
    }, 16) as nat;
    min_int(min_int(base * pow2(shift), u64::MAX as int), cap) as u64
}

/// Exponential backoff (ms) for the `attempt`-th redial (1-based).
pub fn backoff_delay(config: &ClientConfig, attempt: usize) -> (r: u64)
    ensures
        r == backoff_spec(config.reconnect_delay, config.max_reconnect_delay, attempt),
{
    let base = config.reconnect_delay;
    let cap = if config.max_reconnect_delay >= base {
        config.max_reconnect_delay
    } else {
        base
    };
    let s = attempt.saturating_sub(1);
    let shift: u64 = if s > 16 {
        16
    } else {
        s as u64
    };
    proof {
        vstd::arithmetic::power2::lemma2_to64();
        vstd::bits::lemma_u64_pow2_no_overflow(shift as nat);
        assert(1u64 * pow2(shift as nat) <= u64::MAX);
        vstd::bits::lemma_u64_shl_is_mul(1u64, shift);
    }
    let factor: u64 = 1u64 << shift;
    assert(factor == pow2(shift as nat));
    let scaled: u64 = match base.checked_mul(factor) {
        Some(v) => v,
        None => u64::MAX,
    };
    if scaled <= cap {
        scaled
    } else {
        cap
    }
}

/// The backoff never falls below the configured base delay, never exceeds
/// the larger of the cap and the base, starts at exactly the base for the
/// first redial, and never shrinks as the attempts go on.
pub proof fn law_backoff_stays_between_base_and_cap(base: u64, max_delay: u64, attempt: usize, later: usize)
    ensures
        backoff_spec(base, max_delay, attempt) >= base,
        backoff_spec(base, max_delay, attempt) <= max_delay || backoff_spec(base, max_delay, attempt) == base,
        attempt <= 1 ==> backoff_spec(base, max_delay, attempt) == base,
        attempt <= later ==> backoff_spec(base, max_delay, attempt) <= backoff_spec(base, max_delay, later),
{
    let shift = |a: usize| min_int(if a >= 1 { a - 1 } else { 0 }, 16) as nat;
    let s1: nat = shift(attempt);
    let s2: nat = shift(later);
    vstd::arithmetic::power2::lemma_pow2_pos(s1);
    vstd::arithmetic::power2::lemma_pow2_pos(s2);
    let p1 = pow2(s1);
    let p2 = pow2(s2);
    assert(base * p1 >= base) by (nonlinear_arith)
        requires
            p1 >= 1,
    ;
    if attempt <= later && s1 < s2 {
        vstd::arithmetic::power2::lemma_pow2_strictly_increases(s1, s2);
    }
    if attempt <= later {
        assert(p1 <= p2);
        assert(base * p1 <= base * p2) by (nonlinear_arith)
            requires
                p1 <= p2,
        ;
    }
    if attempt <= 1 {
        assert(s1 == 0);
        vstd::arithmetic::power2::lemma2_to64();
        assert(p1 == 1);
        assert(base * p1 == base) by (nonlinear_arith)
            requires
                p1 == 1,
        ;
    }
}

/// Each redial waits twice as long as the one before, for sixteen
/// doublings, until the doubled delay would pass the cap; after the
/// seventeenth attempt the delay stops growing.
pub proof fn law_backoff_doubles_until_capped(base: u64, max_delay: u64, attempt: usize)
    ensures
        1 <= attempt < 17 && 2 * backoff_spec(base, max_delay, attempt) <= max_delay ==> backoff_spec(
            base,
            max_delay,
            (attempt + 1) as usize,
        ) == 2 * backoff_spec(base, max_delay, attempt),
        attempt >= 17 ==> backoff_spec(base, max_delay, attempt) == backoff_spec(base, max_delay, 17),
{
    if 1 <= attempt < 17 {
        let s: nat = (attempt - 1) as nat;
        vstd::arithmetic::power2::lemma_pow2_unfold(s + 1);
        let p = pow2(s);
        let q = pow2(s + 1);
        assert(q == 2 * p);
        assert(base * q == 2 * (base * p)) by (nonlinear_arith)
            requires
                q == 2 * p,
        ;
        vstd::arithmetic::power2::lemma_pow2_pos(s);
        assert(base * p >= 0) by (nonlinear_arith)
            requires
                p >= 1,
        ;
    }
}

/// What the engine does after a failed dial or a dropped connection.
#[derive(Debug, Clone, Copy, PartialEq, Eq, Structural)]
pub enum Reconnect {
    /// Wait this many milliseconds, then redial.
    After(u64),
    /// Stop the engine.
    Stop,
}

/// Decides whether to redial after `attempt` consecutive failures, counting
/// this one: `reconnect` must be on, and a non-zero attempt cap not reached.
/// Returns the new failure count and the decision.
pub fn reconnect_after(attempt: usize, config: &ClientConfig) -> (r: (usize, Reconnect))
    requires
        attempt < usize::MAX,
    ensures
        !config.reconnect ==> r == (attempt, Reconnect::Stop),
        config.reconnect ==> r.0 == attempt + 1,
        config.reconnect ==> (r.1 == Reconnect::Stop <==> (config.max_reconnect_attempts != 0
            && attempt + 1 >= config.max_reconnect_attempts)),
        config.reconnect && r.1 != Reconnect::Stop ==> r.1 == Reconnect::After(
            backoff_spec(config.reconnect_delay, config.max_reconnect_delay, (attempt + 1) as usize),
        ),
{
    if !config.reconnect {
        return (attempt, Reconnect::Stop);
    }
    let attempt = attempt + 1;
    if config.max_reconnect_attempts != 0 && attempt >= config.max_reconnect_attempts {
        return (attempt, Reconnect::Stop);
    }
    (attempt, Reconnect::After(backoff_delay(config, attempt)))
}

/// What allocating from `counter` gives: the counter's value as the id and
/// the counter moved up by one, or `Internal` once the counter is exhausted.
pub open spec fn allocation(counter: usize) -> Result<(u64, usize), RpcError> {
    if counter == usize::MAX {
        Err(RpcError::Internal)
    } else {
        Ok((counter as u64, (counter + 1) as usize))
    }
}

/// Allocates the next correlation id from the shared counter: the counter's
/// value, the counter moving up by one, or `Internal` once the counter is
/// exhausted (ids are refused, never wrapped).
pub fn allocate_id(counter: usize) -> (r: Result<(u64, usize), RpcError>)
    ensures
        r == allocation(counter),
{
    if counter == usize::MAX {
        Err(RpcError::Internal)
    } else {
        Ok((counter as u64, counter + 1))
    }
}

/// Ids are never re-issued: an allocation moves the counter up, and any
/// allocation from a counter reached afterwards gives a larger id.
pub proof fn law_allocated_ids_increase(first: usize, later: usize)
    requires
        allocation(first) is Ok,
        later >= allocation(first)->Ok_0.1,
    ensures
        allocation(first)->Ok_0.1 > first,
        allocation(later) is Ok ==> allocation(later)->Ok_0.0 > allocation(first)->Ok_0.0,
{
}

/// How an update competes for room in its subscription's sink.
#[derive(Debug, Clone, Copy, PartialEq, Eq, Structural)]
pub enum Delivery {
    /// A live event: dropped when the sink is full.
    Event,
    /// A snapshot with more of its burst to come: dropped when the sink is
    /// full, and stops one slot short so the burst's end always fits.
    BurstBody,
    /// The burst's final snapshot.
    BurstEnd,
}

/// The number of updates lost between the last delivered `prev` and `seq`,
/// saturating: nothing when `seq` does not go past `prev`.
pub open spec fn gap(prev: u64, seq: u64) -> u64 {
    let next: int = if prev == u64::MAX {
        u64::MAX as int
    } else {
        prev + 1
    };
    if seq as int > next {
        (seq - next) as u64
    } else {
        0
    }
}

/// The number of updates lost since the last delivery.
pub fn skipped_since(prev: u64, seq: u64) -> (r: u64)
    ensures
        r == gap(prev, seq),
{
    seq.saturating_sub(prev.saturating_add(1))
}

/// What to do with an update before handing it to its sink.
#[derive(Debug, Clone, Copy, PartialEq, Eq, Structural)]
pub enum DeliveryPlan {
    /// The subscription is gone: ignore the update.
    Ignore,
    /// Hold the update back (a burst body with no room to spare); its loss
    /// folds into the next delivered update.
    Hold,
    /// Hand the sink an update with this loss count, flagged as a burst's
    /// end or not.
    Send { skipped: u64, snapshot_end: bool },
}

/// The plan for one update.
pub open spec fn delivery_plan(
    present: bool,
    prev: u64,
    seq: u64,
    mode: Delivery,
    len: usize,
    cap: Option<usize>,
) -> DeliveryPlan {
    if !present {
        DeliveryPlan::Ignore
    } else if mode == Delivery::BurstBody && cap is Some && len + 1 >= cap.unwrap() {
        DeliveryPlan::Hold
    } else {
        DeliveryPlan::Send { skipped: gap(prev, seq), snapshot_end: mode == Delivery::BurstEnd }
    }
}

/// Plans one update for a subscription whose sink holds `len` of `cap`
/// updates; `prev` is the last delivered sequence number (0 before any).
pub fn plan_delivery(
    present: bool,
    prev: u64,
    seq: u64,
    mode: Delivery,
    len: usize,
    cap: Option<usize>,
) -> (r: DeliveryPlan)
    ensures
        r == delivery_plan(present, prev, seq, mode, len, cap),
{
    if !present {
        return DeliveryPlan::Ignore;
    }
    let full_for_body = match cap {
        Some(c) => len >= c || len + 1 >= c,
        None => false,
    };
    if mode == Delivery::BurstBody && full_for_body {
        return DeliveryPlan::Hold;
    }
    DeliveryPlan::Send { skipped: skipped_since(prev, seq), snapshot_end: mode == Delivery::BurstEnd }
}

/// A burst body is handed on only while it leaves a free slot behind it,
/// so the burst's end always finds room in a bounded sink.
pub proof fn law_burst_end_keeps_room(prev: u64, seq: u64, len: usize, cap: usize)
    ensures
        delivery_plan(true, prev, seq, Delivery::BurstBody, len, Some(cap)) is Send ==> len + 2 <= cap,
        delivery_plan(true, prev, seq, Delivery::BurstEnd, len, Some(cap)) is Send,
{
}

/// What the sink is handed, for every update of a live subscription: a
/// burst body or a live event is never flagged as a burst's end, the
/// burst's final snapshot always is, and the reported loss counts exactly
/// the sequence numbers strictly between the last delivery and this one.
/// Only a burst body is ever held back, and only when it would leave the
/// sink without a free slot.
pub proof fn law_only_the_final_snapshot_ends_a_burst(
    prev: u64,
    seq: u64,
    mode: Delivery,
    len: usize,
    cap: Option<usize>,
)
    ensures
        mode != Delivery::BurstBody ==> delivery_plan(true, prev, seq, mode, len, cap) is Send,
        (cap is None || len + 2 <= cap.unwrap()) ==> delivery_plan(true, prev, seq, mode, len, cap) is Send,
        delivery_plan(true, prev, seq, mode, len, cap) matches DeliveryPlan::Send { skipped, snapshot_end }
            ==> {
            &&& (snapshot_end <==> mode == Delivery::BurstEnd)
            &&& (prev < seq ==> skipped == seq - prev - 1)
            &&& (seq <= prev ==> skipped == 0)
        },
        delivery_plan(false, prev, seq, mode, len, cap) == DeliveryPlan::Ignore,
{
}

/// How handing an update to its sink went.
#[derive(Debug, Clone, Copy, PartialEq, Eq, Structural)]
pub enum SendOutcome {
    /// The sink took it.
    Delivered,
    /// The sink was full; the update is dropped.
    Full,
    /// The receiver is gone.
    Closed,
}

/// One open subscription: its id, and the last delivered sequence number
/// (`None` before the first delivery).
#[derive(Debug, Clone)]
pub struct SubSlot {
    /// The subscription id (the opening request's id, in decimal).
    pub sub: String,
    /// The last delivered sequence number.
    pub last_seq: Option<u64>,
}

/// What a reply from the server does.
#[derive(Debug, Clone, PartialEq, Eq)]
pub enum ReplyAction {
    /// Resolve the pending call with this id.
    ResolveCall(u64),
    /// Fail the subscription with this id and close its sink.
    FailSubscription(String),
    /// Nothing waits for it.
    Drop,
}

/// The engine's demultiplexing state for one connection: the ids of calls
/// awaiting a reply and the open subscriptions.
#[derive(Debug, Clone)]
pub struct ClientDemux {
    pending: Vec<u64>,
    subs: Vec<SubSlot>,
}

/// The decimal text of a number.
pub open spec fn decimal_text(n: nat) -> Seq<char>
    decreases n,
{
    if n < 10 {
        seq![((n + 48) as u8) as char]
    } else {
        decimal_text(n / 10).push((((n % 10) + 48) as u8) as char)
    }
}

/// The decimal text of `n`, as a `String`.
pub fn decimal_string(n: u64) -> (r: String)
    ensures
        r@ == decimal_text(n as nat),
    decreases n,
{
    let digit = (n % 10) as u8;
    let d: &str = match digit {
        0 => "0",
        1 => "1",
        2 => "2",
        3 => "3",
        4 => "4",
        5 => "5",
        6 => "6",
        7 => "7",
        8 => "8",
        _ => "9",
    };
    proof {
        reveal_strlit("0");
        reveal_strlit("1");
        reveal_strlit("2");
        reveal_strlit("3");
        reveal_strlit("4");
        reveal_strlit("5");
        reveal_strlit("6");
        reveal_strlit("7");
        reveal_strlit("8");
        reveal_strlit("9");
    }
    assert(d@ == seq![(((n % 10) + 48) as u8) as char]);
    if n < 10 {
        d.to_owned()
    } else {
        let head = decimal_string(n / 10);
        head.concat(d)
    }
}

impl ClientDemux {
    /// The pending call ids.
    pub closed spec fn pending_ids(self) -> Seq<u64> {
        self.pending@
    }

    /// The open subscriptions, by id, with their last delivered sequence
    /// number (0 before any delivery).
    pub closed spec fn sub_map(self) -> Map<Seq<char>, u64> {
        Map::new(
            |k: Seq<char>| exists|i: int| 0 <= i < self.subs@.len() && self.subs@[i].sub@ == k,
            |k: Seq<char>|
                {
                    let i = choose|i: int| 0 <= i < self.subs@.len() && self.subs@[i].sub@ == k;
                    match self.subs@[i].last_seq {
                        Some(s) => s,
                        None => 0,
                    }
                },
        )
    }

    /// No call id and no subscription id occurs twice.
    pub closed spec fn wf(self) -> bool {
        &&& self.pending@.no_duplicates()
        &&& forall|i: int, j: int|
            0 <= i < j < self.subs@.len() ==> #[trigger] self.subs@[i].sub@ != #[trigger] self.subs@[j].sub@
    }

    /// An empty table, for a fresh connection.
    pub fn new() -> (r: Self)
        ensures
            r.wf(),
            r.pending_ids().len() == 0,
            r.sub_map().dom().is_empty(),
    {
        let r = ClientDemux { pending: Vec::new(), subs: Vec::new() };
        assert(r.sub_map().dom() =~= Set::empty());
        r
    }

    fn find_pending(&self, id: u64) -> (r: Option<usize>)
        ensures
            match r {
                Some(i) => i < self.pending@.len() && self.pending@[i as int] == id,
                None => !self.pending@.contains(id),
            },
    {
        let mut i: usize = 0;
        while i < self.pending.len()
            invariant
                i <= self.pending@.len(),
                forall|k: int| 0 <= k < i ==> self.pending@[k] != id,
            decreases self.pending.len() - i,
        {
            if self.pending[i] == id {
                return Some(i);
            }
            i = i + 1;
        }
        None
    }

    fn find_sub(&self, sub: &String) -> (r: Option<usize>)
        ensures
            match r {
                Some(i) => i < self.subs@.len() && self.subs@[i as int].sub@ == sub@,
                None => forall|k: int| 0 <= k < self.subs@.len() ==> self.subs@[k].sub@ != sub@,
            },
    {
        let mut i: usize = 0;
        while i < self.subs.len()
            invariant
                i <= self.subs@.len(),
                forall|k: int| 0 <= k < i ==> self.subs@[k].sub@ != sub@,
            decreases self.subs.len() - i,
        {
            if self.subs[i].sub == *sub {
                return Some(i);
            }
            i = i + 1;
        }
        None
    }

    /// Whether call `id` awaits a reply.
    pub fn is_pending(&self, id: u64) -> (r: bool)
        ensures
            r == self.pending_ids().contains(id),
    {
        self.find_pending(id).is_some()
    }

    /// Records that call `id` awaits a reply.
    pub fn open_call(&mut self, id: u64)
        requires
            old(self).wf(),
        ensures
            final(self).wf(),
            final(self).pending_ids().to_set() == old(self).pending_ids().to_set().insert(id),
            final(self).sub_map() == old(self).sub_map(),
    {
        if self.find_pending(id).is_none() {
            let ghost before = self.pending@;
            self.pending.push(id);
            assert(self.pending@ == before.push(id));
        }
        assert(self.pending_ids().to_set() =~= old(self).pending_ids().to_set().insert(id));
        assert(self.sub_map() =~= old(self).sub_map());
    }

    /// Removes call `id`, if present; says whether it was.
    pub fn close_call(&mut self, id: u64) -> (r: bool)
        requires
            old(self).wf(),
        ensures
            final(self).wf(),
            r == old(self).pending_ids().contains(id),
            !r ==> final(self).pending_ids() == old(self).pending_ids(),
            final(self).pending_ids().to_set() == old(self).pending_ids().to_set().remove(id),
            final(self).sub_map() == old(self).sub_map(),
    {
        match self.find_pending(id) {
            Some(i) => {
                let ghost before = self.pending@;
                self.pending.remove(i);
                assert(self.pending@ == before.remove(i as int));
                assert forall|x: u64| self.pending@.contains(x) <==> (before.contains(x) && x != id) by {
                    if before.contains(x) && x != id {
                        let k = choose|k: int| 0 <= k < before.len() && before[k] == x;
                        if k < i {
                            assert(self.pending@[k] == x);
                        } else {
                            assert(self.pending@[k - 1] == x);
                        }
                    }
                }
                assert(self.pending_ids().to_set() =~= old(self).pending_ids().to_set().remove(id));
                assert(self.sub_map() =~= old(self).sub_map());
                true
            },
            None => {
                assert(self.pending_ids().to_set() =~= old(self).pending_ids().to_set().remove(id));
                false
            },
        }
    }

    /// Records subscription `id` as open (its id is `id` in decimal). An
    /// already open subscription of that id keeps its delivery cursor.
    pub fn open_subscription(&mut self, id: u64) -> (r: String)
        requires
            old(self).wf(),
        ensures
            final(self).wf(),
            r@ == decimal_text(id as nat),
            final(self).pending_ids() == old(self).pending_ids(),
            old(self).sub_map().dom().contains(r@) ==> final(self).sub_map() == old(self).sub_map(),
            !old(self).sub_map().dom().contains(r@) ==> final(self).sub_map() == old(self).sub_map().insert(
                r@,
                0,
            ),
    {
        let sub = decimal_string(id);
        match self.find_sub(&sub) {
            Some(i) => {
                assert(self.sub_map().dom().contains(sub@));
            },
            None => {
                let ghost before = self.subs@;
                self.subs.push(SubSlot { sub: sub.clone(), last_seq: None });
                assert(self.subs@ == before.push(SubSlot { sub: sub, last_seq: None }));
                assert(!old(self).sub_map().dom().contains(sub@));
                assert(self.sub_map() =~= old(self).sub_map().insert(sub@, 0)) by {
                    assert forall|k: Seq<char>| self.sub_map().dom().contains(k) <==> old(self).sub_map().insert(sub@, 0).dom().contains(k) by {
                        if self.sub_map().dom().contains(k) && k != sub@ {
                            let j = choose|j: int| 0 <= j < self.subs@.len() && self.subs@[j].sub@ == k;
                            assert(before[j].sub@ == k);
                        }
                        if k == sub@ {
                            assert(self.subs@[before.len() as int].sub@ == k);
                        } else if old(self).sub_map().dom().contains(k) {
                            let j = choose|j: int| 0 <= j < before.len() && before[j].sub@ == k;
                            assert(self.subs@[j].sub@ == k);
                        }
                    }
                    assert forall|k: Seq<char>| self.sub_map().dom().contains(k) implies self.sub_map()[k] == old(self).sub_map().insert(sub@, 0)[k] by {
                        let j = choose|j: int| 0 <= j < self.subs@.len() && self.subs@[j].sub@ == k;
                        if k == sub@ {
                            assert(j == before.len());
                        } else {
                            let j0 = choose|j0: int| 0 <= j0 < before.len() && before[j0].sub@ == k;
                            assert(self.subs@[j0].sub@ == k);
                            assert(j == j0);
                        }
                    }
                }
            },
        }
        sub
    }

    /// Decides what a reply with correlation `id` does: a pending call with
    /// that id resolves (and leaves the table); otherwise a failed reply
    /// names the subscription it refused, which closes; otherwise nothing
    /// waits for it.
    pub fn on_reply(&mut self, id: u64, failed: bool) -> (r: ReplyAction)
        requires
            old(self).wf(),
        ensures
            final(self).wf(),
            old(self).pending_ids().contains(id) ==> r == ReplyAction::ResolveCall(id)
                && final(self).pending_ids().to_set() == old(self).pending_ids().to_set().remove(id)
                && final(self).sub_map() == old(self).sub_map(),
            !old(self).pending_ids().contains(id) && failed && old(self).sub_map().dom().contains(
                decimal_text(id as nat),
            ) ==> (r matches ReplyAction::FailSubscription(s) && s@ == decimal_text(id as nat)
                && final(self).pending_ids() == old(self).pending_ids() && final(self).sub_map()
                == old(self).sub_map().remove(decimal_text(id as nat))),
            !old(self).pending_ids().contains(id) && !(failed && old(self).sub_map().dom().contains(
                decimal_text(id as nat),
            )) ==> r == ReplyAction::Drop && final(self).pending_ids() == old(self).pending_ids()
                && final(self).sub_map() == old(self).sub_map(),
    {
        if self.close_call(id) {
            return ReplyAction::ResolveCall(id);
        }
        if !failed {
            return ReplyAction::Drop;
        }
        let sub = decimal_string(id);
        match self.find_sub(&sub) {
            Some(i) => {
                self.remove_sub_at(i);
                ReplyAction::FailSubscription(sub)
            },
            None => {
                assert(!self.sub_map().dom().contains(sub@));
                ReplyAction::Drop
            },
        }
    }

    fn remove_sub_at(&mut self, i: usize)
        requires
            old(self).wf(),
            i < old(self).subs@.len(),
        ensures
            final(self).wf(),
            final(self).pending == old(self).pending,
            final(self).sub_map() == old(self).sub_map().remove(old(self).subs@[i as int].sub@),
    {
        let ghost before = self.subs@;
        let ghost key = before[i as int].sub@;
        self.subs.remove(i);
        assert(self.subs@ == before.remove(i as int));
        assert forall|a: int, b: int| 0 <= a < b < self.subs@.len() implies #[trigger] self.subs@[a].sub@ != #[trigger] self.subs@[b].sub@ by {
            let a0 = if a < i { a } else { a + 1 };
            let b0 = if b < i { b } else { b + 1 };
            assert(self.subs@[a] == before[a0]);
            assert(self.subs@[b] == before[b0]);
        }
        assert(self.sub_map() =~= old(self).sub_map().remove(key)) by {
            assert forall|k: Seq<char>| self.sub_map().dom().contains(k) <==> old(self).sub_map().remove(key).dom().contains(k) by {
                if self.sub_map().dom().contains(k) {
                    let j = choose|j: int| 0 <= j < self.subs@.len() && self.subs@[j].sub@ == k;
                    let j0 = if j < i { j } else { j + 1 };
                    assert(before[j0].sub@ == k);
                    assert(j0 != i);
                }
                if old(self).sub_map().remove(key).dom().contains(k) {
                    let j0 = choose|j0: int| 0 <= j0 < before.len() && before[j0].sub@ == k;
                    assert(j0 != i);
                    if j0 < i {
                        assert(self.subs@[j0].sub@ == k);
                    } else {
                        assert(self.subs@[j0 - 1].sub@ == k);
                    }
                }
            }
            assert forall|k: Seq<char>| self.sub_map().dom().contains(k) implies self.sub_map()[k] == old(self).sub_map()[k] by {
                let j = choose|j: int| 0 <= j < self.subs@.len() && self.subs@[j].sub@ == k;
                let j0 = choose|j0: int| 0 <= j0 < before.len() && before[j0].sub@ == k;
                let j1 = if j < i { j } else { j + 1 };
                assert(before[j1].sub@ == k);
                assert(j1 == j0);
            }
        }
    }

    /// Plans the delivery of an update for subscription `sub` with sequence
    /// number `seq`, to a sink holding `len` of `cap` updates.
    pub fn plan_update(&self, sub: &String, seq: u64, mode: Delivery, len: usize, cap: Option<usize>) -> (r: DeliveryPlan)
        requires
            self.wf(),
        ensures
            r == delivery_plan(
                self.sub_map().dom().contains(sub@),
                if self.sub_map().dom().contains(sub@) {
                    self.sub_map()[sub@]
                } else {
                    0
                },
                seq,
                mode,
                len,
                cap,
            ),
    {
        match self.find_sub(sub) {
            Some(i) => {
                let prev = match self.subs[i].last_seq {
                    Some(s) => s,
                    None => 0,
                };
                assert(self.sub_map().dom().contains(sub@));
                proof {
                    let j = choose|j: int| 0 <= j < self.subs@.len() && self.subs@[j].sub@ == sub@;
                    assert(j == i);
                }
                plan_delivery(true, prev, seq, mode, len, cap)
            },
            None => {
                assert(!self.sub_map().dom().contains(sub@));
                plan_delivery(false, 0, seq, mode, len, cap)
            },
        }
    }

    /// Records how handing an update with sequence number `seq` to the sink
    /// of `sub` went: a delivery advances the cursor to the larger of `seq`
    /// and the old cursor (never back); a full sink changes nothing, so the
    /// loss shows in the next delivery; a closed sink closes the
    /// subscription.
    pub fn on_sent(&mut self, sub: &String, seq: u64, outcome: SendOutcome)
        requires
            old(self).wf(),
        ensures
            final(self).wf(),
            final(self).pending_ids() == old(self).pending_ids(),
            !old(self).sub_map().dom().contains(sub@) || outcome == SendOutcome::Full ==> final(self).sub_map()
                == old(self).sub_map(),
            old(self).sub_map().dom().contains(sub@) && outcome == SendOutcome::Delivered ==> final(self).sub_map() == old(self).sub_map().insert(
                sub@,
                if seq >= old(self).sub_map()[sub@] {
                    seq
                } else {
                    old(self).sub_map()[sub@]
                },
            ),
            old(self).sub_map().dom().contains(sub@) && outcome == SendOutcome::Closed ==> final(self).sub_map() == old(self).sub_map().remove(sub@),
    {
        let i = match self.find_sub(sub) {
            Some(i) => i,
            None => {
                assert(!self.sub_map().dom().contains(sub@));
                return;
            },
        };
        proof {
            let j = choose|j: int| 0 <= j < self.subs@.len() && self.subs@[j].sub@ == sub@;
            assert(j == i);
        }
        match outcome {
            SendOutcome::Full => {},
            SendOutcome::Closed => {
                self.remove_sub_at(i);
            },
            SendOutcome::Delivered => {
                let prev = match self.subs[i].last_seq {
                    Some(s) => s,
                    None => 0,
                };
                let next = if seq >= prev {
                    seq
                } else {
                    prev
                };
                let ghost before = self.subs@;
                let slot = SubSlot { sub: self.subs[i].sub.clone(), last_seq: Some(next) };
                self.subs.set(i, slot);
                assert(self.subs@ == before.update(i as int, slot));
                assert forall|a: int, b: int| 0 <= a < b < self.subs@.len() implies #[trigger] self.subs@[a].sub@ != #[trigger] self.subs@[b].sub@ by {
                    assert(self.subs@[a].sub@ == before[a].sub@);
                    assert(self.subs@[b].sub@ == before[b].sub@);
                }
                assert(self.sub_map() =~= old(self).sub_map().insert(sub@, next)) by {
                    assert forall|k: Seq<char>| self.sub_map().dom().contains(k) <==> old(self).sub_map().insert(sub@, next).dom().contains(k) by {
                        if self.sub_map().dom().contains(k) {
                            let j = choose|j: int| 0 <= j < self.subs@.len() && self.subs@[j].sub@ == k;
                            assert(before[j].sub@ == k);
                        }
                        if old(self).sub_map().dom().contains(k) {
                            let j = choose|j: int| 0 <= j < before.len() && before[j].sub@ == k;
                            assert(self.subs@[j].sub@ == k);
                        }
                    }
                    assert forall|k: Seq<char>| self.sub_map().dom().contains(k) implies self.sub_map()[k] == old(self).sub_map().insert(sub@, next)[k] by {
                        let j = choose|j: int| 0 <= j < self.subs@.len() && self.subs@[j].sub@ == k;
                        if k == sub@ {
                            assert(j == i);
                        } else {
                            let j0 = choose|j0: int| 0 <= j0 < before.len() && before[j0].sub@ == k;
                            assert(self.subs@[j0].sub@ == k);
                            assert(j == j0);
                        }
                    }
                }
            },
        }
    }
}

/// A call resolves at most once: after a reply resolves call `id`, no later
/// reply with that id finds it pending.
pub proof fn law_a_call_resolves_at_most_once(before: Set<u64>, id: u64)
    ensures
        !before.remove(id).contains(id),
{
}

/// A subscription's delivery cursor never moves back, and the loss reported
/// with a delivery is exactly the sequence numbers skipped past the cursor:
/// none for a repeated or reordered update, and never more than the new
/// sequence number.
pub proof fn law_delivery_cursor_only_advances(prev: u64, seq: u64)
    ensures
        (if seq >= prev {
            seq
        } else {
            prev
        }) >= prev,
        seq <= prev ==> gap(prev, seq) == 0,
        prev < seq ==> gap(prev, seq) == seq - prev - 1,
        gap(prev, seq) <= seq,
{
}

} // verus!
