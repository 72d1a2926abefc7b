//! Data-contract traits: schema identity, the value a schema is built from,
//! its numeric signal, its wire form, and the versions it has had.

use vstd::prelude::*;

use crate::json::{
    array_items, json_array_items, json_object_members, json_raw_value, lookup, object_members, raw_json_value,
    u64_literal,
};
use crate::json::{find_member, read_u64_literal};

verus! {

/// Identity and metadata for a data contract.
///
/// A server running version N can ingest data from producers running any
/// version `1..=N`.
pub trait SchemaType: Sized {
    /// Unique identifier for this schema (e.g. `"temperature"`).
    const NAME: &'static str;

    /// Schema version. Defaults to 1.
    const VERSION: u32 = 1;
}

/// Construct a schema instance from its primary value.
pub trait Settable: SchemaType {
    /// The primary value type.
    type Value;

    /// Create a new instance from a value and a Unix timestamp in milliseconds.
    fn set(value: Self::Value, timestamp: u64) -> Self;
}

/// Project a schema type onto a numeric domain signal.
pub trait Observable: SchemaType {
    /// The numeric type of the signal.
    type Signal: PartialOrd + Copy;

    /// What the signal means, for labels. Defaults to the schema name.
    const SIGNAL: &'static str = Self::NAME;

    /// Unit label for the signal.
    const UNIT: &'static str = "";

    /// Extract the signal value from this instance.
    fn signal(&self) -> Self::Signal;
}

/// Error of a serializer that writes into caller-provided storage.
#[derive(Debug, Clone, Copy, PartialEq, Eq, Structural)]
pub enum SerializeError {
    /// The storage cannot hold the value.
    BufferTooSmall,
    /// The value could not be serialized.
    InvalidData,
}

/// Copies an encoded value into the front of `out`, when it fits.
///
/// On success `out` starts with `encoded` and keeps its own tail; when
/// `encoded` is longer than `out`, `out` is left untouched.
pub fn copy_encoded_into(encoded: &[u8], out: &mut [u8]) -> (r: Result<usize, SerializeError>)
    ensures
        encoded@.len() <= old(out)@.len() ==> r == Ok::<usize, SerializeError>(encoded@.len() as usize)
            && final(out)@ == encoded@ + old(out)@.skip(encoded@.len() as int),
        encoded@.len() > old(out)@.len() ==> r == Err::<usize, SerializeError>(
            SerializeError::BufferTooSmall,
        ) && final(out)@ == old(out)@,
{
    if encoded.len() > out.len() {
        return Err(SerializeError::BufferTooSmall);
    }
    let ghost start = out@;
    let mut i: usize = 0;
    while i < encoded.len()
        invariant
            i <= encoded@.len() <= start.len(),
            out@.len() == start.len(),
            forall|k: int| 0 <= k < i ==> out@[k] == encoded@[k],
            forall|k: int| i <= k < start.len() ==> out@[k] == start[k],
        decreases encoded.len() - i,
    {
        out[i] = encoded[i];
        i = i + 1;
    }
    assert(out@ == encoded@ + start.skip(encoded@.len() as int));
    Ok(encoded.len())
}

/// What writing the serializer's outcome `bytes` into storage that held
/// `before` does: the bytes at the front when they fit (`r` is their
/// length), `BufferTooSmall` when they do not, `InvalidData` when
/// serializing failed; the storage is untouched on an error.
pub open spec fn encoded_into(
    bytes: Option<Seq<u8>>,
    before: Seq<u8>,
    r: Result<usize, SerializeError>,
    after: Seq<u8>,
) -> bool {
    match bytes {
        Some(b) => if b.len() <= before.len() {
            (r matches Ok(n) && n == b.len()) && after == b + before.skip(b.len() as int)
        } else {
            r == Err::<usize, SerializeError>(SerializeError::BufferTooSmall) && after == before
        },
        None => r == Err::<usize, SerializeError>(SerializeError::InvalidData) && after == before,
    }
}

/// Serializing into caller-owned storage, given what the serializer gave:
/// its bytes at the front of `out` when they fit, `BufferTooSmall` when they
/// do not, and `InvalidData` when serializing failed; `out` is left as it
/// was on an error.
pub fn place_encoded(encoded: Result<Vec<u8>, String>, out: &mut [u8]) -> (r: Result<usize, SerializeError>)
    ensures
        encoded_into(
            match encoded {
                Ok(b) => Some(b@),
                Err(_) => None,
            },
            old(out)@,
            r,
            final(out)@,
        ),
{
    match encoded {
        Ok(bytes) => {
            let len = bytes.len();
            let r = copy_encoded_into(bytes.as_slice(), out);
            assert(len == bytes@.len());
            r
        },
        Err(_) => Err(SerializeError::InvalidData),
    }
}

/// Types that can be serialized and deserialized for connector links.
pub trait Linkable: SchemaType + Sized {
    /// Preferred reusable outbound scratch capacity, in bytes; `None` keeps
    /// the link on owned serialization.
    const ENCODE_BUFFER_CAPACITY: Option<usize> = None;

    /// What deserializing `data` gives: the value, or nothing when it fails.
    /// An implementation gives its definition; it is left open here.
    closed spec fn parsed(data: Seq<u8>) -> Option<Self> {
        arbitrary()
    }

    /// What serializing the value gives: its bytes, or nothing when it fails.
    /// An implementation gives its definition; it is left open here.
    closed spec fn serialized(&self) -> Option<Seq<u8>> {
        arbitrary()
    }

    /// Deserialize from bytes; an error carries a message.
    fn from_bytes(data: &[u8]) -> (r: Result<Self, String>)
        ensures
            match r {
                Ok(v) => Self::parsed(data@) == Some(v),
                Err(_) => Self::parsed(data@) is None,
            },
    ;

    /// Serialize to bytes; an error carries a message.
    fn to_bytes(&self) -> (r: Result<Vec<u8>, String>)
        ensures
            match r {
                Ok(b) => self.serialized() == Some(b@),
                Err(_) => self.serialized() is None,
            },
    ;

    /// Serialize into caller-owned storage: the bytes of
    /// [`to_bytes`](Self::to_bytes) at the front of `out`, or
    /// `BufferTooSmall` with `out` untouched when they do not fit, or
    /// `InvalidData` with `out` untouched when serializing fails.
    fn encode_into(&self, out: &mut [u8]) -> (r: Result<usize, SerializeError>)
        ensures
            encoded_into(self.serialized(), old(out)@, r, final(out)@),
    {
        place_encoded(self.to_bytes(), out)
    }
}

/// A simulation profile: how often to emit, and the simulator's parameters.
#[derive(Clone, Debug, Default)]
pub struct SimProfile<P> {
    /// Milliseconds between two simulated values.
    pub interval_ms: u64,
    /// The simulator's parameters.
    pub params: P,
}

/// Error returned when schema migration fails.
#[derive(Debug, Clone, PartialEq, Eq)]
pub enum MigrationError {
    /// The source version is newer than this schema supports.
    VersionTooNew { source: u32, current: u32 },
    /// The target version is older than the oldest one the chain knows.
    VersionTooOld { target: u32, minimum: u32 },
    /// The payload carries no usable version member.
    MissingVersion,
    /// The payload could not be parsed.
    DeserializationFailed(&'static str),
    /// A value could not be serialized.
    SerializationFailed(&'static str),
    /// A required field is missing and has no default.
    MissingField(&'static str),
    /// Type conversion failed.
    TypeConversion { field: &'static str, expected: &'static str },
    /// Custom migration error.
    Custom(&'static str),
}

/// One step of a schema's history: how a value of version `FROM_VERSION`
/// becomes one of `TO_VERSION`, and back.
pub trait MigrationStep {
    /// The schema at `FROM_VERSION`.
    type Older;
    /// The schema at `TO_VERSION`.
    type Newer;
    /// The version this step starts from.
    const FROM_VERSION: u32;
    /// The version this step ends at.
    const TO_VERSION: u32;

    /// Upgrade a value by one version.
    fn up(older: Self::Older) -> Result<Self::Newer, MigrationError>;

    /// Downgrade a value by one version.
    fn down(newer: Self::Newer) -> Result<Self::Older, MigrationError>;
}

/// A schema history whose steps act on one type that holds a value of any
/// version: step `k` brings a value of version `k` up to version `k + 1`,
/// and a value of version `k + 1` back down to version `k`.
pub trait StepChain {
    /// A value of some version of the history.
    type Value;

    /// What step `k` gives for a value of version `k`.
    /// An implementation gives its definition; it is left open here.
    closed spec fn step_up(k: u32, v: Self::Value) -> Result<Self::Value, MigrationError> {
        arbitrary()
    }

    /// What step `k` gives for a value of version `k + 1`.
    /// An implementation gives its definition; it is left open here.
    closed spec fn step_down(k: u32, v: Self::Value) -> Result<Self::Value, MigrationError> {
        arbitrary()
    }

    /// Apply step `k` upwards.
    fn up(k: u32, v: Self::Value) -> (r: Result<Self::Value, MigrationError>)
        ensures
            r == Self::step_up(k, v),
    ;

    /// Apply step `k` downwards.
    fn down(k: u32, v: Self::Value) -> (r: Result<Self::Value, MigrationError>)
        ensures
            r == Self::step_down(k, v),
    ;
}

/// Upgrading a value of version `from` to version `to`: steps `from`,
/// `from + 1`, ..., `to - 1` in that order, stopping at the first that fails.
pub open spec fn upgrade_chain<S: StepChain>(from: u32, to: u32, v: S::Value) -> Result<S::Value, MigrationError>
    decreases to - from,
{
    if from >= to {
        Ok(v)
    } else {
        match S::step_up(from, v) {
            Ok(w) => upgrade_chain::<S>((from + 1) as u32, to, w),
            Err(e) => Err(e),
        }
    }
}

/// Downgrading a value of version `from` to version `to`: steps `from - 1`,
/// `from - 2`, ..., `to` in that order, stopping at the first that fails.
pub open spec fn downgrade_chain<S: StepChain>(from: u32, to: u32, v: S::Value) -> Result<S::Value, MigrationError>
    decreases from - to,
{
    if from <= to {
        Ok(v)
    } else {
        match S::step_down((from - 1) as u32, v) {
            Ok(w) => downgrade_chain::<S>((from - 1) as u32, to, w),
            Err(e) => Err(e),
        }
    }
}

/// Upgrades a value of version `from` to version `to`, step by step.
pub fn upgrade_through<S: StepChain>(from: u32, to: u32, v: S::Value) -> (r: Result<S::Value, MigrationError>)
    ensures
        r == upgrade_chain::<S>(from, to, v),
{
    let ghost v0 = v;
    let mut k = from;
    let mut cur = v;
    while k < to
        invariant
            v0 == v,
            upgrade_chain::<S>(from, to, v0) == upgrade_chain::<S>(k, to, cur),
        decreases to - k,
    {
        let ghost before = cur;
        match S::up(k, cur) {
            Ok(w) => {
                cur = w;
                k = k + 1;
            },
            Err(e) => {
                assert(upgrade_chain::<S>(k, to, before) == Err::<S::Value, MigrationError>(e));
                return Err(e);
            },
        }
    }
    Ok(cur)
}

/// Downgrades a value of version `from` to version `to`, step by step.
pub fn downgrade_through<S: StepChain>(from: u32, to: u32, v: S::Value) -> (r: Result<S::Value, MigrationError>)
    ensures
        r == downgrade_chain::<S>(from, to, v),
{
    let ghost v0 = v;
    let mut k = from;
    let mut cur = v;
    while k > to
        invariant
            v0 == v,
            downgrade_chain::<S>(from, to, v0) == downgrade_chain::<S>(k, to, cur),
        decreases k - to,
    {
        let ghost before = cur;
        match S::down(k - 1, cur) {
            Ok(w) => {
                cur = w;
                k = k - 1;
            },
            Err(e) => {
                assert(downgrade_chain::<S>(k, to, before) == Err::<S::Value, MigrationError>(e));
                return Err(e);
            },
        }
    }
    Ok(cur)
}

/// Upgrading to `to` is upgrading to `to - 1` and then applying step
/// `to - 1`.
proof fn lemma_upgrade_last<S: StepChain>(from: u32, to: u32, w: S::Value)
    requires
        from < to,
    ensures
        upgrade_chain::<S>(from, to, w) == match upgrade_chain::<S>(from, (to - 1) as u32, w) {
            Ok(x) => S::step_up((to - 1) as u32, x),
            Err(e) => Err(e),
        },
    decreases to - from,
{
    if from + 1 < to {
        match S::step_up(from, w) {
            Ok(x) => lemma_upgrade_last::<S>((from + 1) as u32, to, x),
            Err(_) => {},
        }
    } else {
        match S::step_up(from, w) {
            Ok(x) => {
                assert(upgrade_chain::<S>((from + 1) as u32, to, x) == Ok::<S::Value, MigrationError>(x));
            },
            Err(_) => {},
        }
    }
}

/// Steps that undo each other compose to chains that undo each other: when
/// every step from `to` up to `from` brings back what it took down, what the
/// chain downgrades from version `from` to version `to` upgrades back to the
/// value it started from.
pub proof fn law_downgrade_then_upgrade<S: StepChain>(from: u32, to: u32, v: S::Value)
    requires
        forall|k: u32, x: S::Value|
            to <= k < from ==> match #[trigger] S::step_down(k, x) {
                Ok(y) => S::step_up(k, y) == Ok::<S::Value, MigrationError>(x),
                Err(_) => true,
            },
    ensures
        downgrade_chain::<S>(from, to, v) matches Ok(w) ==> upgrade_chain::<S>(to, from, w) == Ok::<
            S::Value,
            MigrationError,
        >(v),
    decreases from - to,
{
    if from > to {
        match S::step_down((from - 1) as u32, v) {
            Ok(w1) => {
                law_downgrade_then_upgrade::<S>((from - 1) as u32, to, w1);
                if let Ok(w) = downgrade_chain::<S>((from - 1) as u32, to, w1) {
                    lemma_upgrade_last::<S>(to, from, w);
                }
            },
            Err(_) => {},
        }
    }
}

/// Why a declared chain of migration steps is not a chain from version 1 to
/// the current version.
#[derive(Debug, Clone, Copy, PartialEq, Eq, Structural)]
pub enum ChainError {
    /// No step was declared.
    Empty,
    /// The step at this position does not go up by exactly one version.
    NotIncrement(usize),
    /// The step at this position does not start where the previous ended.
    NotSequential(usize),
    /// The first step does not start at version 1.
    FirstNotOne,
    /// The last step does not end at the current version.
    LastNotCurrent,
}

/// The first flaw of a declared chain, checking in declaration order each
/// step's increment and its link to the next step, then both ends.
pub open spec fn chain_flaw(steps: Seq<(u32, u32)>, current: u32) -> Option<ChainError>
    decreases steps.len(),
{
    if steps.len() == 0 {
        Some(ChainError::Empty)
    } else {
        chain_flaw_from(steps, current, 0)
    }
}

/// The first flaw from position `i` on.
pub open spec fn chain_flaw_from(steps: Seq<(u32, u32)>, current: u32, i: int) -> Option<ChainError>
    decreases steps.len() - i,
{
    if i >= steps.len() || i < 0 {
        if steps[0].0 != 1 {
            Some(ChainError::FirstNotOne)
        } else if steps.last().1 != current {
            Some(ChainError::LastNotCurrent)
        } else {
            None
        }
    } else if steps[i].1 != steps[i].0 + 1 {
        Some(ChainError::NotIncrement(i as usize))
    } else if i + 1 < steps.len() && steps[i].1 != steps[i + 1].0 {
        Some(ChainError::NotSequential(i as usize))
    } else {
        chain_flaw_from(steps, current, i + 1)
    }
}

/// Checks that `steps` (each a pair of from- and to-version) form a chain
/// from version 1 to `current`, one version at a time.
pub fn validate_chain(steps: &[(u32, u32)], current: u32) -> (r: Result<(), ChainError>)
    ensures
        match r {
            Ok(()) => chain_flaw(steps@, current) is None,
            Err(e) => chain_flaw(steps@, current) == Some(e),
        },
{
    if steps.len() == 0 {
        return Err(ChainError::Empty);
    }
    let n = steps.len();
    let mut i: usize = 0;
    while i < n
        invariant
            n == steps@.len(),
            n > 0,
            i <= n,
            chain_flaw(steps@, current) == chain_flaw_from(steps@, current, i as int),
        decreases n - i,
    {
        let (from, to) = steps[i];
        if from >= u32::MAX || to != from + 1 {
            return Err(ChainError::NotIncrement(i));
        }
        if i + 1 < n && to != steps[i + 1].0 {
            return Err(ChainError::NotSequential(i));
        }
        i = i + 1;
    }
    if steps[0].0 != 1 {
        Err(ChainError::FirstNotOne)
    } else if steps[n - 1].1 != current {
        Err(ChainError::LastNotCurrent)
    } else {
        Ok(())
    }
}

/// A chain with no flaw is exactly `1 -> 2 -> ... -> current`: one step per
/// historical version, in order.
pub proof fn law_valid_chain_covers_every_version(steps: Seq<(u32, u32)>, current: u32)
    requires
        chain_flaw(steps, current) is None,
    ensures
        steps.len() + 1 == current,
        forall|i: int| 0 <= i < steps.len() ==> #[trigger] steps[i].0 == i + 1 && steps[i].1 == i + 2,
{
    lemma_no_flaw_from(steps, current, 0);
}

proof fn lemma_no_flaw_from(steps: Seq<(u32, u32)>, current: u32, i: int)
    requires
        steps.len() > 0,
        0 <= i <= steps.len(),
        chain_flaw_from(steps, current, i) is None,
    ensures
        steps[0].0 == 1,
        steps.last().1 == current,
        forall|k: int| i <= k < steps.len() ==> #[trigger] steps[k].1 == steps[k].0 + 1,
        forall|k: int| i <= k < steps.len() - 1 ==> #[trigger] steps[k].1 == steps[k + 1].0,
        i == 0 ==> (steps.len() + 1 == current && forall|k: int|
            0 <= k < steps.len() ==> #[trigger] steps[k].0 == k + 1 && steps[k].1 == k + 2),
    decreases steps.len() - i,
{
    if i < steps.len() {
        lemma_no_flaw_from(steps, current, i + 1);
    }
    if i == 0 {
        assert forall|k: int| 0 <= k < steps.len() implies steps[k].0 == k + 1 && steps[k].1 == k + 2 by {
            lemma_chain_position(steps, k);
        }
        lemma_chain_position(steps, steps.len() - 1);
    }
}

proof fn lemma_chain_position(steps: Seq<(u32, u32)>, k: int)
    requires
        0 <= k < steps.len(),
        steps[0].0 == 1,
        forall|m: int| 0 <= m < steps.len() ==> #[trigger] steps[m].1 == steps[m].0 + 1,
        forall|m: int| 0 <= m < steps.len() - 1 ==> #[trigger] steps[m].1 == steps[m + 1].0,
    ensures
        steps[k].0 == k + 1,
        steps[k].1 == k + 2,
    decreases k,
{
    if k > 0 {
        lemma_chain_position(steps, k - 1);
        assert(steps[k - 1].1 == steps[k].0);
    }
}

/// Where a payload's version leads: it is the current one, or an older one
/// to be upgraded from.
#[derive(Debug, Clone, Copy, PartialEq, Eq, Structural)]
pub enum FromPlan {
    /// Parse as the current schema.
    Current,
    /// Parse as the schema of this version and upgrade step by step.
    Upgrade(u32),
}

/// Where a requested target version leads: the current one, or an older one
/// to be downgraded to.
#[derive(Debug, Clone, Copy, PartialEq, Eq, Structural)]
pub enum ToPlan {
    /// Serialize as the current schema.
    Current,
    /// Downgrade step by step to this version, then serialize.
    Downgrade(u32),
}

/// What reading a payload of version `version` does, for a chain from
/// `minimum` to `current`.
pub open spec fn from_plan(version: u32, minimum: u32, current: u32) -> Result<FromPlan, MigrationError> {
    if version > current {
        Err(MigrationError::VersionTooNew { source: version, current })
    } else if version == current {
        Ok(FromPlan::Current)
    } else if version >= minimum {
        Ok(FromPlan::Upgrade(version))
    } else {
        Err(MigrationError::VersionTooOld { target: version, minimum })
    }
}

/// What writing at version `target` does, for a chain from `minimum` to
/// `current`.
pub open spec fn to_plan(target: u32, minimum: u32, current: u32) -> Result<ToPlan, MigrationError> {
    if target < minimum {
        Err(MigrationError::VersionTooOld { target, minimum })
    } else if target > current {
        Err(MigrationError::VersionTooNew { source: target, current })
    } else if target == current {
        Ok(ToPlan::Current)
    } else {
        Ok(ToPlan::Downgrade(target))
    }
}

/// Decides how a payload of version `version` is read.
pub fn plan_from_version(version: u32, minimum: u32, current: u32) -> (r: Result<FromPlan, MigrationError>)
    ensures
        r == from_plan(version, minimum, current),
{
    if version > current {
        Err(MigrationError::VersionTooNew { source: version, current })
    } else if version == current {
        Ok(FromPlan::Current)
    } else if version >= minimum {
        Ok(FromPlan::Upgrade(version))
    } else {
        Err(MigrationError::VersionTooOld { target: version, minimum })
    }
}

/// Decides how a value is written at version `target`.
pub fn plan_to_version(target: u32, minimum: u32, current: u32) -> (r: Result<ToPlan, MigrationError>)
    ensures
        r == to_plan(target, minimum, current),
{
    if target < minimum {
        Err(MigrationError::VersionTooOld { target, minimum })
    } else if target > current {
        Err(MigrationError::VersionTooNew { source: target, current })
    } else if target == current {
        Ok(ToPlan::Current)
    } else {
        Ok(ToPlan::Downgrade(target))
    }
}

/// Every version of the chain can be read and written: reading a payload of
/// version `v` and writing at version `v` both succeed, and go through the
/// same historical version.
pub proof fn law_every_known_version_reads_and_writes(v: u32, minimum: u32, current: u32)
    requires
        minimum <= v <= current,
    ensures
        from_plan(v, minimum, current) is Ok,
        to_plan(v, minimum, current) is Ok,
        from_plan(v, minimum, current) == Ok::<FromPlan, MigrationError>(FromPlan::Current) <==> to_plan(
            v,
            minimum,
            current,
        ) == Ok::<ToPlan, MigrationError>(ToPlan::Current),
        from_plan(v, minimum, current) == Ok::<FromPlan, MigrationError>(FromPlan::Upgrade(v))
            <==> to_plan(v, minimum, current) == Ok::<ToPlan, MigrationError>(ToPlan::Downgrade(v)),
{
}

/// What the version probe reads from a payload: the `field` member as a
/// `u32`; a payload that is not JSON fails as invalid JSON, and one without a
/// usable member as missing its version.
pub open spec fn probe_version(data: Seq<u8>, field: Seq<char>) -> Result<u32, MigrationError> {
    if json_raw_value(data) is None {
        Err(MigrationError::DeserializationFailed("invalid JSON"))
    } else {
        match json_object_members(data) {
            None => match json_array_items(data) {
                Some(items) => if items.len() == 0 {
                    Err(MigrationError::MissingVersion)
                } else {
                    match u64_literal(items[0]) {
                        Some(n) => if n > u32::MAX {
                            Err(MigrationError::MissingVersion)
                        } else if items.len() == 1 {
                            Ok(n as u32)
                        } else {
                            Err(MigrationError::DeserializationFailed("invalid JSON"))
                        },
                        None => Err(MigrationError::MissingVersion),
                    }
                },
                None => Err(MigrationError::MissingVersion),
            },
            Some(ms) => match lookup(ms, field) {
                None => Err(MigrationError::MissingVersion),
                Some(v) => match u64_literal(v) {
                    Some(n) => if n <= u32::MAX {
                        Ok(n as u32)
                    } else {
                        Err(MigrationError::MissingVersion)
                    },
                    None => Err(MigrationError::MissingVersion),
                },
            },
        }
    }
}

/// Reads the schema version a payload carries in its `field` member.
///
/// A JSON object carries it as its `field` member; a repeated member keeps
/// its last value. A JSON array carries it as its only element: an empty
/// array carries none, and elements after a version are not accepted.
pub fn read_version(data: &[u8], field: &str) -> (r: Result<u32, MigrationError>)
    ensures
        r == probe_version(data@, field@),
{
    if raw_json_value(data).is_none() {
        return Err(MigrationError::DeserializationFailed("invalid JSON"));
    }
    let ms = match object_members(data) {
        Some(ms) => ms,
        None => return match array_items(data) {
            Some(items) => if items.len() == 0 {
                Err(MigrationError::MissingVersion)
            } else {
                match read_u64_literal(&items[0]) {
                    Some(n) => if n > 4294967295u64 {
                        Err(MigrationError::MissingVersion)
                    } else if items.len() == 1 {
                        Ok(n as u32)
                    } else {
                        Err(MigrationError::DeserializationFailed("invalid JSON"))
                    },
                    None => Err(MigrationError::MissingVersion),
                }
            },
            None => Err(MigrationError::MissingVersion),
        },
    };
    let key = field.to_owned();
    let i = match find_member(&ms, &key) {
        Some(i) => i,
        None => return Err(MigrationError::MissingVersion),
    };
    match read_u64_literal(&ms[i].1) {
        Some(n) => if n <= 4294967295u64 {
            Ok(n as u32)
        } else {
            Err(MigrationError::MissingVersion)
        },
        None => Err(MigrationError::MissingVersion),
    }
}

/// The bytes of a serialization outcome.
pub open spec fn bytes_result(r: Result<Vec<u8>, MigrationError>) -> Result<Seq<u8>, MigrationError> {
    match r {
        Ok(b) => Ok(b@),
        Err(e) => Err(e),
    }
}

/// A schema whose history is a chain of migration steps.
///
/// An implementation names its history of steps and supplies how a payload
/// of each version is parsed and serialized; the chain reads a payload's
/// version, parses it as that version, runs the steps up to the current one
/// with [`upgrade_through`], and writes by running them down with
/// [`downgrade_through`]. By [`law_migrations_round_trip`], what it writes at
/// a known version reads back as the value it wrote.
pub trait MigrationChain: SchemaType {
    /// The oldest version the chain can read.
    const MIN_VERSION: u32 = 1;

    /// The member of a payload that carries its schema version.
    const VERSION_FIELD: &'static str;

    /// The schema's history: one step per version, over a type that holds a
    /// value of any version.
    type Steps: StepChain;

    /// What parsing `data` as the schema of `version` gives.
    /// An implementation gives its definition; it is left open here.
    closed spec fn parsed_at(version: u32, data: Seq<u8>) -> Result<<Self::Steps as StepChain>::Value, MigrationError> {
        arbitrary()
    }

    /// What serializing `v` as the schema of `version` gives.
    /// An implementation gives its definition; it is left open here.
    closed spec fn written_at(version: u32, v: <Self::Steps as StepChain>::Value) -> Result<Seq<u8>, MigrationError> {
        arbitrary()
    }

    /// The current value a value of the current version stands for.
    /// An implementation gives its definition; it is left open here.
    closed spec fn current_of(v: <Self::Steps as StepChain>::Value) -> Result<Self, MigrationError> {
        arbitrary()
    }

    /// The value of the current version that `self` stands for.
    /// An implementation gives its definition; it is left open here.
    closed spec fn value_of(&self) -> <Self::Steps as StepChain>::Value {
        arbitrary()
    }

    /// Parse `data` as the schema of `version`.
    fn parse_at(version: u32, data: &[u8]) -> (r: Result<<Self::Steps as StepChain>::Value, MigrationError>)
        ensures
            r == Self::parsed_at(version, data@),
    ;

    /// Serialize `v` as the schema of `version`.
    fn write_at(version: u32, v: &<Self::Steps as StepChain>::Value) -> (r: Result<Vec<u8>, MigrationError>)
        ensures
            bytes_result(r) == Self::written_at(version, *v),
    ;

    /// The current value for a value of the current version.
    fn into_current(v: <Self::Steps as StepChain>::Value) -> (r: Result<Self, MigrationError>)
        ensures
            r == Self::current_of(v),
    ;

    /// The value of the current version for `self`.
    fn to_value(&self) -> (r: <Self::Steps as StepChain>::Value)
        ensures
            r == self.value_of(),
    ;

    /// Parse `data` as the schema of `version` (older than the current one)
    /// and upgrade it step by step to the current schema.
    fn upgrade_from(version: u32, data: &[u8]) -> (r: Result<Self, MigrationError>)
        ensures
            r == match Self::parsed_at(version, data@) {
                Err(e) => Err(e),
                Ok(v) => match upgrade_chain::<Self::Steps>(version, Self::VERSION, v) {
                    Err(e) => Err(e),
                    Ok(w) => Self::current_of(w),
                },
            },
    {
        let v = match Self::parse_at(version, data) {
            Ok(v) => v,
            Err(e) => return Err(e),
        };
        match upgrade_through::<Self::Steps>(version, Self::VERSION, v) {
            Ok(w) => Self::into_current(w),
            Err(e) => Err(e),
        }
    }

    /// Parse `data` as the current schema.
    fn parse_current(data: &[u8]) -> (r: Result<Self, MigrationError>)
        ensures
            r == match Self::parsed_at(Self::VERSION, data@) {
                Err(e) => Err(e),
                Ok(v) => Self::current_of(v),
            },
    {
        match Self::parse_at(Self::VERSION, data) {
            Ok(v) => Self::into_current(v),
            Err(e) => Err(e),
        }
    }

    /// Downgrade `self` step by step to `version` (older than the current
    /// one) and serialize it as that version's schema.
    fn downgrade_to(&self, version: u32) -> (r: Result<Vec<u8>, MigrationError>)
        ensures
            bytes_result(r) == match downgrade_chain::<Self::Steps>(Self::VERSION, version, self.value_of()) {
                Err(e) => Err(e),
                Ok(w) => Self::written_at(version, w),
            },
    {
        match downgrade_through::<Self::Steps>(Self::VERSION, version, self.to_value()) {
            Ok(w) => Self::write_at(version, &w),
            Err(e) => Err(e),
        }
    }

    /// Serialize `self` as the current schema.
    fn serialize_current(&self) -> (r: Result<Vec<u8>, MigrationError>)
        ensures
            bytes_result(r) == Self::written_at(Self::VERSION, self.value_of()),
    {
        let v = self.to_value();
        Self::write_at(Self::VERSION, &v)
    }

    /// Read a payload of any version the chain knows, upgrading it to the
    /// current schema: a payload at the current version is parsed as the
    /// current schema, one at an older known version is parsed as that
    /// version and upgraded step by step.
    fn migrate_from_bytes(data: &[u8]) -> (r: Result<Self, MigrationError>)
        ensures
            r == match probe_version(data@, Self::VERSION_FIELD@) {
                Err(e) => Err(e),
                Ok(n) => match from_plan(n, Self::MIN_VERSION, Self::VERSION) {
                    Err(e) => Err(e),
                    Ok(FromPlan::Current) => match Self::parsed_at(Self::VERSION, data@) {
                        Err(e) => Err(e),
                        Ok(v) => Self::current_of(v),
                    },
                    Ok(FromPlan::Upgrade(u)) => match Self::parsed_at(u, data@) {
                        Err(e) => Err(e),
                        Ok(v) => match upgrade_chain::<Self::Steps>(u, Self::VERSION, v) {
                            Err(e) => Err(e),
                            Ok(w) => Self::current_of(w),
                        },
                    },
                },
            },
    {
        let version = match read_version(data, Self::VERSION_FIELD) {
            Ok(v) => v,
            Err(e) => return Err(e),
        };
        match plan_from_version(version, Self::MIN_VERSION, Self::VERSION) {
            Ok(FromPlan::Current) => Self::parse_current(data),
            Ok(FromPlan::Upgrade(v)) => Self::upgrade_from(v, data),
            Err(e) => Err(e),
        }
    }

    /// Serialize `self` at `target_version`: as the current schema at the
    /// current version, downgraded step by step to an older known version
    /// otherwise.
    fn migrate_to_version(&self, target_version: u32) -> (r: Result<Vec<u8>, MigrationError>)
        ensures
            bytes_result(r) == match to_plan(target_version, Self::MIN_VERSION, Self::VERSION) {
                Err(e) => Err(e),
                Ok(ToPlan::Current) => Self::written_at(Self::VERSION, self.value_of()),
                Ok(ToPlan::Downgrade(v)) => match downgrade_chain::<Self::Steps>(
                    Self::VERSION,
                    v,
                    self.value_of(),
                ) {
                    Err(e) => Err(e),
                    Ok(w) => Self::written_at(v, w),
                },
            },
    {
        match plan_to_version(target_version, Self::MIN_VERSION, Self::VERSION) {
            Ok(ToPlan::Current) => self.serialize_current(),
            Ok(ToPlan::Downgrade(v)) => self.downgrade_to(v),
            Err(e) => Err(e),
        }
    }
}

/// What reading `data` through the chain of `C` gives (what
/// [`MigrationChain::migrate_from_bytes`] returns).
pub open spec fn chain_read<C: MigrationChain>(data: Seq<u8>) -> Result<C, MigrationError> {
    match probe_version(data, C::VERSION_FIELD@) {
        Err(e) => Err(e),
        Ok(n) => match from_plan(n, C::MIN_VERSION, C::VERSION) {
            Err(e) => Err(e),
            Ok(FromPlan::Current) => match C::parsed_at(C::VERSION, data) {
                Err(e) => Err(e),
                Ok(v) => C::current_of(v),
            },
            Ok(FromPlan::Upgrade(u)) => match C::parsed_at(u, data) {
                Err(e) => Err(e),
                Ok(v) => match upgrade_chain::<C::Steps>(u, C::VERSION, v) {
                    Err(e) => Err(e),
                    Ok(w) => C::current_of(w),
                },
            },
        },
    }
}

/// What writing `c` at version `target` through its chain gives (the bytes
/// [`MigrationChain::migrate_to_version`] returns).
pub open spec fn chain_written<C: MigrationChain>(c: C, target: u32) -> Result<Seq<u8>, MigrationError> {
    match to_plan(target, C::MIN_VERSION, C::VERSION) {
        Err(e) => Err(e),
        Ok(ToPlan::Current) => C::written_at(C::VERSION, c.value_of()),
        Ok(ToPlan::Downgrade(v)) => match downgrade_chain::<C::Steps>(C::VERSION, v, c.value_of()) {
            Err(e) => Err(e),
            Ok(w) => C::written_at(v, w),
        },
    }
}

/// Every step of the chain brings back what it took down.
pub open spec fn steps_undo<C: MigrationChain>() -> bool {
    forall|k: u32, x: <C::Steps as StepChain>::Value|
        C::MIN_VERSION <= k < C::VERSION ==> match #[trigger] <C::Steps as StepChain>::step_down(k, x) {
            Ok(y) => <C::Steps as StepChain>::step_up(k, y) == Ok::<<C::Steps as StepChain>::Value, MigrationError>(x),
            Err(_) => true,
        }
}

/// Every known version reads back what it writes: the payload written for a
/// value carries its version, and parses back to the value.
pub open spec fn versions_read_back<C: MigrationChain>() -> bool {
    forall|k: u32, w: <C::Steps as StepChain>::Value|
        C::MIN_VERSION <= k <= C::VERSION ==> match #[trigger] C::written_at(k, w) {
            Ok(b) => probe_version(b, C::VERSION_FIELD@) == Ok::<u32, MigrationError>(k) && C::parsed_at(k, b)
                == Ok::<<C::Steps as StepChain>::Value, MigrationError>(w),
            Err(_) => true,
        }
}

/// Migrations work both ways: when every step brings back what it took
/// down, every version reads back what it writes, and `c` is the current
/// value of its own value, then whatever the chain writes of `c` at a known
/// version reads back as `c`.
pub proof fn law_migrations_round_trip<C: MigrationChain>(c: C, k: u32)
    requires
        steps_undo::<C>(),
        versions_read_back::<C>(),
        C::current_of(c.value_of()) == Ok::<C, MigrationError>(c),
    ensures
        chain_written(c, k) matches Ok(b) ==> chain_read::<C>(b) == Ok::<C, MigrationError>(c),
{
    if let Ok(b) = chain_written(c, k) {
        if k == C::VERSION {
            assert(C::written_at(k, c.value_of()) == Ok::<Seq<u8>, MigrationError>(b));
        } else {
            let v = c.value_of();
            law_downgrade_then_upgrade::<C::Steps>(C::VERSION, k, v);
            let w = downgrade_chain::<C::Steps>(C::VERSION, k, v)->Ok_0;
            assert(C::written_at(k, w) == Ok::<Seq<u8>, MigrationError>(b));
        }
    }
}

/// Every step down succeeding passes on through a chain of them.
proof fn lemma_downgrade_succeeds<S: StepChain>(from: u32, to: u32, v: S::Value, lo: u32)
    requires
        lo <= to,
        forall|k: u32, x: S::Value| lo <= k < from ==> #[trigger] S::step_down(k, x) is Ok,
    ensures
        downgrade_chain::<S>(from, to, v) is Ok,
    decreases from - to,
{
    if from > to {
        let w = S::step_down((from - 1) as u32, v)->Ok_0;
        lemma_downgrade_succeeds::<S>((from - 1) as u32, to, w, lo);
    }
}

/// A chain whose steps down and whose writes all succeed writes every value
/// at every known version.
pub proof fn law_every_known_version_is_written<C: MigrationChain>(c: C, k: u32)
    requires
        forall|j: u32, x: <C::Steps as StepChain>::Value|
            C::MIN_VERSION <= j < C::VERSION ==> #[trigger] <C::Steps as StepChain>::step_down(j, x) is Ok,
        forall|j: u32, w: <C::Steps as StepChain>::Value|
            C::MIN_VERSION <= j <= C::VERSION ==> #[trigger] C::written_at(j, w) is Ok,
    ensures
        C::MIN_VERSION <= k <= C::VERSION ==> chain_written(c, k) is Ok,
{
    if C::MIN_VERSION <= k < C::VERSION {
        lemma_downgrade_succeeds::<C::Steps>(C::VERSION, k, c.value_of(), C::MIN_VERSION);
        let w = downgrade_chain::<C::Steps>(C::VERSION, k, c.value_of())->Ok_0;
        assert(C::written_at(k, w) is Ok);
    }
}

} // verus!
