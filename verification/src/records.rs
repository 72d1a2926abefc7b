//! Record-side value types: a record's latest value, the kinds of execution
//! stage, and the per-record hooks.

use vstd::prelude::*;

use crate::error::DbError;

verus! {

/// Kind of execution stage, addressing per-stage profiling metrics.
#[derive(Debug, Clone, Copy, PartialEq, Eq, Hash, Structural)]
pub enum StageKind {
    /// A `.source()` producer callback.
    Source,
    /// A `.tap()` observer callback.
    Tap,
    /// An outbound `.link_to()` connector.
    Link,
    /// A `.transform()` callback.
    Transform,
}

/// A record's latest value.
pub struct RecordValue<T> {
    value: T,
}

impl<T> RecordValue<T> {
    /// The wrapped value.
    pub closed spec fn value_spec(&self) -> T {
        self.value
    }

    /// Wrap a value.
    pub fn new(value: T) -> (r: Self)
        ensures
            r.value_spec() == value,
    {
        RecordValue { value }
    }

    /// A reference to the underlying value.
    pub fn get(&self) -> (r: &T)
        ensures
            *r == self.value_spec(),
    {
        &self.value
    }

    /// Consume the wrapper and return the underlying value.
    pub fn into_inner(self) -> (r: T)
        ensures
            r == self.value_spec(),
    {
        self.value
    }
}

impl<T: Clone> RecordValue<T> {
    /// A clone of the underlying value.
    pub fn cloned(&self) -> (r: T)
        ensures
            cloned::<T>(self.value_spec(), r),
    {
        self.value.clone()
    }
}

/// A record with remote access reads and writes its buffer directly, so it
/// must have one.
pub open spec fn record_is_valid(remote_access: bool, has_buffer: bool) -> bool {
    !remote_access || has_buffer
}

/// The build-time check of one record: refused when it has remote access
/// but no buffer, with the message that says how to fix it.
pub fn validate_record(remote_access: bool, has_buffer: bool) -> (r: Result<(), &'static str>)
    ensures
        record_is_valid(remote_access, has_buffer) ==> r is Ok,
        !record_is_valid(remote_access, has_buffer) ==> (r matches Err(m) && m@
            == "record has .with_remote_access() but no buffer; add a buffer (e.g. .buffer(BufferCfg::SingleLatest)) so record.get/set work"@),
{
    if remote_access && !has_buffer {
        return Err(
            "record has .with_remote_access() but no buffer; add a buffer (e.g. .buffer(BufferCfg::SingleLatest)) so record.get/set work",
        );
    }
    Ok(())
}

/// What writes a record's buffer: a producer service (`.source()`), a
/// transform, and how many inbound connectors (`.link_from()`).
#[derive(Debug, Clone, Copy, PartialEq, Eq, Structural)]
pub struct Writers {
    /// A producer service is registered.
    pub has_producer: bool,
    /// A transform is registered.
    pub has_transform: bool,
    /// The number of inbound connectors.
    pub inbound_links: usize,
}

/// A registration that writes a record's buffer.
#[derive(Debug, Clone, Copy, PartialEq, Eq, Structural)]
pub enum Registration {
    /// A producer service, `.source()`.
    Source,
    /// A transform, `.transform()` or `.transform_join()`.
    Transform,
    /// An inbound connector, `.link_from()`.
    InboundLink,
}

/// Why a writer registration is refused: the writers of one record would
/// race on its buffer.
#[derive(Debug, Clone, Copy, PartialEq, Eq, Structural)]
pub enum RegistrationConflict {
    /// A source after a transform.
    TransformThenSource,
    /// A source after an inbound link.
    LinkThenSource,
    /// A second source.
    SecondSource,
    /// A transform after a source.
    SourceThenTransform,
    /// A transform after an inbound link.
    LinkThenTransform,
    /// A second transform.
    SecondTransform,
    /// An inbound link after a source.
    SourceThenLink,
    /// An inbound link after a transform.
    TransformThenLink,
}

/// The conflict a registration meets, checked in order: for a source, a
/// transform, then a link, then another source; for a transform, a source,
/// then a link, then another transform; for a link, a source, then a
/// transform. Links may be many.
pub open spec fn conflict_of(w: Writers, what: Registration) -> Option<RegistrationConflict> {
    match what {
        Registration::Source => if w.has_transform {
            Some(RegistrationConflict::TransformThenSource)
        } else if w.inbound_links > 0 {
            Some(RegistrationConflict::LinkThenSource)
        } else if w.has_producer {
            Some(RegistrationConflict::SecondSource)
        } else {
            None
        },
        Registration::Transform => if w.has_producer {
            Some(RegistrationConflict::SourceThenTransform)
        } else if w.inbound_links > 0 {
            Some(RegistrationConflict::LinkThenTransform)
        } else if w.has_transform {
            Some(RegistrationConflict::SecondTransform)
        } else {
            None
        },
        Registration::InboundLink => if w.has_producer {
            Some(RegistrationConflict::SourceThenLink)
        } else if w.has_transform {
            Some(RegistrationConflict::TransformThenLink)
        } else {
            None
        },
    }
}

/// The writers after an accepted registration.
pub open spec fn with_writer(w: Writers, what: Registration) -> Writers {
    match what {
        Registration::Source => Writers { has_producer: true, ..w },
        Registration::Transform => Writers { has_transform: true, ..w },
        Registration::InboundLink => Writers { inbound_links: (w.inbound_links + 1) as usize, ..w },
    }
}

/// One kind of writer at most: a single source, a single transform, or any
/// number of inbound links.
pub open spec fn writers_exclusive(w: Writers) -> bool {
    &&& !(w.has_producer && w.has_transform)
    &&& w.inbound_links > 0 ==> !w.has_producer && !w.has_transform
}

/// Registers a writer on a record, or refuses it and leaves the record as it
/// was. Exclusive writers stay exclusive.
pub fn register_writer(w: &mut Writers, what: Registration) -> (r: Result<(), RegistrationConflict>)
    requires
        old(w).inbound_links < usize::MAX,
    ensures
        match conflict_of(*old(w), what) {
            Some(c) => r == Err::<(), RegistrationConflict>(c) && *final(w) == *old(w),
            None => r is Ok && *final(w) == with_writer(*old(w), what),
        },
        writers_exclusive(*old(w)) ==> writers_exclusive(*final(w)),
{
    match what {
        Registration::Source => {
            if w.has_transform {
                return Err(RegistrationConflict::TransformThenSource);
            }
            if w.inbound_links > 0 {
                return Err(RegistrationConflict::LinkThenSource);
            }
            if w.has_producer {
                return Err(RegistrationConflict::SecondSource);
            }
            w.has_producer = true;
        },
        Registration::Transform => {
            if w.has_producer {
                return Err(RegistrationConflict::SourceThenTransform);
            }
            if w.inbound_links > 0 {
                return Err(RegistrationConflict::LinkThenTransform);
            }
            if w.has_transform {
                return Err(RegistrationConflict::SecondTransform);
            }
            w.has_transform = true;
        },
        Registration::InboundLink => {
            if w.has_producer {
                return Err(RegistrationConflict::SourceThenLink);
            }
            if w.has_transform {
                return Err(RegistrationConflict::TransformThenLink);
            }
            w.inbound_links = w.inbound_links + 1;
        },
    }
    Ok(())
}

/// The configuration error message of a refused registration.
pub open spec fn conflict_text(c: RegistrationConflict) -> Seq<char> {
    match c {
        RegistrationConflict::TransformThenSource => "Record already has a .transform(); cannot also have a .source()."@,
        RegistrationConflict::LinkThenSource => "Record already has a .link_from(); cannot also have a .source()."@,
        RegistrationConflict::SecondSource => "This record type already has a producer service"@,
        RegistrationConflict::SourceThenTransform => "Record already has a .source(); cannot also have a .transform()."@,
        RegistrationConflict::LinkThenTransform => "Record already has a .link_from(); cannot also have a .transform()."@,
        RegistrationConflict::SecondTransform => "Record already has a .transform(); only one is allowed."@,
        RegistrationConflict::SourceThenLink => "Record already has a .source(); cannot also have a .link_from()."@,
        RegistrationConflict::TransformThenLink => "Record already has a .transform(); cannot also have a .link_from()."@,
    }
}

impl RegistrationConflict {
    /// The configuration error message reported from the build.
    pub fn message(&self) -> (r: &'static str)
        ensures
            r@ == conflict_text(*self),
    {
        match self {
            RegistrationConflict::TransformThenSource => "Record already has a .transform(); cannot also have a .source().",
            RegistrationConflict::LinkThenSource => "Record already has a .link_from(); cannot also have a .source().",
            RegistrationConflict::SecondSource => "This record type already has a producer service",
            RegistrationConflict::SourceThenTransform => "Record already has a .source(); cannot also have a .transform().",
            RegistrationConflict::LinkThenTransform => "Record already has a .link_from(); cannot also have a .transform().",
            RegistrationConflict::SecondTransform => "Record already has a .transform(); only one is allowed.",
            RegistrationConflict::SourceThenLink => "Record already has a .source(); cannot also have a .link_from().",
            RegistrationConflict::TransformThenLink => "Record already has a .transform(); cannot also have a .link_from().",
        }
    }
}

/// Whether a remote peer may set the record: only one that no producer
/// service and no transform writes.
pub open spec fn remote_settable(w: Writers) -> bool {
    !w.has_producer && !w.has_transform
}

/// The refusal of a remote write to the record of type `record_type`.
pub open spec fn remote_set_refusal(record_type: Seq<char>) -> Seq<char> {
    "Cannot set record '"@ + record_type
        + "' - has active producer or transform. Use internal application logic instead. Remote access can only set configuration records without producers."@
}

/// Checks that a remote peer may set the record of type `record_type`:
/// refused as a denied operation when a producer service or a transform
/// writes it.
pub fn check_remote_set(w: &Writers, record_type: &str) -> (r: Result<(), DbError>)
    ensures
        remote_settable(*w) ==> r is Ok,
        !remote_settable(*w) ==> (r matches Err(DbError::PermissionDenied { operation }) && operation@
            == remote_set_refusal(record_type@)),
{
    if w.has_producer || w.has_transform {
        let m = "Cannot set record '".to_owned().concat(record_type);
        let m = m.concat(
            "' - has active producer or transform. Use internal application logic instead. Remote access can only set configuration records without producers.",
        );
        return Err(DbError::PermissionDenied { operation: m });
    }
    Ok(())
}

/// Per-record metric resets; each defaults to doing nothing.
pub trait RecordMetricsReset {
    /// Resets this record's stage profiling counters.
    fn reset_profiling(&self) {
    }

    /// Resets this record's buffer introspection counters.
    fn reset_buffer_metrics(&self) {
    }
}

/// Collects the build-time work of one record type `T`.
pub struct RecordFutureCollector<T> {
    _marker: core::marker::PhantomData<T>,
}

impl<T> RecordFutureCollector<T> {
    /// A collector for record type `T`.
    pub fn new() -> (r: Self) {
        RecordFutureCollector { _marker: core::marker::PhantomData }
    }
}

} // verus!
