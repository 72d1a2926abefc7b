//! The checks a connector link must pass when it is registered: a valid
//! URL, a codec in the direction of the link, and a connector registered
//! for the URL's scheme.

use vstd::prelude::*;

use crate::dag::views;

verus! {

/// Why a link cannot be registered.
#[derive(Debug, Clone, PartialEq, Eq)]
pub enum LinkError {
    /// The URL could not be parsed.
    InvalidUrl,
    /// An outbound link has no serializer.
    MissingSerializer,
    /// An inbound link has no deserializer.
    MissingDeserializer,
    /// No connector is registered for this scheme.
    UnregisteredScheme { scheme: String },
}

/// The direction of a link.
#[derive(Debug, Clone, Copy, PartialEq, Eq, Structural)]
pub enum LinkDirection {
    /// Record values flow out to the connector.
    Outbound,
    /// Connector payloads flow into the record.
    Inbound,
}

/// What checking a link gives, in order: the URL, the codec, the scheme.
pub open spec fn link_check(
    direction: LinkDirection,
    scheme: Option<Seq<char>>,
    has_codec: bool,
    registered: Seq<Seq<char>>,
) -> Option<LinkError> {
    match scheme {
        None => Some(LinkError::InvalidUrl),
        Some(s) => if !has_codec {
            Some(
                if direction == LinkDirection::Outbound {
                    LinkError::MissingSerializer
                } else {
                    LinkError::MissingDeserializer
                },
            )
        } else if registered.contains(s) {
            None
        } else {
            Some(LinkError::UnregisteredScheme { scheme: choose|t: String| t@ == s })
        },
    }
}

/// Checks a link whose URL parsed to `scheme` (`None` when it did not
/// parse), given whether a codec was set and the schemes of the registered
/// connectors.
pub fn check_link(direction: LinkDirection, scheme: Option<&str>, has_codec: bool, registered: &Vec<String>) -> (r: Result<(), LinkError>)
    ensures
        match link_check(direction, match scheme { Some(s) => Some(s@), None => None }, has_codec, views(registered@)) {
            None => r is Ok,
            Some(LinkError::UnregisteredScheme { scheme: _ }) => r matches Err(LinkError::UnregisteredScheme { scheme: s }) && Some(s@) == match scheme { Some(x) => Some(x@), None => None },
            Some(e) => r == Err::<(), LinkError>(e),
        },
{
    let s = match scheme {
        None => return Err(LinkError::InvalidUrl),
        Some(s) => s,
    };
    if !has_codec {
        return Err(
            match direction {
                LinkDirection::Outbound => LinkError::MissingSerializer,
                LinkDirection::Inbound => LinkError::MissingDeserializer,
            },
        );
    }
    let owned = s.to_owned();
    let mut i: usize = 0;
    while i < registered.len()
        invariant
            owned@ == s@,
            has_codec,
            scheme == Some(s),
            i <= registered@.len(),
            forall|k: int| 0 <= k < i ==> registered@[k]@ != s@,
        decreases registered.len() - i,
    {
        if registered[i] == owned {
            assert(views(registered@)[i as int] == s@);
            assert(views(registered@).contains(s@));
            assert(link_check(direction, Some(s@), has_codec, views(registered@)) is None);
            return Ok(());
        }
        i = i + 1;
    }
    assert(!views(registered@).contains(s@)) by {
        if views(registered@).contains(s@) {
            let k = choose|k: int| 0 <= k < views(registered@).len() && #[trigger] views(registered@)[k] == s@;
            assert(registered@[k]@ == s@);
        }
    }
    Err(LinkError::UnregisteredScheme { scheme: owned })
}

/// A link whose URL parsed and that has its codec passes exactly when its
/// scheme is one of the registered schemes, wherever in the list it
/// stands; any other scheme is reported as unregistered. A missing codec
/// is reported first, whatever the scheme.
pub proof fn law_registered_schemes_pass(
    direction: LinkDirection,
    s: Seq<char>,
    registered: Seq<Seq<char>>,
    k: int,
)
    ensures
        0 <= k < registered.len() ==> link_check(direction, Some(registered[k]), true, registered) is None,
        (forall|j: int| 0 <= j < registered.len() ==> registered[j] != s) ==> link_check(
            direction,
            Some(s),
            true,
            registered,
        ) matches Some(LinkError::UnregisteredScheme { .. }),
        link_check(direction, Some(s), false, registered) == Some(
            if direction == LinkDirection::Outbound {
                LinkError::MissingSerializer
            } else {
                LinkError::MissingDeserializer
            },
        ),
        link_check(direction, None, true, registered) == Some(LinkError::InvalidUrl),
{
    if 0 <= k < registered.len() {
        assert(registered.contains(registered[k]));
    }
    if forall|j: int| 0 <= j < registered.len() ==> registered[j] != s {
        assert(!registered.contains(s));
    }
}

impl LinkError {
    /// The configuration error message for this failure.
    pub fn message(&self) -> (r: String)
        ensures
            r@ == link_error_text(*self),
    {
        match self {
            LinkError::InvalidUrl => "Invalid connector URL".to_owned(),
            LinkError::MissingSerializer => "Outbound connector requires a serializer. Call .with_serializer()".to_owned(),
            LinkError::MissingDeserializer => "Inbound connector requires a deserializer. Call .with_deserializer()".to_owned(),
            LinkError::UnregisteredScheme { scheme } => {
                let m = "No connector registered for scheme '".to_owned().concat(scheme.as_str());
                m.concat("'. Register via .with_connector()")
            },
        }
    }
}

/// The message of a link failure.
pub open spec fn link_error_text(e: LinkError) -> Seq<char> {
    match e {
        LinkError::InvalidUrl => "Invalid connector URL"@,
        LinkError::MissingSerializer => "Outbound connector requires a serializer. Call .with_serializer()"@,
        LinkError::MissingDeserializer => "Inbound connector requires a deserializer. Call .with_deserializer()"@,
        LinkError::UnregisteredScheme { scheme } => "No connector registered for scheme '"@ + scheme@
            + "'. Register via .with_connector()"@,
    }
}

} // verus!
