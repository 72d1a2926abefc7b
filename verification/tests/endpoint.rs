use aimdb::endpoint::{split_host_port, split_host_port_opt, EndpointError};

const DEFAULT: u16 = 7001;

fn split(endpoint: &str) -> Result<(String, u16), EndpointError> {
    split_host_port(endpoint, DEFAULT)
}

#[test]
fn splits_host_and_port() {
    assert_eq!(split("127.0.0.1:7002"), Ok(("127.0.0.1".into(), 7002)));
}

#[test]
fn a_bare_host_takes_the_default_port() {
    assert_eq!(split("example.test"), Ok(("example.test".into(), DEFAULT)));
    assert_eq!(
        split_host_port_opt("example.test"),
        Ok(("example.test".into(), None)),
        "the caller can tell a defaulted port from a written one"
    );
}

/// A written port that is not one names no service, so it is an error
/// rather than a silent fallback to the default — that would dial a
/// different, possibly live, server.
#[test]
fn an_unparsable_port_is_rejected() {
    assert_eq!(split("host:not-a-port"), Err(EndpointError::BadPort));
    assert_eq!(split("10.0.0.5:8080x"), Err(EndpointError::BadPort));
    assert_eq!(split("host:99999"), Err(EndpointError::BadPort));
    assert_eq!(split("host:"), Err(EndpointError::BadPort));
}

/// A bracketed IPv6 literal is full of colons; only the one after `]`
/// separates the port, and the brackets are not part of the address.
#[test]
fn brackets_are_stripped_from_an_ipv6_literal() {
    assert_eq!(split("[::1]:7003"), Ok(("::1".into(), 7003)));
}

#[test]
fn a_bracketed_ipv6_host_without_a_port_is_not_mangled() {
    assert_eq!(split("[::1]"), Ok(("::1".into(), DEFAULT)));
}

/// Brackets are what let an IPv6 literal carry a port, so without them
/// every colon belongs to the address and no port was written.
#[test]
fn an_unbracketed_ipv6_literal_keeps_all_its_colons() {
    assert_eq!(split("::1"), Ok(("::1".into(), DEFAULT)));
    assert_eq!(split("fe80::1"), Ok(("fe80::1".into(), DEFAULT)));
    assert_eq!(
        split("2001:db8::dead:beef"),
        Ok(("2001:db8::dead:beef".into(), DEFAULT)),
        "the trailing group is address, not a port"
    );
}

#[test]
fn a_malformed_endpoint_is_rejected() {
    assert_eq!(split(":99999"), Err(EndpointError::EmptyHost));
    assert_eq!(split(""), Err(EndpointError::EmptyHost));
    assert_eq!(split("[]:7001"), Err(EndpointError::EmptyHost));
    assert_eq!(split("[::1"), Err(EndpointError::UnclosedBracket));
    assert_eq!(
        split("[::1]oops:7003"),
        Err(EndpointError::BadPort),
        "an explicit port behind junk is not silently honoured"
    );
}
