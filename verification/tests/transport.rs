use aimdb::transport::{ConnectorConfig, PublishError};

#[test]
fn test_connector_config_default() {
    let config = ConnectorConfig::default();
    assert_eq!(config.timeout_ms, Some(5000));
    assert_eq!(config.protocol_options.len(), 0);
}

#[test]
fn test_publish_error_copy() {
    let err = PublishError::ConnectionFailed;
    let err2 = err; // Should be Copy
    assert_eq!(err, err2);
}

fn pairs(items: &[(&str, &str)]) -> Vec<(String, String)> {
    items
        .iter()
        .map(|(k, v)| (k.to_string(), v.to_string()))
        .collect()
}

#[test]
fn from_query_lifts_the_timeout_and_passes_the_rest_through() {
    let cfg = ConnectorConfig::from_query(&pairs(&[
        ("qos", "1"),
        ("timeout_ms", "250"),
        ("retain", "true"),
    ]));
    assert_eq!(cfg.timeout_ms, Some(250));
    assert_eq!(cfg.protocol_options, pairs(&[("qos", "1"), ("retain", "true")]));
}

#[test]
fn from_query_keeps_the_default_for_an_unparsable_timeout() {
    let cfg = ConnectorConfig::from_query(&pairs(&[("timeout_ms", "soon")]));
    assert_eq!(cfg.timeout_ms, Some(5000));
    assert!(cfg.protocol_options.is_empty());
    let cfg = ConnectorConfig::from_query(&pairs(&[("timeout_ms", "4294967296")]));
    assert_eq!(cfg.timeout_ms, Some(5000));
    let cfg = ConnectorConfig::from_query(&pairs(&[
        ("timeout_ms", "10"),
        ("timeout_ms", "x"),
        ("timeout_ms", "+4294967295"),
    ]));
    assert_eq!(cfg.timeout_ms, Some(4294967295));
}

#[test]
fn publish_errors_describe_themselves() {
    assert_eq!(PublishError::Timeout.message(), "Operation timeout");
    assert_eq!(
        PublishError::BufferFull.message(),
        "Buffer full, cannot queue message"
    );
}
