use aimdb::error::DbError;
use aimdb::time::{create_timeout_error, TimestampProvider};
use std::time::Instant;

struct MockTimestampProvider;

impl TimestampProvider for MockTimestampProvider {
    type Instant = Instant;

    fn now(&self) -> Self::Instant {
        Instant::now()
    }
}

#[test]
fn test_timestamp_provider_trait() {
    let provider = MockTimestampProvider;
    let timestamp1 = provider.now();

    // Timestamps should be valid Instant values
    let timestamp2 = provider.now();

    // Second timestamp should be greater than or equal to first
    assert!(timestamp2 >= timestamp1);
}

#[test]
fn test_timeout_error_creation() {
    let error = create_timeout_error("database query");
    let error_string = error.message();
    assert!(error_string.contains("database query operation timed out"));
}

#[test]
fn test_timeout_error_creation_no_std() {
    let _error = create_timeout_error("operation");
    // The error can be created without panicking.
}

#[test]
fn the_timeout_error_names_the_timeout_endpoint() {
    match create_timeout_error("sync") {
        DbError::ConnectionFailed { endpoint, reason } => {
            assert_eq!(endpoint, "timeout");
            assert_eq!(reason, "sync operation timed out");
        }
        other => panic!("unexpected {:?}", other),
    }
}
