use aimdb::error::{map_db_err, DbError};
use aimdb::session::RpcError;

#[test]
fn unknown_records_and_ids_map_to_not_found() {
    let e = DbError::RecordKeyNotFound { key: "temp".to_string() };
    assert_eq!(map_db_err(&e), RpcError::NotFound);
    let e = DbError::InvalidRecordId { id: 42 };
    assert_eq!(map_db_err(&e), RpcError::NotFound);
}

#[test]
fn refused_operations_map_to_denied() {
    let e = DbError::PermissionDenied { operation: "write".to_string() };
    assert_eq!(map_db_err(&e), RpcError::Denied);
}

#[test]
fn other_database_errors_map_to_internal() {
    let e = DbError::ConnectionFailed {
        endpoint: "mqtt://broker".to_string(),
        reason: "refused".to_string(),
    };
    assert_eq!(map_db_err(&e), RpcError::Internal);
    let e = DbError::CyclicDependency { records: vec!["a".to_string(), "b".to_string()] };
    assert_eq!(map_db_err(&e), RpcError::Internal);
    let e = DbError::TransformInputNotFound {
        output_key: "out".to_string(),
        input_key: "in".to_string(),
    };
    assert_eq!(map_db_err(&e), RpcError::Internal);
}

#[test]
fn database_error_messages_name_their_subject() {
    let e = DbError::RecordKeyNotFound { key: "temp".to_string() };
    assert_eq!(e.message(), "record not found: temp");
    let e = DbError::InvalidRecordId { id: 3 };
    assert_eq!(e.message(), "invalid record id");
    let e = DbError::PermissionDenied { operation: "write".to_string() };
    assert_eq!(e.message(), "permission denied: write");
    let e = DbError::ConnectionFailed {
        endpoint: "mqtt://broker".to_string(),
        reason: "refused".to_string(),
    };
    assert_eq!(e.message(), "connection to mqtt://broker failed: refused");
    let e = DbError::CyclicDependency { records: vec!["a".to_string()] };
    assert_eq!(e.message(), "transforms form a cycle");
}
