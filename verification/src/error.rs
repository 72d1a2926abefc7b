//! The database-level error type.

use vstd::prelude::*;

use crate::session::RpcError;

verus! {

/// Errors reported by the database core.
#[derive(Clone, Debug)]
pub enum DbError {
    /// A transform names an input record that is not registered.
    TransformInputNotFound { output_key: String, input_key: String },
    /// The transform edges form a cycle; `records` are the records that
    /// cannot be ordered.
    CyclicDependency { records: Vec<String> },
    /// A connection could not be made or an operation on it failed.
    ConnectionFailed { endpoint: String, reason: String },
    /// No record is registered under this key.
    RecordKeyNotFound { key: String },
    /// A record id does not name a record.
    InvalidRecordId { id: u64 },
    /// The operation is not permitted.
    PermissionDenied { operation: String },
}

/// The description of a database error.
pub open spec fn db_error_text(e: DbError) -> Seq<char> {
    match e {
        DbError::TransformInputNotFound { output_key, input_key } => "transform for '"@ + output_key@
            + "' reads unknown record '"@ + input_key@ + "'"@,
        DbError::CyclicDependency { records } => "transforms form a cycle"@,
        DbError::ConnectionFailed { endpoint, reason } => "connection to "@ + endpoint@ + " failed: "@
            + reason@,
        DbError::RecordKeyNotFound { key } => "record not found: "@ + key@,
        DbError::InvalidRecordId { id } => "invalid record id"@,
        DbError::PermissionDenied { operation } => "permission denied: "@ + operation@,
    }
}

/// The RPC error a database error is reported as: an unknown record or id
/// is not found, a refused operation is denied, anything else is internal.
pub open spec fn rpc_error_of(e: DbError) -> RpcError {
    match e {
        DbError::RecordKeyNotFound { .. } => RpcError::NotFound,
        DbError::InvalidRecordId { .. } => RpcError::NotFound,
        DbError::PermissionDenied { .. } => RpcError::Denied,
        _ => RpcError::Internal,
    }
}

/// Maps a database error to the RPC error reported to a remote peer.
pub fn map_db_err(e: &DbError) -> (r: RpcError)
    ensures
        r == rpc_error_of(*e),
{
    match e {
        DbError::RecordKeyNotFound { .. } | DbError::InvalidRecordId { .. } => RpcError::NotFound,
        DbError::PermissionDenied { .. } => RpcError::Denied,
        _ => RpcError::Internal,
    }
}

impl DbError {
    /// A human-readable description of the error.
    pub fn message(&self) -> (r: String)
        ensures
            r@ == db_error_text(*self),
    {
        match self {
            DbError::TransformInputNotFound { output_key, input_key } => {
                let s = "transform for '".to_owned().concat(output_key.as_str());
                let s = s.concat("' reads unknown record '");
                let s = s.concat(input_key.as_str());
                s.concat("'")
            },
            DbError::CyclicDependency { .. } => "transforms form a cycle".to_owned(),
            DbError::ConnectionFailed { endpoint, reason } => {
                let s = "connection to ".to_owned().concat(endpoint.as_str());
                let s = s.concat(" failed: ");
                s.concat(reason.as_str())
            },
            DbError::RecordKeyNotFound { key } => "record not found: ".to_owned().concat(key.as_str()),
            DbError::InvalidRecordId { .. } => "invalid record id".to_owned(),
            DbError::PermissionDenied { operation } => "permission denied: ".to_owned().concat(
                operation.as_str(),
            ),
        }
    }
}

} // verus!
