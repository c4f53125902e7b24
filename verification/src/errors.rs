//! Error taxonomy of the manager.
//!
//! Every failure is carried as a variant with a human-readable detail
//! string; `message` flattens it to the single line that crosses the
//! caller boundary.

use vstd::prelude::*;

verus! {

use vstd::string::StringExecFns;

/// The errors this library reports. Validation errors are raised before
/// any side effect; management-API failures arrive here already reduced
/// to their message text by the caller that owns the connection.
#[derive(Debug, Clone)]
pub enum KvmError {
    LibvirtConnection(String),
    VmNotFound(String),
    StoragePoolNotFound(String),
    NetworkNotFound(String),
    InvalidVmConfig(String),
    VmOperationFailed(String),
    StorageOperationFailed(String),
    NetworkOperationFailed(String),
    SnapshotOperationFailed(String),
    MigrationFailed(String),
    InsufficientResources(String),
    PermissionDenied(String),
    XmlParsingError(String),
    IoError(String),
    SerializationError(String),
    Unknown(String),
}

/// The flat one-line form of an error: a fixed prefix naming the kind,
/// then the detail text.
pub open spec fn spec_message(e: KvmError) -> Seq<char> {
    match e {
        KvmError::LibvirtConnection(s) => "Libvirt connection error: "@ + s@,
        KvmError::VmNotFound(s) => "Virtual machine not found: "@ + s@,
        KvmError::StoragePoolNotFound(s) => "Storage pool not found: "@ + s@,
        KvmError::NetworkNotFound(s) => "Network not found: "@ + s@,
        KvmError::InvalidVmConfig(s) => "Invalid VM configuration: "@ + s@,
        KvmError::VmOperationFailed(s) => "VM operation failed: "@ + s@,
        KvmError::StorageOperationFailed(s) => "Storage operation failed: "@ + s@,
        KvmError::NetworkOperationFailed(s) => "Network operation failed: "@ + s@,
        KvmError::SnapshotOperationFailed(s) => "Snapshot operation failed: "@ + s@,
        KvmError::MigrationFailed(s) => "Migration failed: "@ + s@,
        KvmError::InsufficientResources(s) => "Insufficient resources: "@ + s@,
        KvmError::PermissionDenied(s) => "Permission denied: "@ + s@,
        KvmError::XmlParsingError(s) => "XML parsing error: "@ + s@,
        KvmError::IoError(s) => "I/O error: "@ + s@,
        KvmError::SerializationError(s) => "Serialization error: "@ + s@,
        KvmError::Unknown(s) => "Unknown error: "@ + s@,
    }
}

impl KvmError {
    /// The human-readable message handed across the caller boundary.
    pub fn message(&self) -> (r: String)
        ensures
            r@ == spec_message(*self),
    {
        match self {
            KvmError::LibvirtConnection(s) => String::from_str("Libvirt connection error: ").concat(s.as_str()),
            KvmError::VmNotFound(s) => String::from_str("Virtual machine not found: ").concat(s.as_str()),
            KvmError::StoragePoolNotFound(s) => String::from_str("Storage pool not found: ").concat(s.as_str()),
            KvmError::NetworkNotFound(s) => String::from_str("Network not found: ").concat(s.as_str()),
            KvmError::InvalidVmConfig(s) => String::from_str("Invalid VM configuration: ").concat(s.as_str()),
            KvmError::VmOperationFailed(s) => String::from_str("VM operation failed: ").concat(s.as_str()),
            KvmError::StorageOperationFailed(s) => String::from_str("Storage operation failed: ").concat(s.as_str()),
            KvmError::NetworkOperationFailed(s) => String::from_str("Network operation failed: ").concat(s.as_str()),
            KvmError::SnapshotOperationFailed(s) => String::from_str("Snapshot operation failed: ").concat(s.as_str()),
            KvmError::MigrationFailed(s) => String::from_str("Migration failed: ").concat(s.as_str()),
            KvmError::InsufficientResources(s) => String::from_str("Insufficient resources: ").concat(s.as_str()),
            KvmError::PermissionDenied(s) => String::from_str("Permission denied: ").concat(s.as_str()),
            KvmError::XmlParsingError(s) => String::from_str("XML parsing error: ").concat(s.as_str()),
            KvmError::IoError(s) => String::from_str("I/O error: ").concat(s.as_str()),
            KvmError::SerializationError(s) => String::from_str("Serialization error: ").concat(s.as_str()),
            KvmError::Unknown(s) => String::from_str("Unknown error: ").concat(s.as_str()),
        }
    }
}

} // verus!
