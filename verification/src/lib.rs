//! Verified core of a KVM domain manager.
//!
//! The library holds the logic that is worth proving: the descriptor
//! codec that translates between libvirt domain XML and the typed model,
//! the metrics derivations with their fallback tiers, the retention-bounded
//! telemetry store, and the reconciler decisions over the domain cache.
//! All hypervisor, file and process I/O stays with the caller, which hands
//! plain values in and takes plain values back.

pub mod errors;
pub mod ids;
pub mod monitoring;
pub mod network;
pub mod storage;
pub mod system_monitor;
pub mod text;
pub mod types;
pub mod vm_manager;
pub mod xml_parser;

pub use errors::KvmError;
