//! The typed model of domains, their resources and telemetry.
//!
//! Timestamps are Unix seconds; percentages are whole integers unless a
//! field says otherwise. Disk sizes arrive from inspection tools that
//! report fractions; they are carried as whole units, rounded down.

use vstd::prelude::*;

verus! {

use std::collections::HashMap;

/// Lifecycle state of a domain as this library models it.
#[derive(Debug, Clone, Copy, PartialEq, Eq, Structural)]
pub enum VmState {
    Running,
    Stopped,
    Paused,
    Suspended,
    ShuttingDown,
    Creating,
    Error,
}

/// A hypervisor-managed virtual machine as presented to callers.
/// The cache owns exactly one record per `id`.
#[derive(Debug, Clone)]
pub struct VirtualMachine {
    pub id: String,
    pub name: String,
    pub state: VmState,
    /// Memory in MB.
    pub memory: u64,
    pub vcpus: u32,
    /// Aggregate disk size in GB.
    pub disk_size: u64,
    pub os_type: String,
    pub os_variant: Option<String>,
    /// Best-effort creation time, Unix seconds.
    pub created_at: u64,
    /// Best-effort last-start time, Unix seconds.
    pub last_started: Option<u64>,
    pub description: Option<String>,
    pub vnc_port: Option<u16>,
    pub spice_port: Option<u16>,
    pub snapshots: Vec<Snapshot>,
    pub network_interfaces: Vec<NetworkInterface>,
    pub storage_devices: Vec<StorageDevice>,
}

/// Validated request shape for creating a domain.
#[derive(Debug, Clone)]
pub struct VmConfig {
    pub name: String,
    /// Memory in MB.
    pub memory: u64,
    pub vcpus: u32,
    /// Disk size in GB.
    pub disk_size: u64,
    pub os_type: String,
    pub os_variant: Option<String>,
    pub description: Option<String>,
    pub network_config: NetworkConfig,
    pub storage_config: StorageConfig,
    pub display_config: DisplayConfig,
    pub boot_config: BootConfig,
}

#[derive(Debug, Clone)]
pub struct NetworkConfig {
    pub bridge: Option<String>,
    pub network_name: Option<String>,
    pub mac_address: Option<String>,
    pub model: String,
}

#[derive(Debug, Clone)]
pub struct StorageConfig {
    pub pool_name: String,
    pub format: String,
    pub bus: String,
    pub cache: String,
}

#[derive(Debug, Clone)]
pub struct DisplayConfig {
    pub graphics_type: String,
    pub listen: String,
    pub password: Option<String>,
    pub autoport: bool,
}

#[derive(Debug, Clone)]
pub struct BootConfig {
    pub boot_order: Vec<String>,
    pub iso_path: Option<String>,
    pub kernel: Option<String>,
    pub initrd: Option<String>,
    pub cmdline: Option<String>,
}

/// A point-in-time performance snapshot of one running domain.
/// Produced fresh on each request, never mutated afterwards.
#[derive(Debug, Clone)]
pub struct VmStats {
    /// Whole percent, always within 0..=100.
    pub cpu_usage: u64,
    /// Used memory in MB.
    pub memory_usage: u64,
    /// Total memory in MB.
    pub memory_total: u64,
    /// Bytes read over the sample.
    pub disk_read: u64,
    /// Bytes written over the sample.
    pub disk_write: u64,
    /// Bytes received over the sample.
    pub network_rx: u64,
    /// Bytes transmitted over the sample.
    pub network_tx: u64,
    /// Uptime in seconds; 0 means "unknown", not "just started".
    pub uptime: u64,
    /// Capture time, Unix seconds.
    pub timestamp: u64,
    pub guest_agent_connected: bool,
}

#[derive(Debug, Clone)]
pub struct HostInfo {
    pub hostname: String,
    pub hypervisor: String,
    pub hypervisor_version: String,
    pub cpu_model: String,
    pub cpu_cores: u32,
    /// Total host memory in MB.
    pub memory_total: u64,
    /// Free host memory in MB.
    pub memory_free: u64,
    pub storage_pools: Vec<StoragePool>,
    pub networks: Vec<Network>,
    pub active_vms: u32,
    pub inactive_vms: u32,
}

#[derive(Debug, Clone)]
pub struct Snapshot {
    pub name: String,
    pub description: Option<String>,
    /// Unix seconds.
    pub created_at: u64,
    pub state: String,
    pub parent: Option<String>,
}

#[derive(Debug, Clone)]
pub struct NetworkInterface {
    pub type_: String,
    pub mac_address: Option<String>,
    pub source: String,
    pub model: String,
    pub connected: bool,
}

#[derive(Debug, Clone)]
pub struct StorageDevice {
    pub device: String,
    pub type_: String,
    /// Size in GB, rounded down; 0 when no inspection result was available.
    pub size_gb: u64,
    pub path: Option<String>,
    pub bus: String,
    pub cache: Option<String>,
}

#[derive(Debug, Clone)]
pub struct VolumeInfo {
    pub name: String,
    pub path: String,
    pub format: String,
    pub capacity: u64,
    pub allocation: u64,
}

#[derive(Debug, Clone)]
pub struct VolumeConfig {
    pub name: String,
    pub format: String,
    pub capacity: u64,
    pub allocation: Option<u64>,
}

#[derive(Debug, Clone)]
pub struct StoragePool {
    pub name: String,
    pub pool_type: String,
    pub path: String,
    /// Capacity in bytes.
    pub capacity: u64,
    /// Available space in bytes.
    pub available: u64,
    /// Used space in bytes.
    pub used: u64,
    pub state: String,
    pub autostart: bool,
    pub volumes: Vec<StorageVolume>,
}

#[derive(Debug, Clone)]
pub struct StorageVolume {
    pub name: String,
    pub format: String,
    pub capacity: u64,
    pub allocation: u64,
    pub path: String,
}

#[derive(Debug, Clone)]
pub struct Network {
    pub name: String,
    pub uuid: String,
    pub bridge_name: Option<String>,
    pub forward_mode: String,
    pub state: String,
    pub autostart: bool,
    pub ip_range: Option<String>,
    pub dhcp_enabled: bool,
    pub connected_vms: Vec<String>,
}

#[derive(Debug, Clone)]
pub struct VmTemplate {
    pub name: String,
    pub description: String,
    pub os_type: String,
    pub os_variant: String,
    pub default_memory: u64,
    pub default_vcpus: u32,
    pub default_disk_size: u64,
    pub recommended_settings: HashMap<String, String>,
}

#[derive(Debug, Clone)]
pub struct MigrationTask {
    pub id: String,
    pub vm_id: String,
    pub source_host: String,
    pub target_host: String,
    pub state: MigrationState,
    /// Whole percent.
    pub progress: u64,
    /// Unix seconds.
    pub started_at: u64,
    /// Unix seconds.
    pub completed_at: Option<u64>,
    pub error_message: Option<String>,
}

#[derive(Debug, Clone, Copy, PartialEq, Eq, Structural)]
pub enum MigrationState {
    Preparing,
    Migrating,
    Completed,
    Failed,
    Cancelled,
}

/// Mathematical image of a `StorageDevice`.
pub struct StorageDeviceView {
    pub device: Seq<char>,
    pub type_: Seq<char>,
    pub size_gb: u64,
    pub path: Option<Seq<char>>,
    pub bus: Seq<char>,
    pub cache: Option<Seq<char>>,
}

impl View for StorageDevice {
    type V = StorageDeviceView;

    open spec fn view(&self) -> StorageDeviceView {
        StorageDeviceView {
            device: self.device@,
            type_: self.type_@,
            size_gb: self.size_gb,
            path: (match self.path {
                Some(p) => Some(p@),
                None => None,
            }),
            bus: self.bus@,
            cache: (match self.cache {
                Some(c) => Some(c@),
                None => None,
            }),
        }
    }
}

/// Mathematical image of a `NetworkInterface`.
pub struct NetworkInterfaceView {
    pub type_: Seq<char>,
    pub mac_address: Option<Seq<char>>,
    pub source: Seq<char>,
    pub model: Seq<char>,
    pub connected: bool,
}

impl View for NetworkInterface {
    type V = NetworkInterfaceView;

    open spec fn view(&self) -> NetworkInterfaceView {
        NetworkInterfaceView {
            type_: self.type_@,
            mac_address: (match self.mac_address {
                Some(m) => Some(m@),
                None => None,
            }),
            source: self.source@,
            model: self.model@,
            connected: self.connected,
        }
    }
}

/// View of an optional string.
pub open spec fn opt_view(o: Option<String>) -> Option<Seq<char>> {
    match o {
        Some(s) => Some(s@),
        None => None,
    }
}


/// Validated sub-shapes of a stored machine profile.
#[derive(Debug, Clone)]
pub struct ProfileNetworkConfig {
    pub bridge: String,
    pub network_name: String,
    pub mac_address: Option<String>,
    pub model: String,
}

#[derive(Debug, Clone)]
pub struct ProfileStorageConfig {
    pub pool_name: String,
    pub format: String,
    pub bus: String,
    pub cache: String,
}

#[derive(Debug, Clone)]
pub struct ProfileDisplayConfig {
    pub graphics_type: String,
    pub listen: String,
    pub password: Option<String>,
    pub autoport: bool,
}

#[derive(Debug, Clone)]
pub struct ProfileBootConfig {
    pub boot_order: Vec<String>,
    pub iso_path: Option<String>,
    pub kernel: Option<String>,
    pub initrd: Option<String>,
    pub cmdline: Option<String>,
}

#[derive(Debug, Clone)]
pub struct ProfileStorageDevice {
    pub device: String,
    pub source: String,
    pub format: String,
    pub size: u64,
    pub bus: String,
    pub cache: String,
}

#[derive(Debug, Clone)]
pub struct ProfileNetworkInterface {
    pub mac_address: String,
    pub network_name: String,
    pub interface_type: String,
    pub model: String,
    pub link_state: String,
}

} // verus!
