//! Reconciler behaviour: validation, lifecycle decisions, the cache's
//! uniqueness guarantees, and the creation flow end to end.

use kvm_manager::errors::KvmError;
use kvm_manager::network::{NetworkCreateConfig, NetworkManager};
use kvm_manager::storage::StorageManager;
use kvm_manager::types::{
    BootConfig, DisplayConfig, NetworkConfig, StorageConfig, VmConfig, VmState, VolumeConfig,
};
use kvm_manager::vm_manager::{
    delete_plan, domain_to_vm, domain_uses_network, ensure_running, map_domain_state,
    parse_snapshot_list, plan_create, plan_create_from_qcow2, plan_create_proxmox, start_action,
    validate_vm_config, StartAction, VmCache,
};
use kvm_manager::xml_parser::XmlParser;

fn config(name: &str, memory: u64, vcpus: u32, disk_size: u64) -> VmConfig {
    VmConfig {
        name: name.to_string(),
        memory,
        vcpus,
        disk_size,
        os_type: "linux".to_string(),
        os_variant: None,
        description: None,
        network_config: NetworkConfig {
            bridge: None,
            network_name: None,
            mac_address: None,
            model: "virtio".to_string(),
        },
        storage_config: StorageConfig {
            pool_name: "default".to_string(),
            format: "qcow2".to_string(),
            bus: "virtio".to_string(),
            cache: "writeback".to_string(),
        },
        display_config: DisplayConfig {
            graphics_type: "spice".to_string(),
            listen: "127.0.0.1".to_string(),
            password: None,
            autoport: true,
        },
        boot_config: BootConfig {
            boot_order: vec![],
            iso_path: None,
            kernel: None,
            initrd: None,
            cmdline: None,
        },
    }
}

#[test]
fn validation_rejects_each_bad_field() {
    assert!(validate_vm_config(&config("ok", 2048, 2, 10)).is_ok());
    let e = validate_vm_config(&config("", 2048, 2, 10)).unwrap_err();
    assert_eq!(e.message(), "Invalid VM configuration: VM name cannot be empty");
    let e = validate_vm_config(&config("x", 64, 2, 10)).unwrap_err();
    assert_eq!(e.message(), "Invalid VM configuration: Memory must be at least 128 MB");
    let e = validate_vm_config(&config("x", 2048, 0, 10)).unwrap_err();
    assert_eq!(e.message(), "Invalid VM configuration: Must have at least 1 vCPU");
    let e = validate_vm_config(&config("x", 2048, 2, 0)).unwrap_err();
    assert_eq!(e.message(), "Invalid VM configuration: Disk size must be at least 1 GB");
}

#[test]
fn stats_refused_for_stopped_domain() {
    let err = ensure_running(VmState::Stopped).unwrap_err();
    assert!(matches!(err, KvmError::VmOperationFailed(_)));
    assert_eq!(err.message(), "VM operation failed: VM is not running");
    assert!(ensure_running(VmState::Running).is_ok());
}

#[test]
fn starting_an_active_domain_is_a_no_op() {
    assert_eq!(start_action(true), StartAction::AlreadyRunning);
    assert_eq!(start_action(false), StartAction::Launch);
    assert!(delete_plan(true).stop_first);
    assert!(!delete_plan(false).stop_first);
}

#[test]
fn state_codes_map_totally() {
    assert_eq!(map_domain_state(0), VmState::Stopped);
    assert_eq!(map_domain_state(1), VmState::Running);
    assert_eq!(map_domain_state(2), VmState::Running);
    assert_eq!(map_domain_state(3), VmState::Paused);
    assert_eq!(map_domain_state(4), VmState::ShuttingDown);
    assert_eq!(map_domain_state(5), VmState::Stopped);
    assert_eq!(map_domain_state(6), VmState::Error);
    assert_eq!(map_domain_state(7), VmState::Suspended);
    assert_eq!(map_domain_state(99), VmState::Error);
}

#[test]
fn create_flow_yields_listable_vm() {
    let cfg = config("test-vm", 2048, 2, 10);
    let plan = plan_create(&cfg).expect("valid configuration must plan");
    assert_eq!(plan.vm_id.len(), 36);
    assert!(!plan.vm_id.is_empty());
    // The hypervisor would define and start the domain from plan.xml;
    // reconciliation then reads the same document back.
    let info = XmlParser::parse_vm_from_xml(&plan.xml).unwrap();
    assert_eq!(info.name, "test-vm");
    assert_eq!(info.memory_mb, 2048);
    assert_eq!(info.vcpus, 2);
    assert_eq!(info.uuid, plan.vm_id);
    let raw = kvm_manager::vm_manager::DomainRawInfo {
        uuid: plan.vm_id.clone(),
        name: info.name.clone(),
        state_code: 1,
        memory_kib: 2048 * 1024,
        nr_virt_cpu: 2,
    };
    let vm = domain_to_vm(raw, info, vec![], 0, None);
    let mut cache = VmCache::new();
    cache.upsert(vm);
    assert!(cache.contains_id(&plan.vm_id));
    let listed = cache.get(0);
    assert_eq!(listed.name, "test-vm");
    assert_eq!(listed.memory, 2048);
    assert_eq!(listed.vcpus, 2);
    assert_eq!(listed.state, VmState::Running);
}

#[test]
fn invalid_create_plans_fail_before_any_side_effect() {
    let e = plan_create(&config("", 2048, 2, 10)).unwrap_err();
    assert!(matches!(e, KvmError::InvalidVmConfig(_)));
}

#[test]
fn deleting_removes_from_cache_and_listing() {
    let cfg_a = config("vm-a", 1024, 1, 5);
    let cfg_b = config("vm-b", 1024, 1, 5);
    let plan_a = plan_create(&cfg_a).unwrap();
    let plan_b = plan_create(&cfg_b).unwrap();
    let mut cache = VmCache::new();
    for plan in [&plan_a, &plan_b] {
        let info = XmlParser::parse_vm_from_xml(&plan.xml).unwrap();
        let raw = kvm_manager::vm_manager::DomainRawInfo {
            uuid: plan.vm_id.clone(),
            name: info.name.clone(),
            state_code: 5,
            memory_kib: 1024 * 1024,
            nr_virt_cpu: 1,
        };
        cache.upsert(domain_to_vm(raw, info, vec![], 0, None));
    }
    assert_eq!(cache.len(), 2);
    // Upserting the same id again replaces, never duplicates.
    let info = XmlParser::parse_vm_from_xml(&plan_a.xml).unwrap();
    let raw = kvm_manager::vm_manager::DomainRawInfo {
        uuid: plan_a.vm_id.clone(),
        name: info.name.clone(),
        state_code: 1,
        memory_kib: 1024 * 1024,
        nr_virt_cpu: 1,
    };
    cache.upsert(domain_to_vm(raw, info, vec![], 0, None));
    assert_eq!(cache.len(), 2);
    // Confirmed deletion removes the record and the listing entry.
    cache.remove_vm(&plan_a.vm_id);
    assert!(!cache.contains_id(&plan_a.vm_id));
    assert!(cache.contains_id(&plan_b.vm_id));
    let ids = cache.ids();
    assert!(!ids.contains(&plan_a.vm_id));
    assert!(ids.contains(&plan_b.vm_id));
}

#[test]
fn snapshot_listing_parses_tool_output() {
    let out = "snap1\n  snap2  \n\nsnap3\n";
    let snaps = parse_snapshot_list(out, 42);
    assert_eq!(snaps.len(), 3);
    assert_eq!(snaps[0].name, "snap1");
    assert_eq!(snaps[1].name, "snap2");
    assert_eq!(snaps[2].name, "snap3");
    assert_eq!(snaps[0].created_at, 42);
    assert_eq!(snaps[0].state, "disk-snapshot");
    assert_eq!(snaps[0].parent, None);
    assert!(parse_snapshot_list("", 1).is_empty());
}

#[test]
fn disk_image_plan_parses_back() {
    let plan = plan_create_from_qcow2("/img/base.qcow2", "imported", 4096, 4, Some("/dev/sdz"))
        .expect("memory within range");
    assert_eq!(plan.vm_id.len(), 36);
    let info = XmlParser::parse_vm_from_xml(&plan.xml).unwrap();
    assert_eq!(info.name, "imported");
    assert_eq!(info.memory_mb, 4096);
    assert_eq!(info.vcpus, 4);
    // Both the image disk and the pass-through block device are declared.
    assert_eq!(info.storage_devices.len(), 2);
    assert_eq!(info.storage_devices[0].path.as_deref(), Some("/img/base.qcow2"));
    assert_eq!(info.storage_devices[1].path.as_deref(), Some("/dev/sdz"));
    // The metadata block classifies the guest.
    assert_eq!(info.os_type, "linux");
    assert_eq!(info.os_variant.as_deref(), Some("debian"));
    // A fresh MAC with the fixed prefix was drawn.
    assert!(plan.xml.contains("<mac address='52:54:00:"));
}

#[test]
fn import_image_plan_declares_guest_agent() {
    let plan = plan_create_proxmox("appliance", "/img/appliance.qcow2", 4, 2);
    assert_eq!(plan.vm_id.len(), 36);
    assert!(kvm_manager::monitoring::check_guest_agent(&plan.xml));
    let info = XmlParser::parse_vm_from_xml(&plan.xml).unwrap();
    assert_eq!(info.name, "appliance");
    assert_eq!(info.vcpus, 2);
    assert_eq!(info.vnc_port, None);
}

#[test]
fn network_membership_check() {
    let xml = "<interface type='network'><source network='default'/></interface>";
    assert!(domain_uses_network(xml, "default"));
    assert!(!domain_uses_network(xml, "isolated"));
}

#[test]
fn network_document_generation() {
    let cfg = NetworkCreateConfig {
        name: "lab".to_string(),
        forward_mode: "nat".to_string(),
        bridge_name: Some("virbr9".to_string()),
        ip_range: Some("10.10.0.1/24".to_string()),
        dhcp_enabled: true,
        dhcp_range_start: Some("10.10.0.10".to_string()),
        dhcp_range_end: Some("10.10.0.99".to_string()),
        auto_start: true,
    };
    let xml = NetworkManager::generate_network_xml(&cfg);
    assert!(xml.contains("<name>lab</name>"));
    assert!(xml.contains("<forward mode='nat'>"));
    assert!(xml.contains("<bridge name='virbr9' stp='on' delay='0'/>"));
    assert!(xml.contains("<ip address='10.10.0.1' netmask='255.255.255.0'>"));
    assert!(xml.contains("<range start='10.10.0.10' end='10.10.0.99'/>"));
    // Re-parsing the generated document recovers the shape.
    let parsed = XmlParser::parse_network_from_xml(&xml).unwrap();
    assert_eq!(parsed.name, "lab");
    assert_eq!(parsed.forward_mode, "nat");
    assert_eq!(parsed.bridge_name.as_deref(), Some("virbr9"));
    assert!(parsed.dhcp_enabled);
    assert_eq!(parsed.ip_range.as_deref(), Some("10.10.0.1/24"));
    // A mode this library does not know falls back to plain NAT.
    let odd = NetworkCreateConfig { forward_mode: "mesh".to_string(), ..cfg };
    let xml = NetworkManager::generate_network_xml(&odd);
    assert!(xml.contains("<forward mode='nat'/>"));
}

#[test]
fn volume_document_generation() {
    let cfg = VolumeConfig {
        name: "disk0".to_string(),
        format: "qcow2".to_string(),
        capacity: 10_737_418_240,
        allocation: None,
    };
    let xml = StorageManager::generate_volume_xml(&cfg);
    assert!(xml.contains("<name>disk0</name>"));
    assert!(xml.contains("<capacity unit='bytes'>10737418240</capacity>"));
    // Absent allocation means fully allocated.
    assert!(xml.contains("<allocation unit='bytes'>10737418240</allocation>"));
    assert!(xml.contains("<format type='qcow2'/>"));
    let clone = StorageManager::generate_clone_volume_xml(&cfg, "/var/lib/libvirt/images/base.qcow2");
    // Clones are thin by default and reference their backing file.
    assert!(clone.contains("<allocation unit='bytes'>0</allocation>"));
    assert!(clone.contains("<path>/var/lib/libvirt/images/base.qcow2</path>"));
    assert_eq!(
        StorageManager::parse_volume_format_from_xml("<volume><target><format type='qcow2'/></target></volume>"),
        "qcow2"
    );
    assert_eq!(StorageManager::parse_volume_format_from_xml("<volume/>"), "raw");
}

#[test]
fn error_messages_are_flat_and_prefixed() {
    assert_eq!(
        KvmError::VmNotFound("vm-7".to_string()).message(),
        "Virtual machine not found: vm-7"
    );
    assert_eq!(
        KvmError::LibvirtConnection("refused".to_string()).message(),
        "Libvirt connection error: refused"
    );
    assert_eq!(KvmError::XmlParsingError("bad".to_string()).message(), "XML parsing error: bad");
}
