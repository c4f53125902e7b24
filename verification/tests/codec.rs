//! Descriptor codec behaviour: tolerant parsing, documented defaults,
//! and the generate/parse round trip.

use kvm_manager::types::{BootConfig, DisplayConfig, NetworkConfig, StorageConfig, VmConfig};
use kvm_manager::vm_manager::generate_vm_xml;
use kvm_manager::xml_parser::{apply_disk_sizes, XmlParser};

fn sample_config(name: &str, memory: u64, vcpus: u32, disk_size: u64) -> VmConfig {
    VmConfig {
        name: name.to_string(),
        memory,
        vcpus,
        disk_size,
        os_type: "linux".to_string(),
        os_variant: Some("generic".to_string()),
        description: None,
        network_config: NetworkConfig {
            bridge: None,
            network_name: Some("default".to_string()),
            mac_address: None,
            model: "virtio".to_string(),
        },
        storage_config: StorageConfig {
            pool_name: "default".to_string(),
            format: "qcow2".to_string(),
            bus: "virtio".to_string(),
            cache: "none".to_string(),
        },
        display_config: DisplayConfig {
            graphics_type: "vnc".to_string(),
            listen: "127.0.0.1".to_string(),
            password: None,
            autoport: true,
        },
        boot_config: BootConfig {
            boot_order: vec!["hd".to_string()],
            iso_path: None,
            kernel: None,
            initrd: None,
            cmdline: None,
        },
    }
}

#[test]
fn parse_defaults_for_missing_optional_fields() {
    let doc = "<domain><name>just-a-name</name></domain>";
    let info = XmlParser::parse_vm_from_xml(doc).expect("name is present, parse must succeed");
    assert_eq!(info.name, "just-a-name");
    assert_eq!(info.uuid.len(), 36);
    assert_eq!(info.memory_mb, 0);
    assert_eq!(info.vcpus, 0);
    assert_eq!(info.os_type, "linux");
    assert_eq!(info.os_variant.as_deref(), Some("generic"));
    assert!(info.storage_devices.is_empty());
    assert!(info.network_interfaces.is_empty());
    assert_eq!(info.vnc_port, None);
    assert_eq!(info.spice_port, None);
    assert_eq!(info.description, None);
    assert_eq!(info.disk_size_gb, 0);
}

#[test]
fn parse_rejects_document_without_name() {
    let doc = "<domain><memory unit='KiB'>1024</memory></domain>";
    assert!(XmlParser::parse_vm_from_xml(doc).is_err());
}

#[test]
fn parse_memory_kib_to_mb() {
    let doc = "<domain><name>m</name><memory unit='KiB'>2097152</memory></domain>";
    let info = XmlParser::parse_vm_from_xml(doc).unwrap();
    assert_eq!(info.memory_mb, 2048);
}

#[test]
fn parse_does_not_confuse_current_memory() {
    let doc = "<domain><name>m</name><memory unit='KiB'>1048576</memory>\
               <currentMemory unit='KiB'>524288</currentMemory><vcpu placement='static'>4</vcpu></domain>";
    let info = XmlParser::parse_vm_from_xml(doc).unwrap();
    assert_eq!(info.memory_mb, 1024);
    assert_eq!(info.vcpus, 4);
}

#[test]
fn cdrom_devices_are_excluded() {
    let doc = "<domain><name>d</name>\
        <disk type='file' device='cdrom'><driver type='raw'/><target dev='sda' bus='sata'/></disk>\
        <disk type='file' device='disk'><driver type='qcow2' cache='none'/>\
        <source file='/img/a.qcow2'/><target dev='vda' bus='virtio'/></disk>\
        </domain>";
    let info = XmlParser::parse_vm_from_xml(doc).unwrap();
    assert_eq!(info.storage_devices.len(), 1);
    let d = &info.storage_devices[0];
    assert_eq!(d.device, "vda");
    assert_eq!(d.type_, "qcow2");
    assert_eq!(d.bus, "virtio");
    assert_eq!(d.path.as_deref(), Some("/img/a.qcow2"));
    assert_eq!(d.cache.as_deref(), Some("none"));
    assert_eq!(d.size_gb, 0);
}

#[test]
fn disk_defaults_apply() {
    let doc = "<domain><name>d</name>\
        <disk type='file' device='disk'><source dev='/dev/sdb'/></disk></domain>";
    let info = XmlParser::parse_vm_from_xml(doc).unwrap();
    assert_eq!(info.storage_devices.len(), 1);
    let d = &info.storage_devices[0];
    assert_eq!(d.device, "vda");
    assert_eq!(d.type_, "raw");
    assert_eq!(d.bus, "virtio");
    assert_eq!(d.path.as_deref(), Some("/dev/sdb"));
    assert_eq!(d.cache, None);
}

#[test]
fn interface_parsing_and_defaults() {
    let doc = "<domain><name>n</name>\
        <interface type='network'><mac address='52:54:00:aa:bb:cc'/>\
        <source network='default'/><model type='virtio'/></interface>\
        <interface type='bridge'><source bridge='br0'/></interface>\
        </domain>";
    let info = XmlParser::parse_vm_from_xml(doc).unwrap();
    assert_eq!(info.network_interfaces.len(), 2);
    let a = &info.network_interfaces[0];
    assert_eq!(a.type_, "network");
    assert_eq!(a.mac_address.as_deref(), Some("52:54:00:aa:bb:cc"));
    assert_eq!(a.source, "default");
    assert_eq!(a.model, "virtio");
    assert!(a.connected);
    let b = &info.network_interfaces[1];
    assert_eq!(b.type_, "bridge");
    assert_eq!(b.source, "br0");
    assert_eq!(b.model, "rtl8139");
}

#[test]
fn graphics_ports() {
    let auto = "<domain><name>g</name><graphics type='vnc' port='-1'/></domain>";
    let info = XmlParser::parse_vm_from_xml(auto).unwrap();
    assert_eq!(info.vnc_port, None);
    let fixed = "<domain><name>g</name><graphics type='vnc' port='5901'/></domain>";
    let info = XmlParser::parse_vm_from_xml(fixed).unwrap();
    assert_eq!(info.vnc_port, Some(5901));
    assert_eq!(info.spice_port, None);
    let spice = "<domain><name>g</name><graphics type='spice' port='5902'/></domain>";
    let info = XmlParser::parse_vm_from_xml(spice).unwrap();
    assert_eq!(info.spice_port, Some(5902));
    assert_eq!(info.vnc_port, None);
}

#[test]
fn os_classification_from_metadata() {
    let doc = "<domain><name>o</name><metadata>\
        <libosinfo:os id=\"http://debian.org/debian/12\"/></metadata></domain>";
    let info = XmlParser::parse_vm_from_xml(doc).unwrap();
    assert_eq!(info.os_type, "linux");
    assert_eq!(info.os_variant.as_deref(), Some("debian"));
}

#[test]
fn os_classification_fallback_scan_is_case_insensitive() {
    let doc = "<domain><name>o</name><description>Runs WINDOWS server</description></domain>";
    let info = XmlParser::parse_vm_from_xml(doc).unwrap();
    assert_eq!(info.os_type, "windows");
    assert_eq!(info.os_variant.as_deref(), Some("win10"));
    let bsd = "<domain><name>o</name><description>FreeBSD appliance</description></domain>";
    let info = XmlParser::parse_vm_from_xml(bsd).unwrap();
    assert_eq!(info.os_type, "bsd");
}

#[test]
fn attribute_extraction_tolerates_both_quote_kinds() {
    let single = XmlParser::extract_attribute_value("<target dev='vda' bus='virtio'/>", "target", "dev");
    assert_eq!(single.as_deref(), Some("vda"));
    let double = XmlParser::extract_attribute_value("<target dev=\"vdb\" bus=\"sata\"/>", "target", "dev");
    assert_eq!(double.as_deref(), Some("vdb"));
    let spaced = XmlParser::extract_attribute_value("<target dev = 'vdc'/>", "target", "dev");
    assert_eq!(spaced.as_deref(), Some("vdc"));
    let missing = XmlParser::extract_attribute_value("<target bus='virtio'/>", "target", "dev");
    assert_eq!(missing, None);
}

#[test]
fn extract_between_tags_trims_and_handles_attributes() {
    let r = XmlParser::extract_between_tags("<a><name>  spaced  </name></a>", "name");
    assert_eq!(r.as_deref(), Some("spaced"));
    let r = XmlParser::extract_between_tags("<a><memory unit='KiB'>77</memory></a>", "memory");
    assert_eq!(r.as_deref(), Some("77"));
    let r = XmlParser::extract_between_tags("<a><name>unclosed", "name");
    assert_eq!(r, None);
}

#[test]
fn description_falls_back_to_title() {
    let doc = "<domain><name>x</name><title>short title</title></domain>";
    let info = XmlParser::parse_vm_from_xml(doc).unwrap();
    assert_eq!(info.description.as_deref(), Some("short title"));
    let doc = "<domain><name>x</name><description>long text</description><title>t</title></domain>";
    let info = XmlParser::parse_vm_from_xml(doc).unwrap();
    assert_eq!(info.description.as_deref(), Some("long text"));
}

#[test]
fn generate_then_parse_recovers_fields() {
    let config = sample_config("test-vm", 2048, 2, 10);
    let xml = generate_vm_xml(&config, "11111111-2222-3333-4444-555555555555");
    let info = XmlParser::parse_vm_from_xml(&xml).unwrap();
    assert_eq!(info.name, "test-vm");
    assert_eq!(info.memory_mb, 2048);
    assert_eq!(info.vcpus, 2);
    assert_eq!(info.uuid, "11111111-2222-3333-4444-555555555555");
    assert_eq!(info.storage_devices.len(), 1);
    assert_eq!(info.storage_devices[0].type_, "qcow2");
    assert_eq!(info.vnc_port, None);
}

#[test]
fn apply_disk_sizes_updates_devices_and_total() {
    let doc = "<domain><name>d</name>\
        <disk type='file' device='disk'><source file='/a'/><target dev='vda'/></disk>\
        <disk type='file' device='disk'><source file='/b'/><target dev='vdb'/></disk>\
        </domain>";
    let mut info = XmlParser::parse_vm_from_xml(doc).unwrap();
    let sizes = vec![10u64, 7u64];
    apply_disk_sizes(&mut info, &sizes);
    assert_eq!(info.storage_devices[0].size_gb, 10);
    assert_eq!(info.storage_devices[1].size_gb, 7);
    assert_eq!(info.disk_size_gb, 17);
    assert_eq!(info.storage_devices[0].device, "vda");
}

#[test]
fn netmask_to_cidr_table() {
    assert_eq!(XmlParser::netmask_to_cidr("255.255.255.0"), 24);
    assert_eq!(XmlParser::netmask_to_cidr("255.255.255.255"), 32);
    assert_eq!(XmlParser::netmask_to_cidr("255.0.0.0"), 8);
    assert_eq!(XmlParser::netmask_to_cidr("255.255.240.0"), 20);
    assert_eq!(XmlParser::netmask_to_cidr("not-a-mask"), 24);
}

#[test]
fn parse_network_document() {
    let doc = "<network><name>isolated</name><forward mode='route'/>\
        <bridge name='virbr7'/><ip address='192.168.100.1' netmask='255.255.255.0'>\
        <dhcp><range start='192.168.100.10' end='192.168.100.200'/></dhcp></ip></network>";
    let info = XmlParser::parse_network_from_xml(doc).unwrap();
    assert_eq!(info.name, "isolated");
    assert_eq!(info.forward_mode, "route");
    assert_eq!(info.bridge_name.as_deref(), Some("virbr7"));
    assert_eq!(info.ip_range.as_deref(), Some("192.168.100.1/24"));
    assert!(info.dhcp_enabled);
    assert_eq!(info.dhcp_start.as_deref(), Some("192.168.100.10"));
    assert_eq!(info.dhcp_end.as_deref(), Some("192.168.100.200"));
}

#[test]
fn parse_storage_pool_documents() {
    let dir = "<pool type='dir'><name>default</name>\
        <target><path>/var/lib/libvirt/images</path></target></pool>";
    let info = XmlParser::parse_storage_pool_from_xml(dir).unwrap();
    assert_eq!(info.name, "default");
    assert_eq!(info.pool_type, "dir");
    assert_eq!(info.path.as_deref(), Some("/var/lib/libvirt/images"));
    assert_eq!(info.source_name, None);

    let logical = "<pool type='logical'><name>vg0</name>\
        <source><name>volgroup</name></source><target><path>/dev/vg0</path></target></pool>";
    let info = XmlParser::parse_storage_pool_from_xml(logical).unwrap();
    assert_eq!(info.pool_type, "logical");
    assert_eq!(info.source_name.as_deref(), Some("volgroup"));

    let iscsi = "<pool type='iscsi'><name>remote</name>\
        <source><host name='10.0.0.2'/><device path='iqn.2001-05.com.example:disk'/></source>\
        <target><path>/dev/disk/by-path</path></target></pool>";
    let info = XmlParser::parse_storage_pool_from_xml(iscsi).unwrap();
    assert_eq!(info.pool_type, "iscsi");
    assert_eq!(info.source_host.as_deref(), Some("10.0.0.2"));
    assert_eq!(info.source_device.as_deref(), Some("iqn.2001-05.com.example:disk"));
}

#[test]
fn extract_section_returns_whole_element() {
    let doc = "<pool><target><path>/p</path></target></pool>";
    let sec = XmlParser::extract_section(doc, "target");
    assert_eq!(sec.as_deref(), Some("<target><path>/p</path></target>"));
    assert_eq!(XmlParser::extract_section(doc, "source"), None);
}
