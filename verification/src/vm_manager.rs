//! The reconciling layer: descriptor generation for new domains,
//! configuration validation, state mapping, the domain cache with its
//! uniqueness invariant, and the decision functions that the lifecycle
//! operations are built from. The hypervisor connection itself stays with
//! the caller: every function here goes from plain values to plain values.

use vstd::prelude::*;

verus! {

use vstd::string::StrSliceExecFns;
use vstd::string::StringExecFns;
use crate::text::dec_str;
use crate::text::dec_val;
use crate::text::all_digits;
use crate::text::is_digit_char;
use crate::text::is_space_char;
use crate::text::lemma_dec_str_digits;
use crate::text::lemma_dec_str_val;
use crate::text::lemma_trim_id;
use crate::text::trim_spec;
use crate::text::u64_to_string;
use crate::xml_parser::clean_for;
use crate::xml_parser::lemma_clean_concat;
use crate::xml_parser::lemma_clean_no_lt;
use crate::xml_parser::lemma_clean_digits;
use crate::xml_parser::lemma_first_tag_extract;
use crate::xml_parser::lt_tag;
use crate::xml_parser::close_tag;
use crate::xml_parser::tag_content_spec;
use crate::xml_parser::parsed_memory_mb;
use crate::xml_parser::parsed_vcpus;
use crate::xml_parser::dec_parse_ok;
use crate::types::VmConfig;
use crate::types::opt_view;
use crate::types::VmState;
use crate::types::VirtualMachine;
use crate::types::Snapshot;
use crate::errors::KvmError;

/// The descriptor document generated for a fresh domain: one fixed
/// template, parameterized by the validated configuration and a freshly
/// minted identity. Memory is written in KiB.
pub open spec fn vm_xml_spec(
    name: Seq<char>,
    id: Seq<char>,
    mem: u64,
    vcpus: u32,
    fmt: Seq<char>,
    cache: Seq<char>,
    bus: Seq<char>,
    net: Seq<char>,
    model: Seq<char>,
    gfx: Seq<char>,
) -> Seq<char> {
    "<domain type='kvm'>\n  "@ + "<name>"@ + name + "</name>"@ + "\n  "@ + "<uuid>"@ + id + "</uuid>"@ + "\n  "@ + "<memory unit='KiB'>"@ + dec_str(mem as int * 1024) + "</memory>"@ + "\n  <currentMemory unit='KiB'>"@ + dec_str(mem as int * 1024) + "</currentMemory>\n  "@ + "<vcpu placement='static'>"@ + dec_str(vcpus as int) + "</vcpu>"@ + "\n  <os>\n    <type arch='x86_64' machine='pc-q35-6.2'>hvm</type>\n    <boot dev='hd'/>\n    <boot dev='cdrom'/>\n  </os>\n  <features>\n    <acpi/>\n    <apic/>\n    <vmport state='off'/>\n  </features>\n  <cpu mode='host-model' check='partial'/>\n  <clock offset='utc'>\n    <timer name='rtc' tickpolicy='catchup'/>\n    <timer name='pit' tickpolicy='delay'/>\n    <timer name='hpet' present='no'/>\n  </clock>\n  <on_poweroff>destroy</on_poweroff>\n  <on_reboot>restart</on_reboot>\n  <on_crash>destroy</on_crash>\n  <pm>\n    <suspend-to-mem enabled='no'/>\n    <suspend-to-disk enabled='no'/>\n  </pm>\n  <devices>\n    <emulator>/usr/bin/qemu-system-x86_64</emulator>\n    <disk type='file' device='disk'>\n      <driver name='qemu' type='"@ + fmt + "' cache='"@ + cache + "'/>\n      <source file='/var/lib/libvirt/images/"@ + name + "."@ + fmt + "'/>\n      <target dev='vda' bus='"@ + bus + "'/>\n      <address type='pci' domain='0x0000' bus='0x03' slot='0x00' function='0x0'/>\n    </disk>\n    <controller type='usb' index='0' model='qemu-xhci'>\n      <address type='pci' domain='0x0000' bus='0x02' slot='0x00' function='0x0'/>\n    </controller>\n    <interface type='network'>\n      <source network='"@ + net + "'/>\n      <model type='"@ + model + "'/>\n      <address type='pci' domain='0x0000' bus='0x01' slot='0x00' function='0x0'/>\n    </interface>\n    <graphics type='"@ + gfx + "' port='-1' autoport='yes' listen='127.0.0.1'>\n      <listen type='address' address='127.0.0.1'/>\n    </graphics>\n    <video>\n      <model type='qxl' ram='65536' vram='65536' vgamem='16384' heads='1' primary='yes'/>\n      <address type='pci' domain='0x0000' bus='0x00' slot='0x02' function='0x0'/>\n    </video>\n    <memballoon model='virtio'>\n      <address type='pci' domain='0x0000' bus='0x04' slot='0x00' function='0x0'/>\n    </memballoon>\n  </devices>\n</domain>"@
}

/// Generate the descriptor for a new domain. The caller supplies the
/// fresh identity; the memory bound is the machine limit of the KiB
/// conversion.
pub fn generate_vm_xml(config: &VmConfig, vm_id: &str) -> (r: String)
    requires
        config.memory <= u64::MAX / 1024,
    ensures
        r@ == vm_xml_spec(
            config.name@,
            vm_id@,
            config.memory,
            config.vcpus,
            config.storage_config.format@,
            config.storage_config.cache@,
            config.storage_config.bus@,
            (match opt_view(config.network_config.network_name) {
                Some(v) => v,
                None => "default"@,
            }),
            config.network_config.model@,
            config.display_config.graphics_type@,
        ),
{
    let mem_kib = u64_to_string(config.memory * 1024);
    let vcpu_s = u64_to_string(config.vcpus as u64);
    let net = (match &config.network_config.network_name {
        Some(v) => v.clone(),
        None => String::from_str("default"),
    });
    let mut r = String::from_str("<domain type='kvm'>\n  ");
    r.append("<name>");
    r.append(config.name.as_str());
    r.append("</name>");
    r.append("\n  ");
    r.append("<uuid>");
    r.append(vm_id);
    r.append("</uuid>");
    r.append("\n  ");
    r.append("<memory unit='KiB'>");
    r.append(mem_kib.as_str());
    r.append("</memory>");
    r.append("\n  <currentMemory unit='KiB'>");
    r.append(mem_kib.as_str());
    r.append("</currentMemory>\n  ");
    r.append("<vcpu placement='static'>");
    r.append(vcpu_s.as_str());
    r.append("</vcpu>");
    r.append("\n  <os>\n    <type arch='x86_64' machine='pc-q35-6.2'>hvm</type>\n    <boot dev='hd'/>\n    <boot dev='cdrom'/>\n  </os>\n  <features>\n    <acpi/>\n    <apic/>\n    <vmport state='off'/>\n  </features>\n  <cpu mode='host-model' check='partial'/>\n  <clock offset='utc'>\n    <timer name='rtc' tickpolicy='catchup'/>\n    <timer name='pit' tickpolicy='delay'/>\n    <timer name='hpet' present='no'/>\n  </clock>\n  <on_poweroff>destroy</on_poweroff>\n  <on_reboot>restart</on_reboot>\n  <on_crash>destroy</on_crash>\n  <pm>\n    <suspend-to-mem enabled='no'/>\n    <suspend-to-disk enabled='no'/>\n  </pm>\n  <devices>\n    <emulator>/usr/bin/qemu-system-x86_64</emulator>\n    <disk type='file' device='disk'>\n      <driver name='qemu' type='");
    r.append(config.storage_config.format.as_str());
    r.append("' cache='");
    r.append(config.storage_config.cache.as_str());
    r.append("'/>\n      <source file='/var/lib/libvirt/images/");
    r.append(config.name.as_str());
    r.append(".");
    r.append(config.storage_config.format.as_str());
    r.append("'/>\n      <target dev='vda' bus='");
    r.append(config.storage_config.bus.as_str());
    r.append("'/>\n      <address type='pci' domain='0x0000' bus='0x03' slot='0x00' function='0x0'/>\n    </disk>\n    <controller type='usb' index='0' model='qemu-xhci'>\n      <address type='pci' domain='0x0000' bus='0x02' slot='0x00' function='0x0'/>\n    </controller>\n    <interface type='network'>\n      <source network='");
    r.append(net.as_str());
    r.append("'/>\n      <model type='");
    r.append(config.network_config.model.as_str());
    r.append("'/>\n      <address type='pci' domain='0x0000' bus='0x01' slot='0x00' function='0x0'/>\n    </interface>\n    <graphics type='");
    r.append(config.display_config.graphics_type.as_str());
    r.append("' port='-1' autoport='yes' listen='127.0.0.1'>\n      <listen type='address' address='127.0.0.1'/>\n    </graphics>\n    <video>\n      <model type='qxl' ram='65536' vram='65536' vgamem='16384' heads='1' primary='yes'/>\n      <address type='pci' domain='0x0000' bus='0x00' slot='0x02' function='0x0'/>\n    </video>\n    <memballoon model='virtio'>\n      <address type='pci' domain='0x0000' bus='0x04' slot='0x00' function='0x0'/>\n    </memballoon>\n  </devices>\n</domain>");
    r
}

/// Text that cannot disturb element extraction: no `<` anywhere.
pub open spec fn no_lt(s: Seq<char>) -> bool {
    forall|i: int| 0 <= i < s.len() ==> (#[trigger] s[i]) != '<'
}

#[verifier::rlimit(100)]
proof fn lemma_rt_name(
    name: Seq<char>,
    id: Seq<char>,
    mem: u64,
    vcpus: u32,
    fmt: Seq<char>,
    cache: Seq<char>,
    bus: Seq<char>,
    net: Seq<char>,
    model: Seq<char>,
    gfx: Seq<char>,
)
    requires
        name.len() > 0,
        no_lt(name),
        !is_space_char(name[0]),
        !is_space_char(name[name.len() - 1]),
    ensures
        tag_content_spec(
            vm_xml_spec(name, id, mem, vcpus, fmt, cache, bus, net, model, gfx),
            "name"@,
        ) == Some(name),
{
    reveal_strlit("<domain type='kvm'>\n  ");
    reveal_strlit("<name>");
    reveal_strlit("</name>");
    reveal_strlit("name");
    let m = dec_str(mem as int * 1024);
    let v = dec_str(vcpus as int);
    let doc = vm_xml_spec(name, id, mem, vcpus, fmt, cache, bus, net, model, gfx);
    let post = "\n  "@ + "<uuid>"@ + id + "</uuid>"@ + "\n  "@ + "<memory unit='KiB'>"@ + m + "</memory>"@ + "\n  <currentMemory unit='KiB'>"@ + m + "</currentMemory>\n  "@ + "<vcpu placement='static'>"@
        + v + "</vcpu>"@ + "\n  <os>\n    <type arch='x86_64' machine='pc-q35-6.2'>hvm</type>\n    <boot dev='hd'/>\n    <boot dev='cdrom'/>\n  </os>\n  <features>\n    <acpi/>\n    <apic/>\n    <vmport state='off'/>\n  </features>\n  <cpu mode='host-model' check='partial'/>\n  <clock offset='utc'>\n    <timer name='rtc' tickpolicy='catchup'/>\n    <timer name='pit' tickpolicy='delay'/>\n    <timer name='hpet' present='no'/>\n  </clock>\n  <on_poweroff>destroy</on_poweroff>\n  <on_reboot>restart</on_reboot>\n  <on_crash>destroy</on_crash>\n  <pm>\n    <suspend-to-mem enabled='no'/>\n    <suspend-to-disk enabled='no'/>\n  </pm>\n  <devices>\n    <emulator>/usr/bin/qemu-system-x86_64</emulator>\n    <disk type='file' device='disk'>\n      <driver name='qemu' type='"@ + fmt + "' cache='"@ + cache + "'/>\n      <source file='/var/lib/libvirt/images/"@ + name + "."@ + fmt + "'/>\n      <target dev='vda' bus='"@ + bus
        + "'/>\n      <address type='pci' domain='0x0000' bus='0x03' slot='0x00' function='0x0'/>\n    </disk>\n    <controller type='usb' index='0' model='qemu-xhci'>\n      <address type='pci' domain='0x0000' bus='0x02' slot='0x00' function='0x0'/>\n    </controller>\n    <interface type='network'>\n      <source network='"@ + net + "'/>\n      <model type='"@ + model + "'/>\n      <address type='pci' domain='0x0000' bus='0x01' slot='0x00' function='0x0'/>\n    </interface>\n    <graphics type='"@ + gfx + "' port='-1' autoport='yes' listen='127.0.0.1'>\n      <listen type='address' address='127.0.0.1'/>\n    </graphics>\n    <video>\n      <model type='qxl' ram='65536' vram='65536' vgamem='16384' heads='1' primary='yes'/>\n      <address type='pci' domain='0x0000' bus='0x00' slot='0x02' function='0x0'/>\n    </video>\n    <memballoon model='virtio'>\n      <address type='pci' domain='0x0000' bus='0x04' slot='0x00' function='0x0'/>\n    </memballoon>\n  </devices>\n</domain>"@;
    assert("<name>"@ =~= lt_tag("name"@) + Seq::<char>::empty() + seq!['>']);
    assert("</name>"@ =~= close_tag("name"@));
    assert(doc =~= "<domain type='kvm'>\n  "@ + (lt_tag("name"@) + Seq::<char>::empty() + seq!['>']) + name
        + close_tag("name"@) + post);
    assert(clean_for("<domain type='kvm'>\n  "@, 'n'));
    lemma_first_tag_extract(doc, "name"@, "<domain type='kvm'>\n  "@, Seq::<char>::empty(), name, post);
    lemma_trim_id(name);
}

#[verifier::rlimit(100)]
proof fn lemma_rt_uuid(
    name: Seq<char>,
    id: Seq<char>,
    mem: u64,
    vcpus: u32,
    fmt: Seq<char>,
    cache: Seq<char>,
    bus: Seq<char>,
    net: Seq<char>,
    model: Seq<char>,
    gfx: Seq<char>,
)
    requires
        no_lt(name),
        id.len() > 0,
        no_lt(id),
        !is_space_char(id[0]),
        !is_space_char(id[id.len() - 1]),
    ensures
        tag_content_spec(
            vm_xml_spec(name, id, mem, vcpus, fmt, cache, bus, net, model, gfx),
            "uuid"@,
        ) == Some(id),
{
    reveal_strlit("<domain type='kvm'>\n  ");
    reveal_strlit("<name>");
    reveal_strlit("</name>");
    reveal_strlit("\n  ");
    reveal_strlit("<uuid>");
    reveal_strlit("</uuid>");
    reveal_strlit("uuid");
    let m = dec_str(mem as int * 1024);
    let v = dec_str(vcpus as int);
    let doc = vm_xml_spec(name, id, mem, vcpus, fmt, cache, bus, net, model, gfx);
    let pre = "<domain type='kvm'>\n  "@ + "<name>"@ + name + "</name>"@ + "\n  "@;
    let post = "\n  "@ + "<memory unit='KiB'>"@ + m + "</memory>"@ + "\n  <currentMemory unit='KiB'>"@ + m + "</currentMemory>\n  "@ + "<vcpu placement='static'>"@ + v + "</vcpu>"@ + "\n  <os>\n    <type arch='x86_64' machine='pc-q35-6.2'>hvm</type>\n    <boot dev='hd'/>\n    <boot dev='cdrom'/>\n  </os>\n  <features>\n    <acpi/>\n    <apic/>\n    <vmport state='off'/>\n  </features>\n  <cpu mode='host-model' check='partial'/>\n  <clock offset='utc'>\n    <timer name='rtc' tickpolicy='catchup'/>\n    <timer name='pit' tickpolicy='delay'/>\n    <timer name='hpet' present='no'/>\n  </clock>\n  <on_poweroff>destroy</on_poweroff>\n  <on_reboot>restart</on_reboot>\n  <on_crash>destroy</on_crash>\n  <pm>\n    <suspend-to-mem enabled='no'/>\n    <suspend-to-disk enabled='no'/>\n  </pm>\n  <devices>\n    <emulator>/usr/bin/qemu-system-x86_64</emulator>\n    <disk type='file' device='disk'>\n      <driver name='qemu' type='"@ + fmt
        + "' cache='"@ + cache + "'/>\n      <source file='/var/lib/libvirt/images/"@ + name + "."@ + fmt + "'/>\n      <target dev='vda' bus='"@ + bus + "'/>\n      <address type='pci' domain='0x0000' bus='0x03' slot='0x00' function='0x0'/>\n    </disk>\n    <controller type='usb' index='0' model='qemu-xhci'>\n      <address type='pci' domain='0x0000' bus='0x02' slot='0x00' function='0x0'/>\n    </controller>\n    <interface type='network'>\n      <source network='"@ + net + "'/>\n      <model type='"@ + model
        + "'/>\n      <address type='pci' domain='0x0000' bus='0x01' slot='0x00' function='0x0'/>\n    </interface>\n    <graphics type='"@ + gfx + "' port='-1' autoport='yes' listen='127.0.0.1'>\n      <listen type='address' address='127.0.0.1'/>\n    </graphics>\n    <video>\n      <model type='qxl' ram='65536' vram='65536' vgamem='16384' heads='1' primary='yes'/>\n      <address type='pci' domain='0x0000' bus='0x00' slot='0x02' function='0x0'/>\n    </video>\n    <memballoon model='virtio'>\n      <address type='pci' domain='0x0000' bus='0x04' slot='0x00' function='0x0'/>\n    </memballoon>\n  </devices>\n</domain>"@;
    assert("<uuid>"@ =~= lt_tag("uuid"@) + Seq::<char>::empty() + seq!['>']);
    assert("</uuid>"@ =~= close_tag("uuid"@));
    assert(doc =~= pre + (lt_tag("uuid"@) + Seq::<char>::empty() + seq!['>']) + id
        + close_tag("uuid"@) + post);
    assert(clean_for("<domain type='kvm'>\n  "@, 'u'));
    assert(clean_for("<name>"@, 'u'));
    assert(clean_for("</name>"@, 'u'));
    assert(clean_for("\n  "@, 'u'));
    lemma_clean_no_lt(name, 'u');
    lemma_clean_concat("<domain type='kvm'>\n  "@, "<name>"@, 'u');
    lemma_clean_concat("<domain type='kvm'>\n  "@ + "<name>"@, name, 'u');
    lemma_clean_concat("<domain type='kvm'>\n  "@ + "<name>"@ + name, "</name>"@, 'u');
    lemma_clean_concat("<domain type='kvm'>\n  "@ + "<name>"@ + name + "</name>"@, "\n  "@, 'u');
    lemma_first_tag_extract(doc, "uuid"@, pre, Seq::<char>::empty(), id, post);
    lemma_trim_id(id);
}

#[verifier::rlimit(100)]
proof fn lemma_rt_memory(
    name: Seq<char>,
    id: Seq<char>,
    mem: u64,
    vcpus: u32,
    fmt: Seq<char>,
    cache: Seq<char>,
    bus: Seq<char>,
    net: Seq<char>,
    model: Seq<char>,
    gfx: Seq<char>,
)
    requires
        no_lt(name),
        no_lt(id),
        mem <= u64::MAX / 1024,
    ensures
        parsed_memory_mb(vm_xml_spec(name, id, mem, vcpus, fmt, cache, bus, net, model, gfx))
            == mem,
{
    reveal_strlit("<domain type='kvm'>\n  ");
    reveal_strlit("<name>");
    reveal_strlit("</name>");
    reveal_strlit("\n  ");
    reveal_strlit("<uuid>");
    reveal_strlit("</uuid>");
    reveal_strlit("<memory unit='KiB'>");
    reveal_strlit(" unit='KiB'");
    reveal_strlit("</memory>");
    reveal_strlit("memory");
    let m = dec_str(mem as int * 1024);
    let v = dec_str(vcpus as int);
    lemma_dec_str_digits(mem as int * 1024);
    lemma_dec_str_val(mem as int * 1024);
    let doc = vm_xml_spec(name, id, mem, vcpus, fmt, cache, bus, net, model, gfx);
    let pre = "<domain type='kvm'>\n  "@ + "<name>"@ + name + "</name>"@ + "\n  "@ + "<uuid>"@ + id + "</uuid>"@ + "\n  "@;
    let post = "\n  <currentMemory unit='KiB'>"@ + m + "</currentMemory>\n  "@ + "<vcpu placement='static'>"@ + v + "</vcpu>"@ + "\n  <os>\n    <type arch='x86_64' machine='pc-q35-6.2'>hvm</type>\n    <boot dev='hd'/>\n    <boot dev='cdrom'/>\n  </os>\n  <features>\n    <acpi/>\n    <apic/>\n    <vmport state='off'/>\n  </features>\n  <cpu mode='host-model' check='partial'/>\n  <clock offset='utc'>\n    <timer name='rtc' tickpolicy='catchup'/>\n    <timer name='pit' tickpolicy='delay'/>\n    <timer name='hpet' present='no'/>\n  </clock>\n  <on_poweroff>destroy</on_poweroff>\n  <on_reboot>restart</on_reboot>\n  <on_crash>destroy</on_crash>\n  <pm>\n    <suspend-to-mem enabled='no'/>\n    <suspend-to-disk enabled='no'/>\n  </pm>\n  <devices>\n    <emulator>/usr/bin/qemu-system-x86_64</emulator>\n    <disk type='file' device='disk'>\n      <driver name='qemu' type='"@ + fmt + "' cache='"@ + cache + "'/>\n      <source file='/var/lib/libvirt/images/"@ + name
        + "."@ + fmt + "'/>\n      <target dev='vda' bus='"@ + bus + "'/>\n      <address type='pci' domain='0x0000' bus='0x03' slot='0x00' function='0x0'/>\n    </disk>\n    <controller type='usb' index='0' model='qemu-xhci'>\n      <address type='pci' domain='0x0000' bus='0x02' slot='0x00' function='0x0'/>\n    </controller>\n    <interface type='network'>\n      <source network='"@ + net + "'/>\n      <model type='"@ + model + "'/>\n      <address type='pci' domain='0x0000' bus='0x01' slot='0x00' function='0x0'/>\n    </interface>\n    <graphics type='"@ + gfx + "' port='-1' autoport='yes' listen='127.0.0.1'>\n      <listen type='address' address='127.0.0.1'/>\n    </graphics>\n    <video>\n      <model type='qxl' ram='65536' vram='65536' vgamem='16384' heads='1' primary='yes'/>\n      <address type='pci' domain='0x0000' bus='0x00' slot='0x02' function='0x0'/>\n    </video>\n    <memballoon model='virtio'>\n      <address type='pci' domain='0x0000' bus='0x04' slot='0x00' function='0x0'/>\n    </memballoon>\n  </devices>\n</domain>"@;
    assert("<memory unit='KiB'>"@ =~= lt_tag("memory"@) + " unit='KiB'"@ + seq!['>']);
    assert("</memory>"@ =~= close_tag("memory"@));
    assert(doc =~= pre + (lt_tag("memory"@) + " unit='KiB'"@ + seq!['>']) + m + close_tag("memory"@)
        + post);
    assert(clean_for("<domain type='kvm'>\n  "@, 'm'));
    assert(clean_for("<name>"@, 'm'));
    assert(clean_for("</name>"@, 'm'));
    assert(clean_for("\n  "@, 'm'));
    assert(clean_for("<uuid>"@, 'm'));
    assert(clean_for("</uuid>"@, 'm'));
    lemma_clean_no_lt(name, 'm');
    lemma_clean_no_lt(id, 'm');
    lemma_clean_concat("<domain type='kvm'>\n  "@, "<name>"@, 'm');
    lemma_clean_concat("<domain type='kvm'>\n  "@ + "<name>"@, name, 'm');
    lemma_clean_concat("<domain type='kvm'>\n  "@ + "<name>"@ + name, "</name>"@, 'm');
    lemma_clean_concat("<domain type='kvm'>\n  "@ + "<name>"@ + name + "</name>"@, "\n  "@, 'm');
    lemma_clean_concat("<domain type='kvm'>\n  "@ + "<name>"@ + name + "</name>"@ + "\n  "@, "<uuid>"@, 'm');
    lemma_clean_concat("<domain type='kvm'>\n  "@ + "<name>"@ + name + "</name>"@ + "\n  "@ + "<uuid>"@, id, 'm');
    lemma_clean_concat("<domain type='kvm'>\n  "@ + "<name>"@ + name + "</name>"@ + "\n  "@ + "<uuid>"@ + id, "</uuid>"@, 'm');
    lemma_clean_concat("<domain type='kvm'>\n  "@ + "<name>"@ + name + "</name>"@ + "\n  "@ + "<uuid>"@ + id + "</uuid>"@, "\n  "@, 'm');
    assert(forall|i: int| 0 <= i < " unit='KiB'"@.len() ==> (#[trigger] " unit='KiB'"@[i]) != '>');
    assert(is_space_char(" unit='KiB'"@[0]));
    lemma_first_tag_extract(doc, "memory"@, pre, " unit='KiB'"@, m, post);
    assert(!is_space_char(m[0]) && !is_space_char(m[m.len() - 1])) by {
        assert(is_digit_char(m[0]));
        assert(is_digit_char(m[m.len() - 1]));
    }
    lemma_trim_id(m);
    assert(tag_content_spec(doc, "memory"@) == Some(m));
    assert(dec_parse_ok(m));
    assert(dec_val(m) == mem as int * 1024);
    assert(parsed_memory_mb(doc) == mem);
}

#[verifier::rlimit(100)]
proof fn lemma_rt_vcpu(
    name: Seq<char>,
    id: Seq<char>,
    mem: u64,
    vcpus: u32,
    fmt: Seq<char>,
    cache: Seq<char>,
    bus: Seq<char>,
    net: Seq<char>,
    model: Seq<char>,
    gfx: Seq<char>,
)
    requires
        no_lt(name),
        no_lt(id),
    ensures
        parsed_vcpus(vm_xml_spec(name, id, mem, vcpus, fmt, cache, bus, net, model, gfx)) == vcpus,
{
    reveal_strlit("<domain type='kvm'>\n  ");
    reveal_strlit("<name>");
    reveal_strlit("</name>");
    reveal_strlit("\n  ");
    reveal_strlit("<uuid>");
    reveal_strlit("</uuid>");
    reveal_strlit("<memory unit='KiB'>");
    reveal_strlit("</memory>");
    reveal_strlit("\n  <currentMemory unit='KiB'>");
    reveal_strlit("</currentMemory>\n  ");
    reveal_strlit("<vcpu placement='static'>");
    reveal_strlit(" placement='static'");
    reveal_strlit("</vcpu>");
    reveal_strlit("vcpu");
    let m = dec_str(mem as int * 1024);
    let v = dec_str(vcpus as int);
    lemma_dec_str_digits(mem as int * 1024);
    lemma_dec_str_digits(vcpus as int);
    lemma_dec_str_val(vcpus as int);
    let doc = vm_xml_spec(name, id, mem, vcpus, fmt, cache, bus, net, model, gfx);
    let pre = "<domain type='kvm'>\n  "@ + "<name>"@ + name + "</name>"@ + "\n  "@ + "<uuid>"@ + id + "</uuid>"@ + "\n  "@ + "<memory unit='KiB'>"@ + m + "</memory>"@
        + "\n  <currentMemory unit='KiB'>"@ + m + "</currentMemory>\n  "@;
    let post = "\n  <os>\n    <type arch='x86_64' machine='pc-q35-6.2'>hvm</type>\n    <boot dev='hd'/>\n    <boot dev='cdrom'/>\n  </os>\n  <features>\n    <acpi/>\n    <apic/>\n    <vmport state='off'/>\n  </features>\n  <cpu mode='host-model' check='partial'/>\n  <clock offset='utc'>\n    <timer name='rtc' tickpolicy='catchup'/>\n    <timer name='pit' tickpolicy='delay'/>\n    <timer name='hpet' present='no'/>\n  </clock>\n  <on_poweroff>destroy</on_poweroff>\n  <on_reboot>restart</on_reboot>\n  <on_crash>destroy</on_crash>\n  <pm>\n    <suspend-to-mem enabled='no'/>\n    <suspend-to-disk enabled='no'/>\n  </pm>\n  <devices>\n    <emulator>/usr/bin/qemu-system-x86_64</emulator>\n    <disk type='file' device='disk'>\n      <driver name='qemu' type='"@ + fmt + "' cache='"@ + cache + "'/>\n      <source file='/var/lib/libvirt/images/"@ + name + "."@ + fmt + "'/>\n      <target dev='vda' bus='"@ + bus + "'/>\n      <address type='pci' domain='0x0000' bus='0x03' slot='0x00' function='0x0'/>\n    </disk>\n    <controller type='usb' index='0' model='qemu-xhci'>\n      <address type='pci' domain='0x0000' bus='0x02' slot='0x00' function='0x0'/>\n    </controller>\n    <interface type='network'>\n      <source network='"@
        + net + "'/>\n      <model type='"@ + model + "'/>\n      <address type='pci' domain='0x0000' bus='0x01' slot='0x00' function='0x0'/>\n    </interface>\n    <graphics type='"@ + gfx + "' port='-1' autoport='yes' listen='127.0.0.1'>\n      <listen type='address' address='127.0.0.1'/>\n    </graphics>\n    <video>\n      <model type='qxl' ram='65536' vram='65536' vgamem='16384' heads='1' primary='yes'/>\n      <address type='pci' domain='0x0000' bus='0x00' slot='0x02' function='0x0'/>\n    </video>\n    <memballoon model='virtio'>\n      <address type='pci' domain='0x0000' bus='0x04' slot='0x00' function='0x0'/>\n    </memballoon>\n  </devices>\n</domain>"@;
    assert("<vcpu placement='static'>"@ =~= lt_tag("vcpu"@) + " placement='static'"@ + seq!['>']);
    assert("</vcpu>"@ =~= close_tag("vcpu"@));
    assert(doc =~= pre + (lt_tag("vcpu"@) + " placement='static'"@ + seq!['>']) + v + close_tag("vcpu"@) + post);
    assert(clean_for("<domain type='kvm'>\n  "@, 'v'));
    assert(clean_for("<name>"@, 'v'));
    assert(clean_for("</name>"@, 'v'));
    assert(clean_for("\n  "@, 'v'));
    assert(clean_for("<uuid>"@, 'v'));
    assert(clean_for("</uuid>"@, 'v'));
    assert(clean_for("<memory unit='KiB'>"@, 'v'));
    assert(clean_for("</memory>"@, 'v'));
    assert(clean_for("\n  <currentMemory unit='KiB'>"@, 'v'));
    assert(clean_for("</currentMemory>\n  "@, 'v'));
    lemma_clean_no_lt(name, 'v');
    lemma_clean_no_lt(id, 'v');
    lemma_clean_digits(m, 'v');
    lemma_clean_concat("<domain type='kvm'>\n  "@, "<name>"@, 'v');
    lemma_clean_concat("<domain type='kvm'>\n  "@ + "<name>"@, name, 'v');
    lemma_clean_concat("<domain type='kvm'>\n  "@ + "<name>"@ + name, "</name>"@, 'v');
    lemma_clean_concat("<domain type='kvm'>\n  "@ + "<name>"@ + name + "</name>"@, "\n  "@, 'v');
    lemma_clean_concat("<domain type='kvm'>\n  "@ + "<name>"@ + name + "</name>"@ + "\n  "@, "<uuid>"@, 'v');
    lemma_clean_concat("<domain type='kvm'>\n  "@ + "<name>"@ + name + "</name>"@ + "\n  "@ + "<uuid>"@, id, 'v');
    lemma_clean_concat("<domain type='kvm'>\n  "@ + "<name>"@ + name + "</name>"@ + "\n  "@ + "<uuid>"@ + id, "</uuid>"@, 'v');
    lemma_clean_concat("<domain type='kvm'>\n  "@ + "<name>"@ + name + "</name>"@ + "\n  "@ + "<uuid>"@ + id + "</uuid>"@, "\n  "@, 'v');
    lemma_clean_concat("<domain type='kvm'>\n  "@ + "<name>"@ + name + "</name>"@ + "\n  "@ + "<uuid>"@ + id + "</uuid>"@ + "\n  "@, "<memory unit='KiB'>"@, 'v');
    lemma_clean_concat("<domain type='kvm'>\n  "@ + "<name>"@ + name + "</name>"@ + "\n  "@ + "<uuid>"@ + id + "</uuid>"@ + "\n  "@ + "<memory unit='KiB'>"@, m, 'v');
    lemma_clean_concat("<domain type='kvm'>\n  "@ + "<name>"@ + name + "</name>"@ + "\n  "@ + "<uuid>"@ + id + "</uuid>"@ + "\n  "@ + "<memory unit='KiB'>"@ + m, "</memory>"@, 'v');
    lemma_clean_concat("<domain type='kvm'>\n  "@ + "<name>"@ + name + "</name>"@ + "\n  "@ + "<uuid>"@ + id + "</uuid>"@ + "\n  "@ + "<memory unit='KiB'>"@ + m + "</memory>"@, "\n  <currentMemory unit='KiB'>"@, 'v');
    lemma_clean_concat("<domain type='kvm'>\n  "@ + "<name>"@ + name + "</name>"@ + "\n  "@ + "<uuid>"@ + id + "</uuid>"@ + "\n  "@ + "<memory unit='KiB'>"@ + m + "</memory>"@ + "\n  <currentMemory unit='KiB'>"@, m, 'v');
    lemma_clean_concat("<domain type='kvm'>\n  "@ + "<name>"@ + name + "</name>"@ + "\n  "@ + "<uuid>"@ + id + "</uuid>"@ + "\n  "@ + "<memory unit='KiB'>"@ + m + "</memory>"@ + "\n  <currentMemory unit='KiB'>"@ + m, "</currentMemory>\n  "@, 'v');
    assert(forall|i: int| 0 <= i < " placement='static'"@.len() ==> (#[trigger] " placement='static'"@[i]) != '>');
    assert(is_space_char(" placement='static'"@[0]));
    lemma_first_tag_extract(doc, "vcpu"@, pre, " placement='static'"@, v, post);
    assert(!is_space_char(v[0]) && !is_space_char(v[v.len() - 1])) by {
        assert(is_digit_char(v[0]));
        assert(is_digit_char(v[v.len() - 1]));
    }
    lemma_trim_id(v);
    assert(tag_content_spec(doc, "vcpu"@) == Some(v));
    assert(dec_val(v) == vcpus as int);
    assert(parsed_vcpus(doc) == vcpus);
}

/// Re-parsing a generated descriptor recovers the name, the memory in MB
/// (the KiB conversion divides out exactly), the vCPU count and the
/// identity. It holds for names and identities without `<`, not wrapped
/// in whitespace - the form every hypervisor-accepted name has; a name
/// such as `a<name>b` is the one kind of input left out.
pub proof fn lemma_generate_parse_roundtrip(
    name: Seq<char>,
    id: Seq<char>,
    mem: u64,
    vcpus: u32,
    fmt: Seq<char>,
    cache: Seq<char>,
    bus: Seq<char>,
    net: Seq<char>,
    model: Seq<char>,
    gfx: Seq<char>,
)
    requires
        name.len() > 0,
        no_lt(name),
        !is_space_char(name[0]),
        !is_space_char(name[name.len() - 1]),
        id.len() > 0,
        no_lt(id),
        !is_space_char(id[0]),
        !is_space_char(id[id.len() - 1]),
        mem <= u64::MAX / 1024,
    ensures
        tag_content_spec(
            vm_xml_spec(name, id, mem, vcpus, fmt, cache, bus, net, model, gfx),
            "name"@,
        ) == Some(name),
        tag_content_spec(
            vm_xml_spec(name, id, mem, vcpus, fmt, cache, bus, net, model, gfx),
            "uuid"@,
        ) == Some(id),
        parsed_memory_mb(vm_xml_spec(name, id, mem, vcpus, fmt, cache, bus, net, model, gfx))
            == mem,
        parsed_vcpus(vm_xml_spec(name, id, mem, vcpus, fmt, cache, bus, net, model, gfx)) == vcpus,
{
    lemma_rt_name(name, id, mem, vcpus, fmt, cache, bus, net, model, gfx);
    lemma_rt_uuid(name, id, mem, vcpus, fmt, cache, bus, net, model, gfx);
    lemma_rt_memory(name, id, mem, vcpus, fmt, cache, bus, net, model, gfx);
    lemma_rt_vcpu(name, id, mem, vcpus, fmt, cache, bus, net, model, gfx);
}


/// Scalar facts the hypervisor reports for one domain handle.
#[derive(Debug, Clone)]
pub struct DomainRawInfo {
    pub uuid: String,
    pub name: String,
    pub state_code: u32,
    /// Memory in KiB, as the management API reports it.
    pub memory_kib: u64,
    pub nr_virt_cpu: u32,
}

/// The fixed total mapping from hypervisor state codes to the model's
/// states; every unrecognized code maps to `Error`, never dropping a
/// domain silently.
pub open spec fn state_of(code: u32) -> VmState {
    if code == 0 {
        VmState::Stopped
    } else if code == 1 {
        VmState::Running
    } else if code == 2 {
        VmState::Running
    } else if code == 3 {
        VmState::Paused
    } else if code == 4 {
        VmState::ShuttingDown
    } else if code == 5 {
        VmState::Stopped
    } else if code == 6 {
        VmState::Error
    } else if code == 7 {
        VmState::Suspended
    } else {
        VmState::Error
    }
}

pub fn map_domain_state(code: u32) -> (r: VmState)
    ensures
        r == state_of(code),
{
    if code == 0 {
        VmState::Stopped
    } else if code == 1 || code == 2 {
        VmState::Running
    } else if code == 3 {
        VmState::Paused
    } else if code == 4 {
        VmState::ShuttingDown
    } else if code == 5 {
        VmState::Stopped
    } else if code == 6 {
        VmState::Error
    } else if code == 7 {
        VmState::Suspended
    } else {
        VmState::Error
    }
}

/// Combine the hypervisor's raw scalars with the parsed descriptor into
/// the cached record. The API's memory and vCPU figures win over the
/// descriptor's; everything structural comes from the descriptor.
pub fn domain_to_vm(
    raw: DomainRawInfo,
    xml_info: crate::xml_parser::VmXmlInfo,
    snapshots: Vec<Snapshot>,
    created_at: u64,
    last_started: Option<u64>,
) -> (vm: VirtualMachine)
    ensures
        vm.id == raw.uuid,
        vm.name == raw.name,
        vm.state == state_of(raw.state_code),
        vm.memory == raw.memory_kib / 1024,
        vm.vcpus == raw.nr_virt_cpu,
        vm.disk_size == xml_info.disk_size_gb,
        vm.os_type == xml_info.os_type,
        vm.os_variant == xml_info.os_variant,
        vm.created_at == created_at,
        vm.last_started == last_started,
        vm.description == xml_info.description,
        vm.vnc_port == xml_info.vnc_port,
        vm.spice_port == xml_info.spice_port,
        vm.snapshots == snapshots,
        vm.network_interfaces == xml_info.network_interfaces,
        vm.storage_devices == xml_info.storage_devices,
{
    VirtualMachine {
        id: raw.uuid,
        name: raw.name,
        state: map_domain_state(raw.state_code),
        memory: raw.memory_kib / 1024,
        vcpus: raw.nr_virt_cpu,
        disk_size: xml_info.disk_size_gb,
        os_type: xml_info.os_type,
        os_variant: xml_info.os_variant,
        created_at,
        last_started,
        description: xml_info.description,
        vnc_port: xml_info.vnc_port,
        spice_port: xml_info.spice_port,
        snapshots,
        network_interfaces: xml_info.network_interfaces,
        storage_devices: xml_info.storage_devices,
    }
}

/// A configuration passes pre-flight validation: a name, at least the
/// memory floor but within the KiB conversion's machine limit, at least
/// one vCPU, a positive disk size.
pub open spec fn config_valid(c: VmConfig) -> bool {
    &&& c.name@.len() > 0
    &&& 128 <= c.memory <= u64::MAX / 1024
    &&& c.vcpus > 0
    &&& c.disk_size >= 1
}

/// Pre-flight validation, raised before any side effect; each failing
/// field names itself, checked in a fixed order.
pub fn validate_vm_config(config: &VmConfig) -> (r: Result<(), KvmError>)
    ensures
        (r is Ok) == config_valid(*config),
        r is Err ==> r->Err_0 is InvalidVmConfig,
        config.name@.len() == 0 ==> (match r {
            Err(KvmError::InvalidVmConfig(s)) => s@ == "VM name cannot be empty"@,
            _ => false,
        }),
        config.name@.len() > 0 && config.memory < 128 ==> (match r {
            Err(KvmError::InvalidVmConfig(s)) => s@ == "Memory must be at least 128 MB"@,
            _ => false,
        }),
        config.name@.len() > 0 && 128 <= config.memory <= u64::MAX / 1024 && config.vcpus == 0
            ==> (match r {
            Err(KvmError::InvalidVmConfig(s)) => s@ == "Must have at least 1 vCPU"@,
            _ => false,
        }),
        config.name@.len() > 0 && 128 <= config.memory <= u64::MAX / 1024 && config.vcpus > 0
            && config.disk_size < 1 ==> (match r {
            Err(KvmError::InvalidVmConfig(s)) => s@ == "Disk size must be at least 1 GB"@,
            _ => false,
        }),
{
    if config.name.as_str().is_empty() {
        return Err(KvmError::InvalidVmConfig(String::from_str("VM name cannot be empty")));
    }
    if config.memory < 128 {
        return Err(KvmError::InvalidVmConfig(String::from_str("Memory must be at least 128 MB")));
    }
    if config.memory > u64::MAX / 1024 {
        return Err(
            KvmError::InvalidVmConfig(String::from_str("Memory exceeds the supported maximum")),
        );
    }
    if config.vcpus == 0 {
        return Err(KvmError::InvalidVmConfig(String::from_str("Must have at least 1 vCPU")));
    }
    if config.disk_size < 1 {
        return Err(KvmError::InvalidVmConfig(String::from_str("Disk size must be at least 1 GB")));
    }
    Ok(())
}

/// What creating a domain asks the hypervisor to do: define this
/// document, then start the domain it names.
#[derive(Debug, Clone)]
pub struct CreatePlan {
    pub vm_id: String,
    pub xml: String,
}

/// Validate, mint a fresh identity, and generate the descriptor. No side
/// effect has happened yet; the caller defines and starts the domain and
/// only then refreshes the cache.
pub fn plan_create(config: &VmConfig) -> (r: Result<CreatePlan, KvmError>)
    ensures
        (r is Ok) == config_valid(*config),
        r is Ok ==> r->Ok_0.vm_id@.len() == 36,
        r is Ok ==> (forall|i: int|
            0 <= i < r->Ok_0.vm_id@.len() ==> crate::ids::is_uuid_char(#[trigger] r->Ok_0.vm_id@[i])),
        r is Ok ==> r->Ok_0.xml@ == vm_xml_spec(
            config.name@,
            r->Ok_0.vm_id@,
            config.memory,
            config.vcpus,
            config.storage_config.format@,
            config.storage_config.cache@,
            config.storage_config.bus@,
            (match opt_view(config.network_config.network_name) {
                Some(v) => v,
                None => "default"@,
            }),
            config.network_config.model@,
            config.display_config.graphics_type@,
        ),
        r is Err ==> r->Err_0 is InvalidVmConfig,
{
    match validate_vm_config(config) {
        Ok(()) => {
            let vm_id = crate::ids::fresh_uuid();
            let xml = generate_vm_xml(config, vm_id.as_str());
            Ok(CreatePlan { vm_id, xml })
        },
        Err(e) => Err(e),
    }
}

/// What starting a domain does, given whether it is already active:
/// starting an already-running domain is a successful no-op.
#[derive(Debug, Clone, Copy, PartialEq, Eq, Structural)]
pub enum StartAction {
    AlreadyRunning,
    Launch,
}

pub fn start_action(active: bool) -> (a: StartAction)
    ensures
        a == (if active {
            StartAction::AlreadyRunning
        } else {
            StartAction::Launch
        }),
{
    if active {
        StartAction::AlreadyRunning
    } else {
        StartAction::Launch
    }
}

/// Stopping tries the graceful request first and forces a stop only when
/// the graceful path failed.
pub fn stop_requires_force(graceful_ok: bool) -> (r: bool)
    ensures
        r == !graceful_ok,
{
    !graceful_ok
}

/// Deleting stops the domain first only when it is active, then
/// undefines it; the cache entry goes only after the hypervisor
/// confirmed the undefine.
#[derive(Debug, Clone, Copy, PartialEq, Eq, Structural)]
pub struct DeletePlan {
    pub stop_first: bool,
}

pub fn delete_plan(active: bool) -> (r: DeletePlan)
    ensures
        r.stop_first == active,
{
    DeletePlan { stop_first: active }
}

/// Statistics are served only for a running domain; any other state is
/// the documented refusal, never a zero-valued snapshot.
pub fn ensure_running(state: VmState) -> (r: Result<(), KvmError>)
    ensures
        (r is Ok) == (state == VmState::Running),
        (match r {
            Ok(()) => state == VmState::Running,
            Err(e) => e is VmOperationFailed && (match e {
                KvmError::VmOperationFailed(s) => s@ == "VM is not running"@,
                _ => false,
            }),
        }),
{
    if state == VmState::Running {
        Ok(())
    } else {
        Err(KvmError::VmOperationFailed(String::from_str("VM is not running")))
    }
}

/// Positions of the cache holding a given id, as a named predicate.
pub open spec fn id_pred(vms: Seq<VirtualMachine>, id: Seq<char>) -> spec_fn(int) -> bool {
    |i: int| vms[i].id@ == id
}

/// Index of the record with a given id.
pub open spec fn id_index(vms: Seq<VirtualMachine>, id: Seq<char>) -> Option<int> {
    crate::text::first_index(vms.len() as int, 0, id_pred(vms, id))
}

/// The reconciler's local cache: at most one record per stable domain
/// id, replaced wholesale on each reconciliation pass.
pub struct VmCache {
    pub vms: Vec<VirtualMachine>,
}

impl VmCache {
    /// No two records share an id.
    pub open spec fn wf(&self) -> bool {
        forall|i: int, j: int|
            0 <= i < j < self.vms@.len() ==> (#[trigger] self.vms@[i].id@) != (
            #[trigger] self.vms@[j].id@)
    }

    pub open spec fn has_id(&self, id: Seq<char>) -> bool {
        exists|i: int| 0 <= i < self.vms@.len() && (#[trigger] self.vms@[i].id@) == id
    }

    /// The ids the cache lists, in order.
    pub open spec fn ids_spec(&self) -> Seq<Seq<char>> {
        self.vms@.map_values(|v: VirtualMachine| v.id@)
    }

    pub fn new() -> (r: Self)
        ensures
            r.wf(),
            r.vms@.len() == 0,
    {
        VmCache { vms: Vec::new() }
    }

    pub fn len(&self) -> (r: usize)
        ensures
            r == self.vms@.len(),
    {
        self.vms.len()
    }

    pub fn get(&self, i: usize) -> (r: &VirtualMachine)
        requires
            i < self.vms@.len(),
        ensures
            *r == self.vms@[i as int],
    {
        &self.vms[i]
    }

    fn index_of(&self, id: &str) -> (r: Option<usize>)
        ensures
            (match r {
                Some(i) => i < self.vms@.len() && self.vms@[i as int].id@ == id@ && (forall|j: int|
                    0 <= j < i ==> (#[trigger] self.vms@[j].id@) != id@) && id_index(
                    self.vms@,
                    id@,
                ) == Some(i as int),
                None => !self.has_id(id@) && id_index(self.vms@, id@) is None,
            }),
    {
        let n = self.vms.len();
        let mut i: usize = 0;
        while i < n
            invariant
                n == self.vms@.len(),
                0 <= i <= n,
                forall|j: int| 0 <= j < i ==> (#[trigger] self.vms@[j].id@) != id@,
            decreases n - i,
        {
            if crate::text::eq_str(self.vms[i].id.as_str(), id) {
                proof {
                    assert(id_pred(self.vms@, id@)(i as int));
                    assert(forall|j: int|
                        0 <= j < i ==> !(#[trigger] id_pred(self.vms@, id@)(j)));
                    crate::text::lemma_first_index_is(
                        n as int,
                        0,
                        id_pred(self.vms@, id@),
                        i as int,
                    );
                }
                return Some(i);
            }
            i += 1;
        }
        proof {
            crate::text::lemma_first_index_props(n as int, 0, id_pred(self.vms@, id@));
            if id_index(self.vms@, id@) is Some {
                let w = id_index(self.vms@, id@)->Some_0;
                assert(id_pred(self.vms@, id@)(w));
            }
            if self.has_id(id@) {
                let w = choose|w: int|
                    0 <= w < self.vms@.len() && (#[trigger] self.vms@[w].id@) == id@;
                assert(false);
            }
        }
        None
    }

    pub fn contains_id(&self, id: &str) -> (r: bool)
        ensures
            r == self.has_id(id@),
    {
        self.index_of(id).is_some()
    }

    /// Install or replace the record for its id.
    pub fn upsert(&mut self, vm: VirtualMachine)
        requires
            old(self).wf(),
        ensures
            final(self).wf(),
            final(self).has_id(vm.id@),
            final(self).vms@ == (match id_index(old(self).vms@, vm.id@) {
                Some(i) => old(self).vms@.update(i, vm),
                None => old(self).vms@.push(vm),
            }),
    {
        let ghost gvm = vm;
        let found = self.index_of(vm.id.as_str());
        match found {
            Some(i) => {
                self.vms.remove(i);
                self.vms.insert(i, vm);
                proof {
                    let newv = self.vms@;
                    let oldv = old(self).vms@;
                    assert(newv =~= oldv.update(i as int, gvm));
                    assert(newv[i as int].id@ == gvm.id@);
                    assert forall|a: int, b: int| 0 <= a < b < newv.len() implies (
                    #[trigger] newv[a].id@) != (#[trigger] newv[b].id@) by {
                        if a != i && b != i {
                            assert(newv[a] == oldv[a] && newv[b] == oldv[b]);
                            assert(oldv[a].id@ != oldv[b].id@);
                        } else if a == i {
                            assert(newv[b] == oldv[b]);
                            assert(oldv[a].id@ == newv[a].id@);
                            assert(oldv[a].id@ != oldv[b].id@);
                        } else {
                            assert(newv[a] == oldv[a]);
                            assert(oldv[b].id@ == newv[b].id@);
                            assert(oldv[a].id@ != oldv[b].id@);
                        }
                    }
                }
            },
            None => {
                self.vms.push(vm);
                proof {
                    let newv = self.vms@;
                    let oldv = old(self).vms@;
                    assert(newv =~= oldv.push(gvm));
                    assert(newv[newv.len() - 1].id@ == gvm.id@);
                    assert forall|a: int, b: int| 0 <= a < b < newv.len() implies (
                    #[trigger] newv[a].id@) != (#[trigger] newv[b].id@) by {
                        if b < oldv.len() {
                            assert(newv[a] == oldv[a] && newv[b] == oldv[b]);
                            assert(oldv[a].id@ != oldv[b].id@);
                        } else {
                            assert(newv[a] == oldv[a]);
                            assert(newv[b] == gvm);
                            if oldv[a].id@ == gvm.id@ {
                                assert(old(self).has_id(gvm.id@));
                            }
                        }
                    }
                }
            },
        }
    }

    /// Drop the record for an id, after the hypervisor confirmed the
    /// deletion; everything else keeps its place.
    pub fn remove_vm(&mut self, id: &str)
        requires
            old(self).wf(),
        ensures
            final(self).wf(),
            !final(self).has_id(id@),
            final(self).vms@ == (match id_index(old(self).vms@, id@) {
                Some(i) => old(self).vms@.remove(i),
                None => old(self).vms@,
            }),
    {
        let found = self.index_of(id);
        match found {
            Some(i) => {
                self.vms.remove(i);
                proof {
                    let newv = self.vms@;
                    let oldv = old(self).vms@;
                    assert forall|a: int, b: int| 0 <= a < b < newv.len() implies (
                    #[trigger] newv[a].id@) != (#[trigger] newv[b].id@) by {
                        let a0 = (if a < i { a } else { a + 1 });
                        let b0 = (if b < i { b } else { b + 1 });
                        assert(newv[a] == oldv[a0] && newv[b] == oldv[b0]);
                        assert(oldv[a0].id@ != oldv[b0].id@);
                    }
                    if self.has_id(id@) {
                        let w = choose|w: int|
                            0 <= w < newv.len() && (#[trigger] newv[w].id@) == id@;
                        let w0 = (if w < i { w } else { w + 1 });
                        assert(newv[w] == oldv[w0]);
                        assert(oldv[w0].id@ == id@);
                        assert(oldv[i as int].id@ == id@);
                        assert(false);
                    }
                }
            },
            None => {},
        }
    }

    /// The ids of every cached record, for listings.
    pub fn ids(&self) -> (r: Vec<String>)
        ensures
            r.deep_view() == self.ids_spec(),
    {
        let n = self.vms.len();
        let mut r: Vec<String> = Vec::new();
        let mut i: usize = 0;
        while i < n
            invariant
                n == self.vms@.len(),
                0 <= i <= n,
                r.deep_view() =~= self.vms@.take(i as int).map_values(
                    (|v: VirtualMachine| v.id@),
                ),
            decreases n - i,
        {
            let ghost pre = r.deep_view();
            r.push(self.vms[i].id.clone());
            proof {
                assert(r.deep_view() =~= pre.push(self.vms@[i as int].id@));
                assert(self.vms@.take(i as int + 1).drop_last() =~= self.vms@.take(i as int));
                assert(self.vms@.take(i as int + 1)[i as int] == self.vms@[i as int]);
                assert(r.deep_view() =~= self.vms@.take(i as int + 1).map_values(
                    (|v: VirtualMachine| v.id@),
                ));
            }
            i += 1;
        }
        proof {
            assert(self.vms@.take(n as int) =~= self.vms@);
            assert(r.deep_view() =~= self.ids_spec());
        }
        r
    }
}

/// A deleted domain is gone from every subsequent listing: an id the
/// cache no longer holds cannot appear among the listed ids.
pub proof fn lemma_deleted_not_listed(c: &VmCache, id: Seq<char>)
    requires
        !c.has_id(id),
    ensures
        forall|j: int| 0 <= j < c.ids_spec().len() ==> (#[trigger] c.ids_spec()[j]) != id,
{
    assert forall|j: int| 0 <= j < c.ids_spec().len() implies (#[trigger] c.ids_spec()[j])
        != id by {
        if c.ids_spec()[j] == id {
            assert(c.vms@[j].id@ == id);
        }
    }
}

/// A number rendered in decimal and nothing else, read back.
pub open spec fn parse_num(v: Seq<char>) -> Option<int> {
    if dec_parse_ok(v) {
        Some(dec_val(v))
    } else {
        None
    }
}

/// Elapsed-time fields as the process table prints them:
/// `[[days-]hours:]minutes:seconds`, in seconds. Values that do not fit
/// the machine word give nothing rather than a wrong number.
pub open spec fn etime_seconds(s: Seq<char>) -> Option<int> {
    let dparts = crate::text::split_char_spec(s, '-');
    if dparts.len() == 2 {
        let tparts = crate::text::split_char_spec(dparts[1], ':');
        if tparts.len() >= 3 {
            match (parse_num(dparts[0]), parse_num(tparts[0]), parse_num(tparts[1]), parse_num(
                tparts[2],
            )) {
                (Some(d), Some(h), Some(m), Some(sec)) => Some(
                    d * 86400 + h * 3600 + m * 60 + sec,
                ),
                _ => None,
            }
        } else {
            None
        }
    } else if dparts.len() == 1 {
        let tparts = crate::text::split_char_spec(s, ':');
        if tparts.len() == 2 {
            match (parse_num(tparts[0]), parse_num(tparts[1])) {
                (Some(m), Some(sec)) => Some(m * 60 + sec),
                _ => None,
            }
        } else if tparts.len() == 3 {
            match (parse_num(tparts[0]), parse_num(tparts[1]), parse_num(tparts[2])) {
                (Some(h), Some(m), Some(sec)) => Some(h * 3600 + m * 60 + sec),
                _ => None,
            }
        } else {
            None
        }
    } else {
        None
    }
}

/// `etime_seconds`, cut to what a `u64` can carry.
pub open spec fn etime_value(s: Seq<char>) -> Option<u64> {
    match etime_seconds(s) {
        Some(t) => if t <= u64::MAX {
            Some(t as u64)
        } else {
            None
        },
        None => None,
    }
}

fn parse_field_u64(f: &String) -> (r: Option<u64>)
    ensures
        (match r {
            Some(v) => parse_num(f@) == Some(v as int),
            None => parse_num(f@) is None,
        }),
{
    crate::text::parse_u64(f.as_str())
}

/// Parse a process-table elapsed-time field into seconds.
pub fn parse_etime(etime: &str) -> (r: Option<u64>)
    ensures
        r == etime_value(etime@),
{
    let dparts = crate::text::split_char(etime, '-');
    proof {
        assert(dparts@.len() == dparts.deep_view().len());
    }
    if dparts.len() == 2 {
        proof {
            assert(dparts@[1]@ == dparts.deep_view()[1]);
            assert(dparts@[0]@ == dparts.deep_view()[0]);
        }
        let tparts = crate::text::split_char(dparts[1].as_str(), ':');
        if tparts.len() >= 3 {
            proof {
                assert(tparts@[0]@ == tparts.deep_view()[0]);
                assert(tparts@[1]@ == tparts.deep_view()[1]);
                assert(tparts@[2]@ == tparts.deep_view()[2]);
            }
            let d = parse_field_u64(&dparts[0]);
            let h = parse_field_u64(&tparts[0]);
            let m = parse_field_u64(&tparts[1]);
            let sec = parse_field_u64(&tparts[2]);
            match (d, h, m, sec) {
                (Some(d), Some(h), Some(m), Some(sec)) => {
                    let total = (d as u128) * 86400 + (h as u128) * 3600 + (m as u128) * 60 + (
                    sec as u128);
                    proof {
                        assert((d as u128) * 86400 == d as int * 86400) by (nonlinear_arith)
                            requires
                                d <= u64::MAX,
                        ;
                        assert((h as u128) * 3600 == h as int * 3600) by (nonlinear_arith)
                            requires
                                h <= u64::MAX,
                        ;
                        assert((m as u128) * 60 == m as int * 60) by (nonlinear_arith)
                            requires
                                m <= u64::MAX,
                        ;
                    }
                    if total <= u64::MAX as u128 {
                        Some(total as u64)
                    } else {
                        None
                    }
                },
                _ => None,
            }
        } else {
            None
        }
    } else if dparts.len() == 1 {
        let tparts = crate::text::split_char(etime, ':');
        if tparts.len() == 2 {
            proof {
                assert(tparts@[0]@ == tparts.deep_view()[0]);
                assert(tparts@[1]@ == tparts.deep_view()[1]);
            }
            let m = parse_field_u64(&tparts[0]);
            let sec = parse_field_u64(&tparts[1]);
            match (m, sec) {
                (Some(m), Some(sec)) => {
                    let total = (m as u128) * 60 + (sec as u128);
                    proof {
                        assert((m as u128) * 60 == m as int * 60) by (nonlinear_arith)
                            requires
                                m <= u64::MAX,
                        ;
                    }
                    if total <= u64::MAX as u128 {
                        Some(total as u64)
                    } else {
                        None
                    }
                },
                _ => None,
            }
        } else if tparts.len() == 3 {
            proof {
                assert(tparts@[0]@ == tparts.deep_view()[0]);
                assert(tparts@[1]@ == tparts.deep_view()[1]);
                assert(tparts@[2]@ == tparts.deep_view()[2]);
            }
            let h = parse_field_u64(&tparts[0]);
            let m = parse_field_u64(&tparts[1]);
            let sec = parse_field_u64(&tparts[2]);
            match (h, m, sec) {
                (Some(h), Some(m), Some(sec)) => {
                    let total = (h as u128) * 3600 + (m as u128) * 60 + (sec as u128);
                    proof {
                        assert((h as u128) * 3600 == h as int * 3600) by (nonlinear_arith)
                            requires
                                h <= u64::MAX,
                        ;
                        assert((m as u128) * 60 == m as int * 60) by (nonlinear_arith)
                            requires
                                m <= u64::MAX,
                        ;
                    }
                    if total <= u64::MAX as u128 {
                        Some(total as u64)
                    } else {
                        None
                    }
                },
                _ => None,
            }
        } else {
            None
        }
    } else {
        None
    }
}


/// A hexadecimal digit, lowercase.
pub open spec fn hex_digit(d: int) -> char {
    if d < 10 {
        ((48 + d) as u8) as char
    } else {
        ((87 + d) as u8) as char
    }
}

/// The two lowercase hex digits of a byte.
pub open spec fn hex2(b: u8) -> Seq<char> {
    seq![hex_digit(b as int / 16), hex_digit(b as int % 16)]
}

fn hex_digit_str(d: u64) -> (r: &'static str)
    requires
        d < 16,
    ensures
        r@ =~= seq![hex_digit(d as int)],
{
    proof {
        reveal_strlit("0");
        reveal_strlit("1");
        reveal_strlit("2");
        reveal_strlit("3");
        reveal_strlit("4");
        reveal_strlit("5");
        reveal_strlit("6");
        reveal_strlit("7");
        reveal_strlit("8");
        reveal_strlit("9");
        reveal_strlit("a");
        reveal_strlit("b");
        reveal_strlit("c");
        reveal_strlit("d");
        reveal_strlit("e");
        reveal_strlit("f");
    }
    match d {
        0 => "0",
        1 => "1",
        2 => "2",
        3 => "3",
        4 => "4",
        5 => "5",
        6 => "6",
        7 => "7",
        8 => "8",
        9 => "9",
        10 => "a",
        11 => "b",
        12 => "c",
        13 => "d",
        14 => "e",
        _ => "f",
    }
}

/// Render one byte as two lowercase hex digits, as MAC addresses want.
pub fn byte_to_hex(b: u8) -> (r: String)
    ensures
        r@ == hex2(b),
{
    let hi = (b / 16) as u64;
    let lo = (b % 16) as u64;
    let r = String::from_str(hex_digit_str(hi)).concat(hex_digit_str(lo));
    proof {
        assert(r@ =~= hex2(b));
    }
    r
}

/// The optional pass-through block device of the disk-image profile.
pub open spec fn passthrough_disk_spec(dev: Option<Seq<char>>) -> Seq<char> {
    match dev {
        Some(d) => "    <disk type='block' device='disk'>\n      <driver name='qemu' type='raw' cache='none' io='native'/>\n      <source dev='"@ + d + "'/>\n      <target dev='vdb' bus='virtio'/>\n      <address type='pci' domain='0x0000' bus='0x05' slot='0x00' function='0x0'/>\n    </disk>"@,
        None => Seq::empty(),
    }
}

/// The descriptor generated for a domain booting an existing disk image
/// with firmware, an optional pass-through block device, and a fixed
/// locally administered MAC prefix.
pub open spec fn qcow2_xml_spec(
    name: Seq<char>,
    id: Seq<char>,
    path: Seq<char>,
    memory_mb: u64,
    vcpus: u32,
    passthrough: Option<Seq<char>>,
    m0: u8,
    m1: u8,
    m2: u8,
) -> Seq<char> {
    "<domain type='kvm'>\n  <name>"@ + name + "</name>\n  <uuid>"@ + id + "</uuid>\n  <metadata>\n    <libosinfo:libosinfo xmlns:libosinfo=\"http://libosinfo.org/xmlns/libvirt/domain/1.0\">\n      <libosinfo:os id=\"http://debian.org/debian/12\"/>\n    </libosinfo:libosinfo>\n  </metadata>\n  <memory unit='KiB'>"@ + dec_str(memory_mb as int * 1024) + "</memory>\n  <currentMemory unit='KiB'>"@ + dec_str(
        memory_mb as int * 1024,
    ) + "</currentMemory>\n  <vcpu placement='static'>"@ + dec_str(vcpus as int) + "</vcpu>\n  <os>\n    <type arch='x86_64' machine='pc-q35-8.2'>hvm</type>\n    <loader readonly='yes' type='pflash'>/usr/share/edk2/x64/OVMF_CODE.4m.fd</loader>\n    <nvram>/var/lib/libvirt/qemu/nvram/"@ + name + "_VARS.fd</nvram>\n    <boot dev='hd'/>\n    <boot dev='cdrom'/>\n  </os>\n  <features>\n    <acpi/>\n    <apic/>\n    <vmport state='off'/>\n  </features>\n  <cpu mode='host-passthrough' check='none' migratable='on'/>\n  <clock offset='utc'>\n    <timer name='rtc' tickpolicy='catchup'/>\n    <timer name='pit' tickpolicy='delay'/>\n    <timer name='hpet' present='no'/>\n  </clock>\n  <on_poweroff>destroy</on_poweroff>\n  <on_reboot>restart</on_reboot>\n  <on_crash>destroy</on_crash>\n  <pm>\n    <suspend-to-mem enabled='no'/>\n    <suspend-to-disk enabled='no'/>\n  </pm>\n  <devices>\n    <emulator>/usr/bin/qemu-system-x86_64</emulator>\n    <disk type='file' device='disk'>\n      <driver name='qemu' type='qcow2' cache='writeback'/>\n      <source file='"@ + path + "'/>\n      <target dev='vda' bus='virtio'/>\n      <address type='pci' domain='0x0000' bus='0x04' slot='0x00' function='0x0'/>\n    </disk>\n"@ + passthrough_disk_spec(
        passthrough,
    ) + "\n    <interface type='network'>\n      <mac address='52:54:00:"@ + hex2(m0) + ":"@ + hex2(m1) + ":"@ + hex2(m2) + "'/>\n      <source network='default'/>\n      <model type='virtio'/>\n      <address type='pci' domain='0x0000' bus='0x01' slot='0x00' function='0x0'/>\n    </interface>\n    <console type='pty'>\n      <target type='virtio' port='0'/>\n    </console>\n    <graphics type='spice' autoport='yes' listen='127.0.0.1'>\n      <listen type='address' address='127.0.0.1'/>\n      <image compression='off'/>\n    </graphics>\n    <video>\n      <model type='qxl' ram='65536' vram='65536' vgamem='16384' heads='1' primary='yes'/>\n      <address type='pci' domain='0x0000' bus='0x00' slot='0x01' function='0x0'/>\n    </video>\n    <controller type='usb' index='0' model='qemu-xhci' ports='15'>\n      <address type='pci' domain='0x0000' bus='0x02' slot='0x00' function='0x0'/>\n    </controller>\n    <controller type='pci' index='0' model='pcie-root'/>\n    <controller type='sata' index='0'>\n      <address type='pci' domain='0x0000' bus='0x00' slot='0x1f' function='0x2'/>\n    </controller>\n    <controller type='virtio-serial' index='0'>\n      <address type='pci' domain='0x0000' bus='0x03' slot='0x00' function='0x0'/>\n    </controller>\n    <rng model='virtio'>\n      <backend model='random'>/dev/urandom</backend>\n      <address type='pci' domain='0x0000' bus='0x06' slot='0x00' function='0x0'/>\n    </rng>\n    <memballoon model='virtio'>\n      <address type='pci' domain='0x0000' bus='0x07' slot='0x00' function='0x0'/>\n    </memballoon>\n  </devices>\n</domain>"@
}

/// Generate the disk-image profile's descriptor.
pub fn generate_qcow2_vm_xml(
    vm_name: &str,
    vm_uuid: &str,
    qcow2_path: &str,
    memory_mb: u64,
    vcpus: u32,
    passthrough_device: Option<&str>,
    mac: (u8, u8, u8),
) -> (r: String)
    requires
        memory_mb <= u64::MAX / 1024,
    ensures
        r@ == qcow2_xml_spec(
            vm_name@,
            vm_uuid@,
            qcow2_path@,
            memory_mb,
            vcpus,
            (match passthrough_device {
                Some(d) => Some(d@),
                None => None,
            }),
            mac.0,
            mac.1,
            mac.2,
        ),
{
    let mem_kib = u64_to_string(memory_mb * 1024);
    let vcpu_s = u64_to_string(vcpus as u64);
    let mut r = String::from_str("<domain type='kvm'>\n  <name>");
    r.append(vm_name);
    r.append("</name>\n  <uuid>");
    r.append(vm_uuid);
    r.append("</uuid>\n  <metadata>\n    <libosinfo:libosinfo xmlns:libosinfo=\"http://libosinfo.org/xmlns/libvirt/domain/1.0\">\n      <libosinfo:os id=\"http://debian.org/debian/12\"/>\n    </libosinfo:libosinfo>\n  </metadata>\n  <memory unit='KiB'>");
    r.append(mem_kib.as_str());
    r.append("</memory>\n  <currentMemory unit='KiB'>");
    r.append(mem_kib.as_str());
    r.append("</currentMemory>\n  <vcpu placement='static'>");
    r.append(vcpu_s.as_str());
    r.append("</vcpu>\n  <os>\n    <type arch='x86_64' machine='pc-q35-8.2'>hvm</type>\n    <loader readonly='yes' type='pflash'>/usr/share/edk2/x64/OVMF_CODE.4m.fd</loader>\n    <nvram>/var/lib/libvirt/qemu/nvram/");
    r.append(vm_name);
    r.append("_VARS.fd</nvram>\n    <boot dev='hd'/>\n    <boot dev='cdrom'/>\n  </os>\n  <features>\n    <acpi/>\n    <apic/>\n    <vmport state='off'/>\n  </features>\n  <cpu mode='host-passthrough' check='none' migratable='on'/>\n  <clock offset='utc'>\n    <timer name='rtc' tickpolicy='catchup'/>\n    <timer name='pit' tickpolicy='delay'/>\n    <timer name='hpet' present='no'/>\n  </clock>\n  <on_poweroff>destroy</on_poweroff>\n  <on_reboot>restart</on_reboot>\n  <on_crash>destroy</on_crash>\n  <pm>\n    <suspend-to-mem enabled='no'/>\n    <suspend-to-disk enabled='no'/>\n  </pm>\n  <devices>\n    <emulator>/usr/bin/qemu-system-x86_64</emulator>\n    <disk type='file' device='disk'>\n      <driver name='qemu' type='qcow2' cache='writeback'/>\n      <source file='");
    r.append(qcow2_path);
    r.append("'/>\n      <target dev='vda' bus='virtio'/>\n      <address type='pci' domain='0x0000' bus='0x04' slot='0x00' function='0x0'/>\n    </disk>\n");
    match passthrough_device {
        Some(dev) => {
            r.append("    <disk type='block' device='disk'>\n      <driver name='qemu' type='raw' cache='none' io='native'/>\n      <source dev='");
            r.append(dev);
            r.append("'/>\n      <target dev='vdb' bus='virtio'/>\n      <address type='pci' domain='0x0000' bus='0x05' slot='0x00' function='0x0'/>\n    </disk>");
        },
        None => {},
    }
    r.append("\n    <interface type='network'>\n      <mac address='52:54:00:");
    let h0 = byte_to_hex(mac.0);
    r.append(h0.as_str());
    r.append(":");
    let h1 = byte_to_hex(mac.1);
    r.append(h1.as_str());
    r.append(":");
    let h2 = byte_to_hex(mac.2);
    r.append(h2.as_str());
    r.append("'/>\n      <source network='default'/>\n      <model type='virtio'/>\n      <address type='pci' domain='0x0000' bus='0x01' slot='0x00' function='0x0'/>\n    </interface>\n    <console type='pty'>\n      <target type='virtio' port='0'/>\n    </console>\n    <graphics type='spice' autoport='yes' listen='127.0.0.1'>\n      <listen type='address' address='127.0.0.1'/>\n      <image compression='off'/>\n    </graphics>\n    <video>\n      <model type='qxl' ram='65536' vram='65536' vgamem='16384' heads='1' primary='yes'/>\n      <address type='pci' domain='0x0000' bus='0x00' slot='0x01' function='0x0'/>\n    </video>\n    <controller type='usb' index='0' model='qemu-xhci' ports='15'>\n      <address type='pci' domain='0x0000' bus='0x02' slot='0x00' function='0x0'/>\n    </controller>\n    <controller type='pci' index='0' model='pcie-root'/>\n    <controller type='sata' index='0'>\n      <address type='pci' domain='0x0000' bus='0x00' slot='0x1f' function='0x2'/>\n    </controller>\n    <controller type='virtio-serial' index='0'>\n      <address type='pci' domain='0x0000' bus='0x03' slot='0x00' function='0x0'/>\n    </controller>\n    <rng model='virtio'>\n      <backend model='random'>/dev/urandom</backend>\n      <address type='pci' domain='0x0000' bus='0x06' slot='0x00' function='0x0'/>\n    </rng>\n    <memballoon model='virtio'>\n      <address type='pci' domain='0x0000' bus='0x07' slot='0x00' function='0x0'/>\n    </memballoon>\n  </devices>\n</domain>");
    proof {
        assert(r@ =~= qcow2_xml_spec(
            vm_name@,
            vm_uuid@,
            qcow2_path@,
            memory_mb,
            vcpus,
            (match passthrough_device {
                Some(d) => Some(d@),
                None => None,
            }),
            mac.0,
            mac.1,
            mac.2,
        ));
    }
    r
}

/// The descriptor generated for a pre-built import image, memory in MiB.
pub open spec fn proxmox_xml_spec(
    name: Seq<char>,
    id: Seq<char>,
    path: Seq<char>,
    memory_mb: u64,
    vcpus: u32,
    m0: u8,
    m1: u8,
    m2: u8,
) -> Seq<char> {
    "<domain type='kvm'>\n  <name>"@ + name + "</name>\n  <uuid>"@ + id + "</uuid>\n  <memory unit='MiB'>"@ + dec_str(memory_mb as int) + "</memory>\n  <currentMemory unit='MiB'>"@ + dec_str(
        memory_mb as int,
    ) + "</currentMemory>\n  <vcpu placement='static'>"@ + dec_str(vcpus as int) + "</vcpu>\n  <os>\n    <type arch='x86_64' machine='pc-q35-6.2'>hvm</type>\n    <boot dev='hd'/>\n  </os>\n  <features>\n    <acpi/>\n    <apic/>\n    <vmport state='off'/>\n  </features>\n  <cpu mode='host-model' check='partial'/>\n  <clock offset='utc'>\n    <timer name='rtc' tickpolicy='catchup'/>\n    <timer name='pit' tickpolicy='delay'/>\n    <timer name='hpet' present='no'/>\n  </clock>\n  <on_poweroff>destroy</on_poweroff>\n  <on_reboot>restart</on_reboot>\n  <on_crash>destroy</on_crash>\n  <pm>\n    <suspend-to-mem enabled='no'/>\n    <suspend-to-disk enabled='no'/>\n  </pm>\n  <devices>\n    <emulator>/usr/bin/qemu-system-x86_64</emulator>\n    <disk type='file' device='disk'>\n      <driver name='qemu' type='qcow2'/>\n      <source file='"@ + path + "'/>\n      <target dev='vda' bus='virtio'/>\n      <address type='pci' domain='0x0000' bus='0x04' slot='0x00' function='0x0'/>\n    </disk>\n    <controller type='usb' index='0' model='qemu-xhci' ports='15'>\n      <address type='pci' domain='0x0000' bus='0x02' slot='0x00' function='0x0'/>\n    </controller>\n    <controller type='sata' index='0'>\n      <address type='pci' domain='0x0000' bus='0x00' slot='0x1f' function='0x2'/>\n    </controller>\n    <controller type='pci' index='0' model='pcie-root'/>\n    <interface type='network'>\n      <mac address='52:54:00:"@ + hex2(m0) + ":"@ + hex2(m1) + ":"@
        + hex2(m2) + "'/>\n      <source network='default'/>\n      <model type='virtio'/>\n      <address type='pci' domain='0x0000' bus='0x01' slot='0x00' function='0x0'/>\n    </interface>\n    <serial type='pty'>\n      <target type='isa-serial' port='0'>\n        <model name='isa-serial'/>\n      </target>\n    </serial>\n    <console type='pty'>\n      <target type='serial' port='0'/>\n    </console>\n    <channel type='unix'>\n      <target type='virtio' name='org.qemu.guest_agent.0'/>\n      <address type='virtio-serial' controller='0' bus='0' port='1'/>\n    </channel>\n    <input type='tablet' bus='usb'>\n      <address type='usb' bus='0' port='1'/>\n    </input>\n    <input type='mouse' bus='ps2'/>\n    <input type='keyboard' bus='ps2'/>\n    <graphics type='vnc' port='-1' autoport='yes' listen='127.0.0.1'>\n      <listen type='address' address='127.0.0.1'/>\n    </graphics>\n    <video>\n      <model type='qxl' ram='65536' vram='65536' vgamem='16384' heads='1' primary='yes'/>\n      <address type='pci' domain='0x0000' bus='0x00' slot='0x01' function='0x0'/>\n    </video>\n    <memballoon model='virtio'>\n      <address type='pci' domain='0x0000' bus='0x05' slot='0x00' function='0x0'/>\n    </memballoon>\n    <rng model='virtio'>\n      <backend model='random'>/dev/urandom</backend>\n      <address type='pci' domain='0x0000' bus='0x06' slot='0x00' function='0x0'/>\n    </rng>\n  </devices>\n</domain>"@
}

/// Generate the import-image profile's descriptor.
pub fn generate_proxmox_vm_xml(
    name: &str,
    vm_id: &str,
    proxmox_path: &str,
    memory_mb: u64,
    vcpus: u32,
    mac: (u8, u8, u8),
) -> (r: String)
    ensures
        r@ == proxmox_xml_spec(name@, vm_id@, proxmox_path@, memory_mb, vcpus, mac.0, mac.1, mac.2),
{
    let mem_s = u64_to_string(memory_mb);
    let vcpu_s = u64_to_string(vcpus as u64);
    let mut r = String::from_str("<domain type='kvm'>\n  <name>");
    r.append(name);
    r.append("</name>\n  <uuid>");
    r.append(vm_id);
    r.append("</uuid>\n  <memory unit='MiB'>");
    r.append(mem_s.as_str());
    r.append("</memory>\n  <currentMemory unit='MiB'>");
    r.append(mem_s.as_str());
    r.append("</currentMemory>\n  <vcpu placement='static'>");
    r.append(vcpu_s.as_str());
    r.append("</vcpu>\n  <os>\n    <type arch='x86_64' machine='pc-q35-6.2'>hvm</type>\n    <boot dev='hd'/>\n  </os>\n  <features>\n    <acpi/>\n    <apic/>\n    <vmport state='off'/>\n  </features>\n  <cpu mode='host-model' check='partial'/>\n  <clock offset='utc'>\n    <timer name='rtc' tickpolicy='catchup'/>\n    <timer name='pit' tickpolicy='delay'/>\n    <timer name='hpet' present='no'/>\n  </clock>\n  <on_poweroff>destroy</on_poweroff>\n  <on_reboot>restart</on_reboot>\n  <on_crash>destroy</on_crash>\n  <pm>\n    <suspend-to-mem enabled='no'/>\n    <suspend-to-disk enabled='no'/>\n  </pm>\n  <devices>\n    <emulator>/usr/bin/qemu-system-x86_64</emulator>\n    <disk type='file' device='disk'>\n      <driver name='qemu' type='qcow2'/>\n      <source file='");
    r.append(proxmox_path);
    r.append("'/>\n      <target dev='vda' bus='virtio'/>\n      <address type='pci' domain='0x0000' bus='0x04' slot='0x00' function='0x0'/>\n    </disk>\n    <controller type='usb' index='0' model='qemu-xhci' ports='15'>\n      <address type='pci' domain='0x0000' bus='0x02' slot='0x00' function='0x0'/>\n    </controller>\n    <controller type='sata' index='0'>\n      <address type='pci' domain='0x0000' bus='0x00' slot='0x1f' function='0x2'/>\n    </controller>\n    <controller type='pci' index='0' model='pcie-root'/>\n    <interface type='network'>\n      <mac address='52:54:00:");
    let h0 = byte_to_hex(mac.0);
    r.append(h0.as_str());
    r.append(":");
    let h1 = byte_to_hex(mac.1);
    r.append(h1.as_str());
    r.append(":");
    let h2 = byte_to_hex(mac.2);
    r.append(h2.as_str());
    r.append("'/>\n      <source network='default'/>\n      <model type='virtio'/>\n      <address type='pci' domain='0x0000' bus='0x01' slot='0x00' function='0x0'/>\n    </interface>\n    <serial type='pty'>\n      <target type='isa-serial' port='0'>\n        <model name='isa-serial'/>\n      </target>\n    </serial>\n    <console type='pty'>\n      <target type='serial' port='0'/>\n    </console>\n    <channel type='unix'>\n      <target type='virtio' name='org.qemu.guest_agent.0'/>\n      <address type='virtio-serial' controller='0' bus='0' port='1'/>\n    </channel>\n    <input type='tablet' bus='usb'>\n      <address type='usb' bus='0' port='1'/>\n    </input>\n    <input type='mouse' bus='ps2'/>\n    <input type='keyboard' bus='ps2'/>\n    <graphics type='vnc' port='-1' autoport='yes' listen='127.0.0.1'>\n      <listen type='address' address='127.0.0.1'/>\n    </graphics>\n    <video>\n      <model type='qxl' ram='65536' vram='65536' vgamem='16384' heads='1' primary='yes'/>\n      <address type='pci' domain='0x0000' bus='0x00' slot='0x01' function='0x0'/>\n    </video>\n    <memballoon model='virtio'>\n      <address type='pci' domain='0x0000' bus='0x05' slot='0x00' function='0x0'/>\n    </memballoon>\n    <rng model='virtio'>\n      <backend model='random'>/dev/urandom</backend>\n      <address type='pci' domain='0x0000' bus='0x06' slot='0x00' function='0x0'/>\n    </rng>\n  </devices>\n</domain>");
    proof {
        assert(r@ =~= proxmox_xml_spec(
            name@,
            vm_id@,
            proxmox_path@,
            memory_mb,
            vcpus,
            mac.0,
            mac.1,
            mac.2,
        ));
    }
    r
}

/// Mint an identity, draw a MAC suffix and generate the disk-image
/// profile's descriptor. The memory bound is the KiB conversion's
/// machine limit; nothing else can fail before the hypervisor is asked.
pub fn plan_create_from_qcow2(
    qcow2_path: &str,
    vm_name: &str,
    memory_mb: u64,
    vcpus: u32,
    passthrough_device: Option<&str>,
) -> (r: Result<CreatePlan, KvmError>)
    ensures
        (r is Ok) == (memory_mb <= u64::MAX / 1024),
        r is Ok ==> r->Ok_0.vm_id@.len() == 36,
        r is Ok ==> (exists|m: (u8, u8, u8)|
            r->Ok_0.xml@ == qcow2_xml_spec(
                vm_name@,
                r->Ok_0.vm_id@,
                qcow2_path@,
                memory_mb,
                vcpus,
                (match passthrough_device {
                    Some(d) => Some(d@),
                    None => None,
                }),
                m.0,
                m.1,
                m.2,
            )),
        r is Err ==> r->Err_0 is VmOperationFailed,
{
    if memory_mb > u64::MAX / 1024 {
        return Err(
            KvmError::VmOperationFailed(String::from_str("memory exceeds the supported maximum")),
        );
    }
    let vm_id = crate::ids::fresh_uuid();
    let m0: u8 = rand::random::<u8>();
    let m1: u8 = rand::random::<u8>();
    let m2: u8 = rand::random::<u8>();
    let xml = generate_qcow2_vm_xml(
        vm_name,
        vm_id.as_str(),
        qcow2_path,
        memory_mb,
        vcpus,
        passthrough_device,
        (m0, m1, m2),
    );
    proof {
        let w = (m0, m1, m2);
        assert(xml@ == qcow2_xml_spec(
            vm_name@,
            vm_id@,
            qcow2_path@,
            memory_mb,
            vcpus,
            (match passthrough_device {
                Some(d) => Some(d@),
                None => None,
            }),
            w.0,
            w.1,
            w.2,
        ));
    }
    Ok(CreatePlan { vm_id, xml })
}

/// Mint an identity, draw a MAC suffix and generate the import-image
/// profile's descriptor, memory given in whole GB.
pub fn plan_create_proxmox(name: &str, proxmox_path: &str, memory_gb: u32, vcpus: u32) -> (r:
    CreatePlan)
    ensures
        r.vm_id@.len() == 36,
        (exists|m: (u8, u8, u8)|
            r.xml@ == proxmox_xml_spec(
                name@,
                r.vm_id@,
                proxmox_path@,
                (memory_gb as u64 * 1024) as u64,
                vcpus,
                m.0,
                m.1,
                m.2,
            )),
{
    let vm_id = crate::ids::fresh_uuid();
    let memory_mb = (memory_gb as u64) * 1024;
    let m0: u8 = rand::random::<u8>();
    let m1: u8 = rand::random::<u8>();
    let m2: u8 = rand::random::<u8>();
    let xml = generate_proxmox_vm_xml(name, vm_id.as_str(), proxmox_path, memory_mb, vcpus, (
        m0,
        m1,
        m2,
    ));
    proof {
        let w = (m0, m1, m2);
        assert(xml@ == proxmox_xml_spec(
            name@,
            vm_id@,
            proxmox_path@,
            (memory_gb as u64 * 1024) as u64,
            vcpus,
            w.0,
            w.1,
            w.2,
        ));
    }
    CreatePlan { vm_id, xml }
}

/// The non-empty, trimmed lines of snapshot-list tool output, in order.
pub open spec fn snapshot_names_spec(lines: Seq<Seq<char>>) -> Seq<Seq<char>>
    decreases lines.len(),
{
    if lines.len() == 0 {
        Seq::empty()
    } else {
        let t = crate::text::trim_spec(lines[0]);
        (if t.len() > 0 {
            seq![t]
        } else {
            Seq::<Seq<char>>::empty()
        }) + snapshot_names_spec(lines.drop_first())
    }
}

/// Parse the snapshot-list tool's name-per-line output into snapshot
/// records dated `now`; the creation times the tool does not print stay
/// best-effort.
pub fn parse_snapshot_list(stdout: &str, now: u64) -> (r: Vec<Snapshot>)
    ensures
        r@.map_values(|s: Snapshot| s.name@) == snapshot_names_spec(
            crate::text::split_char_spec(stdout@, '\n'),
        ),
        forall|i: int|
            0 <= i < r@.len() ==> ((#[trigger] r@[i]).created_at == now && r@[i].state@
                == "disk-snapshot"@ && r@[i].parent is None && opt_view(r@[i].description) == Some(
                "Snapshot created by KVM Manager"@,
            )),
{
    let lines = crate::text::split_char(stdout, '\n');
    let ghost glines = lines.deep_view();
    let n = lines.len();
    let mut r: Vec<Snapshot> = Vec::new();
    let mut k: usize = 0;
    proof {
        assert(glines.skip(0) =~= glines);
        assert(r@.map_values(|s: Snapshot| s.name@) =~= Seq::<Seq<char>>::empty());
    }
    while k < n
        invariant
            n == lines@.len(),
            glines == lines.deep_view(),
            glines.len() == n,
            0 <= k <= n,
            r@.map_values(|s: Snapshot| s.name@) + snapshot_names_spec(glines.skip(k as int))
                =~= snapshot_names_spec(glines),
            forall|i: int|
                0 <= i < r@.len() ==> ((#[trigger] r@[i]).created_at == now && r@[i].state@
                    == "disk-snapshot"@ && r@[i].parent is None && opt_view(r@[i].description)
                    == Some("Snapshot created by KVM Manager"@)),
        decreases n - k,
    {
        proof {
            assert(glines.skip(k as int).drop_first() =~= glines.skip(k as int + 1));
            assert(glines.skip(k as int)[0] == glines[k as int]);
            assert(glines[k as int] == lines@[k as int]@);
        }
        let ghost pre = r@.map_values(|s: Snapshot| s.name@);
        let name = crate::text::trim_str(lines[k].as_str());
        if name.as_str().unicode_len() > 0 {
            let snap = Snapshot {
                name,
                description: Some(String::from_str("Snapshot created by KVM Manager")),
                created_at: now,
                state: String::from_str("disk-snapshot"),
                parent: None,
            };
            let ghost gsnap = snap;
            r.push(snap);
            proof {
                assert(r@.map_values(|s: Snapshot| s.name@) =~= pre.push(gsnap.name@));
            }
        }
        k += 1;
    }
    proof {
        assert(glines.skip(n as int) =~= Seq::<Seq<char>>::empty());
        assert(r@.map_values(|s: Snapshot| s.name@) =~= snapshot_names_spec(glines));
    }
    r
}

/// Whether a domain document attaches the named virtual network.
pub fn domain_uses_network(xml: &str, network_name: &str) -> (r: bool)
    ensures
        r == crate::text::has_sub(xml@, "<source network='"@ + network_name@),
{
    let needle = String::from_str("<source network='").concat(network_name);
    crate::text::contains_sub(xml, needle.as_str())
}

/// Combine the pool's raw facts with its parsed document into the
/// caller-facing record; the path and type default as documented.
pub fn pool_to_storage_pool(
    name: String,
    capacity: u64,
    available: u64,
    allocation: u64,
    is_running: bool,
    autostart: bool,
    parsed: crate::xml_parser::StoragePoolXmlInfo,
    volumes: Vec<crate::types::StorageVolume>,
) -> (r: crate::types::StoragePool)
    ensures
        r.name == name,
        r.pool_type == parsed.pool_type,
        r.path@ == (match opt_view(parsed.path) {
            Some(p) => p,
            None => "/var/lib/libvirt/images"@,
        }),
        r.capacity == capacity,
        r.available == available,
        r.used == allocation,
        r.state@ == (if is_running {
            "active"@
        } else {
            "inactive"@
        }),
        r.autostart == autostart,
        r.volumes == volumes,
{
    crate::types::StoragePool {
        name,
        pool_type: parsed.pool_type,
        path: (match parsed.path {
            Some(p) => p,
            None => String::from_str("/var/lib/libvirt/images"),
        }),
        capacity,
        available,
        used: allocation,
        state: (if is_running {
            String::from_str("active")
        } else {
            String::from_str("inactive")
        }),
        autostart,
        volumes,
    }
}

/// Combine a network's raw facts with its parsed document into the
/// caller-facing record.
pub fn network_to_network(
    name: String,
    uuid: String,
    is_active: bool,
    autostart: bool,
    parsed: crate::xml_parser::NetworkXmlInfo,
    connected_vms: Vec<String>,
) -> (r: crate::types::Network)
    ensures
        r.name == name,
        r.uuid == uuid,
        r.bridge_name == parsed.bridge_name,
        r.forward_mode == parsed.forward_mode,
        r.state@ == (if is_active {
            "active"@
        } else {
            "inactive"@
        }),
        r.autostart == autostart,
        r.ip_range == parsed.ip_range,
        r.dhcp_enabled == parsed.dhcp_enabled,
        r.connected_vms == connected_vms,
{
    crate::types::Network {
        name,
        uuid,
        bridge_name: parsed.bridge_name,
        forward_mode: parsed.forward_mode,
        state: (if is_active {
            String::from_str("active")
        } else {
            String::from_str("inactive")
        }),
        autostart,
        ip_range: parsed.ip_range,
        dhcp_enabled: parsed.dhcp_enabled,
        connected_vms,
    }
}

} // verus!
