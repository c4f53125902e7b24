//! Metric derivations: CPU clamping, memory bounds, I/O summation, and
//! the host-side text parsers.

use kvm_manager::monitoring::{
    candidate_disk_devices, candidate_network_interfaces, check_guest_agent, cpu_usage_for_state,
    cpu_usage_percent, derive_memory_stats, needs_descriptor_io_pass, sum_io_counters,
    MemoryStatSample,
};
use kvm_manager::system_monitor::{
    build_proxmox_info, count_running_vms, host_free_memory_mb, host_memory_stats,
    memory_percentage, meminfo_value_kb, parse_load_average, parse_trimmed_u64,
    process_table_cpu, process_table_etime,
};
use kvm_manager::types::VmState;
use kvm_manager::vm_manager::parse_etime;

#[test]
fn cpu_usage_is_clamped_to_percent_range() {
    // Full interval of CPU time on one vCPU is exactly 100%.
    assert_eq!(cpu_usage_percent(0, 1_000_000_000, 1_000_000_000, 1), 100);
    // Half the interval is 50%.
    assert_eq!(cpu_usage_percent(0, 500_000_000, 1_000_000_000, 1), 50);
    // Many vCPUs cannot push the figure past 100.
    assert_eq!(cpu_usage_percent(0, 900_000_000, 1_000_000_000, 8), 100);
    // Non-monotonic samples and a stalled clock read as 0.
    assert_eq!(cpu_usage_percent(10, 5, 1_000_000_000, 2), 0);
    assert_eq!(cpu_usage_percent(0, 5, 0, 2), 0);
    assert_eq!(cpu_usage_percent(u64::MAX - 1, u64::MAX, 1, u32::MAX), 100);
}

#[test]
fn cpu_usage_is_zero_unless_running() {
    assert_eq!(cpu_usage_for_state(VmState::Stopped, 0, 10, 10, 4), 0);
    assert_eq!(cpu_usage_for_state(VmState::Paused, 0, 10, 10, 4), 0);
    let running = cpu_usage_for_state(VmState::Running, 0, 500_000_000, 1_000_000_000, 1);
    assert_eq!(running, 50);
}

#[test]
fn memory_used_never_exceeds_total() {
    // Detailed path with the available counter: used = actual - available.
    let s = MemoryStatSample {
        actual_balloon: Some(2_097_152),
        available: Some(1_048_576),
        unused: None,
    };
    let (used, total) = derive_memory_stats(Some(s), 0);
    assert_eq!((used, total), (1024, 2048));
    // Unused counter as the fallback.
    let s = MemoryStatSample {
        actual_balloon: Some(2_097_152),
        available: None,
        unused: Some(524_288),
    };
    let (used, total) = derive_memory_stats(Some(s), 0);
    assert_eq!((used, total), (1536, 2048));
    // Neither counter: used equals the balloon size.
    let s = MemoryStatSample { actual_balloon: Some(2_097_152), available: None, unused: None };
    assert_eq!(derive_memory_stats(Some(s), 0), (2048, 2048));
    // A guest reporting more available than the balloon cannot push used
    // below zero.
    let s = MemoryStatSample {
        actual_balloon: Some(1_048_576),
        available: Some(9_999_999),
        unused: None,
    };
    let (used, total) = derive_memory_stats(Some(s), 0);
    assert!(used <= total);
    assert_eq!(used, 0);
    // No detailed statistics: the coarse total on both sides.
    assert_eq!(derive_memory_stats(None, 4_194_304), (4096, 4096));
}

#[test]
fn io_counters_sum_and_fallback_trigger() {
    let readings = vec![(10u64, 5u64), (20, 15), (0, 0)];
    assert_eq!(sum_io_counters(&readings), (30, 20));
    let saturating = vec![(u64::MAX, 1u64), (5, u64::MAX)];
    assert_eq!(sum_io_counters(&saturating), (u64::MAX, u64::MAX));
    assert!(needs_descriptor_io_pass(0, 0));
    assert!(!needs_descriptor_io_pass(1, 0));
    assert_eq!(candidate_disk_devices().len(), 8);
    assert_eq!(candidate_network_interfaces().len(), 6);
    assert_eq!(candidate_disk_devices()[0], "vda");
}

#[test]
fn etime_formats() {
    assert_eq!(parse_etime("10:30"), Some(630));
    assert_eq!(parse_etime("02:30:45"), Some(9045));
    assert_eq!(parse_etime("1-02:30:45"), Some(95445));
    assert_eq!(parse_etime("3-00:00:01"), Some(259201));
    assert_eq!(parse_etime("45"), None);
    assert_eq!(parse_etime("a:b"), None);
    assert_eq!(parse_etime("1-2"), None);
    assert_eq!(parse_etime(""), None);
}

#[test]
fn process_table_scans() {
    let table = "COMMAND  %CPU\nbash     0.0\nqemu-system-x86 25.3\n";
    assert_eq!(process_table_cpu(table, "guest-a"), Some(25));
    let table = "COMMAND PID ELAPSED\nbash 100 05:00\nqemu-guest-a 200 1-00:10:05\n";
    assert_eq!(process_table_etime(table, "guest-a"), Some(87005));
    assert_eq!(process_table_etime("nothing here\n", "guest-a"), None);
}

#[test]
fn meminfo_parsing() {
    let content = "MemTotal:       16384000 kB\nMemFree:         1024000 kB\nMemAvailable:    8192000 kB\n";
    assert_eq!(meminfo_value_kb(content, "MemTotal:"), Some(16_384_000));
    assert_eq!(meminfo_value_kb(content, "SwapTotal:"), None);
    assert_eq!(host_free_memory_mb(content), Some(8000));
    let no_available = "MemTotal: 1000 kB\nMemFree: 512000 kB\n";
    assert_eq!(host_free_memory_mb(no_available), Some(500));
    let (used, total) = host_memory_stats(content);
    assert_eq!(total, 16_384_000 * 1024);
    assert_eq!(used, (16_384_000 - 8_192_000) * 1024);
}

#[test]
fn load_average_parsing() {
    let l = parse_load_average("0.52 0.58 0.59 1/234 5678\n");
    assert_eq!((l.one, l.five, l.fifteen), (52, 58, 59));
    let l = parse_load_average("12.5 3 0.07\n");
    assert_eq!((l.one, l.five, l.fifteen), (1250, 300, 7));
    let l = parse_load_average("garbage\n");
    assert_eq!((l.one, l.five, l.fifteen), (0, 0, 0));
}

#[test]
fn percentages_and_trimmed_numbers() {
    assert_eq!(memory_percentage(1, 4), 25);
    assert_eq!(memory_percentage(0, 0), 0);
    assert_eq!(memory_percentage(4, 4), 100);
    assert_eq!(parse_trimmed_u64("  12345 \n"), Some(12345));
    assert_eq!(parse_trimmed_u64("12a45"), None);
}

#[test]
fn vm_process_counting_and_agent_check() {
    let names = vec![
        "qemu-system-x86_64".to_string(),
        "bash".to_string(),
        "kvm-nx-lpage-re".to_string(),
        "libvirtd".to_string(),
    ];
    assert_eq!(count_running_vms(&names), 3);
    assert!(check_guest_agent("<channel><target name='org.qemu.guest_agent.0'/></channel>"));
    assert!(!check_guest_agent("<devices><console/></devices>"));
}

#[test]
fn proxmox_image_description() {
    let info = build_proxmox_info("/img/appliance.qcow2".to_string(), 3 << 30, 1_700_000_000, true);
    assert_eq!(info.size_gb, 3);
    assert_eq!(info.format, "qcow2");
    assert!(info.is_running);
    assert_eq!(info.estimated_memory_usage, 4 << 30);
    let idle = build_proxmox_info("/img/a.qcow2".to_string(), 1 << 20, 0, false);
    assert_eq!(idle.size_gb, 0);
    assert_eq!(idle.estimated_memory_usage, 0);
}
