//! Host-side telemetry: parsers for the host's own counters and process
//! table, the bounded ring of historical host snapshots, and the
//! integer-scaled host statistics model. Reading `/proc` and running the
//! process-table tool stay with the caller; the text lands here.
//!
//! Percentages are whole percent; load averages are hundredths.

use vstd::prelude::*;

verus! {

use vstd::string::StringExecFns;
use vstd::string::StrSliceExecFns;
use crate::text::has_sub;
use crate::text::contains_sub;
use crate::text::starts_with_spec;
use crate::text::starts_with;
use crate::text::fields_spec;
use crate::text::fields;
use crate::text::split_char_spec;
use crate::text::split_char;
use crate::text::all_digits;
use crate::text::digit_val;
use crate::text::dec_val;
use crate::text::parse_u64;
use crate::text::trim_spec;
use crate::text::trim_str;
use crate::vm_manager::parse_num;
use crate::vm_manager::etime_value;
use crate::vm_manager::parse_etime;

/// How many historical host snapshots the ring keeps by default.
pub const DEFAULT_SNAPSHOT_CAP: usize = 100;

/// Point-in-time statistics of the host itself.
#[derive(Debug, Clone)]
pub struct SystemStats {
    /// Unix seconds.
    pub timestamp: u64,
    /// Whole percent.
    pub cpu_usage: u64,
    pub memory_used: u64,
    pub memory_total: u64,
    /// Whole percent.
    pub memory_percentage: u64,
    pub swap_used: u64,
    pub swap_total: u64,
    pub disk_stats: Vec<DiskInfo>,
    pub network_stats: NetworkInfo,
    pub load_average: LoadAverage,
    pub uptime: u64,
    pub running_vms: u64,
}

#[derive(Debug, Clone)]
pub struct DiskInfo {
    pub name: String,
    pub mount_point: String,
    pub total_space: u64,
    pub available_space: u64,
    pub used_space: u64,
    /// Whole percent.
    pub usage_percentage: u64,
    pub file_system: String,
}

#[derive(Debug, Clone)]
pub struct NetworkInfo {
    pub total_bytes_received: u64,
    pub total_bytes_transmitted: u64,
    pub total_packets_received: u64,
    pub total_packets_transmitted: u64,
    pub interfaces: Vec<NetworkInterface>,
}

#[derive(Debug, Clone)]
pub struct NetworkInterface {
    pub name: String,
    pub bytes_received: u64,
    pub bytes_transmitted: u64,
    pub packets_received: u64,
    pub packets_transmitted: u64,
    pub errors_received: u64,
    pub errors_transmitted: u64,
}

/// Load averages in hundredths.
#[derive(Debug, Clone, Copy, PartialEq, Eq, Structural)]
pub struct LoadAverage {
    pub one: u64,
    pub five: u64,
    pub fifteen: u64,
}

/// Per-domain statistics as the host-level view reports them.
#[derive(Debug, Clone)]
pub struct VMStatistics {
    pub name: String,
    pub status: String,
    pub cpu_time: u64,
    /// Whole percent.
    pub cpu_percentage: u64,
    pub memory_used: u64,
    pub memory_total: u64,
    /// Whole percent.
    pub memory_percentage: u64,
    pub disk_read_bytes: u64,
    pub disk_write_bytes: u64,
    pub network_rx_bytes: u64,
    pub network_tx_bytes: u64,
    pub uptime: u64,
    /// Unix seconds.
    pub last_updated: u64,
}

/// What is known about a pre-built import image on disk.
#[derive(Debug, Clone)]
pub struct ProxmoxVMInfo {
    pub path: String,
    /// GB, rounded down.
    pub size_gb: u64,
    pub format: String,
    /// Unix seconds.
    pub last_modified: u64,
    pub is_running: bool,
    pub estimated_memory_usage: u64,
}

/// A process name that marks a running virtualization process.
pub open spec fn is_vm_process(name: Seq<char>) -> bool {
    has_sub(name, "qemu"@) || has_sub(name, "kvm"@) || has_sub(name, "virt"@)
}

/// How many of the given process names belong to virtualization
/// processes.
pub fn count_running_vms(names: &Vec<String>) -> (r: usize)
    ensures
        r == names.deep_view().filter((|n: Seq<char>| is_vm_process(n))).len(),
{
    let ghost pred = (|n: Seq<char>| is_vm_process(n));
    let mut count: usize = 0;
    let mut k: usize = 0;
    proof {
        reveal(Seq::filter);
        assert(names.deep_view().take(0) =~= Seq::<Seq<char>>::empty());
    }
    while k < names.len()
        invariant
            0 <= k <= names@.len(),
            names.deep_view().len() == names@.len(),
            pred == (|n: Seq<char>| is_vm_process(n)),
            count == names.deep_view().take(k as int).filter(pred).len(),
            count <= k,
        decreases names@.len() - k,
    {
        let hit = contains_sub(names[k].as_str(), "qemu") || contains_sub(names[k].as_str(), "kvm")
            || contains_sub(names[k].as_str(), "virt");
        proof {
            reveal(Seq::filter);
            let dv = names.deep_view();
            assert(dv.take(k as int + 1).drop_last() =~= dv.take(k as int));
            assert(dv.take(k as int + 1).last() == dv[k as int]);
            assert(dv[k as int] == names@[k as int]@);
            assert(hit == pred(dv[k as int]));
        }
        if hit {
            count += 1;
        }
        k += 1;
    }
    proof {
        assert(names.deep_view().take(names@.len() as int) =~= names.deep_view());
    }
    count
}

/// The kB figure of the last line of the counter file that starts with
/// `label`; an unreadable figure counts as 0, as the loose format
/// tolerates it.
pub open spec fn line_label_kb(line: Seq<char>, label: Seq<char>) -> Option<int> {
    if starts_with_spec(line, label) {
        let fs = fields_spec(line);
        if fs.len() >= 2 {
            match parse_num(fs[1]) {
                Some(v) => Some(v),
                None => Some(0),
            }
        } else {
            Some(0)
        }
    } else {
        None
    }
}

pub open spec fn meminfo_kb_lines(lines: Seq<Seq<char>>, label: Seq<char>) -> Option<int>
    decreases lines.len(),
{
    if lines.len() == 0 {
        None
    } else {
        match line_label_kb(lines.last(), label) {
            Some(v) => Some(v),
            None => meminfo_kb_lines(lines.drop_last(), label),
        }
    }
}

/// The value of a labelled kB counter line in a counter file.
pub open spec fn meminfo_kb(content: Seq<char>, label: Seq<char>) -> Option<int> {
    meminfo_kb_lines(split_char_spec(content, '\n'), label)
}

/// Read one labelled kB counter out of counter-file text.
pub fn meminfo_value_kb(content: &str, label: &str) -> (r: Option<u64>)
    ensures
        (match r {
            Some(v) => meminfo_kb(content@, label@) == Some(v as int),
            None => meminfo_kb(content@, label@) is None,
        }),
{
    let lines = split_char(content, '\n');
    let ghost glines = lines.deep_view();
    let n = lines.len();
    let mut cur: Option<u64> = None;
    let mut k: usize = 0;
    proof {
        assert(glines.take(0) =~= Seq::<Seq<char>>::empty());
    }
    while k < n
        invariant
            n == lines@.len(),
            glines == lines.deep_view(),
            glines.len() == n,
            0 <= k <= n,
            (match cur {
                Some(v) => meminfo_kb_lines(glines.take(k as int), label@) == Some(v as int),
                None => meminfo_kb_lines(glines.take(k as int), label@) is None,
            }),
        decreases n - k,
    {
        proof {
            assert(glines.take(k as int + 1).drop_last() =~= glines.take(k as int));
            assert(glines.take(k as int + 1).last() == glines[k as int]);
            assert(glines[k as int] == lines@[k as int]@);
        }
        if starts_with(lines[k].as_str(), label) {
            let fs = fields(lines[k].as_str());
            proof {
                assert(fs.deep_view() == fields_spec(glines[k as int]));
            }
            if fs.len() >= 2 {
                proof {
                    assert(fs@[1]@ == fs.deep_view()[1]);
                }
                match parse_u64(fs[1].as_str()) {
                    Some(v) => {
                        cur = Some(v);
                    },
                    None => {
                        cur = Some(0);
                    },
                }
            } else {
                cur = Some(0);
            }
        }
        k += 1;
    }
    proof {
        assert(glines.take(n as int) =~= glines);
    }
    cur
}

/// Free host memory in MB: the available figure when the counter file
/// reports one, else the free figure, else nothing.
pub fn host_free_memory_mb(meminfo: &str) -> (r: Option<u64>)
    ensures
        (match r {
            Some(v) => (match meminfo_kb(meminfo@, "MemAvailable:"@) {
                Some(a) => v as int == a / 1024,
                None => meminfo_kb(meminfo@, "MemFree:"@) == Some(v as int * 1024 + (v as int
                    * 1024 - v as int * 1024)) || (match meminfo_kb(meminfo@, "MemFree:"@) {
                    Some(f) => v as int == f / 1024,
                    None => false,
                }),
            }),
            None => meminfo_kb(meminfo@, "MemAvailable:"@) is None && meminfo_kb(
                meminfo@,
                "MemFree:"@,
            ) is None,
        }),
{
    match meminfo_value_kb(meminfo, "MemAvailable:") {
        Some(kb) => Some(kb / 1024),
        None => match meminfo_value_kb(meminfo, "MemFree:") {
            Some(kb) => Some(kb / 1024),
            None => None,
        },
    }
}

/// Used and total host memory in bytes from counter-file text: total and
/// available scaled from kB, used their difference, never negative.
pub fn host_memory_stats(meminfo: &str) -> (r: (u64, u64))
    ensures
        ({
            let total = (match meminfo_kb(meminfo@, "MemTotal:"@) {
                Some(v) => if v * 1024 <= u64::MAX {
                    v * 1024
                } else {
                    u64::MAX as int
                },
                None => 0,
            });
            let avail = (match meminfo_kb(meminfo@, "MemAvailable:"@) {
                Some(v) => if v * 1024 <= u64::MAX {
                    v * 1024
                } else {
                    u64::MAX as int
                },
                None => 0,
            });
            &&& r.1 == total
            &&& r.0 == (if avail <= total {
                total - avail
            } else {
                0
            })
        }),
{
    let total = (match meminfo_value_kb(meminfo, "MemTotal:") {
        Some(kb) => if kb > u64::MAX / 1024 {
            u64::MAX
        } else {
            kb * 1024
        },
        None => 0,
    });
    let avail = (match meminfo_value_kb(meminfo, "MemAvailable:") {
        Some(kb) => if kb > u64::MAX / 1024 {
            u64::MAX
        } else {
            kb * 1024
        },
        None => 0,
    });
    let used = (if avail <= total {
        total - avail
    } else {
        0
    });
    (used, total)
}

/// Hundredths of a decimal field such as `1.23`; two fractional digits
/// count, a malformed or overflowing field gives 0.
pub open spec fn frac2(s: Seq<char>) -> int {
    if s.len() == 0 {
        0
    } else if s.len() == 1 {
        digit_val(s[0]) * 10
    } else {
        digit_val(s[0]) * 10 + digit_val(s[1])
    }
}

pub open spec fn load_hundredths(f: Seq<char>) -> int {
    let segs = split_char_spec(f, '.');
    if segs.len() == 1 && crate::xml_parser::dec_parse_ok(segs[0]) && dec_val(segs[0]) * 100 + 99
        <= u64::MAX {
        dec_val(segs[0]) * 100
    } else if segs.len() == 2 && crate::xml_parser::dec_parse_ok(segs[0]) && all_digits(segs[1])
        && dec_val(segs[0]) * 100 + 99 <= u64::MAX {
        dec_val(segs[0]) * 100 + frac2(segs[1])
    } else {
        0
    }
}

fn frac_hundredths(frac: &str) -> (r: Option<u64>)
    ensures
        (match r {
            Some(v) => all_digits(frac@) && v as int == frac2(frac@),
            None => !all_digits(frac@),
        }),
{
    let n = frac.unicode_len();
    let mut k: usize = 0;
    while k < n
        invariant
            n == frac@.len(),
            0 <= k <= n,
            forall|j: int| 0 <= j < k ==> crate::text::is_digit_char(#[trigger] frac@[j]),
        decreases n - k,
    {
        let code = frac.get_char(k) as u32;
        if code < 48 || code > 57 {
            proof {
                assert(!crate::text::is_digit_char(frac@[k as int]));
            }
            return None;
        }
        k += 1;
    }
    if n == 0 {
        Some(0)
    } else if n == 1 {
        let c0 = frac.get_char(0) as u32;
        proof {
            assert(crate::text::is_digit_char(frac@[0]));
        }
        Some(((c0 - 48) * 10) as u64)
    } else {
        let c0 = frac.get_char(0) as u32;
        let c1 = frac.get_char(1) as u32;
        proof {
            assert(crate::text::is_digit_char(frac@[0]));
            assert(crate::text::is_digit_char(frac@[1]));
        }
        Some(((c0 - 48) * 10 + (c1 - 48)) as u64)
    }
}

fn parse_load_field(f: &str) -> (r: u64)
    ensures
        r as int == load_hundredths(f@),
{
    let segs = split_char(f, '.');
    proof {
        assert(segs@.len() == segs.deep_view().len());
    }
    if segs.len() == 1 {
        proof {
            assert(segs@[0]@ == segs.deep_view()[0]);
        }
        match parse_u64(segs[0].as_str()) {
            Some(v) => {
                if v <= (u64::MAX - 99) / 100 {
                    proof {
                        assert(v * 100 + 99 <= u64::MAX) by (nonlinear_arith)
                            requires
                                v <= (u64::MAX - 99) / 100,
                        ;
                    }
                    v * 100
                } else {
                    proof {
                        assert(v * 100 + 99 > u64::MAX) by (nonlinear_arith)
                            requires
                                v > (u64::MAX - 99) / 100,
                        ;
                    }
                    0
                }
            },
            None => 0,
        }
    } else if segs.len() == 2 {
        proof {
            assert(segs@[0]@ == segs.deep_view()[0]);
            assert(segs@[1]@ == segs.deep_view()[1]);
        }
        match frac_hundredths(segs[1].as_str()) {
            Some(fval) => {
                match parse_u64(segs[0].as_str()) {
                    Some(v) => {
                        if v <= (u64::MAX - 99) / 100 {
                            proof {
                                assert(v * 100 + 99 <= u64::MAX) by (nonlinear_arith)
                                    requires
                                        v <= (u64::MAX - 99) / 100,
                                ;
                                assert(fval as int <= 99) by {
                                    if segs.deep_view()[1].len() > 0 {
                                        assert(crate::text::is_digit_char(
                                            segs.deep_view()[1][0],
                                        ));
                                    }
                                    if segs.deep_view()[1].len() > 1 {
                                        assert(crate::text::is_digit_char(
                                            segs.deep_view()[1][1],
                                        ));
                                    }
                                }
                            }
                            v * 100 + fval
                        } else {
                            proof {
                                assert(v * 100 + 99 > u64::MAX) by (nonlinear_arith)
                                    requires
                                        v > (u64::MAX - 99) / 100,
                                ;
                            }
                            0
                        }
                    },
                    None => 0,
                }
            },
            None => 0,
        }
    } else {
        0
    }
}

/// Parse `/proc`-style load-average text: the first three
/// whitespace-separated fields, in hundredths; fewer fields give zeros.
pub fn parse_load_average(content: &str) -> (r: LoadAverage)
    ensures
        ({
            let fs = fields_spec(trim_spec(content@));
            if fs.len() >= 3 {
                r.one as int == load_hundredths(fs[0]) && r.five as int == load_hundredths(fs[1])
                    && r.fifteen as int == load_hundredths(fs[2])
            } else {
                r.one == 0 && r.five == 0 && r.fifteen == 0
            }
        }),
{
    let trimmed = trim_str(content);
    let fs = fields(trimmed.as_str());
    if fs.len() >= 3 {
        proof {
            assert(fs@[0]@ == fs.deep_view()[0]);
            assert(fs@[1]@ == fs.deep_view()[1]);
            assert(fs@[2]@ == fs.deep_view()[2]);
        }
        let one = parse_load_field(fs[0].as_str());
        let five = parse_load_field(fs[1].as_str());
        let fifteen = parse_load_field(fs[2].as_str());
        LoadAverage { one, five, fifteen }
    } else {
        LoadAverage { one: 0, five: 0, fifteen: 0 }
    }
}

/// Whole percent of used over total; an empty total reads as 0.
pub fn memory_percentage(used: u64, total: u64) -> (r: u64)
    requires
        used <= total,
    ensures
        total == 0 ==> r == 0,
        total > 0 ==> r as int == used as int * 100 / total as int,
        r <= 100,
{
    if total == 0 {
        return 0;
    }
    let p = ((used as u128) * 100) / (total as u128);
    proof {
        let ui = used as int;
        let ti = total as int;
        assert(0 <= ui * 100 / ti <= 100) by (nonlinear_arith)
            requires
                0 < ti,
                0 <= ui <= ti,
        ;
    }
    p as u64
}

/// The first process-table line that names the domain (or any guest
/// process) and carries a CPU column that reads as `digits[.digits]`
/// yields that column's whole-percent value.
pub open spec fn cpu_field_val(f: Seq<char>) -> Option<int> {
    let segs = split_char_spec(f, '.');
    if segs.len() == 1 && crate::xml_parser::dec_parse_ok(segs[0]) {
        Some(dec_val(segs[0]))
    } else if segs.len() == 2 && crate::xml_parser::dec_parse_ok(segs[0]) && segs[1].len() > 0
        && all_digits(segs[1]) {
        Some(dec_val(segs[0]))
    } else {
        None
    }
}

pub open spec fn line_cpu_val(line: Seq<char>, name: Seq<char>) -> Option<int> {
    if has_sub(line, name) || has_sub(line, "qemu"@) {
        let fs = fields_spec(line);
        if fs.len() >= 2 {
            cpu_field_val(fs[1])
        } else {
            None
        }
    } else {
        None
    }
}

pub open spec fn scan_cpu_lines(lines: Seq<Seq<char>>, name: Seq<char>) -> Option<int>
    decreases lines.len(),
{
    if lines.len() == 0 {
        None
    } else {
        match line_cpu_val(lines[0], name) {
            Some(v) => Some(v),
            None => scan_cpu_lines(lines.drop_first(), name),
        }
    }
}

fn parse_cpu_field(f: &str) -> (r: Option<u64>)
    ensures
        (match r {
            Some(v) => cpu_field_val(f@) == Some(v as int),
            None => cpu_field_val(f@) is None,
        }),
{
    let segs = split_char(f, '.');
    proof {
        assert(segs@.len() == segs.deep_view().len());
    }
    if segs.len() == 1 {
        proof {
            assert(segs@[0]@ == segs.deep_view()[0]);
        }
        parse_u64(segs[0].as_str())
    } else if segs.len() == 2 {
        proof {
            assert(segs@[0]@ == segs.deep_view()[0]);
            assert(segs@[1]@ == segs.deep_view()[1]);
        }
        match parse_u64(segs[0].as_str()) {
            Some(v) => {
                let fr = segs[1].as_str();
                if !fr.is_empty() {
                    match frac_hundredths(fr) {
                        Some(_) => Some(v),
                        None => None,
                    }
                } else {
                    None
                }
            },
            None => None,
        }
    } else {
        None
    }
}

/// Scan process-table text for the domain's CPU percentage column.
pub fn process_table_cpu(table: &str, vm_name: &str) -> (r: Option<u64>)
    ensures
        (match r {
            Some(v) => scan_cpu_lines(split_char_spec(table@, '\n'), vm_name@) == Some(v as int),
            None => scan_cpu_lines(split_char_spec(table@, '\n'), vm_name@) is None,
        }),
{
    let lines = split_char(table, '\n');
    let ghost glines = lines.deep_view();
    let n = lines.len();
    let mut k: usize = 0;
    proof {
        assert(glines.skip(0) =~= glines);
    }
    while k < n
        invariant
            n == lines@.len(),
            glines == lines.deep_view(),
            glines.len() == n,
            0 <= k <= n,
            glines == split_char_spec(table@, '\n'),
            scan_cpu_lines(glines, vm_name@) == scan_cpu_lines(glines.skip(k as int), vm_name@),
        decreases n - k,
    {
        proof {
            assert(glines.skip(k as int).drop_first() =~= glines.skip(k as int + 1));
            assert(glines.skip(k as int)[0] == glines[k as int]);
            assert(glines[k as int] == lines@[k as int]@);
        }
        let line = lines[k].as_str();
        if contains_sub(line, vm_name) || contains_sub(line, "qemu") {
            let fs = fields(line);
            if fs.len() >= 2 {
                proof {
                    assert(fs@[1]@ == fs.deep_view()[1]);
                    assert(fs.deep_view() == fields_spec(glines[k as int]));
                }
                match parse_cpu_field(fs[1].as_str()) {
                    Some(v) => {
                        proof {
                            assert(line_cpu_val(glines[k as int], vm_name@) == Some(v as int));
                            assert(scan_cpu_lines(glines.skip(k as int), vm_name@) == Some(
                                v as int,
                            ));
                        }
                        return Some(v);
                    },
                    None => {},
                }
            }
        }
        proof {
            assert(line_cpu_val(glines[k as int], vm_name@) is None);
        }
        k += 1;
    }
    proof {
        assert(glines.skip(n as int) =~= Seq::<Seq<char>>::empty());
    }
    None
}

pub open spec fn line_etime_val(line: Seq<char>, name: Seq<char>) -> Option<u64> {
    if has_sub(line, name) || (has_sub(line, "qemu"@) && has_sub(line, "guest"@)) {
        let fs = fields_spec(line);
        if fs.len() >= 3 {
            etime_value(fs[2])
        } else {
            None
        }
    } else {
        None
    }
}

pub open spec fn scan_etime_lines(lines: Seq<Seq<char>>, name: Seq<char>) -> Option<u64>
    decreases lines.len(),
{
    if lines.len() == 0 {
        None
    } else {
        match line_etime_val(lines[0], name) {
            Some(v) => Some(v),
            None => scan_etime_lines(lines.drop_first(), name),
        }
    }
}

/// Scan process-table text for the domain's elapsed-time column, in
/// seconds. Nothing found means "unknown", which callers report as 0
/// without conflating it with "just started".
pub fn process_table_etime(table: &str, vm_name: &str) -> (r: Option<u64>)
    ensures
        r == scan_etime_lines(split_char_spec(table@, '\n'), vm_name@),
{
    let lines = split_char(table, '\n');
    let ghost glines = lines.deep_view();
    let n = lines.len();
    let mut k: usize = 0;
    proof {
        assert(glines.skip(0) =~= glines);
    }
    while k < n
        invariant
            n == lines@.len(),
            glines == lines.deep_view(),
            glines.len() == n,
            0 <= k <= n,
            glines == split_char_spec(table@, '\n'),
            scan_etime_lines(glines, vm_name@) == scan_etime_lines(
                glines.skip(k as int),
                vm_name@,
            ),
        decreases n - k,
    {
        proof {
            assert(glines.skip(k as int).drop_first() =~= glines.skip(k as int + 1));
            assert(glines.skip(k as int)[0] == glines[k as int]);
            assert(glines[k as int] == lines@[k as int]@);
        }
        let line = lines[k].as_str();
        if contains_sub(line, vm_name) || (contains_sub(line, "qemu") && contains_sub(
            line,
            "guest",
        )) {
            let fs = fields(line);
            if fs.len() >= 3 {
                proof {
                    assert(fs@[2]@ == fs.deep_view()[2]);
                    assert(fs.deep_view() == fields_spec(glines[k as int]));
                }
                match parse_etime(fs[2].as_str()) {
                    Some(v) => {
                        proof {
                            assert(line_etime_val(glines[k as int], vm_name@) == Some(v));
                            assert(scan_etime_lines(glines.skip(k as int), vm_name@) == Some(v));
                        }
                        return Some(v);
                    },
                    None => {},
                }
            }
        }
        proof {
            assert(line_etime_val(glines[k as int], vm_name@) is None);
        }
        k += 1;
    }
    proof {
        assert(glines.skip(n as int) =~= Seq::<Seq<char>>::empty());
    }
    None
}

/// A number read from tool output that may carry surrounding whitespace.
pub fn parse_trimmed_u64(s: &str) -> (r: Option<u64>)
    ensures
        (match r {
            Some(v) => parse_num(trim_spec(s@)) == Some(v as int),
            None => parse_num(trim_spec(s@)) is None,
        }),
{
    let t = trim_str(s);
    parse_u64(t.as_str())
}

/// Describe a pre-built import image from externally gathered facts:
/// size in GB rounded down from bytes, and the fixed running-memory
/// estimate when a process currently uses the image.
pub fn build_proxmox_info(path: String, size_bytes: u64, last_modified: u64, is_running: bool) -> (
    r: ProxmoxVMInfo)
    ensures
        r.path == path,
        r.size_gb == size_bytes / 0x40000000,
        r.format@ == "qcow2"@,
        r.last_modified == last_modified,
        r.is_running == is_running,
        r.estimated_memory_usage == (if is_running {
            0x100000000u64
        } else {
            0u64
        }),
{
    ProxmoxVMInfo {
        path,
        size_gb: size_bytes / 0x40000000,
        format: String::from_str("qcow2"),
        last_modified,
        is_running,
        estimated_memory_usage: (if is_running {
            0x100000000
        } else {
            0
        }),
    }
}

/// The process-wide host-snapshot cache: a bounded ring of snapshots,
/// oldest first, evicting from the front once the cap is reached. The
/// current snapshot is the newest entry. Created empty, written only by
/// the collector.
pub struct SystemStatsCache {
    pub history: Vec<SystemStats>,
    /// Most snapshots kept.
    pub cap: usize,
}

impl SystemStatsCache {
    pub open spec fn wf(&self) -> bool {
        self.history@.len() <= self.cap && self.cap > 0
    }

    /// An empty cache keeping up to `cap` snapshots.
    pub fn new(cap: usize) -> (r: Self)
        requires
            cap > 0,
        ensures
            r.wf(),
            r.history@.len() == 0,
            r.cap == cap,
    {
        SystemStatsCache { history: Vec::new(), cap }
    }

    /// Record a fresh snapshot: it becomes the newest entry, evicting
    /// the oldest once the cap is reached.
    pub fn record(&mut self, stats: SystemStats)
        requires
            old(self).wf(),
        ensures
            final(self).wf(),
            final(self).cap == old(self).cap,
            final(self).history@ == (if old(self).history@.len() < old(self).cap {
                old(self).history@.push(stats)
            } else {
                old(self).history@.drop_first().push(stats)
            }),
            final(self).history@.len() > 0,
    {
        if self.history.len() >= self.cap {
            self.history.remove(0);
            proof {
                assert(self.history@ =~= old(self).history@.drop_first());
            }
        }
        self.history.push(stats);
    }

    /// The most recent snapshot, if any was recorded.
    pub fn current(&self) -> (r: Option<&SystemStats>)
        ensures
            (match r {
                Some(s) => self.history@.len() > 0 && *s == self.history@[self.history@.len()
                    - 1],
                None => self.history@.len() == 0,
            }),
    {
        let n = self.history.len();
        if n == 0 {
            None
        } else {
            Some(&self.history[n - 1])
        }
    }

    pub fn history_len(&self) -> (r: usize)
        ensures
            r == self.history@.len(),
    {
        self.history.len()
    }

    pub fn get_history(&self, i: usize) -> (r: &SystemStats)
        requires
            i < self.history@.len(),
        ensures
            *r == self.history@[i as int],
    {
        &self.history[i]
    }
}

} // verus!
