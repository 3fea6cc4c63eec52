//! Pure view model shared by the All and Consolidated tabs.
//!
//! Groups the scraped devices by host in tab-strip order, labels each device's
//! memory as unified (Apple Silicon) or dedicated VRAM, and sums memory and
//! power across every host, counting a unified-memory host's RAM once (as the
//! GPU's pool) rather than again as host RAM. Hosts that stopped answering keep
//! a row so an outage is visible instead of silently shrinking the table.
use vstd::prelude::*;
use vstd::string::*;

use crate::common::url_parts::optional_text;
use crate::device::types::{detail_of, ConnectionStatus, CpuInfo, GpuInfo, MemoryInfo};
use crate::numeral::{parse_reading, reading_in};
use crate::order::{insert_sorted, lemma_insert_at};
use crate::probes::HostProbes;
use crate::reading::Reading;
use crate::table::{entry_of, find_entry};
use crate::text::{
    chars_of, comes_before, concat2, concat3, concat4, copied, decimal, decimal_text, digit,
    ends, ends_with, holds_text, is_digit, join, joined, lower_text, lowered_all, occurs,
    parse_unsigned, precedes, same, text_between, texts, to_lowercase, trimmed, unicode_lower,
    unsigned, word_ranges, words,
};
use crate::ui::tabs::{is_reserved_tab, reserved_tab};

verus! {

/// Where a device's memory lives.
#[derive(Clone, Copy, Debug, PartialEq, Eq, Structural)]
pub enum MemoryKind {
    /// Apple Silicon: the GPU shares the host's unified memory.
    Unified,
    /// Discrete GPU with its own VRAM.
    Dedicated,
}

impl MemoryKind {
    pub open spec fn name(self) -> Seq<char> {
        match self {
            MemoryKind::Unified => "unified"@,
            MemoryKind::Dedicated => "VRAM"@,
        }
    }

    pub fn label(self) -> (r: &'static str)
        ensures
            r@ == self.name(),
    {
        match self {
            MemoryKind::Unified => "unified",
            MemoryKind::Dedicated => "VRAM",
        }
    }
}

#[derive(Clone, Debug, PartialEq, Eq)]
pub struct DeviceRow {
    pub uuid: String,
    /// Vendor and model, without edition suffixes ("NVIDIA RTX PRO 6000
    /// Blackwell", "Apple M5 Ultra"), with ` #<index>` when a host has several
    /// identical boards.
    pub name: String,
    pub memory_kind: MemoryKind,
    pub utilization: Option<Reading>,
    pub used_memory: u64,
    pub total_memory: u64,
    pub power_watts: Option<Reading>,
    pub power_limit_watts: Option<Reading>,
    pub temperature_c: Option<u32>,
    /// Slowdown threshold, when the device reports one.
    pub slowdown_c: Option<u32>,
    pub frequency_mhz: Option<u32>,
    /// Apple Neural Engine power, when the device reports one.
    pub ane_watts: Option<Reading>,
    pub core_count: Option<u32>,
    /// Static and slow-moving facts for the details view: thermal thresholds,
    /// P-state, driver, firmware, link.
    pub details: Vec<String>,
}

/// What a row holds.
#[verifier::ext_equal]
pub struct DeviceModel {
    pub uuid: Seq<char>,
    pub name: Seq<char>,
    pub memory_kind: MemoryKind,
    pub utilization: Option<Reading>,
    pub used_memory: u64,
    pub total_memory: u64,
    pub power_watts: Option<Reading>,
    pub power_limit_watts: Option<Reading>,
    pub temperature_c: Option<u32>,
    pub slowdown_c: Option<u32>,
    pub frequency_mhz: Option<u32>,
    pub ane_watts: Option<Reading>,
    pub core_count: Option<u32>,
    pub details: Seq<Seq<char>>,
}

impl View for DeviceRow {
    type V = DeviceModel;

    open spec fn view(&self) -> DeviceModel {
        DeviceModel {
            uuid: self.uuid@,
            name: self.name@,
            memory_kind: self.memory_kind,
            utilization: self.utilization,
            used_memory: self.used_memory,
            total_memory: self.total_memory,
            power_watts: self.power_watts,
            power_limit_watts: self.power_limit_watts,
            temperature_c: self.temperature_c,
            slowdown_c: self.slowdown_c,
            frequency_mhz: self.frequency_mhz,
            ane_watts: self.ane_watts,
            core_count: self.core_count,
            details: texts(self.details@),
        }
    }
}

/// The rows of a list.
pub open spec fn device_rows(v: Seq<DeviceRow>) -> Seq<DeviceModel> {
    v.map_values(|d: DeviceRow| d@)
}

/// Name plus the GPU core count for SoC GPUs.
pub open spec fn device_label(d: DeviceModel) -> Seq<char> {
    match d.core_count {
        Some(n) => if d.memory_kind == MemoryKind::Unified {
            d.name + " · "@ + decimal(n as nat) + "-core GPU"@
        } else {
            d.name
        },
        None => d.name,
    }
}

/// Used memory as a fraction of the total; zero where there is none.
pub open spec fn memory_fraction(used: u64, total: u64) -> Reading {
    if total > 0 {
        Reading::of_natural(used as nat).quotient(Reading::of_natural(total as nat))
    } else {
        Reading { bits: 0 }
    }
}

/// Power as a fraction of the limit, where both are known and the limit is
/// above zero.
pub open spec fn power_fraction(power: Option<Reading>, limit: Option<Reading>) -> Option<Reading> {
    match (power, limit) {
        (Some(p), Some(l)) => if l.above(Reading { bits: 0 }) {
            Some(p.quotient(l))
        } else {
            None
        },
        _ => None,
    }
}

pub fn fraction_used(used: u64, total: u64) -> (r: Reading)
    ensures
        r == memory_fraction(used, total),
{
    if total > 0 {
        Reading::from_u64(used).over(Reading::from_u64(total))
    } else {
        Reading { bits: 0 }
    }
}

impl DeviceRow {
    /// Name plus the GPU core count for SoC GPUs: "Apple M5 Ultra · 80-core
    /// GPU".
    pub fn label(&self) -> (r: String)
        ensures
            r@ == device_label(self@),
    {
        match self.core_count {
            Some(n) => if self.memory_kind == MemoryKind::Unified {
                let count: String = decimal_text(n as u128);
                concat4(self.name.as_str(), " · ", count.as_str(), "-core GPU")
            } else {
                copied(self.name.as_str())
            },
            None => copied(self.name.as_str()),
        }
    }

    pub fn memory_ratio(&self) -> (r: Reading)
        ensures
            r == memory_fraction(self.used_memory, self.total_memory),
    {
        fraction_used(self.used_memory, self.total_memory)
    }

    pub fn power_ratio(&self) -> (r: Option<Reading>)
        ensures
            r == power_fraction(self.power_watts, self.power_limit_watts),
    {
        match (self.power_watts, self.power_limit_watts) {
            (Some(p), Some(l)) => if l.gt(Reading { bits: 0 }) {
                Some(p.over(l))
            } else {
                None
            },
            _ => None,
        }
    }

    /// A copy of the row.
    pub fn copy(&self) -> (r: DeviceRow)
        ensures
            r@ == self@,
    {
        DeviceRow {
            uuid: copied(self.uuid.as_str()),
            name: copied(self.name.as_str()),
            memory_kind: self.memory_kind,
            utilization: self.utilization,
            used_memory: self.used_memory,
            total_memory: self.total_memory,
            power_watts: self.power_watts,
            power_limit_watts: self.power_limit_watts,
            temperature_c: self.temperature_c,
            slowdown_c: self.slowdown_c,
            frequency_mhz: self.frequency_mhz,
            ane_watts: self.ane_watts,
            core_count: self.core_count,
            details: copy_texts(&self.details),
        }
    }
}

/// A copy of `v`.
pub fn copy_texts(v: &Vec<String>) -> (r: Vec<String>)
    ensures
        texts(r@) == texts(v@),
{
    let mut r: Vec<String> = Vec::new();
    let mut i: usize = 0;
    while i < v.len()
        invariant
            i <= v@.len(),
            texts(r@) == texts(v@).take(i as int),
        decreases v@.len() - i,
    {
        let ghost before = texts(r@);
        let t: String = copied(v[i].as_str());
        r.push(t);
        assert(texts(r@) == before.push(t@));
        assert(texts(v@).take(i + 1) == texts(v@).take(i as int).push(t@));
        i = i + 1;
    }
    assert(texts(v@).take(v@.len() as int) == texts(v@));
    r
}

/// A copy of an optional text.
pub fn copy_optional(s: &Option<String>) -> (r: Option<String>)
    ensures
        optional_text(r) == optional_text(*s),
{
    match s {
        Some(t) => Some(copied(t.as_str())),
        None => None,
    }
}

/// Host CPU summary for the host header.
#[derive(Clone, Debug, PartialEq, Eq)]
pub struct HostCpu {
    /// "Apple M5 Ultra", "AMD EPYC 9275F".
    pub model: String,
    pub cores: u32,
    pub utilization: Reading,
}

/// What a CPU summary holds.
#[verifier::ext_equal]
pub struct CpuModel {
    pub model: Seq<char>,
    pub cores: u32,
    pub utilization: Reading,
}

impl View for HostCpu {
    type V = CpuModel;

    open spec fn view(&self) -> CpuModel {
        CpuModel { model: self.model@, cores: self.cores, utilization: self.utilization }
    }
}

#[derive(Clone, Debug, PartialEq, Eq)]
pub struct HostSection {
    pub host_id: String,
    pub label: String,
    pub connected: bool,
    pub last_error: Option<String>,
    pub devices: Vec<DeviceRow>,
    /// Package CPU power, reported by Apple Silicon hosts.
    pub cpu_power_watts: Option<Reading>,
    /// "macOS", "Linux", from the exporter's build info.
    pub os: Option<String>,
    pub cpu: Option<HostCpu>,
    pub ram_used: u64,
    pub ram_total: u64,
}

/// What a section holds.
#[verifier::ext_equal]
pub struct SectionModel {
    pub host_id: Seq<char>,
    pub label: Seq<char>,
    pub connected: bool,
    pub last_error: Option<Seq<char>>,
    pub devices: Seq<DeviceModel>,
    pub cpu_power_watts: Option<Reading>,
    pub os: Option<Seq<char>>,
    pub cpu: Option<CpuModel>,
    pub ram_used: nat,
    pub ram_total: nat,
}

/// The CPU of a section.
pub open spec fn optional_cpu(c: Option<HostCpu>) -> Option<CpuModel> {
    match c {
        Some(x) => Some(x@),
        None => None,
    }
}

impl View for HostSection {
    type V = SectionModel;

    open spec fn view(&self) -> SectionModel {
        SectionModel {
            host_id: self.host_id@,
            label: self.label@,
            connected: self.connected,
            last_error: optional_text(self.last_error),
            devices: device_rows(self.devices@),
            cpu_power_watts: self.cpu_power_watts,
            os: optional_text(self.os),
            cpu: optional_cpu(self.cpu),
            ram_used: self.ram_used as nat,
            ram_total: self.ram_total as nat,
        }
    }
}

/// The sections of a list.
pub open spec fn sections_of(v: Seq<HostSection>) -> Seq<SectionModel> {
    v.map_values(|s: HostSection| s@)
}

/// Whether a device among `d` shares its host's memory.
pub open spec fn any_unified(d: Seq<DeviceModel>) -> bool {
    exists|i: int| 0 <= i < d.len() && (#[trigger] d[i]).memory_kind == MemoryKind::Unified
}

fn some_unified(v: &Vec<DeviceRow>) -> (r: bool)
    ensures
        r == any_unified(device_rows(v@)),
{
    let mut i: usize = 0;
    while i < v.len()
        invariant
            i <= v@.len(),
            forall|j: int|
                0 <= j < i ==> (#[trigger] device_rows(v@)[j]).memory_kind != MemoryKind::Unified,
        decreases v@.len() - i,
    {
        if v[i].memory_kind == MemoryKind::Unified {
            assert(device_rows(v@)[i as int].memory_kind == MemoryKind::Unified);
            return true;
        }
        i = i + 1;
    }
    false
}

impl HostSection {
    /// The host's RAM is the GPU's unified memory pool.
    pub fn has_unified_memory(&self) -> (r: bool)
        ensures
            r == any_unified(self@.devices),
    {
        some_unified(&self.devices)
    }

    /// A copy of the section.
    pub fn copy(&self) -> (r: HostSection)
        ensures
            r@ == self@,
    {
        let mut devices: Vec<DeviceRow> = Vec::new();
        let mut i: usize = 0;
        while i < self.devices.len()
            invariant
                i <= self.devices@.len(),
                device_rows(devices@) == self@.devices.take(i as int),
            decreases self.devices@.len() - i,
        {
            let ghost before = device_rows(devices@);
            let d: DeviceRow = self.devices[i].copy();
            devices.push(d);
            assert(device_rows(devices@) == before.push(d@));
            assert(self@.devices.take(i + 1) == self@.devices.take(i as int).push(d@));
            i = i + 1;
        }
        assert(self@.devices.take(self@.devices.len() as int) == self@.devices);
        HostSection {
            host_id: copied(self.host_id.as_str()),
            label: copied(self.label.as_str()),
            connected: self.connected,
            last_error: copy_optional(&self.last_error),
            devices,
            cpu_power_watts: self.cpu_power_watts,
            os: copy_optional(&self.os),
            cpu: match &self.cpu {
                Some(c) => Some(
                    HostCpu {
                        model: copied(c.model.as_str()),
                        cores: c.cores,
                        utilization: c.utilization,
                    },
                ),
                None => None,
            },
            ram_used: self.ram_used,
            ram_total: self.ram_total,
        }
    }
}

#[derive(Clone, Copy, Debug, PartialEq, Eq)]
pub struct Totals {
    pub devices: usize,
    pub unified_devices: usize,
    pub hosts_up: usize,
    pub hosts_total: usize,
    pub avg_utilization: Option<Reading>,
    pub unified_used: u64,
    pub unified_total: u64,
    pub dedicated_used: u64,
    pub dedicated_total: u64,
    /// RAM of hosts whose memory is not already counted as a unified pool.
    pub host_ram_used: u64,
    pub host_ram_total: u64,
    pub unified_power_watts: Reading,
    pub dedicated_power_watts: Reading,
    /// Sum of the board power limits the devices report (0 when none do).
    pub power_limit_watts: Reading,
    /// Hottest device reading and that device's slowdown threshold.
    pub max_temperature: Option<(u32, Option<u32>)>,
}

impl Default for Totals {
    fn default() -> (r: Totals)
        ensures
            tally_of(r, Reading { bits: 0 }, 0) == empty_tally(0),
    {
        Totals {
            devices: 0,
            unified_devices: 0,
            hosts_up: 0,
            hosts_total: 0,
            avg_utilization: None,
            unified_used: 0,
            unified_total: 0,
            dedicated_used: 0,
            dedicated_total: 0,
            host_ram_used: 0,
            host_ram_total: 0,
            unified_power_watts: Reading { bits: 0 },
            dedicated_power_watts: Reading { bits: 0 },
            power_limit_watts: Reading { bits: 0 },
            max_temperature: None,
        }
    }
}

impl Totals {
    pub fn memory_used(&self) -> (r: u64)
        requires
            self.unified_used + self.dedicated_used <= u64::MAX,
        ensures
            r == self.unified_used + self.dedicated_used,
    {
        self.unified_used + self.dedicated_used
    }

    pub fn memory_total(&self) -> (r: u64)
        requires
            self.unified_total + self.dedicated_total <= u64::MAX,
        ensures
            r == self.unified_total + self.dedicated_total,
    {
        self.unified_total + self.dedicated_total
    }

    pub fn power_watts(&self) -> (r: Reading)
        ensures
            r == self.unified_power_watts.sum(self.dedicated_power_watts),
    {
        self.unified_power_watts.plus(self.dedicated_power_watts)
    }
}

/// The sums while they grow: the totals, and the sum and number of the
/// utilization readings.
#[verifier::ext_equal]
pub struct Tally {
    pub devices: nat,
    pub unified_devices: nat,
    pub hosts_up: nat,
    pub hosts_total: nat,
    pub unified_used: nat,
    pub unified_total: nat,
    pub dedicated_used: nat,
    pub dedicated_total: nat,
    pub host_ram_used: nat,
    pub host_ram_total: nat,
    pub unified_power_watts: Reading,
    pub dedicated_power_watts: Reading,
    pub power_limit_watts: Reading,
    pub max_temperature: Option<(u32, Option<u32>)>,
    pub util_sum: Reading,
    pub util_count: nat,
}

pub open spec fn empty_tally(hosts_total: nat) -> Tally {
    Tally {
        devices: 0,
        unified_devices: 0,
        hosts_up: 0,
        hosts_total,
        unified_used: 0,
        unified_total: 0,
        dedicated_used: 0,
        dedicated_total: 0,
        host_ram_used: 0,
        host_ram_total: 0,
        unified_power_watts: Reading { bits: 0 },
        dedicated_power_watts: Reading { bits: 0 },
        power_limit_watts: Reading { bits: 0 },
        max_temperature: None,
        util_sum: Reading { bits: 0 },
        util_count: 0,
    }
}

/// The tally that totals and utilization sums stand for.
pub open spec fn tally_of(t: Totals, util_sum: Reading, util_count: nat) -> Tally {
    Tally {
        devices: t.devices as nat,
        unified_devices: t.unified_devices as nat,
        hosts_up: t.hosts_up as nat,
        hosts_total: t.hosts_total as nat,
        unified_used: t.unified_used as nat,
        unified_total: t.unified_total as nat,
        dedicated_used: t.dedicated_used as nat,
        dedicated_total: t.dedicated_total as nat,
        host_ram_used: t.host_ram_used as nat,
        host_ram_total: t.host_ram_total as nat,
        unified_power_watts: t.unified_power_watts,
        dedicated_power_watts: t.dedicated_power_watts,
        power_limit_watts: t.power_limit_watts,
        max_temperature: t.max_temperature,
        util_sum,
        util_count,
    }
}

pub open spec fn reading_or_zero(r: Option<Reading>) -> Reading {
    match r {
        Some(x) => x,
        None => Reading { bits: 0 },
    }
}

/// The hottest reading so far and one more.
pub open spec fn hotter(
    max: Option<(u32, Option<u32>)>,
    t: Option<u32>,
    slowdown: Option<u32>,
) -> Option<(u32, Option<u32>)> {
    match t {
        None => max,
        Some(x) => match max {
            Some((m, _)) => if x > m {
                Some((x, slowdown))
            } else {
                max
            },
            None => Some((x, slowdown)),
        },
    }
}

/// The tally with one more device.
pub open spec fn with_device(t: Tally, d: DeviceModel) -> Tally {
    let power = reading_or_zero(d.power_watts);
    let unified = d.memory_kind == MemoryKind::Unified;
    Tally {
        devices: t.devices + 1,
        unified_devices: if unified {
            t.unified_devices + 1
        } else {
            t.unified_devices
        },
        unified_used: if unified {
            t.unified_used + d.used_memory as nat
        } else {
            t.unified_used
        },
        unified_total: if unified {
            t.unified_total + d.total_memory as nat
        } else {
            t.unified_total
        },
        unified_power_watts: if unified {
            t.unified_power_watts.sum(power)
        } else {
            t.unified_power_watts
        },
        dedicated_used: if unified {
            t.dedicated_used
        } else {
            t.dedicated_used + d.used_memory as nat
        },
        dedicated_total: if unified {
            t.dedicated_total
        } else {
            t.dedicated_total + d.total_memory as nat
        },
        dedicated_power_watts: if unified {
            t.dedicated_power_watts
        } else {
            t.dedicated_power_watts.sum(power)
        },
        power_limit_watts: t.power_limit_watts.sum(reading_or_zero(d.power_limit_watts)),
        max_temperature: hotter(t.max_temperature, d.temperature_c, d.slowdown_c),
        util_sum: match d.utilization {
            Some(u) => t.util_sum.sum(u),
            None => t.util_sum,
        },
        util_count: if d.utilization is Some {
            t.util_count + 1
        } else {
            t.util_count
        },
        ..t
    }
}

/// The tally with the first `n` devices of a list.
pub open spec fn with_devices(t: Tally, d: Seq<DeviceModel>, n: nat) -> Tally
    decreases n,
{
    if n == 0 {
        t
    } else {
        with_device(with_devices(t, d, (n - 1) as nat), d[n - 1])
    }
}

/// The tally with one more host: its devices, and its RAM unless that is the
/// devices' own pool.
pub open spec fn with_section(t: Tally, s: SectionModel) -> Tally {
    let u = with_devices(
        Tally {
            hosts_up: if s.connected {
                t.hosts_up + 1
            } else {
                t.hosts_up
            },
            ..t
        },
        s.devices,
        s.devices.len(),
    );
    if any_unified(s.devices) {
        u
    } else {
        Tally {
            host_ram_used: u.host_ram_used + s.ram_used,
            host_ram_total: u.host_ram_total + s.ram_total,
            ..u
        }
    }
}

/// The tally of the first `n` hosts.
pub open spec fn tally(s: Seq<SectionModel>, n: nat) -> Tally
    decreases n,
{
    if n == 0 {
        empty_tally(s.len())
    } else {
        with_section(tally(s, (n - 1) as nat), s[n - 1])
    }
}

/// The mean of the utilization readings, where there are any.
pub open spec fn mean_utilization(t: Tally) -> Option<Reading> {
    if t.util_count > 0 {
        Some(t.util_sum.quotient(Reading::of_natural(t.util_count)))
    } else {
        None
    }
}

/// The totals of a tally.
pub open spec fn totals_of(t: Tally) -> Totals {
    Totals {
        devices: t.devices as usize,
        unified_devices: t.unified_devices as usize,
        hosts_up: t.hosts_up as usize,
        hosts_total: t.hosts_total as usize,
        avg_utilization: mean_utilization(t),
        unified_used: t.unified_used as u64,
        unified_total: t.unified_total as u64,
        dedicated_used: t.dedicated_used as u64,
        dedicated_total: t.dedicated_total as u64,
        host_ram_used: t.host_ram_used as u64,
        host_ram_total: t.host_ram_total as u64,
        unified_power_watts: t.unified_power_watts,
        dedicated_power_watts: t.dedicated_power_watts,
        power_limit_watts: t.power_limit_watts,
        max_temperature: t.max_temperature,
    }
}

/// Whether the counts and sums fit their types.
pub open spec fn fits(t: Tally) -> bool {
    &&& t.devices <= usize::MAX
    &&& t.unified_used <= u64::MAX
    &&& t.unified_total <= u64::MAX
    &&& t.dedicated_used <= u64::MAX
    &&& t.dedicated_total <= u64::MAX
    &&& t.host_ram_used <= u64::MAX
    &&& t.host_ram_total <= u64::MAX
}

/// No count or sum of `a` exceeds that of `b`, and the parts stay within the
/// whole.
pub open spec fn within(a: Tally, b: Tally) -> bool {
    &&& a.devices <= b.devices
    &&& a.unified_used <= b.unified_used
    &&& a.unified_total <= b.unified_total
    &&& a.dedicated_used <= b.dedicated_used
    &&& a.dedicated_total <= b.dedicated_total
    &&& a.host_ram_used <= b.host_ram_used
    &&& a.host_ram_total <= b.host_ram_total
}

proof fn devices_grow(t: Tally, d: Seq<DeviceModel>, n: nat, m: nat)
    requires
        n <= m <= d.len(),
    ensures
        within(with_devices(t, d, n), with_devices(t, d, m)),
        with_devices(t, d, n).hosts_total == t.hosts_total,
        with_devices(t, d, n).hosts_up == t.hosts_up,
        with_devices(t, d, n).devices == t.devices + n,
        with_devices(t, d, n).unified_devices <= t.unified_devices + n,
        with_devices(t, d, n).util_count <= t.util_count + n,
    decreases m,
{
    if n < m {
        devices_grow(t, d, n, (m - 1) as nat);
    } else if n > 0 {
        devices_grow(t, d, (n - 1) as nat, (n - 1) as nat);
    }
}

proof fn tally_grows(s: Seq<SectionModel>, n: nat, m: nat)
    requires
        n <= m <= s.len(),
    ensures
        within(tally(s, n), tally(s, m)),
        tally(s, n).hosts_total == s.len(),
        tally(s, n).hosts_up <= n,
        tally(s, n).unified_devices <= tally(s, n).devices,
        tally(s, n).util_count <= tally(s, n).devices,
    decreases m,
{
    if n < m {
        tally_grows(s, n, (m - 1) as nat);
        let t = tally(s, (m - 1) as nat);
        let d = s[m - 1].devices;
        let up = Tally {
            hosts_up: if s[m - 1].connected {
                t.hosts_up + 1
            } else {
                t.hosts_up
            },
            ..t
        };
        devices_grow(up, d, 0, d.len());
    } else if n > 0 {
        tally_grows(s, (n - 1) as nat, (n - 1) as nat);
        let t = tally(s, (n - 1) as nat);
        let d = s[n - 1].devices;
        let up = Tally {
            hosts_up: if s[n - 1].connected {
                t.hosts_up + 1
            } else {
                t.hosts_up
            },
            ..t
        };
        devices_grow(up, d, d.len(), d.len());
    }
}

/// Everything the model is built from.
pub struct ModelSources<'a> {
    pub gpu_info: &'a [GpuInfo],
    pub cpu_info: &'a [CpuInfo],
    pub memory_info: &'a [MemoryInfo],
    pub host_probes: &'a [HostProbes],
    /// Tab strip, for host order; reserved tabs are skipped.
    pub host_order: &'a [String],
    /// Per host, each once.
    pub connection_status: &'a [(String, ConnectionStatus)],
}

/// The tabs among `tabs` that stand for hosts.
pub open spec fn host_tabs(tabs: Seq<Seq<char>>) -> Seq<Seq<char>> {
    tabs.filter(|t: Seq<char>| !reserved_tab(t))
}

/// `order` with the hosts of the first `n` devices that it lacks.
pub open spec fn with_device_hosts(order: Seq<Seq<char>>, gpus: Seq<GpuInfo>, n: nat) -> Seq<
    Seq<char>,
>
    decreases n,
{
    if n == 0 {
        order
    } else {
        let before = with_device_hosts(order, gpus, (n - 1) as nat);
        let host = gpus[n - 1].host_id@;
        if before.contains(host) {
            before
        } else {
            before.push(host)
        }
    }
}

/// The hosts in the order in which they are shown.
pub open spec fn shown_hosts(tabs: Seq<Seq<char>>, gpus: Seq<GpuInfo>) -> Seq<Seq<char>> {
    with_device_hosts(host_tabs(tabs), gpus, gpus.len())
}

/// The number of a device on its host; the largest where it has none.
pub open spec fn index_number(gpu: GpuInfo) -> nat {
    match detail_of(gpu, "index"@) {
        Some(s) => match unsigned(s, u32::MAX as nat) {
            Some(n) => n,
            None => u32::MAX as nat,
        },
        None => u32::MAX as nat,
    }
}

/// Order of the devices of one host: by number, then by identifier.
pub open spec fn device_before(gpus: Seq<GpuInfo>) -> spec_fn(int, int) -> bool {
    |a: int, b: int|
        index_number(gpus[a]) < index_number(gpus[b]) || (index_number(gpus[a]) == index_number(
            gpus[b],
        ) && precedes(gpus[a].uuid@, gpus[b].uuid@))
}

/// The places of a host's devices among the first `n`, in their order.
pub open spec fn devices_on(gpus: Seq<GpuInfo>, host: Seq<char>, n: nat) -> Seq<int>
    decreases n,
{
    if n == 0 {
        seq![]
    } else {
        let before = devices_on(gpus, host, (n - 1) as nat);
        if gpus[n - 1].host_id@ == host {
            insert_sorted(before, n - 1, device_before(gpus))
        } else {
            before
        }
    }
}

fn device_index(gpu: &GpuInfo) -> (r: u32)
    ensures
        r == index_number(*gpu),
{
    match gpu.fact("index") {
        Some(s) => {
            let c: Vec<char> = chars_of(s);
            assert(c@.subrange(0, c@.len() as int) == s@);
            match parse_unsigned(c.as_slice(), 0, c.len(), u32::MAX as u64) {
                Some(n) => n as u32,
                None => u32::MAX,
            }
        },
        None => u32::MAX,
    }
}

/// Whether a device shares its host's memory.
pub open spec fn unified(gpu: GpuInfo) -> bool {
    occurs(gpu.name@, "Apple"@) || detail_of(gpu, "architecture"@) == Some("Apple Silicon"@)
}

fn is_unified(gpu: &GpuInfo) -> (r: bool)
    ensures
        r == unified(*gpu),
{
    proof {
        reveal_strlit("Apple");
    }
    if holds_text(gpu.name.as_str(), "Apple") {
        return true;
    }
    match gpu.fact("architecture") {
        Some(a) => same(a, "Apple Silicon"),
        None => false,
    }
}

/// `s` without `suffix` at its end.
pub open spec fn without_suffix(s: Seq<char>, suffix: Seq<char>) -> Seq<char> {
    if ends(s, suffix) {
        s.take(s.len() - suffix.len())
    } else {
        s
    }
}

/// `s` without `suffix` at its end.
pub fn strip_suffix(s: &str, suffix: &str) -> (r: String)
    ensures
        r@ == without_suffix(s@, suffix@),
{
    let c: Vec<char> = chars_of(s);
    let p: Vec<char> = chars_of(suffix);
    if ends_with(c.as_slice(), suffix) {
        let r: String = text_between(c.as_slice(), 0, c.len() - p.len());
        assert(c@.subrange(0, c@.len() - p@.len()) == s@.take(s@.len() - suffix@.len()));
        r
    } else {
        copied(s)
    }
}

/// Vendor and model of a device without edition suffixes.
pub open spec fn model_name(gpu: GpuInfo) -> Seq<char> {
    let a = without_suffix(trimmed(gpu.name@), " Max-Q Workstation Edition"@);
    let b = without_suffix(a, " Workstation Edition"@);
    let c = without_suffix(b, " Server Edition"@);
    if unified(gpu) {
        without_suffix(c, " GPU"@)
    } else {
        c
    }
}

/// Vendor and model without edition suffixes: "NVIDIA RTX PRO 6000 Blackwell
/// Workstation Edition" becomes "NVIDIA RTX PRO 6000 Blackwell", "Apple M5
/// Ultra GPU" becomes "Apple M5 Ultra".
pub fn device_name(gpu: &GpuInfo) -> (r: String)
    ensures
        r@ == model_name(*gpu),
{
    let whole: String = crate::text::trim(gpu.name.as_str());
    let a: String = strip_suffix(whole.as_str(), " Max-Q Workstation Edition");
    let b: String = strip_suffix(a.as_str(), " Workstation Edition");
    let c: String = strip_suffix(b.as_str(), " Server Edition");
    if is_unified(gpu) {
        strip_suffix(c.as_str(), " GPU")
    } else {
        c
    }
}

/// `list` with `note` behind it, where there is one.
pub open spec fn with_note(list: Seq<Seq<char>>, note: Option<Seq<char>>) -> Seq<Seq<char>> {
    match note {
        Some(s) => list.push(s),
        None => list,
    }
}

/// A temperature threshold above zero, in words.
pub open spec fn threshold_note(label: Seq<char>, value: Option<u32>) -> Option<Seq<char>> {
    match value {
        Some(t) => if t > 0 {
            Some(label + " "@ + decimal(t as nat) + "°C"@)
        } else {
            None
        },
        None => None,
    }
}

/// `prefix` before a text, where there is one.
pub open spec fn labeled(prefix: Seq<char>, value: Option<Seq<char>>) -> Option<Seq<char>> {
    match value {
        Some(v) => Some(prefix + v),
        None => None,
    }
}

/// `prefix`, a number and `suffix`, where there is one.
pub open spec fn counted(prefix: Seq<char>, value: Option<nat>, suffix: Seq<char>) -> Option<
    Seq<char>,
> {
    match value {
        Some(n) => Some(prefix + decimal(n) + suffix),
        None => None,
    }
}

pub open spec fn optional_nat(v: Option<u32>) -> Option<nat> {
    match v {
        Some(n) => Some(n as nat),
        None => None,
    }
}

/// A driver version, labeled where it is a number.
pub open spec fn driver_note(v: Option<Seq<char>>) -> Option<Seq<char>> {
    match v {
        Some(s) => if s.len() > 0 && is_digit(s[0]) {
            Some("driver "@ + s)
        } else {
            Some(s)
        },
        None => None,
    }
}

/// The state of the GSP firmware.
pub open spec fn gsp_note(mode: Option<u8>) -> Option<Seq<char>> {
    match mode {
        Some(m) => if m == 0 {
            Some("GSP off"@)
        } else if m == 1 {
            Some("GSP on"@)
        } else if m == 2 {
            Some("GSP default"@)
        } else {
            None
        },
        None => None,
    }
}

/// The PCIe link, where generation and width are both known.
pub open spec fn pcie_note(gen_max: Option<Seq<char>>, width: Option<Seq<char>>) -> Option<
    Seq<char>,
> {
    match (gen_max, width) {
        (Some(g), Some(w)) => Some("PCIe "@ + g + ".0 x"@ + w),
        _ => None,
    }
}

/// The ECC mode in lower case.
pub open spec fn ecc_note(v: Option<Seq<char>>) -> Option<Seq<char>> {
    match v {
        Some(s) => Some("ECC "@ + unicode_lower(s)),
        None => None,
    }
}

/// The NUMA node, where it is one.
pub open spec fn numa_note(v: Option<i32>) -> Option<Seq<char>> {
    match v {
        Some(n) => if n >= 0 {
            Some("NUMA "@ + decimal(n as nat))
        } else {
            None
        },
        None => None,
    }
}

/// The number of direct links, where there are any.
pub open spec fn nvlink_note(n: nat) -> Option<Seq<char>> {
    if n > 0 {
        Some("NVLink ×"@ + decimal(n))
    } else {
        None
    }
}

/// The facts of a device that the details view shows.
pub open spec fn detail_notes(gpu: GpuInfo) -> Seq<Seq<char>> {
    let a = with_note(seq![], threshold_note("slowdown"@, gpu.temperature_threshold_slowdown));
    let b = with_note(a, threshold_note("shutdown"@, gpu.temperature_threshold_shutdown));
    let c = with_note(b, threshold_note("max op"@, gpu.temperature_threshold_max_operating));
    let d = with_note(c, counted("P"@, optional_nat(gpu.performance_state), ""@));
    let e = with_note(d, labeled("thermal "@, detail_of(gpu, "thermal_pressure"@)));
    let f = with_note(e, counted("fan "@, optional_nat(gpu.fan_speed_rpm), " rpm"@));
    let g = with_note(f, driver_note(detail_of(gpu, "driver_version"@)));
    let h = with_note(g, labeled("CUDA "@, detail_of(gpu, "cuda_version"@)));
    let i = with_note(h, gsp_note(gpu.gsp_firmware_mode));
    let j = with_note(
        i,
        pcie_note(detail_of(gpu, "pcie_gen_max"@), detail_of(gpu, "pcie_width_max"@)),
    );
    let k = with_note(j, ecc_note(detail_of(gpu, "ecc_mode_current"@)));
    let l = with_note(k, numa_note(gpu.numa_node_id));
    with_note(l, nvlink_note(gpu.nvlink_remote_devices as nat))
}

fn push_note(out: &mut Vec<String>, note: Option<String>)
    ensures
        texts(final(out)@) == with_note(texts(old(out)@), optional_text(note)),
{
    if let Some(s) = note {
        out.push(s);
        assert(texts(out@) == texts(old(out)@).push(s@));
    }
}

fn threshold_text(label: &str, value: Option<u32>) -> (r: Option<String>)
    ensures
        optional_text(r) == threshold_note(label@, value),
{
    match value {
        Some(t) => if t > 0 {
            let n: String = decimal_text(t as u128);
            Some(concat4(label, " ", n.as_str(), "°C"))
        } else {
            None
        },
        None => None,
    }
}

fn labeled_text(prefix: &str, value: Option<&str>) -> (r: Option<String>)
    ensures
        optional_text(r) == labeled(
            prefix@,
            match value {
                Some(v) => Some(v@),
                None => None,
            },
        ),
{
    match value {
        Some(v) => Some(concat2(prefix, v)),
        None => None,
    }
}

fn counted_text(prefix: &str, value: Option<u32>, suffix: &str) -> (r: Option<String>)
    ensures
        optional_text(r) == counted(prefix@, optional_nat(value), suffix@),
{
    match value {
        Some(v) => {
            let n: String = decimal_text(v as u128);
            Some(concat3(prefix, n.as_str(), suffix))
        },
        None => None,
    }
}

fn driver_text(value: Option<&str>) -> (r: Option<String>)
    ensures
        optional_text(r) == driver_note(
            match value {
                Some(v) => Some(v@),
                None => None,
            },
        ),
{
    match value {
        Some(v) => {
            if !v.is_empty() && digit(v.get_char(0)) {
                Some(concat2("driver ", v))
            } else {
                Some(copied(v))
            }
        },
        None => None,
    }
}

fn gsp_text(mode: Option<u8>) -> (r: Option<String>)
    ensures
        optional_text(r) == gsp_note(mode),
{
    match mode {
        Some(m) => if m == 0 {
            Some(copied("GSP off"))
        } else if m == 1 {
            Some(copied("GSP on"))
        } else if m == 2 {
            Some(copied("GSP default"))
        } else {
            None
        },
        None => None,
    }
}

/// The facts of a device that are shown on demand instead of on every refresh.
pub fn device_details(gpu: &GpuInfo) -> (r: Vec<String>)
    ensures
        texts(r@) == detail_notes(*gpu),
{
    let mut out: Vec<String> = Vec::new();
    assert(texts(out@) == Seq::<Seq<char>>::empty());
    push_note(&mut out, threshold_text("slowdown", gpu.temperature_threshold_slowdown));
    push_note(&mut out, threshold_text("shutdown", gpu.temperature_threshold_shutdown));
    push_note(&mut out, threshold_text("max op", gpu.temperature_threshold_max_operating));
    push_note(&mut out, counted_text("P", gpu.performance_state, ""));
    push_note(&mut out, labeled_text("thermal ", gpu.fact("thermal_pressure")));
    push_note(&mut out, counted_text("fan ", gpu.fan_speed_rpm, " rpm"));
    push_note(&mut out, driver_text(gpu.fact("driver_version")));
    push_note(&mut out, labeled_text("CUDA ", gpu.fact("cuda_version")));
    push_note(&mut out, gsp_text(gpu.gsp_firmware_mode));
    let link: Option<String> = match (gpu.fact("pcie_gen_max"), gpu.fact("pcie_width_max")) {
        (Some(g), Some(w)) => Some(concat4("PCIe ", g, ".0 x", w)),
        _ => None,
    };
    push_note(&mut out, link);
    let ecc: Option<String> = match gpu.fact("ecc_mode_current") {
        Some(v) => {
            let mode: String = to_lowercase(v);
            Some(concat2("ECC ", mode.as_str()))
        },
        None => None,
    };
    push_note(&mut out, ecc);
    let numa: Option<String> = match gpu.numa_node_id {
        Some(n) => if n >= 0 {
            let t: String = decimal_text(n as u128);
            Some(concat2("NUMA ", t.as_str()))
        } else {
            None
        },
        None => None,
    };
    push_note(&mut out, numa);
    let links: Option<String> = if gpu.nvlink_remote_devices > 0 {
        let t: String = decimal_text(gpu.nvlink_remote_devices as u128);
        Some(concat2("NVLink ×", t.as_str()))
    } else {
        None
    };
    push_note(&mut out, links);
    out
}

/// The power limit that a device states, where it is a number.
pub open spec fn stated_limit(gpu: GpuInfo) -> Option<Reading> {
    match detail_of(gpu, "power_limit_max"@) {
        Some(t) => reading_in(t),
        None => None,
    }
}

/// `r` where it is above zero.
pub open spec fn positive(r: Option<Reading>) -> Option<Reading> {
    match r {
        Some(x) => if x.above(Reading { bits: 0 }) {
            r
        } else {
            None
        },
        None => None,
    }
}

pub open spec fn nonzero(n: Option<u32>) -> Option<u32> {
    match n {
        Some(x) => if x > 0 {
            n
        } else {
            None
        },
        None => None,
    }
}

/// Milliwatts in watts.
pub open spec fn in_watts(milliwatts: Option<Reading>) -> Option<Reading> {
    match milliwatts {
        Some(mw) => Some(mw.quotient(Reading::of_natural(1000))),
        None => None,
    }
}

/// The row of a device.
pub open spec fn row_of(gpu: GpuInfo, name: Seq<char>, duplicate: bool) -> DeviceModel {
    DeviceModel {
        uuid: gpu.uuid@,
        name: if duplicate {
            name + " #"@ + (match detail_of(gpu, "index"@) {
                Some(i) => i,
                None => "?"@,
            })
        } else {
            name
        },
        memory_kind: if unified(gpu) {
            MemoryKind::Unified
        } else {
            MemoryKind::Dedicated
        },
        utilization: gpu.utilization,
        used_memory: gpu.used_memory,
        total_memory: gpu.total_memory,
        power_watts: gpu.power_consumption,
        power_limit_watts: positive(stated_limit(gpu)),
        temperature_c: gpu.temperature,
        slowdown_c: nonzero(gpu.temperature_threshold_slowdown),
        frequency_mhz: gpu.frequency,
        ane_watts: if unified(gpu) {
            in_watts(gpu.ane_utilization)
        } else {
            None
        },
        core_count: gpu.gpu_core_count,
        details: detail_notes(gpu),
    }
}

fn device_row(gpu: &GpuInfo, name: &str, duplicate: bool) -> (r: DeviceRow)
    ensures
        r@ == row_of(*gpu, name@, duplicate),
{
    let unified: bool = is_unified(gpu);
    let name: String = if duplicate {
        let index: &str = match gpu.fact("index") {
            Some(i) => i,
            None => "?",
        };
        concat3(name, " #", index)
    } else {
        copied(name)
    };
    let stated: Option<Reading> = match gpu.fact("power_limit_max") {
        Some(t) => parse_reading(t),
        None => None,
    };
    let limit: Option<Reading> = match stated {
        Some(p) => if p.gt(Reading { bits: 0 }) {
            Some(p)
        } else {
            None
        },
        None => None,
    };
    let slowdown: Option<u32> = match gpu.temperature_threshold_slowdown {
        Some(t) => if t > 0 {
            Some(t)
        } else {
            None
        },
        None => None,
    };
    let ane: Option<Reading> = if unified {
        match gpu.ane_utilization {
            Some(mw) => Some(mw.over(Reading::from_u64(1000))),
            None => None,
        }
    } else {
        None
    };
    DeviceRow {
        uuid: copied(gpu.uuid.as_str()),
        name,
        memory_kind: if unified {
            MemoryKind::Unified
        } else {
            MemoryKind::Dedicated
        },
        utilization: gpu.utilization,
        used_memory: gpu.used_memory,
        total_memory: gpu.total_memory,
        power_watts: gpu.power_consumption,
        power_limit_watts: limit,
        temperature_c: gpu.temperature,
        slowdown_c: slowdown,
        frequency_mhz: gpu.frequency,
        ane_watts: ane,
        core_count: gpu.gpu_core_count,
        details: device_details(gpu),
    }
}

/// Words that say nothing in a CPU model.
pub open spec fn is_filler(w: Seq<char>) -> bool {
    w == "Processor"@ || w == "CPU"@ || w == "(R)"@ || w == "(TM)"@
}

/// A core count such as `24-Core`.
pub open spec fn is_core_count(w: Seq<char>) -> bool {
    ends(lowered_all(w), "-core"@)
}

/// The words up to the first core count.
pub open spec fn before_core_count(w: Seq<Seq<char>>) -> Seq<Seq<char>>
    decreases w.len(),
{
    if w.len() == 0 || is_core_count(w[0]) {
        seq![]
    } else {
        seq![w[0]] + before_core_count(w.drop_first())
    }
}

/// A CPU model without fillers and core count.
pub open spec fn short_cpu_model(model: Seq<char>) -> Seq<char> {
    joined(before_core_count(words(model).filter(|w: Seq<char>| !is_filler(w))), " "@)
}

/// "AMD EPYC 9275F 24-Core Processor" → "AMD EPYC 9275F".
pub fn cpu_model_label(model: &str) -> (r: String)
    ensures
        r@ == short_cpu_model(model@),
{
    let c: Vec<char> = chars_of(model);
    assert(c@.subrange(0, c@.len() as int) == model@);
    let ranges: Vec<(usize, usize)> = word_ranges(c.as_slice(), 0, c.len());
    let ghost all = words(model@);
    let ghost kept = |w: Seq<char>| !is_filler(w);
    let mut list: Vec<String> = Vec::new();
    let mut i: usize = 0;
    proof {
        reveal(Seq::filter);
        assert(all.take(0) == Seq::<Seq<char>>::empty());
        assert(texts(list@) == Seq::<Seq<char>>::empty());
    }
    while i < ranges.len()
        invariant
            i <= ranges@.len(),
            c@ == model@,
            all == words(model@),
            kept == (|w: Seq<char>| !is_filler(w)),
            ranges@.len() == all.len(),
            forall|j: int|
                0 <= j < ranges@.len() ==> (#[trigger] ranges@[j]).0 <= ranges@[j].1
                    && ranges@[j].1 <= c@.len() && c@.subrange(
                    ranges@[j].0 as int,
                    ranges@[j].1 as int,
                ) == all[j],
            texts(list@) == all.take(i as int).filter(kept),
        decreases ranges@.len() - i,
    {
        let (from, to) = ranges[i];
        assert(ranges@[i as int] == (from, to));
        let w: String = text_between(c.as_slice(), from, to);
        let filler: bool = same(w.as_str(), "Processor") || same(w.as_str(), "CPU") || same(
            w.as_str(),
            "(R)",
        ) || same(w.as_str(), "(TM)");
        proof {
            reveal(Seq::filter);
            let next = all.take(i + 1);
            assert(next.drop_last() == all.take(i as int));
            assert(next.last() == w@);
        }
        if !filler {
            let ghost before = texts(list@);
            list.push(w);
            assert(texts(list@) == before.push(w@));
        }
        i = i + 1;
    }
    assert(all.take(all.len() as int) == all);
    let ghost named = texts(list@);
    let mut out: Vec<String> = Vec::new();
    let mut k: usize = 0;
    assert(named.skip(0) == named);
    assert(texts(out@) + before_core_count(named) == before_core_count(named));
    while k < list.len() && !core_count_word(list[k].as_str())
        invariant
            k <= list@.len(),
            named == texts(list@),
            texts(out@) + before_core_count(named.skip(k as int)) == before_core_count(named),
        decreases list@.len() - k,
    {
        let ghost rest = named.skip(k as int);
        let ghost before = texts(out@);
        let w: String = copied(list[k].as_str());
        assert(rest[0] == w@);
        assert(rest.drop_first() == named.skip(k + 1));
        out.push(w);
        assert(texts(out@) == before.push(w@));
        let ghost tail = before_core_count(named.skip(k + 1));
        assert(before.push(w@) + tail == before + (seq![w@] + tail));
        k = k + 1;
    }
    proof {
        if k < list@.len() {
            assert(named.skip(k as int)[0] == list@[k as int]@);
        }
        assert(before_core_count(named.skip(k as int)) == Seq::<Seq<char>>::empty());
        assert(texts(out@) == before_core_count(named));
    }
    join(&out, " ")
}

fn core_count_word(w: &str) -> (r: bool)
    ensures
        r == is_core_count(w@),
{
    let c: Vec<char> = chars_of(w);
    let low: String = lower_text(c.as_slice(), 0, c.len());
    assert(c@.subrange(0, c@.len() as int) == w@);
    let d: Vec<char> = chars_of(low.as_str());
    ends_with(d.as_slice(), "-core")
}

/// The name of an operating system as it is written.
pub open spec fn os_name(os: Seq<char>) -> Seq<char> {
    if os == "macos"@ {
        "macOS"@
    } else if os == "linux"@ {
        "Linux"@
    } else if os == "windows"@ {
        "Windows"@
    } else {
        os
    }
}

pub fn os_label(os: &str) -> (r: String)
    ensures
        r@ == os_name(os@),
{
    if same(os, "macos") {
        copied("macOS")
    } else if same(os, "linux") {
        copied("Linux")
    } else if same(os, "windows") {
        copied("Windows")
    } else {
        copied(os)
    }
}

/// "ians-Mac-Studio.local" reads better without the mDNS suffix.
pub fn short_host_label(name: &str) -> (r: String)
    ensures
        r@ == without_suffix(name@, ".local"@),
{
    strip_suffix(name, ".local")
}

/// The first CPU of a host; the number of CPUs if it has none.
pub open spec fn cpu_index(cpus: Seq<CpuInfo>, host: Seq<char>) -> int
    decreases cpus.len(),
{
    if cpus.len() == 0 || cpus[0].host_id@ == host {
        0
    } else {
        1 + cpu_index(cpus.drop_first(), host)
    }
}

/// The first CPU of a host.
pub open spec fn cpu_on(cpus: Seq<CpuInfo>, host: Seq<char>) -> Option<CpuInfo> {
    if cpu_index(cpus, host) < cpus.len() {
        Some(cpus[cpu_index(cpus, host)])
    } else {
        None
    }
}

fn find_cpu<'a>(cpus: &'a [CpuInfo], host: &str) -> (r: Option<&'a CpuInfo>)
    ensures
        match r {
            Some(c) => cpu_on(cpus@, host@) == Some(*c),
            None => cpu_on(cpus@, host@) is None,
        },
{
    let mut i: usize = 0;
    assert(cpus@.skip(0) == cpus@);
    while i < cpus.len()
        invariant
            i <= cpus@.len(),
            cpu_index(cpus@, host@) == i + cpu_index(cpus@.skip(i as int), host@),
        decreases cpus@.len() - i,
    {
        assert(cpus@.skip(i as int)[0] == cpus@[i as int]);
        if same(cpus[i].host_id.as_str(), host) {
            return Some(&cpus[i]);
        }
        assert(cpus@.skip(i as int).drop_first() == cpus@.skip(i + 1));
        i = i + 1;
    }
    None
}

/// The GPU cores that an Apple host's CPU series reports.
pub open spec fn soc_cores(cpu: Option<CpuInfo>) -> Option<u32> {
    match cpu {
        Some(c) => match c.apple_silicon_info {
            Some(a) => nonzero(Some(a.gpu_core_count)),
            None => None,
        },
        None => None,
    }
}

/// The CPU summary of a host.
pub open spec fn cpu_summary(c: CpuInfo) -> CpuModel {
    CpuModel {
        model: short_cpu_model(c.cpu_model@),
        cores: match c.apple_silicon_info {
            Some(a) => {
                let n = a.s_core_count + a.p_core_count + a.e_core_count;
                if n > 0 {
                    n as u32
                } else {
                    c.total_cores
                }
            },
            None => c.total_cores,
        },
        utilization: c.utilization,
    }
}

/// Whether the core counts of an Apple SoC add up within their type.
pub open spec fn cores_fit(c: CpuInfo) -> bool {
    match c.apple_silicon_info {
        Some(a) => a.s_core_count + a.p_core_count + a.e_core_count <= u32::MAX,
        None => true,
    }
}

/// Whether the core counts of the CPU that a host shows add up.
pub open spec fn host_cores_fit(cpus: Seq<CpuInfo>, host: Seq<char>) -> bool {
    match cpu_on(cpus, host) {
        Some(c) => cores_fit(c),
        None => true,
    }
}

/// Used RAM of a host among the first `n` entries.
pub open spec fn ram_used_on(m: Seq<MemoryInfo>, host: Seq<char>, n: nat) -> nat
    decreases n,
{
    if n == 0 {
        0
    } else {
        ram_used_on(m, host, (n - 1) as nat) + (if m[n - 1].host_id@ == host {
            m[n - 1].used_bytes as nat
        } else {
            0
        })
    }
}

/// Installed RAM of a host among the first `n` entries.
pub open spec fn ram_total_on(m: Seq<MemoryInfo>, host: Seq<char>, n: nat) -> nat
    decreases n,
{
    if n == 0 {
        0
    } else {
        ram_total_on(m, host, (n - 1) as nat) + (if m[n - 1].host_id@ == host {
            m[n - 1].total_bytes as nat
        } else {
            0
        })
    }
}

proof fn ram_grows(m: Seq<MemoryInfo>, host: Seq<char>, n: nat, k: nat)
    requires
        n <= k <= m.len(),
    ensures
        ram_used_on(m, host, n) <= ram_used_on(m, host, k),
        ram_total_on(m, host, n) <= ram_total_on(m, host, k),
    decreases k,
{
    if n < k {
        ram_grows(m, host, n, (k - 1) as nat);
    }
}

/// Used and installed RAM of a host, where both fit.
fn host_ram(m: &[MemoryInfo], host: &str) -> (r: Option<(u64, u64)>)
    ensures
        match r {
            Some((used, total)) => used == ram_used_on(m@, host@, m@.len()) && total
                == ram_total_on(m@, host@, m@.len()),
            None => ram_used_on(m@, host@, m@.len()) > u64::MAX || ram_total_on(
                m@,
                host@,
                m@.len(),
            ) > u64::MAX,
        },
{
    let mut used: u64 = 0;
    let mut total: u64 = 0;
    let mut i: usize = 0;
    while i < m.len()
        invariant
            i <= m@.len(),
            used == ram_used_on(m@, host@, i as nat),
            total == ram_total_on(m@, host@, i as nat),
        decreases m@.len() - i,
    {
        proof {
            ram_grows(m@, host@, (i + 1) as nat, m@.len());
        }
        if same(m[i].host_id.as_str(), host) {
            if m[i].used_bytes > u64::MAX - used || m[i].total_bytes > u64::MAX - total {
                return None;
            }
            used = used + m[i].used_bytes;
            total = total + m[i].total_bytes;
        }
        i = i + 1;
    }
    Some((used, total))
}

/// The operating system of a host: that of the first probes found for it.
pub open spec fn os_on(probes: Seq<HostProbes>, host: Seq<char>) -> Option<Seq<char>>
    decreases probes.len(),
{
    if probes.len() == 0 {
        None
    } else if probes[0].host_id@ == host {
        match probes[0].os {
            Some(s) => Some(os_name(s@)),
            None => None,
        }
    } else {
        os_on(probes.drop_first(), host)
    }
}

fn host_os(probes: &[HostProbes], host: &str) -> (r: Option<String>)
    ensures
        optional_text(r) == os_on(probes@, host@),
{
    let mut i: usize = 0;
    assert(probes@.skip(0) == probes@);
    while i < probes.len()
        invariant
            i <= probes@.len(),
            os_on(probes@, host@) == os_on(probes@.skip(i as int), host@),
        decreases probes@.len() - i,
    {
        assert(probes@.skip(i as int)[0] == probes@[i as int]);
        if same(probes[i].host_id.as_str(), host) {
            return match &probes[i].os {
                Some(s) => Some(os_label(s.as_str())),
                None => None,
            };
        }
        assert(probes@.skip(i as int).drop_first() == probes@.skip(i + 1));
        i = i + 1;
    }
    None
}

/// What a host is called: by itself, else by its first device; the identifier
/// where that is empty or unknown.
pub open spec fn section_label(
    status: Option<ConnectionStatus>,
    first: Option<GpuInfo>,
    host: Seq<char>,
) -> Seq<char> {
    let named = match status {
        Some(s) => optional_text(s.actual_hostname),
        None => None,
    };
    let label = match named {
        Some(n) => Some(n),
        None => match first {
            Some(g) => Some(g.instance@),
            None => None,
        },
    };
    match label {
        Some(l) => if l.len() > 0 {
            without_suffix(l, ".local"@)
        } else {
            host
        },
        None => host,
    }
}

/// How often a name occurs.
pub open spec fn occurrences(names: Seq<Seq<char>>, name: Seq<char>, n: nat) -> nat
    decreases n,
{
    if n == 0 {
        0
    } else {
        occurrences(names, name, (n - 1) as nat) + (if names[n - 1] == name {
            1nat
        } else {
            0
        })
    }
}

/// The names of the devices at the places `at`.
pub open spec fn names_at(gpus: Seq<GpuInfo>, at: Seq<int>) -> Seq<Seq<char>> {
    at.map_values(|i: int| model_name(gpus[i]))
}

/// The row of the `k`-th device of a host.
pub open spec fn host_row(gpus: Seq<GpuInfo>, at: Seq<int>, cores: Option<u32>, k: int) -> DeviceModel {
    let names = names_at(gpus, at);
    let row = row_of(gpus[at[k]], names[k], occurrences(names, names[k], names.len()) > 1);
    if row.memory_kind == MemoryKind::Unified && row.core_count is None {
        DeviceModel { core_count: cores, ..row }
    } else {
        row
    }
}

/// The rows of a host's devices.
pub open spec fn host_rows(gpus: Seq<GpuInfo>, at: Seq<int>, cores: Option<u32>) -> Seq<DeviceModel> {
    Seq::new(at.len(), |k: int| host_row(gpus, at, cores, k))
}

/// The section of one host.
pub open spec fn section_of(
    gpus: Seq<GpuInfo>,
    cpus: Seq<CpuInfo>,
    memory: Seq<MemoryInfo>,
    probes: Seq<HostProbes>,
    statuses: Seq<(String, ConnectionStatus)>,
    host: Seq<char>,
) -> SectionModel {
    let status = find_entry(statuses, host);
    let at = devices_on(gpus, host, gpus.len());
    let cpu = cpu_on(cpus, host);
    let devices = host_rows(gpus, at, soc_cores(cpu));
    SectionModel {
        host_id: host,
        label: section_label(
            status,
            if at.len() > 0 {
                Some(gpus[at[0]])
            } else {
                None
            },
            host,
        ),
        connected: match status {
            Some(s) => s.is_connected,
            None => at.len() > 0,
        },
        last_error: match status {
            Some(s) => optional_text(s.last_error),
            None => None,
        },
        devices,
        cpu_power_watts: match cpu {
            Some(c) => if any_unified(devices) {
                c.power_consumption
            } else {
                None
            },
            None => None,
        },
        os: os_on(probes, host),
        cpu: match cpu {
            Some(c) => Some(cpu_summary(c)),
            None => None,
        },
        ram_used: ram_used_on(memory, host, memory.len()),
        ram_total: ram_total_on(memory, host, memory.len()),
    }
}

/// The sections of all hosts.
pub open spec fn sections_from(
    gpus: Seq<GpuInfo>,
    cpus: Seq<CpuInfo>,
    memory: Seq<MemoryInfo>,
    probes: Seq<HostProbes>,
    tabs: Seq<Seq<char>>,
    statuses: Seq<(String, ConnectionStatus)>,
) -> Seq<SectionModel> {
    shown_hosts(tabs, gpus).map_values(
        |h: Seq<char>| section_of(gpus, cpus, memory, probes, statuses, h),
    )
}

/// Whether every sum fits its type: bytes over all hosts, bytes of RAM on
/// each, and the cores of the CPU of each.
pub open spec fn sums_fit_in(s: Seq<SectionModel>, cpus: Seq<CpuInfo>) -> bool {
    &&& fits(tally(s, s.len()))
    &&& forall|i: int|
        0 <= i < s.len() ==> (#[trigger] s[i]).ram_used <= u64::MAX && s[i].ram_total <= u64::MAX
    &&& forall|i: int| 0 <= i < s.len() ==> host_cores_fit(cpus, (#[trigger] s[i]).host_id)
}

impl ModelSources<'_> {
    /// The hosts in the order in which they are shown.
    pub open spec fn hosts(&self) -> Seq<Seq<char>> {
        shown_hosts(texts(self.host_order@), self.gpu_info@)
    }

    /// The section of one host.
    pub open spec fn section(&self, host: Seq<char>) -> SectionModel {
        section_of(
            self.gpu_info@,
            self.cpu_info@,
            self.memory_info@,
            self.host_probes@,
            self.connection_status@,
            host,
        )
    }

    /// The sections of all hosts.
    pub open spec fn sections(&self) -> Seq<SectionModel> {
        sections_from(
            self.gpu_info@,
            self.cpu_info@,
            self.memory_info@,
            self.host_probes@,
            texts(self.host_order@),
            self.connection_status@,
        )
    }

    /// Whether every sum fits its type.
    pub open spec fn sums_fit(&self) -> bool {
        sums_fit_in(self.sections(), self.cpu_info@)
    }
}

#[derive(Clone, Debug, PartialEq, Eq)]
pub struct ConsolidatedModel {
    pub hosts: Vec<HostSection>,
    pub totals: Totals,
}

/// Whether `list` holds `item`.
fn holds_item(list: &Vec<String>, item: &str) -> (r: bool)
    ensures
        r == texts(list@).contains(item@),
{
    let mut i: usize = 0;
    while i < list.len()
        invariant
            i <= list@.len(),
            forall|j: int| 0 <= j < i ==> (#[trigger] texts(list@)[j]) != item@,
        decreases list@.len() - i,
    {
        if same(list[i].as_str(), item) {
            assert(texts(list@)[i as int] == item@);
            return true;
        }
        i = i + 1;
    }
    false
}

/// The hosts in the order in which they are shown: those of the tab strip, then
/// those that only devices name.
fn ordered_hosts(src: &ModelSources) -> (r: Vec<String>)
    ensures
        texts(r@) == src.hosts(),
{
    let mut order: Vec<String> = Vec::new();
    let ghost tabs = texts(src.host_order@);
    let ghost kept = |t: Seq<char>| !reserved_tab(t);
    let mut i: usize = 0;
    proof {
        reveal(Seq::filter);
        assert(tabs.take(0) == Seq::<Seq<char>>::empty());
        assert(texts(order@) == Seq::<Seq<char>>::empty());
    }
    while i < src.host_order.len()
        invariant
            i <= src.host_order@.len(),
            tabs == texts(src.host_order@),
            kept == (|t: Seq<char>| !reserved_tab(t)),
            texts(order@) == tabs.take(i as int).filter(kept),
        decreases src.host_order@.len() - i,
    {
        let tab: String = copied(src.host_order[i].as_str());
        proof {
            reveal(Seq::filter);
            let next = tabs.take(i + 1);
            assert(next.drop_last() == tabs.take(i as int));
            assert(next.last() == tab@);
        }
        if !is_reserved_tab(tab.as_str()) {
            let ghost before = texts(order@);
            order.push(tab);
            assert(texts(order@) == before.push(tab@));
        }
        i = i + 1;
    }
    assert(tabs.take(tabs.len() as int) == tabs);
    let ghost strip = texts(order@);
    let mut k: usize = 0;
    while k < src.gpu_info.len()
        invariant
            k <= src.gpu_info@.len(),
            strip == host_tabs(texts(src.host_order@)),
            texts(order@) == with_device_hosts(strip, src.gpu_info@, k as nat),
        decreases src.gpu_info@.len() - k,
    {
        let host: String = copied(src.gpu_info[k].host_id.as_str());
        if !holds_item(&order, host.as_str()) {
            let ghost before = texts(order@);
            order.push(host);
            assert(texts(order@) == before.push(host@));
        }
        k = k + 1;
    }
    order
}

/// Places as integers.
pub open spec fn places(v: Seq<usize>) -> Seq<int> {
    v.map_values(|i: usize| i as int)
}

/// The places of a host's devices, in their order.
fn host_devices(gpus: &[GpuInfo], host: &str) -> (r: Vec<usize>)
    ensures
        places(r@) == devices_on(gpus@, host@, gpus@.len()),
        forall|j: int| 0 <= j < r@.len() ==> #[trigger] r@[j] < gpus@.len(),
{
    let mut r: Vec<usize> = Vec::new();
    let mut i: usize = 0;
    let ghost before_fn = device_before(gpus@);
    assert(places(r@) == Seq::<int>::empty());
    while i < gpus.len()
        invariant
            i <= gpus@.len(),
            before_fn == device_before(gpus@),
            places(r@) == devices_on(gpus@, host@, i as nat),
            forall|j: int| 0 <= j < r@.len() ==> #[trigger] r@[j] < gpus@.len(),
        decreases gpus@.len() - i,
    {
        if same(gpus[i].host_id.as_str(), host) {
            let ghost listed = places(r@);
            let mut at: usize = r.len();
            while at > 0 && comes_first(gpus, i, r[at - 1])
                invariant
                    i < gpus@.len(),
                    at <= r@.len(),
                    before_fn == device_before(gpus@),
                    listed == places(r@),
                    forall|j: int| 0 <= j < r@.len() ==> #[trigger] r@[j] < gpus@.len(),
                    forall|j: int|
                        at <= j < listed.len() ==> #[trigger] before_fn(i as int, listed[j]),
                decreases at,
            {
                at = at - 1;
                assert(listed[at as int] == r@[at as int] as int);
            }
            proof {
                if at > 0 {
                    assert(listed[at - 1] == r@[at - 1] as int);
                }
                lemma_insert_at(listed, i as int, before_fn, at as int);
            }
            r.insert(at, i);
            assert(places(r@) == listed.insert(at as int, i as int));
        }
        i = i + 1;
    }
    r
}

/// Whether the device at `a` comes before the one at `b`.
fn comes_first(gpus: &[GpuInfo], a: usize, b: usize) -> (r: bool)
    requires
        a < gpus@.len(),
        b < gpus@.len(),
    ensures
        r == device_before(gpus@)(a as int, b as int),
{
    let x: u32 = device_index(&gpus[a]);
    let y: u32 = device_index(&gpus[b]);
    x < y || (x == y && comes_before(gpus[a].uuid.as_str(), gpus[b].uuid.as_str()))
}

/// How often `name` occurs among `names`.
fn count_of(names: &Vec<String>, name: &str) -> (r: usize)
    ensures
        r == occurrences(texts(names@), name@, names@.len()),
{
    let mut n: usize = 0;
    let mut i: usize = 0;
    while i < names.len()
        invariant
            i <= names@.len(),
            n <= i,
            n == occurrences(texts(names@), name@, i as nat),
        decreases names@.len() - i,
    {
        assert(texts(names@)[i as int] == names@[i as int]@);
        if same(names[i].as_str(), name) {
            n = n + 1;
        }
        i = i + 1;
    }
    n
}

/// The rows of the devices at the places `at`.
fn build_rows(gpus: &[GpuInfo], at: &Vec<usize>, cores: Option<u32>) -> (r: Vec<DeviceRow>)
    requires
        forall|j: int| 0 <= j < at@.len() ==> #[trigger] at@[j] < gpus@.len(),
    ensures
        device_rows(r@) == host_rows(gpus@, places(at@), cores),
{
    let ghost spots = places(at@);
    let ghost wanted_names = names_at(gpus@, spots);
    let mut names: Vec<String> = Vec::new();
    let mut i: usize = 0;
    while i < at.len()
        invariant
            i <= at@.len(),
            spots == places(at@),
            wanted_names == names_at(gpus@, spots),
            forall|j: int| 0 <= j < at@.len() ==> #[trigger] at@[j] < gpus@.len(),
            texts(names@) == wanted_names.take(i as int),
        decreases at@.len() - i,
    {
        assert(at@[i as int] < gpus@.len());
        let n: String = device_name(&gpus[at[i]]);
        let ghost before = texts(names@);
        names.push(n);
        assert(texts(names@) == before.push(n@));
        assert(wanted_names[i as int] == n@);
        assert(wanted_names.take(i + 1) == wanted_names.take(i as int).push(n@));
        i = i + 1;
    }
    assert(wanted_names.take(wanted_names.len() as int) == wanted_names);
    let ghost wanted = host_rows(gpus@, spots, cores);
    let mut rows: Vec<DeviceRow> = Vec::new();
    let mut k: usize = 0;
    while k < at.len()
        invariant
            k <= at@.len(),
            spots == places(at@),
            wanted_names == names_at(gpus@, spots),
            names@.len() == at@.len(),
            texts(names@) == wanted_names,
            wanted == host_rows(gpus@, spots, cores),
            forall|j: int| 0 <= j < at@.len() ==> #[trigger] at@[j] < gpus@.len(),
            device_rows(rows@) == wanted.take(k as int),
        decreases at@.len() - k,
    {
        assert(at@[k as int] < gpus@.len());
        assert(wanted_names[k as int] == names@[k as int]@);
        let duplicate: bool = count_of(&names, names[k].as_str()) > 1;
        let mut row: DeviceRow = device_row(&gpus[at[k]], names[k].as_str(), duplicate);
        let ghost plain = row@;
        if row.memory_kind == MemoryKind::Unified && row.core_count.is_none() {
            row.core_count = cores;
            assert(row@ == DeviceModel { core_count: cores, ..plain });
        }
        assert(spots[k as int] == at@[k as int] as int);
        assert(row@ == wanted[k as int]);
        let ghost before = device_rows(rows@);
        rows.push(row);
        assert(device_rows(rows@) == before.push(row@));
        assert(wanted.take(k + 1) == wanted.take(k as int).push(row@));
        k = k + 1;
    }
    assert(wanted.take(wanted.len() as int) == wanted);
    rows
}

/// Whether the RAM of a host and the cores of its CPU fit.
spec fn section_fits(src: &ModelSources, host: Seq<char>) -> bool {
    &&& src.section(host).ram_used <= u64::MAX
    &&& src.section(host).ram_total <= u64::MAX
    &&& host_cores_fit(src.cpu_info@, host)
}

/// The section of one host, where its sums fit.
fn build_section(src: &ModelSources, host: &str) -> (r: Option<HostSection>)
    ensures
        match r {
            Some(s) => section_fits(src, host@) && s@ == src.section(host@),
            None => !section_fits(src, host@),
        },
{
    let status: Option<&ConnectionStatus> = entry_of(src.connection_status, host);
    let at: Vec<usize> = host_devices(src.gpu_info, host);
    let ghost spots = devices_on(src.gpu_info@, host@, src.gpu_info@.len());
    assert(spots == places(at@));
    let connected: bool = match status {
        Some(s) => s.is_connected,
        None => at.len() > 0,
    };
    proof {
        if at@.len() > 0 {
            assert(spots[0] == at@[0] as int);
            assert(at@[0] < src.gpu_info@.len());
        }
    }
    let named: Option<String> = match status {
        Some(s) => copy_optional(&s.actual_hostname),
        None => None,
    };
    let chosen: Option<String> = match named {
        Some(n) => Some(n),
        None => if at.len() > 0 {
            Some(copied(src.gpu_info[at[0]].instance.as_str()))
        } else {
            None
        },
    };
    let label: String = match chosen {
        Some(l) => if !l.as_str().is_empty() {
            short_host_label(l.as_str())
        } else {
            copied(host)
        },
        None => copied(host),
    };
    let cpu: Option<&CpuInfo> = find_cpu(src.cpu_info, host);
    let cores: Option<u32> = match cpu {
        Some(c) => match c.apple_silicon_info {
            Some(a) => if a.gpu_core_count > 0 {
                Some(a.gpu_core_count)
            } else {
                None
            },
            None => None,
        },
        None => None,
    };
    let devices: Vec<DeviceRow> = build_rows(src.gpu_info, &at, cores);
    let unified: bool = some_unified(&devices);
    let cpu_power: Option<Reading> = match cpu {
        Some(c) => if unified {
            c.power_consumption
        } else {
            None
        },
        None => None,
    };
    let (ram_used, ram_total) = match host_ram(src.memory_info, host) {
        Some(both) => both,
        None => {
            return None;
        },
    };
    let summary: Option<HostCpu> = match cpu {
        Some(c) => {
            let cores: u32 = match c.apple_silicon_info {
                Some(a) => {
                    let wide: u64 = a.s_core_count as u64 + a.p_core_count as u64
                        + a.e_core_count as u64;
                    if wide > u32::MAX as u64 {
                        return None;
                    }
                    let n: u32 = wide as u32;
                    if n > 0 {
                        n
                    } else {
                        c.total_cores
                    }
                },
                None => c.total_cores,
            };
            Some(
                HostCpu {
                    model: cpu_model_label(c.cpu_model.as_str()),
                    cores,
                    utilization: c.utilization,
                },
            )
        },
        None => None,
    };
    let last_error: Option<String> = match status {
        Some(s) => copy_optional(&s.last_error),
        None => None,
    };
    Some(
        HostSection {
            host_id: copied(host),
            label,
            connected,
            last_error,
            devices,
            cpu_power_watts: cpu_power,
            os: host_os(src.host_probes, host),
            cpu: summary,
            ram_used,
            ram_total,
        },
    )
}

/// The growing sums.
struct Sums {
    totals: Totals,
    util_sum: Reading,
    util_count: usize,
}

impl Sums {
    spec fn tally(self) -> Tally {
        tally_of(self.totals, self.util_sum, self.util_count as nat)
    }

    /// Whether the memory of a device can be added.
    fn has_room(&self, d: &DeviceRow) -> (r: bool)
        requires
            fits(self.tally()),
        ensures
            r == fits(with_device(self.tally(), d@)),
    {
        let (used, total): (u64, u64) = match d.memory_kind {
            MemoryKind::Unified => (self.totals.unified_used, self.totals.unified_total),
            MemoryKind::Dedicated => (self.totals.dedicated_used, self.totals.dedicated_total),
        };
        self.totals.devices < usize::MAX && d.used_memory <= u64::MAX - used && d.total_memory
            <= u64::MAX - total
    }

    /// Adds a device, where it fits.
    fn add_device(&mut self, d: &DeviceRow) -> (r: bool)
        requires
            fits(old(self).tally()),
            old(self).util_count <= old(self).totals.devices,
            old(self).totals.unified_devices <= old(self).totals.devices,
        ensures
            r == fits(with_device(old(self).tally(), d@)),
            r ==> final(self).tally() == with_device(old(self).tally(), d@),
            final(self).totals.avg_utilization == old(self).totals.avg_utilization,
    {
        if !self.has_room(d) {
            return false;
        }
        self.totals.devices = self.totals.devices + 1;
        if let Some(u) = d.utilization {
            self.util_sum = self.util_sum.plus(u);
            self.util_count = self.util_count + 1;
        }
        if let Some(t) = d.temperature_c {
            let hotter: bool = match self.totals.max_temperature {
                Some((max, _)) => t > max,
                None => true,
            };
            if hotter {
                self.totals.max_temperature = Some((t, d.slowdown_c));
            }
        }
        let power: Reading = match d.power_watts {
            Some(p) => p,
            None => Reading { bits: 0 },
        };
        let limit: Reading = match d.power_limit_watts {
            Some(p) => p,
            None => Reading { bits: 0 },
        };
        self.totals.power_limit_watts = self.totals.power_limit_watts.plus(limit);
        match d.memory_kind {
            MemoryKind::Unified => {
                self.totals.unified_devices = self.totals.unified_devices + 1;
                self.totals.unified_used = self.totals.unified_used + d.used_memory;
                self.totals.unified_total = self.totals.unified_total + d.total_memory;
                self.totals.unified_power_watts = self.totals.unified_power_watts.plus(power);
            },
            MemoryKind::Dedicated => {
                self.totals.dedicated_used = self.totals.dedicated_used + d.used_memory;
                self.totals.dedicated_total = self.totals.dedicated_total + d.total_memory;
                self.totals.dedicated_power_watts = self.totals.dedicated_power_watts.plus(power);
            },
        }
        true
    }

    /// Adds a host, where its devices and its RAM fit.
    fn add_section(&mut self, s: &HostSection) -> (r: bool)
        requires
            fits(old(self).tally()),
            old(self).util_count <= old(self).totals.devices,
            old(self).totals.unified_devices <= old(self).totals.devices,
            old(self).totals.hosts_up < usize::MAX,
        ensures
            r == fits(with_section(old(self).tally(), s@)),
            r ==> final(self).tally() == with_section(old(self).tally(), s@),
            final(self).totals.avg_utilization == old(self).totals.avg_utilization,
    {
        if s.connected {
            self.totals.hosts_up = self.totals.hosts_up + 1;
        }
        let ghost start = self.tally();
        let ghost rows = s@.devices;
        let mut i: usize = 0;
        while i < s.devices.len()
            invariant
                i <= s.devices@.len(),
                rows == device_rows(s.devices@),
                self.tally() == with_devices(start, rows, i as nat),
                start.util_count <= start.devices,
                start.unified_devices <= start.devices,
                fits(self.tally()),
                with_section(old(self).tally(), s@) == (if any_unified(rows) {
                    with_devices(start, rows, rows.len())
                } else {
                    Tally {
                        host_ram_used: with_devices(start, rows, rows.len()).host_ram_used
                            + s@.ram_used,
                        host_ram_total: with_devices(start, rows, rows.len()).host_ram_total
                            + s@.ram_total,
                        ..with_devices(start, rows, rows.len())
                    }
                }),
                self.totals.avg_utilization == old(self).totals.avg_utilization,
            decreases s.devices@.len() - i,
        {
            proof {
                devices_grow(start, rows, (i + 1) as nat, rows.len());
                devices_grow(start, rows, i as nat, rows.len());
                assert(rows[i as int] == s.devices@[i as int]@);
            }
            if !self.add_device(&s.devices[i]) {
                return false;
            }
            i = i + 1;
        }
        if !s.has_unified_memory() {
            if s.ram_used > u64::MAX - self.totals.host_ram_used || s.ram_total > u64::MAX
                - self.totals.host_ram_total {
                return false;
            }
            self.totals.host_ram_used = self.totals.host_ram_used + s.ram_used;
            self.totals.host_ram_total = self.totals.host_ram_total + s.ram_total;
        }
        true
    }
}

impl ConsolidatedModel {
    /// Build the model. Hosts follow the tab strip; hosts that only appear in
    /// `gpu_info` are appended.
    pub fn build(src: &ModelSources) -> (r: ConsolidatedModel)
        requires
            src.sums_fit(),
        ensures
            sections_of(r.hosts@) == src.sections(),
            ({
                let t = tally(src.sections(), src.sections().len());
                tally_of(r.totals, t.util_sum, t.util_count) == t && r.totals.avg_utilization
                    == mean_utilization(t)
            }),
            r.totals == totals_of(tally(src.sections(), src.sections().len())),
            r.totals.unified_devices <= r.totals.devices,
    {
        ConsolidatedModel::try_build(src).unwrap()
    }

    /// The model, where every sum fits its type.
    pub fn try_build(src: &ModelSources) -> (r: Option<ConsolidatedModel>)
        ensures
            match r {
                Some(m) => {
                    let t = tally(src.sections(), src.sections().len());
                    &&& src.sums_fit()
                    &&& sections_of(m.hosts@) == src.sections()
                    &&& tally_of(m.totals, t.util_sum, t.util_count) == t
                    &&& m.totals.avg_utilization == mean_utilization(t)
                    &&& m.totals == totals_of(t)
                    &&& m.totals.unified_devices <= m.totals.devices
                },
                None => !src.sums_fit(),
            },
    {
        let order: Vec<String> = ordered_hosts(src);
        let ghost all = src.sections();
        let mut hosts: Vec<HostSection> = Vec::new();
        let mut totals: Totals = Totals::default();
        totals.hosts_total = order.len();
        let mut sums: Sums = Sums { totals, util_sum: Reading { bits: 0 }, util_count: 0 };
        let mut i: usize = 0;
        assert(sections_of(hosts@) == Seq::<SectionModel>::empty());
        while i < order.len()
            invariant
                i <= order@.len(),
                texts(order@) == src.hosts(),
                all == src.sections(),
                all.len() == order@.len(),
                sections_of(hosts@) == all.take(i as int),
                sums.tally() == tally(all, i as nat),
                fits(sums.tally()),
                forall|j: int|
                    0 <= j < i ==> (#[trigger] all[j]).ram_used <= u64::MAX && all[j].ram_total
                        <= u64::MAX && host_cores_fit(src.cpu_info@, all[j].host_id),
            decreases order@.len() - i,
        {
            assert(all[i as int] == src.section(order@[i as int]@));
            let section: HostSection = match build_section(src, order[i].as_str()) {
                Some(s) => s,
                None => {
                    return None;
                },
            };
            proof {
                tally_grows(all, i as nat, all.len());
                tally_grows(all, (i + 1) as nat, all.len());
            }
            if !sums.add_section(&section) {
                return None;
            }
            let ghost before = sections_of(hosts@);
            hosts.push(section);
            assert(sections_of(hosts@) == before.push(section@));
            assert(all.take(i + 1) == all.take(i as int).push(section@));
            i = i + 1;
        }
        assert(all.take(all.len() as int) == all);
        proof {
            tally_grows(all, all.len(), all.len());
        }
        let mut totals: Totals = sums.totals;
        totals.avg_utilization = if sums.util_count > 0 {
            Some(sums.util_sum.over(Reading::from_u64(sums.util_count as u64)))
        } else {
            None
        };
        Some(ConsolidatedModel { hosts, totals })
    }

    /// The same model narrowed to one host (a host tab). Totals stay
    /// cluster-wide.
    pub fn only_host(&self, host_id: &str) -> (r: ConsolidatedModel)
        ensures
            sections_of(r.hosts@) == sections_of(self.hosts@).filter(
                |s: SectionModel| s.host_id == host_id@,
            ),
            r.totals == self.totals,
    {
        let ghost all = sections_of(self.hosts@);
        let ghost here = |s: SectionModel| s.host_id == host_id@;
        let mut hosts: Vec<HostSection> = Vec::new();
        let mut i: usize = 0;
        proof {
            reveal(Seq::filter);
            assert(all.take(0) == Seq::<SectionModel>::empty());
            assert(sections_of(hosts@) == Seq::<SectionModel>::empty());
        }
        while i < self.hosts.len()
            invariant
                i <= self.hosts@.len(),
                all == sections_of(self.hosts@),
                here == (|s: SectionModel| s.host_id == host_id@),
                sections_of(hosts@) == all.take(i as int).filter(here),
            decreases self.hosts@.len() - i,
        {
            proof {
                reveal(Seq::filter);
                let next = all.take(i + 1);
                assert(next.drop_last() == all.take(i as int));
                assert(next.last() == self.hosts@[i as int]@);
            }
            if same(self.hosts[i].host_id.as_str(), host_id) {
                let ghost before = sections_of(hosts@);
                let s: HostSection = self.hosts[i].copy();
                hosts.push(s);
                assert(sections_of(hosts@) == before.push(s@));
            }
            i = i + 1;
        }
        assert(all.take(all.len() as int) == all);
        ConsolidatedModel { hosts, totals: self.totals }
    }

    /// Display label for a host id, falling back to the id itself.
    pub fn host_label(&self, host_id: &str) -> (r: String)
        ensures
            r@ == label_for(sections_of(self.hosts@), host_id@),
    {
        let ghost all = sections_of(self.hosts@);
        let mut i: usize = 0;
        assert(all.skip(0) == all);
        while i < self.hosts.len()
            invariant
                i <= self.hosts@.len(),
                all == sections_of(self.hosts@),
                label_for(all, host_id@) == label_for(all.skip(i as int), host_id@),
            decreases self.hosts@.len() - i,
        {
            assert(all.skip(i as int)[0] == self.hosts@[i as int]@);
            if same(self.hosts[i].host_id.as_str(), host_id) {
                return copied(self.hosts[i].label.as_str());
            }
            assert(all.skip(i as int).drop_first() == all.skip(i + 1));
            i = i + 1;
        }
        copied(host_id)
    }
}

/// The label of the first section of a host; the host itself if it has none.
pub open spec fn label_for(s: Seq<SectionModel>, host: Seq<char>) -> Seq<char>
    decreases s.len(),
{
    if s.len() == 0 {
        host
    } else if s[0].host_id == host {
        s[0].label
    } else {
        label_for(s.drop_first(), host)
    }
}

proof fn hosts_are_kept(order: Seq<Seq<char>>, gpus: Seq<GpuInfo>, n: nat, m: nat, host: Seq<char>)
    requires
        n <= m <= gpus.len(),
        with_device_hosts(order, gpus, n).contains(host),
    ensures
        with_device_hosts(order, gpus, m).contains(host),
    decreases m,
{
    if n < m {
        hosts_are_kept(order, gpus, n, (m - 1) as nat, host);
        let before = with_device_hosts(order, gpus, (m - 1) as nat);
        let k = choose|k: int| 0 <= k < before.len() && before[k] == host;
        assert(before.push(gpus[m - 1].host_id@)[k] == host);
    }
}

proof fn insertion_holds(s: Seq<int>, x: int, before: spec_fn(int, int) -> bool, y: int)
    ensures
        insert_sorted(s, x, before).contains(y) <==> s.contains(y) || y == x,
    decreases s.len(),
{
    let r = insert_sorted(s, x, before);
    if s.len() == 0 || !before(x, s.last()) {
        if s.contains(y) {
            let k = choose|k: int| 0 <= k < s.len() && s[k] == y;
            assert(r[k] == y);
        }
        if y == x {
            assert(r[s.len() as int] == y);
        }
        if r.contains(y) {
            let k = choose|k: int| 0 <= k < r.len() && r[k] == y;
            if k < s.len() {
                assert(s[k] == y);
            }
        }
    } else {
        let t = insert_sorted(s.drop_last(), x, before);
        insertion_holds(s.drop_last(), x, before, y);
        if s.contains(y) {
            let k = choose|k: int| 0 <= k < s.len() && s[k] == y;
            if k == s.len() - 1 {
                assert(r[t.len() as int] == y);
            } else {
                assert(s.drop_last()[k] == y);
            }
        }
        if t.contains(y) {
            let k = choose|k: int| 0 <= k < t.len() && t[k] == y;
            assert(r[k] == y);
        }
        if r.contains(y) {
            let k = choose|k: int| 0 <= k < r.len() && r[k] == y;
            if k < t.len() {
                assert(t[k] == y);
                if s.drop_last().contains(y) {
                    let q = choose|q: int| 0 <= q < s.drop_last().len() && s.drop_last()[q] == y;
                    assert(s[q] == y);
                }
            } else {
                assert(s[s.len() - 1] == y);
            }
        }
    }
}

proof fn devices_on_holds(gpus: Seq<GpuInfo>, host: Seq<char>, n: nat, y: int)
    requires
        n <= gpus.len(),
    ensures
        devices_on(gpus, host, n).contains(y) <==> 0 <= y < n && gpus[y].host_id@ == host,
    decreases n,
{
    if n > 0 {
        devices_on_holds(gpus, host, (n - 1) as nat, y);
        insertion_holds(
            devices_on(gpus, host, (n - 1) as nat),
            n - 1,
            device_before(gpus),
            y,
        );
    }
}

/// No device is lost: its host is among those shown, and the device is among
/// that host's, and among no other's.
pub proof fn every_device_is_shown_on_its_host(
    tabs: Seq<Seq<char>>,
    gpus: Seq<GpuInfo>,
    host: Seq<char>,
    i: int,
)
    requires
        0 <= i < gpus.len(),
    ensures
        shown_hosts(tabs, gpus).contains(gpus[i].host_id@),
        devices_on(gpus, host, gpus.len()).contains(i) <==> gpus[i].host_id@ == host,
{
    devices_on_holds(gpus, host, gpus.len(), i);
    let order = host_tabs(tabs);
    let before = with_device_hosts(order, gpus, i as nat);
    let after = with_device_hosts(order, gpus, (i + 1) as nat);
    let own = gpus[i].host_id@;
    if !before.contains(own) {
        assert(after[before.len() as int] == own);
    }
    hosts_are_kept(order, gpus, (i + 1) as nat, gpus.len(), own);
}

/// An unreachable host keeps its row: every host of the tab strip is shown,
/// whether or not a device of it is known.
pub proof fn every_host_tab_keeps_a_row(tabs: Seq<Seq<char>>, gpus: Seq<GpuInfo>, i: int)
    requires
        0 <= i < tabs.len(),
        !reserved_tab(tabs[i]),
    ensures
        shown_hosts(tabs, gpus).contains(tabs[i]),
{
    broadcast use vstd::seq_lib::group_seq_properties;

    let kept = |t: Seq<char>| !reserved_tab(t);
    tabs.filter_lemma(kept);
    assert(kept(tabs[i]));
    assert(host_tabs(tabs).contains(tabs[i]));
    hosts_are_kept(host_tabs(tabs), gpus, 0, gpus.len(), tabs[i]);
}

/// The devices of a host stand by number, then by identifier.
pub proof fn devices_stand_in_order(gpus: Seq<GpuInfo>, host: Seq<char>, n: nat)
    requires
        n <= gpus.len(),
    ensures
        crate::order::in_order(devices_on(gpus, host, n), device_before(gpus)),
    decreases n,
{
    let before = device_before(gpus);
    assert(crate::order::orders(before)) by {
        assert forall|a: int, b: int| #[trigger] before(a, b) implies !before(b, a) by {
            crate::text::precedes_is_strict(gpus[a].uuid@, gpus[b].uuid@);
        }
        assert forall|a: int, b: int, c: int|
            !(#[trigger] before(b, a)) && !(#[trigger] before(c, b)) implies !before(c, a) by {
            let (x, y, z) = (gpus[a].uuid@, gpus[b].uuid@, gpus[c].uuid@);
            crate::text::precedes_is_total(x, y);
            crate::text::precedes_is_total(y, z);
            crate::text::precedes_is_strict(x, z);
            crate::text::precedes_is_strict(z, y);
            crate::text::precedes_is_strict(y, x);
            if precedes(x, y) && precedes(y, z) {
                crate::text::precedes_is_transitive(x, y, z);
            }
        }
    }
    if n > 0 {
        devices_stand_in_order(gpus, host, (n - 1) as nat);
        crate::order::insertion_keeps_order(
            devices_on(gpus, host, (n - 1) as nat),
            n - 1,
            before,
        );
    }
}

/// The RAM of a host is counted once: as host RAM where no device shares it,
/// and not again where one does.
pub proof fn host_ram_is_counted_once(t: Tally, s: SectionModel)
    ensures
        any_unified(s.devices) ==> with_section(t, s).host_ram_used == t.host_ram_used
            && with_section(t, s).host_ram_total == t.host_ram_total,
        !any_unified(s.devices) ==> {
            &&& with_section(t, s).host_ram_used == t.host_ram_used + s.ram_used
            &&& with_section(t, s).host_ram_total == t.host_ram_total + s.ram_total
            &&& with_section(t, s).unified_used == t.unified_used
            &&& with_section(t, s).unified_total == t.unified_total
        },
{
    let up = Tally {
        hosts_up: if s.connected {
            t.hosts_up + 1
        } else {
            t.hosts_up
        },
        ..t
    };
    devices_leave_ram(up, s.devices, s.devices.len());
}

/// The totals shrink to the hosts that answered: one that is down, with no
/// device and no RAM known of it, adds to nothing but the number of hosts.
pub proof fn silent_hosts_add_nothing(t: Tally, s: SectionModel)
    requires
        !s.connected,
        s.devices.len() == 0,
        s.ram_used == 0 && s.ram_total == 0,
    ensures
        with_section(t, s) == t,
{
}

proof fn devices_leave_ram(t: Tally, d: Seq<DeviceModel>, n: nat)
    requires
        n <= d.len(),
    ensures
        with_devices(t, d, n).host_ram_used == t.host_ram_used,
        with_devices(t, d, n).host_ram_total == t.host_ram_total,
        !any_unified(d) ==> with_devices(t, d, n).unified_used == t.unified_used && with_devices(
            t,
            d,
            n,
        ).unified_total == t.unified_total,
    decreases n,
{
    if n > 0 {
        devices_leave_ram(t, d, (n - 1) as nat);
        assert(d[n - 1].memory_kind == MemoryKind::Unified ==> any_unified(d));
    }
}

} // verus!
