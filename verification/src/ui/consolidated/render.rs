//! Renderer for the Consolidated tab.
//!
//! One table row per accelerator (host, device, utilization, memory with its
//! kind, power, temperature, clock, and utilization / power sparklines), a
//! combined total, then the host probes. Columns and sparklines shrink or drop
//! with the terminal width, and output stops at the row budget, so the tab
//! never scrolls the footer off screen.
use vstd::prelude::*;
use vstd::string::*;

use crate::common::url_parts::{optional_text, url_parse};
use crate::device::types::{ConnectionStatus, CpuInfo, GpuInfo, MemoryInfo};
use crate::order::{insert_sorted, lemma_insert_at, sorted, sorting_orders};
use crate::probes::lock::{holders_of, lock_samples, LockHolder, LockModel, LockSample};
use crate::probes::net::{net_samples, NetInterfaceSample, NetSampleModel};
use crate::probes::{
    any_links, any_locks, probes_of, some_links, some_locks, HostProbes, ProbesModel,
};
use crate::reading::Reading;
use crate::text::{
    begins, begins_with, chars_of, concat2, concat3, concat4, concat5, copied, decimal,
    decimal_text, display_width, first_of, join, joined, position_of, repeated, same,
    text_between, texts,
};
use crate::ui::cluster::charts::{max_of, peak_from, peak_value};
use crate::ui::cluster::header::{less, lesser};
use crate::ui::cluster::line::{
    duration_text, fit_keeping_index, fitted_name, fmt_duration, fmt_rate, fmt_watts, plural,
    plural_text, rate_text, watts_text, GIB,
};
use crate::ui::consolidated::history::{
    net_rx_key, net_tx_key, power_key, rx_key, samples_of, tx_key, util_key, ConsolidatedState,
    SeriesHistory, SeriesModel, TOTAL_POWER_KEY, TOTAL_UTIL_KEY,
};
use crate::ui::consolidated::model::{
    fraction_used, label_for, memory_fraction, sections_from, sections_of, sums_fit_in, tally,
    totals_of, ConsolidatedModel, DeviceModel, DeviceRow, HostSection, ModelSources,
    SectionModel, Totals,
};
use crate::ui::consolidated::pipeline::PipelineStatus;
use crate::ui::consolidated::pipeline_render::{
    endpoint_label, endpoint_words, engine_rows, pipeline_heading, render_engine,
    render_pipeline_heading, render_swap, swap_row,
};
use crate::ui::consolidated::pipeline_view::larger;
use crate::ui::consolidated::row::{
    page, page_of, row_cell, row_rcell, row_spark, row_text, row_texts, rule_row, Row, RowText,
    Tone, HEADING, LABEL, VALUE,
};
use crate::ui::theme::Color;

verus! {

/// Width of the second column of the probe and pipeline rows (host label, or
/// host label and port).
pub const SUBJECT: usize = 22;

/// Widest sparkline of the device table.
pub const MAX_SPARK: usize = 40;

/// The least a link chart spans, in bytes per second.
pub const LINK_FLOOR: u64 = 1_000_000;

/// One hundred.
pub const PERCENT: u64 = 100;

/// Borrowed inputs of the renderer.
pub struct ConsolidatedInputs<'a> {
    pub gpu_info: &'a [GpuInfo],
    pub cpu_info: &'a [CpuInfo],
    /// Tab strip, used for host order.
    pub tabs: &'a [String],
    pub connection_status: &'a [(String, ConnectionStatus)],
    pub host_probes: &'a [HostProbes],
    pub state: &'a ConsolidatedState,
    /// Wall-clock seconds, for "held for" durations.
    pub now_unix: u64,
}

/// Column widths for the device table at a given terminal width.
#[derive(Clone, Copy, Debug, PartialEq, Eq, Structural)]
pub struct Columns {
    pub host: usize,
    pub device: usize,
    pub util: usize,
    pub mem: usize,
    pub power: usize,
    pub temp: usize,
    pub clock: usize,
    pub spark_util: usize,
    pub spark_power: usize,
}

/// Columns without sparklines.
pub open spec fn base_columns(cols: nat) -> Columns {
    let (host, device, util, mem, power, clock): (usize, usize, usize, usize, usize, usize) =
        if cols >= 120 {
        (17, 30, 8, 25, 12, 10)
    } else if cols >= 100 {
        (16, 26, 7, 24, 11, 10)
    } else {
        (12, 20, 7, 24, 11, 0)
    };
    Columns { host, device, util, mem, power, temp: 6, clock, spark_util: 0, spark_power: 0 }
}

impl Columns {
    /// What the value columns take.
    pub open spec fn fixed(self) -> nat {
        (self.host + self.device + self.util + self.mem + self.power + self.temp
            + self.clock) as nat
    }
}

/// The columns for a width: two sparklines where both get twelve columns, else
/// one where it gets eight, none otherwise.
pub open spec fn columns_at(cols: nat) -> Columns {
    let base = base_columns(cols);
    let spare = less(cols, base.fixed());
    if spare >= 26 {
        let each = lesser((spare / 2 - 1) as nat, MAX_SPARK as nat) as usize;
        Columns { spark_util: each, spark_power: each, ..base }
    } else if spare >= 9 {
        Columns { spark_util: lesser((spare - 1) as nat, MAX_SPARK as nat) as usize, ..base }
    } else {
        base
    }
}

impl Columns {
    /// Narrow terminals (80 columns) keep every value column and drop the clock
    /// and sparklines; wider ones widen the text columns first and give
    /// whatever is left to one or two sparklines.
    pub fn for_width(cols: usize) -> (r: Columns)
        ensures
            r == columns_at(cols as nat),
    {
        let mut c: Columns = if cols >= 120 {
            Self::base(17, 30, 8, 25, 12, 10)
        } else if cols >= 100 {
            Self::base(16, 26, 7, 24, 11, 10)
        } else {
            Self::base(12, 20, 7, 24, 11, 0)
        };
        let fixed: usize = c.host + c.device + c.util + c.mem + c.power + c.temp + c.clock;
        let spare: usize = cols.saturating_sub(fixed);
        if spare >= 26 {
            let half: usize = spare / 2 - 1;
            let each: usize = if half < MAX_SPARK {
                half
            } else {
                MAX_SPARK
            };
            c.spark_util = each;
            c.spark_power = each;
        } else if spare >= 9 {
            let one: usize = spare - 1;
            c.spark_util = if one < MAX_SPARK {
                one
            } else {
                MAX_SPARK
            };
        }
        c
    }

    fn base(
        host: usize,
        device: usize,
        util: usize,
        mem: usize,
        power: usize,
        clock: usize,
    ) -> (r: Columns)
        ensures
            r == (Columns {
                host,
                device,
                util,
                mem,
                power,
                temp: 6,
                clock,
                spark_util: 0,
                spark_power: 0,
            }),
    {
        Columns { host, device, util, mem, power, temp: 6, clock, spark_util: 0, spark_power: 0 }
    }
}

/// A plain cell.
pub open spec fn plain_cell(r: RowText, s: Seq<char>, width: usize, color: Color) -> RowText {
    row_cell(r, s, width as nat, Tone::Plain(color))
}

/// A plain right-aligned cell.
pub open spec fn plain_rcell(r: RowText, s: Seq<char>, width: usize, color: Color) -> RowText {
    row_rcell(r, s, width as nat, Tone::Plain(color))
}

/// The first row.
pub open spec fn title_row(t: Totals) -> RowText {
    row_text(
        row_text(seq![], "Consolidated"@, HEADING),
        "  "@ + plural_text(t.devices as nat, "accelerator"@) + " on "@ + plural_text(
            t.hosts_total as nat,
            "host"@,
        ) + " ("@ + decimal(t.hosts_up as nat) + " up) as one system"@,
        VALUE,
    )
}

/// The column headings.
pub open spec fn device_header(c: Columns) -> RowText {
    let a = plain_cell(seq![], "HOST"@, c.host, LABEL);
    let b = plain_cell(a, "DEVICE"@, c.device, LABEL);
    let d = plain_rcell(b, "UTIL"@, c.util, LABEL);
    let e = plain_cell(d, "MEMORY"@, c.mem, LABEL);
    let f = plain_rcell(plain_rcell(e, "POWER"@, c.power, LABEL), "TEMP"@, c.temp, LABEL);
    let g = if c.clock > 0 {
        plain_rcell(f, "CLOCK"@, c.clock, LABEL)
    } else {
        f
    };
    let h = if c.spark_util > 0 {
        row_cell(g, " UTIL HISTORY"@, (c.spark_util + 1) as nat, Tone::Plain(LABEL))
    } else {
        g
    };
    if c.spark_power > 0 {
        row_cell(h, " POWER HISTORY"@, (c.spark_power + 1) as nat, Tone::Plain(LABEL))
    } else {
        h
    }
}

/// `tone`, or the label's where a host is stale.
pub open spec fn live_tone(connected: bool, tone: Tone) -> Tone {
    if connected {
        tone
    } else {
        Tone::Plain(LABEL)
    }
}

/// `color`, or the label's where a host is stale.
pub open spec fn live_color(connected: bool, color: Color) -> Color {
    if connected {
        color
    } else {
        LABEL
    }
}

/// The name of a device with its core count where there is room for it, marked
/// where it is stale.
pub open spec fn device_title(d: DeviceModel, connected: bool, room: nat) -> Seq<char> {
    let name = match d.core_count {
        Some(n) => if d.name.len() + 12 <= room {
            d.name + " ("@ + decimal(n as nat) + " cores)"@
        } else {
            d.name
        },
        None => d.name,
    };
    if connected {
        name
    } else {
        name + " (stale)"@
    }
}

/// Gibibytes with one decimal.
pub open spec fn gib1(bytes: nat) -> Seq<char> {
    Reading::of_natural(bytes).quotient(Reading { bits: GIB }).fixed(1)
}

/// A power figure before its limit: the unit is left to the limit, except for
/// kilowatts.
pub open spec fn bare_watts(w: Reading) -> Seq<char> {
    if w.at_least(Reading::of_natural(1000)) {
        watts_text(w)
    } else if w.at_least(Reading::of_natural(100)) {
        w.fixed(0)
    } else if w.at_least(Reading::of_natural(1)) {
        w.fixed(1)
    } else {
        w.fixed(2)
    }
}

/// Power, with the limit where there is one.
pub open spec fn power_figure(power: Option<Reading>, limit: Option<Reading>) -> Seq<char> {
    match (power, limit) {
        (Some(p), Some(l)) => bare_watts(p) + "/"@ + l.fixed(0) + " W"@,
        (Some(p), None) => watts_text(p),
        (None, _) => "n/a"@,
    }
}

/// A number and its unit, where there is one.
pub open spec fn with_unit(n: Option<u32>, unit: Seq<char>) -> Seq<char> {
    match n {
        Some(x) => decimal(x as nat) + unit,
        None => "n/a"@,
    }
}

/// The top of a device's power sparkline.
pub open spec fn device_ceiling(limit: Option<Reading>, values: Seq<Reading>) -> Reading {
    let floor = match limit {
        Some(l) => l,
        None => Reading { bits: 0 },
    };
    larger(floor, peak_from(Reading::of_natural(1), values, values.len()))
}

/// The columns of a device up to the clock.
pub open spec fn value_cells(r: RowText, c: Columns, d: DeviceModel, connected: bool) -> RowText {
    let room = less(c.device as nat, 1);
    let value = live_color(connected, VALUE);
    let a = plain_cell(r, fitted_name(device_title(d, connected, room), room), c.device, value);
    let b = match d.utilization {
        Some(u) => row_rcell(
            a,
            u.fixed(1) + "%"@,
            c.util as nat,
            live_tone(connected, Tone::Utilization(u)),
        ),
        None => plain_rcell(a, "n/a"@, c.util, LABEL),
    };
    let e = row_cell(
        b,
        gib1(d.used_memory as nat) + "/"@ + gib1(d.total_memory as nat) + " GiB "@
            + d.memory_kind.name(),
        c.mem as nat,
        live_tone(connected, Tone::Memory(memory_fraction(d.used_memory, d.total_memory))),
    );
    let f = plain_rcell(e, power_figure(d.power_watts, d.power_limit_watts), c.power, value);
    let g = plain_rcell(f, with_unit(d.temperature_c, "°C"@), c.temp, value);
    if c.clock > 0 {
        plain_rcell(g, with_unit(d.frequency_mhz, " MHz"@), c.clock, value)
    } else {
        g
    }
}

/// All columns of a device.
pub open spec fn device_row(
    r: RowText,
    c: Columns,
    d: DeviceModel,
    connected: bool,
    series: SeriesModel,
) -> RowText {
    let a = value_cells(r, c, d, connected);
    let b = if c.spark_util > 0 {
        row_spark(
            row_text(a, " "@, VALUE),
            samples_of(series, "util:"@ + d.uuid),
            c.spark_util as nat,
            Reading::of_natural(PERCENT as nat),
            live_color(connected, Color::Green),
        )
    } else {
        a
    };
    if c.spark_power > 0 {
        let data = samples_of(series, "power:"@ + d.uuid);
        row_spark(
            row_text(b, " "@, VALUE),
            data,
            c.spark_power as nat,
            device_ceiling(d.power_limit_watts, data),
            live_color(connected, Color::Yellow),
        )
    } else {
        b
    }
}

/// The SoC rails that share a device's power budget.
pub open spec fn rail_parts(d: DeviceModel, host: SectionModel) -> Seq<Seq<char>> {
    match d.ane_watts {
        Some(ane) => match host.cpu_power_watts {
            Some(cpu) => seq!["ANE "@ + watts_text(ane), "CPU "@ + watts_text(cpu)],
            None => seq!["ANE "@ + watts_text(ane)],
        },
        None => seq![],
    }
}

/// The rows of one device: its columns, and its rails where it has any.
pub open spec fn device_entry(
    host: SectionModel,
    i: int,
    c: Columns,
    series: SeriesModel,
) -> Seq<RowText> {
    let d = host.devices[i];
    let label = if i == 0 {
        host.label
    } else {
        ""@
    };
    let color = if host.connected {
        VALUE
    } else {
        Color::Red
    };
    let first = device_row(
        plain_cell(seq![], label, c.host, color),
        c,
        d,
        host.connected,
        series,
    );
    let rails = rail_parts(d, host);
    if rails.len() == 0 {
        seq![first]
    } else {
        seq![
            first,
            row_text(
                plain_cell(seq![], ""@, c.host, LABEL),
                "└ "@ + joined(rails, " · "@),
                LABEL,
            ),
        ]
    }
}

/// The rows of the first `n` devices of a host.
pub open spec fn device_entries(
    host: SectionModel,
    n: nat,
    c: Columns,
    series: SeriesModel,
) -> Seq<RowText>
    decreases n,
{
    if n == 0 {
        seq![]
    } else {
        device_entries(host, (n - 1) as nat, c, series) + device_entry(host, n - 1, c, series)
    }
}

/// Why a host shows no devices.
pub open spec fn absence(host: SectionModel) -> Seq<char> {
    if host.connected {
        "connected, no accelerators reported"@
    } else {
        "unreachable: "@ + match host.last_error {
            Some(e) => e,
            None => "no response yet"@,
        }
    }
}

/// The rows of one host.
pub open spec fn host_rows(host: SectionModel, c: Columns, series: SeriesModel) -> Seq<RowText> {
    if host.devices.len() == 0 {
        let color = if host.connected {
            VALUE
        } else {
            Color::Red
        };
        seq![row_text(plain_cell(seq![], host.label, c.host, color), absence(host), LABEL)]
    } else {
        device_entries(host, host.devices.len(), c, series)
    }
}

/// The rows of the first `n` hosts.
pub open spec fn all_host_rows(
    hosts: Seq<SectionModel>,
    n: nat,
    c: Columns,
    series: SeriesModel,
) -> Seq<RowText>
    decreases n,
{
    if n == 0 {
        seq![]
    } else {
        all_host_rows(hosts, (n - 1) as nat, c, series) + host_rows(hosts[n - 1], c, series)
    }
}

/// `used` as a percentage of `total`; zero of nothing.
pub open spec fn percent_used(used: nat, total: nat) -> Reading {
    if total > 0 {
        Reading::of_natural(used).product(Reading::of_natural(PERCENT as nat)).quotient(
            Reading::of_natural(total),
        )
    } else {
        Reading { bits: 0 }
    }
}

/// The row of totals.
pub open spec fn totals_row(c: Columns, t: Totals, series: SeriesModel) -> RowText {
    let used = (t.unified_used + t.dedicated_used) as nat;
    let total = (t.unified_total + t.dedicated_total) as nat;
    let a = plain_cell(
        plain_cell(seq![], "TOTAL"@, c.host, HEADING),
        plural_text(t.devices as nat, "accelerator"@),
        c.device,
        VALUE,
    );
    let b = match t.avg_utilization {
        Some(u) => plain_rcell(a, u.fixed(1) + "%"@, c.util, VALUE),
        None => plain_rcell(a, "n/a"@, c.util, LABEL),
    };
    let d = plain_cell(
        b,
        gib1(used) + "/"@ + gib1(total) + " GiB "@ + percent_used(used, total).fixed(0) + "%"@,
        c.mem,
        VALUE,
    );
    let power = t.unified_power_watts.sum(t.dedicated_power_watts);
    let e = plain_rcell(plain_rcell(d, watts_text(power), c.power, VALUE), ""@, c.temp, VALUE);
    let f = if c.clock > 0 {
        plain_rcell(e, ""@, c.clock, VALUE)
    } else {
        e
    };
    let g = if c.spark_util > 0 {
        row_spark(
            row_text(f, " "@, VALUE),
            samples_of(series, TOTAL_UTIL_KEY@),
            c.spark_util as nat,
            Reading::of_natural(PERCENT as nat),
            Color::Green,
        )
    } else {
        f
    };
    if c.spark_power > 0 {
        let data = samples_of(series, TOTAL_POWER_KEY@);
        row_spark(
            row_text(g, " "@, VALUE),
            data,
            c.spark_power as nat,
            peak_from(larger(t.power_limit_watts, Reading::of_natural(1)), data, data.len()),
            Color::Yellow,
        )
    } else {
        g
    }
}

/// The pool by memory kind, naming only kinds present.
pub open spec fn pool_parts(t: Totals) -> Seq<Seq<char>> {
    let unified = "unified "@ + gib1(t.unified_used as nat) + "/"@ + gib1(t.unified_total as nat)
        + " GiB, SoC GPU "@ + watts_text(t.unified_power_watts);
    let dedicated = "VRAM "@ + gib1(t.dedicated_used as nat) + "/"@ + gib1(
        t.dedicated_total as nat,
    ) + " GiB, discrete GPUs "@ + watts_text(t.dedicated_power_watts);
    let a = if t.unified_total > 0 {
        seq![unified]
    } else {
        seq![]
    };
    if t.dedicated_total > 0 {
        a.push(dedicated)
    } else {
        a
    }
}

/// The rows of the totals.
pub open spec fn total_rows(c: Columns, t: Totals, series: SeriesModel) -> Seq<RowText> {
    let parts = pool_parts(t);
    if parts.len() == 0 {
        seq![totals_row(c, t, series)]
    } else {
        seq![
            totals_row(c, t, series),
            row_text(plain_cell(seq![], ""@, c.host, LABEL), joined(parts, " · "@), LABEL),
        ]
    }
}

/// Where a host stands in the device table; behind all of its hosts if nowhere.
pub open spec fn place_of(hosts: Seq<SectionModel>, host: Seq<char>) -> nat
    decreases hosts.len(),
{
    if hosts.len() == 0 || hosts[0].host_id == host {
        0
    } else {
        1 + place_of(hosts.drop_first(), host)
    }
}

/// Whether the host of `a` stands before that of `b`.
pub open spec fn stands_before(hosts: Seq<SectionModel>) -> spec_fn(ProbesModel, ProbesModel) -> bool {
    |a: ProbesModel, b: ProbesModel| place_of(hosts, a.host_id) < place_of(hosts, b.host_id)
}

/// The probes in the order of the device table.
pub open spec fn probes_in_order(hosts: Seq<SectionModel>, probes: Seq<ProbesModel>) -> Seq<
    ProbesModel,
> {
    sorted(probes, stands_before(hosts))
}

/// Width of the sparklines of a link; none where there is no room.
pub open spec fn link_spark(cols: nat, c: Columns) -> nat {
    if cols >= c.host + SUBJECT + 52 {
        let each = ((cols - c.host - SUBJECT - 46) / 2) as nat;
        if each < 6 {
            6
        } else {
            lesser(each, 30)
        }
    } else {
        0
    }
}

/// The row of one link.
pub open spec fn link_row(
    cols: nat,
    c: Columns,
    label: Seq<char>,
    host: Seq<char>,
    l: NetSampleModel,
    series: SeriesModel,
) -> RowText {
    let a = plain_cell(
        plain_cell(plain_cell(seq![], "LINK"@, c.host, HEADING), label, SUBJECT, VALUE),
        l.interface,
        16,
        VALUE,
    );
    let b = plain_rcell(
        row_text(a, "↓ "@, LABEL),
        rate_text(l.rx_bytes_per_sec),
        11,
        Color::Green,
    );
    let d = plain_rcell(
        row_text(b, "  ↑ "@, LABEL),
        rate_text(l.tx_bytes_per_sec),
        11,
        Color::Yellow,
    );
    let width = link_spark(cols, c);
    if width > 0 {
        let rx = samples_of(series, rx_key(host, l.interface));
        let tx = samples_of(series, tx_key(host, l.interface));
        // One shared ceiling so both directions read on the same scale.
        let ceiling = peak_from(
            peak_from(Reading::of_natural(LINK_FLOOR as nat), rx, rx.len()),
            tx,
            tx.len(),
        );
        row_spark(
            row_text(
                row_spark(row_text(d, "  "@, VALUE), rx, width, ceiling, Color::Green),
                " "@,
                VALUE,
            ),
            tx,
            width,
            ceiling,
            Color::Yellow,
        )
    } else {
        d
    }
}

/// The rows of the links of one host.
pub open spec fn link_rows(
    cols: nat,
    c: Columns,
    hosts: Seq<SectionModel>,
    p: ProbesModel,
    series: SeriesModel,
) -> Seq<RowText> {
    p.interfaces.map_values(
        |l: NetSampleModel|
            link_row(cols, c, label_for(hosts, p.host_id), p.host_id, l, series),
    )
}

/// The rows of the links of the first `n` hosts.
pub open spec fn all_link_rows(
    cols: nat,
    c: Columns,
    hosts: Seq<SectionModel>,
    probes: Seq<ProbesModel>,
    n: nat,
    series: SeriesModel,
) -> Seq<RowText>
    decreases n,
{
    if n == 0 {
        seq![]
    } else {
        all_link_rows(cols, c, hosts, probes, (n - 1) as nat, series) + link_rows(
            cols,
            c,
            hosts,
            probes[n - 1],
            series,
        )
    }
}

/// What follows the owner's directory under `root`.
pub open spec fn under_home(path: Seq<char>, root: Seq<char>) -> Option<Seq<char>> {
    if begins(path, root) {
        let rest = path.skip(root.len() as int);
        let at = first_of(rest, '/');
        if at < rest.len() {
            Some(rest.skip(at + 1))
        } else {
            None
        }
    } else {
        None
    }
}

/// A path with its home directory shortened.
pub open spec fn shortened(path: Seq<char>) -> Seq<char> {
    match under_home(path, "/Users/"@) {
        Some(tail) => "~/"@ + tail,
        None => match under_home(path, "/home/"@) {
            Some(tail) => "~/"@ + tail,
            None => path,
        },
    }
}

/// The holders of a lock, as they are listed.
pub open spec fn holder_words(holders: Seq<(u32, Seq<char>)>) -> Seq<Seq<char>> {
    holders.map_values(
        |h: (u32, Seq<char>)| h.1 + " (pid "@ + decimal(h.0 as nat) + ")"@,
    )
}

/// The row of one lock.
pub open spec fn lock_row(c: Columns, label: Seq<char>, lock: LockModel, now: u64) -> RowText {
    let a = plain_cell(plain_cell(seq![], "LOCK"@, c.host, HEADING), label, SUBJECT, VALUE);
    let b = row_text(row_text(a, shortened(lock.path), VALUE), "  "@, VALUE);
    if lock.holders.len() == 0 {
        row_text(b, "free"@, Color::Green)
    } else {
        let d = row_text(
            row_text(b, "held by "@, LABEL),
            joined(holder_words(lock.holders), ", "@),
            Color::Yellow,
        );
        match lock.since_unix {
            Some(since) => row_text(
                d,
                " for "@ + duration_text(less(now as nat, since as nat)),
                LABEL,
            ),
            None => d,
        }
    }
}

/// The rows of the locks of one host.
pub open spec fn lock_rows(c: Columns, hosts: Seq<SectionModel>, p: ProbesModel, now: u64) -> Seq<
    RowText,
> {
    p.locks.map_values(|l: LockModel| lock_row(c, label_for(hosts, p.host_id), l, now))
}

/// The rows of the locks of the first `n` hosts.
pub open spec fn all_lock_rows(
    c: Columns,
    hosts: Seq<SectionModel>,
    probes: Seq<ProbesModel>,
    n: nat,
    now: u64,
) -> Seq<RowText>
    decreases n,
{
    if n == 0 {
        seq![]
    } else {
        all_lock_rows(c, hosts, probes, (n - 1) as nat, now) + lock_rows(
            c,
            hosts,
            probes[n - 1],
            now,
        )
    }
}

/// Adds one row.
pub fn push_row(out: &mut Vec<Row>, row: Row)
    ensures
        row_texts(final(out)@) == row_texts(old(out)@).push(row@),
{
    let ghost before = row_texts(out@);
    out.push(row);
    assert(row_texts(out@) == before.push(row@));
}

fn render_title(t: &Totals) -> (r: Row)
    ensures
        r@ == title_row(*t),
{
    let mut line: Row = Row::default();
    line.text("Consolidated", HEADING);
    let devices: String = plural(t.devices, "accelerator");
    let hosts: String = plural(t.hosts_total, "host");
    let up: String = decimal_text(t.hosts_up as u128);
    let a: String = concat4("  ", devices.as_str(), " on ", hosts.as_str());
    let b: String = concat4(a.as_str(), " (", up.as_str(), " up) as one system");
    line.text(b.as_str(), VALUE);
    line
}

fn render_device_header(c: &Columns) -> (r: Row)
    requires
        c.spark_util < usize::MAX,
        c.spark_power < usize::MAX,
    ensures
        r@ == device_header(*c),
{
    let mut line: Row = Row::default();
    line.cell("HOST", c.host, LABEL);
    line.cell("DEVICE", c.device, LABEL);
    line.rcell("UTIL", c.util, LABEL);
    line.cell("MEMORY", c.mem, LABEL);
    line.rcell("POWER", c.power, LABEL);
    line.rcell("TEMP", c.temp, LABEL);
    if c.clock > 0 {
        line.rcell("CLOCK", c.clock, LABEL);
    }
    if c.spark_util > 0 {
        line.cell(" UTIL HISTORY", c.spark_util + 1, LABEL);
    }
    if c.spark_power > 0 {
        line.cell(" POWER HISTORY", c.spark_power + 1, LABEL);
    }
    line
}

/// Gibibytes with one decimal.
pub fn gib_figure(bytes: u64) -> (r: String)
    ensures
        r@ == gib1(bytes as nat),
{
    Reading::from_u64(bytes).over(Reading { bits: GIB }).fixed_text(1)
}

fn bare_power(w: Reading) -> (r: String)
    ensures
        r@ == bare_watts(w),
{
    if w.ge(Reading::from_u64(1000)) {
        fmt_watts(w)
    } else if w.ge(Reading::from_u64(100)) {
        w.fixed_text(0)
    } else if w.ge(Reading::from_u64(1)) {
        w.fixed_text(1)
    } else {
        w.fixed_text(2)
    }
}

fn power_words(power: Option<Reading>, limit: Option<Reading>) -> (r: String)
    ensures
        r@ == power_figure(power, limit),
{
    match (power, limit) {
        (Some(p), Some(l)) => {
            let a: String = bare_power(p);
            let b: String = l.fixed_text(0);
            concat4(a.as_str(), "/", b.as_str(), " W")
        },
        (Some(p), None) => fmt_watts(p),
        (None, _) => copied("n/a"),
    }
}

fn unit_words(n: Option<u32>, unit: &str) -> (r: String)
    ensures
        r@ == with_unit(n, unit@),
{
    match n {
        Some(x) => {
            let t: String = decimal_text(x as u128);
            concat2(t.as_str(), unit)
        },
        None => copied("n/a"),
    }
}

fn title_words(d: &DeviceRow, connected: bool, room: usize) -> (r: String)
    ensures
        r@ == device_title(d@, connected, room as nat),
{
    let width: usize = display_width(d.name.as_str());
    let mut name: String = match d.core_count {
        Some(n) => if room >= 12 && width <= room - 12 {
            let t: String = decimal_text(n as u128);
            concat4(d.name.as_str(), " (", t.as_str(), " cores)")
        } else {
            copied(d.name.as_str())
        },
        None => copied(d.name.as_str()),
    };
    if !connected {
        name.append(" (stale)");
    }
    name
}

fn tone_if(connected: bool, tone: Tone) -> (r: Tone)
    ensures
        r == live_tone(connected, tone),
{
    if connected {
        tone
    } else {
        Tone::Plain(LABEL)
    }
}

fn color_if(connected: bool, color: Color) -> (r: Color)
    ensures
        r == live_color(connected, color),
{
    if connected {
        color
    } else {
        LABEL
    }
}

fn render_value_cells(line: &mut Row, c: &Columns, d: &DeviceRow, connected: bool)
    ensures
        final(line)@ == value_cells(old(line)@, *c, d@, connected),
{
    let room: usize = c.device.saturating_sub(1);
    let value: Color = color_if(connected, VALUE);
    let name: String = title_words(d, connected, room);
    let fitted: String = fit_keeping_index(name.as_str(), room);
    line.cell(fitted.as_str(), c.device, value);
    match d.utilization {
        Some(u) => {
            let n: String = u.fixed_text(1);
            let words: String = concat2(n.as_str(), "%");
            line.toned_rcell(words.as_str(), c.util, tone_if(connected, Tone::Utilization(u)));
        },
        None => line.rcell("n/a", c.util, LABEL),
    }
    let ratio: Reading = fraction_used(d.used_memory, d.total_memory);
    let used: String = gib_figure(d.used_memory);
    let total: String = gib_figure(d.total_memory);
    let mem: String = concat5(
        used.as_str(),
        "/",
        total.as_str(),
        " GiB ",
        d.memory_kind.label(),
    );
    line.toned_cell(mem.as_str(), c.mem, tone_if(connected, Tone::Memory(ratio)));
    let power: String = power_words(d.power_watts, d.power_limit_watts);
    line.rcell(power.as_str(), c.power, value);
    let temp: String = unit_words(d.temperature_c, "°C");
    line.rcell(temp.as_str(), c.temp, value);
    if c.clock > 0 {
        let clock: String = unit_words(d.frequency_mhz, " MHz");
        line.rcell(clock.as_str(), c.clock, value);
    }
}

/// Adds the columns of a device to the row that starts with its host.
pub fn render_device_cells(
    line: &mut Row,
    c: &Columns,
    d: &DeviceRow,
    connected: bool,
    series: &SeriesHistory,
)
    ensures
        final(line)@ == device_row(old(line)@, *c, d@, connected, series@),
{
    render_value_cells(line, c, d, connected);
    if c.spark_util > 0 {
        let key: String = util_key(d.uuid.as_str());
        let data: Vec<Reading> = series.values(key.as_str());
        line.text(" ", VALUE);
        line.spark(
            data,
            c.spark_util,
            Reading::from_u64(PERCENT),
            color_if(connected, Color::Green),
        );
    }
    if c.spark_power > 0 {
        let key: String = power_key(d.uuid.as_str());
        let data: Vec<Reading> = series.values(key.as_str());
        let floor: Reading = match d.power_limit_watts {
            Some(l) => l,
            None => Reading { bits: 0 },
        };
        let peak: Reading = peak_value(Reading::from_u64(1), &data);
        let ceiling: Reading = max_of(floor, peak);
        line.text(" ", VALUE);
        line.spark(data, c.spark_power, ceiling, color_if(connected, Color::Yellow));
    }
}

fn rails_of(d: &DeviceRow, host: &HostSection) -> (r: Vec<String>)
    ensures
        texts(r@) == rail_parts(d@, host@),
{
    let mut parts: Vec<String> = Vec::new();
    assert(texts(parts@) == Seq::<Seq<char>>::empty());
    if let Some(ane) = d.ane_watts {
        let w: String = fmt_watts(ane);
        let t: String = concat2("ANE ", w.as_str());
        parts.push(t);
        assert(texts(parts@) == seq!["ANE "@ + watts_text(ane)]);
        if let Some(cpu) = host.cpu_power_watts {
            let w: String = fmt_watts(cpu);
            let t: String = concat2("CPU ", w.as_str());
            parts.push(t);
            assert(texts(parts@) == seq!["ANE "@ + watts_text(ane), "CPU "@ + watts_text(cpu)]);
        }
    }
    parts
}

/// Second line under an Apple Silicon device: the SoC rails that share its
/// power budget. Empty for other devices.
pub fn device_extras(d: &DeviceRow, host: &HostSection) -> (r: String)
    ensures
        r@ == if rail_parts(d@, host@).len() == 0 {
            ""@
        } else {
            "└ "@ + joined(rail_parts(d@, host@), " · "@)
        },
{
    let parts: Vec<String> = rails_of(d, host);
    assert(texts(parts@).len() == parts@.len());
    if parts.len() == 0 {
        return copied("");
    }
    let all: String = join(&parts, " · ");
    concat2("└ ", all.as_str())
}

fn render_device(
    out: &mut Vec<Row>,
    host: &HostSection,
    i: usize,
    c: &Columns,
    series: &SeriesHistory,
)
    requires
        i < host.devices@.len(),
    ensures
        row_texts(final(out)@) == row_texts(old(out)@) + device_entry(
            host@,
            i as int,
            *c,
            series@,
        ),
{
    let ghost before = row_texts(out@);
    let d: &DeviceRow = &host.devices[i];
    assert(host@.devices[i as int] == d@);
    let label: &str = if i == 0 {
        host.label.as_str()
    } else {
        ""
    };
    let color: Color = if host.connected {
        VALUE
    } else {
        Color::Red
    };
    let mut line: Row = Row::default();
    line.cell(label, c.host, color);
    render_device_cells(&mut line, c, d, host.connected, series);
    let ghost first = line@;
    push_row(out, line);
    let extras: String = device_extras(d, host);
    proof {
        reveal_strlit("└ ");
        reveal_strlit("");
    }
    if display_width(extras.as_str()) > 0 {
        let mut sub: Row = Row::default();
        sub.cell("", c.host, LABEL);
        sub.text(extras.as_str(), LABEL);
        let ghost second = sub@;
        push_row(out, sub);
        assert(before.push(first).push(second) == before + seq![first, second]);
    } else {
        assert(before.push(first) == before + seq![first]);
    }
}

/// Adds the rows of one host.
pub fn render_host(out: &mut Vec<Row>, c: &Columns, host: &HostSection, series: &SeriesHistory)
    ensures
        row_texts(final(out)@) == row_texts(old(out)@) + host_rows(host@, *c, series@),
{
    let ghost before = row_texts(out@);
    assert(host@.devices.len() == host.devices@.len());
    if host.devices.len() == 0 {
        let color: Color = if host.connected {
            VALUE
        } else {
            Color::Red
        };
        let mut line: Row = Row::default();
        line.cell(host.label.as_str(), c.host, color);
        let reason: String = if host.connected {
            copied("connected, no accelerators reported")
        } else {
            match &host.last_error {
                Some(e) => concat2("unreachable: ", e.as_str()),
                None => concat2("unreachable: ", "no response yet"),
            }
        };
        line.text(reason.as_str(), LABEL);
        let ghost one = line@;
        push_row(out, line);
        assert(before.push(one) == before + seq![one]);
        return ;
    }
    let mut i: usize = 0;
    assert(before + device_entries(host@, 0, *c, series@) == before);
    while i < host.devices.len()
        invariant
            i <= host.devices@.len(),
            row_texts(out@) == before + device_entries(host@, i as nat, *c, series@),
        decreases host.devices@.len() - i,
    {
        render_device(out, host, i, c, series);
        assert(row_texts(out@) == before + device_entries(host@, (i + 1) as nat, *c, series@));
        i = i + 1;
    }
}

fn pool_words(t: &Totals) -> (r: Vec<String>)
    ensures
        texts(r@) == pool_parts(*t),
{
    let mut parts: Vec<String> = Vec::new();
    assert(texts(parts@) == Seq::<Seq<char>>::empty());
    if t.unified_total > 0 {
        let a: String = gib_figure(t.unified_used);
        let b: String = gib_figure(t.unified_total);
        let w: String = fmt_watts(t.unified_power_watts);
        let x: String = concat4("unified ", a.as_str(), "/", b.as_str());
        let y: String = concat3(x.as_str(), " GiB, SoC GPU ", w.as_str());
        parts.push(y);
        assert(texts(parts@) == seq![y@]);
    }
    let ghost before = texts(parts@);
    if t.dedicated_total > 0 {
        let a: String = gib_figure(t.dedicated_used);
        let b: String = gib_figure(t.dedicated_total);
        let w: String = fmt_watts(t.dedicated_power_watts);
        let x: String = concat4("VRAM ", a.as_str(), "/", b.as_str());
        let y: String = concat3(x.as_str(), " GiB, discrete GPUs ", w.as_str());
        parts.push(y);
        assert(texts(parts@) == before.push(y@));
    }
    parts
}

fn percent_of(used: u64, total: u64) -> (r: Reading)
    ensures
        r == percent_used(used as nat, total as nat),
{
    if total > 0 {
        Reading::from_u64(used).times(Reading::from_u64(PERCENT)).over(Reading::from_u64(total))
    } else {
        Reading { bits: 0 }
    }
}

fn render_totals_row(c: &Columns, t: &Totals, series: &SeriesHistory) -> (r: Row)
    requires
        t.unified_used + t.dedicated_used <= u64::MAX,
        t.unified_total + t.dedicated_total <= u64::MAX,
    ensures
        r@ == totals_row(*c, *t, series@),
{
    let mut line: Row = Row::default();
    line.cell("TOTAL", c.host, HEADING);
    let count: String = plural(t.devices, "accelerator");
    line.cell(count.as_str(), c.device, VALUE);
    match t.avg_utilization {
        Some(u) => {
            let n: String = u.fixed_text(1);
            let words: String = concat2(n.as_str(), "%");
            line.rcell(words.as_str(), c.util, VALUE);
        },
        None => line.rcell("n/a", c.util, LABEL),
    }
    let used: u64 = t.memory_used();
    let total: u64 = t.memory_total();
    let a: String = gib_figure(used);
    let b: String = gib_figure(total);
    let pct: String = percent_of(used, total).fixed_text(0);
    let x: String = concat4(a.as_str(), "/", b.as_str(), " GiB ");
    let mem: String = concat3(x.as_str(), pct.as_str(), "%");
    line.cell(mem.as_str(), c.mem, VALUE);
    let power: String = fmt_watts(t.power_watts());
    line.rcell(power.as_str(), c.power, VALUE);
    line.rcell("", c.temp, VALUE);
    if c.clock > 0 {
        line.rcell("", c.clock, VALUE);
    }
    if c.spark_util > 0 {
        let data: Vec<Reading> = series.values(TOTAL_UTIL_KEY);
        line.text(" ", VALUE);
        line.spark(data, c.spark_util, Reading::from_u64(PERCENT), Color::Green);
    }
    if c.spark_power > 0 {
        let data: Vec<Reading> = series.values(TOTAL_POWER_KEY);
        // Against the summed board limits when the devices report them, so the
        // total reads as a share of what the machines can draw.
        let floor: Reading = max_of(t.power_limit_watts, Reading::from_u64(1));
        let ceiling: Reading = peak_value(floor, &data);
        line.text(" ", VALUE);
        line.spark(data, c.spark_power, ceiling, Color::Yellow);
    }
    line
}

/// Adds the totals, broken down by memory kind.
pub fn render_totals(out: &mut Vec<Row>, c: &Columns, t: &Totals, series: &SeriesHistory)
    requires
        t.unified_used + t.dedicated_used <= u64::MAX,
        t.unified_total + t.dedicated_total <= u64::MAX,
    ensures
        row_texts(final(out)@) == row_texts(old(out)@) + total_rows(*c, *t, series@),
{
    let ghost before = row_texts(out@);
    let line: Row = render_totals_row(c, t, series);
    let ghost first = line@;
    push_row(out, line);
    let parts: Vec<String> = pool_words(t);
    assert(texts(parts@).len() == parts@.len());
    if parts.len() > 0 {
        let mut sub: Row = Row::default();
        sub.cell("", c.host, LABEL);
        let words: String = join(&parts, " · ");
        sub.text(words.as_str(), LABEL);
        let ghost second = sub@;
        push_row(out, sub);
        assert(before.push(first).push(second) == before + seq![first, second]);
    } else {
        assert(before.push(first) == before + seq![first]);
    }
}

/// The hosts behind a list of references.
pub open spec fn referred_probes(v: Seq<&HostProbes>) -> Seq<ProbesModel> {
    v.map_values(|p: &HostProbes| p@)
}

fn position_in(hosts: &Vec<HostSection>, host: &str) -> (r: usize)
    ensures
        r == place_of(sections_of(hosts@), host@),
{
    let ghost all = sections_of(hosts@);
    let mut i: usize = 0;
    assert(all.skip(0) == all);
    while i < hosts.len()
        invariant
            i <= hosts@.len(),
            all == sections_of(hosts@),
            place_of(all, host@) == i + place_of(all.skip(i as int), host@),
        decreases hosts@.len() - i,
    {
        assert(all.skip(i as int)[0] == hosts@[i as int]@);
        if same(hosts[i].host_id.as_str(), host) {
            return i;
        }
        assert(all.skip(i as int).drop_first() == all.skip(i + 1));
        i = i + 1;
    }
    hosts.len()
}

fn insert_probes<'a>(out: &mut Vec<&'a HostProbes>, p: &'a HostProbes, hosts: &Vec<HostSection>)
    ensures
        referred_probes(final(out)@) == insert_sorted(
            referred_probes(old(out)@),
            p@,
            stands_before(sections_of(hosts@)),
        ),
{
    let ghost before = referred_probes(out@);
    let ghost rule = stands_before(sections_of(hosts@));
    let place: usize = position_in(hosts, p.host_id.as_str());
    let mut at: usize = out.len();
    while at > 0
        invariant_except_break
            at <= out@.len(),
            out@ == old(out)@,
            before == referred_probes(out@),
            rule == stands_before(sections_of(hosts@)),
            place == place_of(sections_of(hosts@), p@.host_id),
            forall|j: int| at <= j < before.len() ==> #[trigger] rule(p@, before[j]),
        ensures
            at <= out@.len(),
            out@ == old(out)@,
            before == referred_probes(out@),
            forall|j: int| at <= j < before.len() ==> #[trigger] rule(p@, before[j]),
            at > 0 ==> !rule(p@, before[at - 1]),
        decreases at,
    {
        let other: usize = position_in(hosts, out[at - 1].host_id.as_str());
        assert(before[at - 1] == out@[at - 1]@);
        if place >= other {
            break ;
        }
        at = at - 1;
    }
    proof {
        lemma_insert_at(before, p@, rule, at as int);
    }
    out.insert(at, p);
    assert(referred_probes(out@) == before.insert(at as int, p@));
}

/// Probe rows follow the device table's host order; scrapes land in whatever
/// order the hosts answered.
pub fn ordered_probes<'a>(hosts: &Vec<HostSection>, probes: &'a [HostProbes]) -> (r: Vec<
    &'a HostProbes,
>)
    ensures
        referred_probes(r@) == probes_in_order(sections_of(hosts@), probes_of(probes@)),
{
    let ghost all = probes_of(probes@);
    let ghost rule = stands_before(sections_of(hosts@));
    let mut out: Vec<&'a HostProbes> = Vec::new();
    let mut i: usize = 0;
    assert(all.take(0) == Seq::<ProbesModel>::empty());
    assert(referred_probes(out@) == Seq::<ProbesModel>::empty());
    while i < probes.len()
        invariant
            i <= probes@.len(),
            all == probes_of(probes@),
            rule == stands_before(sections_of(hosts@)),
            referred_probes(out@) == sorted(all.take(i as int), rule),
        decreases probes@.len() - i,
    {
        assert(all[i as int] == probes@[i as int]@);
        assert(all.take(i + 1).drop_last() == all.take(i as int));
        insert_probes(&mut out, &probes[i], hosts);
        i = i + 1;
    }
    assert(all.take(all.len() as int) == all);
    out
}

fn spark_width(cols: usize, c: &Columns) -> (r: usize)
    requires
        c.host <= 0xffff,
    ensures
        r == link_spark(cols as nat, *c),
{
    if cols >= c.host + SUBJECT + 52 {
        let each: usize = (cols - c.host - SUBJECT - 46) / 2;
        if each < 6 {
            6
        } else if each < 30 {
            each
        } else {
            30
        }
    } else {
        0
    }
}

fn render_link(
    cols: usize,
    c: &Columns,
    label: &str,
    host: &str,
    l: &NetInterfaceSample,
    series: &SeriesHistory,
) -> (r: Row)
    requires
        c.host <= 0xffff,
    ensures
        r@ == link_row(cols as nat, *c, label@, host@, l@, series@),
{
    let mut line: Row = Row::default();
    line.cell("LINK", c.host, HEADING);
    line.cell(label, SUBJECT, VALUE);
    line.cell(l.interface.as_str(), 16, VALUE);
    line.text("↓ ", LABEL);
    let down: String = fmt_rate(l.rx_bytes_per_sec);
    line.rcell(down.as_str(), 11, Color::Green);
    line.text("  ↑ ", LABEL);
    let up: String = fmt_rate(l.tx_bytes_per_sec);
    line.rcell(up.as_str(), 11, Color::Yellow);
    let width: usize = spark_width(cols, c);
    if width > 0 {
        let rx_name: String = net_rx_key(host, l.interface.as_str());
        let tx_name: String = net_tx_key(host, l.interface.as_str());
        let rx: Vec<Reading> = series.values(rx_name.as_str());
        let tx: Vec<Reading> = series.values(tx_name.as_str());
        let rx_peak: Reading = peak_value(Reading::from_u64(LINK_FLOOR), &rx);
        let ceiling: Reading = peak_value(rx_peak, &tx);
        line.text("  ", VALUE);
        line.spark(rx, width, ceiling, Color::Green);
        line.text(" ", VALUE);
        line.spark(tx, width, ceiling, Color::Yellow);
    }
    line
}

/// Adds the throughput of every link, in the order of the hosts.
pub fn render_links(
    out: &mut Vec<Row>,
    cols: usize,
    c: &Columns,
    model: &ConsolidatedModel,
    probes: &[HostProbes],
    series: &SeriesHistory,
)
    requires
        c.host <= 0xffff,
    ensures
        ({
            let hosts = sections_of(model.hosts@);
            let order = probes_in_order(hosts, probes_of(probes@));
            row_texts(final(out)@) == row_texts(old(out)@) + all_link_rows(
                cols as nat,
                *c,
                hosts,
                order,
                order.len(),
                series@,
            )
        }),
{
    let ghost hosts = sections_of(model.hosts@);
    let ghost before = row_texts(out@);
    let order: Vec<&HostProbes> = ordered_probes(&model.hosts, probes);
    let ghost list = referred_probes(order@);
    let mut i: usize = 0;
    assert(before + all_link_rows(cols as nat, *c, hosts, list, 0, series@) == before);
    while i < order.len()
        invariant
            i <= order@.len(),
            c.host <= 0xffff,
            hosts == sections_of(model.hosts@),
            list == referred_probes(order@),
            row_texts(out@) == before + all_link_rows(
                cols as nat,
                *c,
                hosts,
                list,
                i as nat,
                series@,
            ),
        decreases order@.len() - i,
    {
        let p: &HostProbes = order[i];
        assert(list[i as int] == p@);
        let label: String = model.host_label(p.host_id.as_str());
        let ghost sofar = row_texts(out@);
        let ghost wanted = link_rows(cols as nat, *c, hosts, p@, series@);
        let mut k: usize = 0;
        assert(sofar + wanted.take(0) == sofar);
        while k < p.interfaces.len()
            invariant
                k <= p.interfaces@.len(),
                c.host <= 0xffff,
                label@ == label_for(hosts, p@.host_id),
                p@.interfaces == net_samples(p.interfaces@),
                wanted == link_rows(cols as nat, *c, hosts, p@, series@),
                row_texts(out@) == sofar + wanted.take(k as int),
            decreases p.interfaces@.len() - k,
        {
            let row: Row = render_link(
                cols,
                c,
                label.as_str(),
                p.host_id.as_str(),
                &p.interfaces[k],
                series,
            );
            assert(p@.interfaces[k as int] == p.interfaces@[k as int]@);
            assert(wanted[k as int] == row@);
            push_row(out, row);
            assert(sofar + wanted.take(k + 1) == (sofar + wanted.take(k as int)).push(
                wanted[k as int],
            ));
            k = k + 1;
        }
        assert(wanted.take(wanted.len() as int) == wanted);
        assert(row_texts(out@) == before + all_link_rows(
            cols as nat,
            *c,
            hosts,
            list,
            (i + 1) as nat,
            series@,
        ));
        i = i + 1;
    }
}

fn tail_under(path: &Vec<char>, root: &str) -> (r: Option<String>)
    ensures
        optional_text(r) == under_home(path@, root@),
{
    let start: usize = display_width(root);
    if begins_with(path.as_slice(), root) {
        let at: usize = position_of(path.as_slice(), start, path.len(), '/');
        let ghost rest = path@.skip(start as int);
        assert(path@.subrange(start as int, path@.len() as int) == rest);
        if at < path.len() {
            assert(path@.subrange(at + 1, path@.len() as int) == rest.skip(at - start + 1));
            Some(text_between(path.as_slice(), at + 1, path.len()))
        } else {
            None
        }
    } else {
        None
    }
}

/// `/Users/ian/llm/x` → `~/llm/x` (and `/home/<user>/…`): the owner is implied
/// by the host column, and the full path crowds out the holder.
pub fn tilde_home(path: &str) -> (r: String)
    ensures
        r@ == shortened(path@),
{
    let c: Vec<char> = chars_of(path);
    if let Some(tail) = tail_under(&c, "/Users/") {
        return concat2("~/", tail.as_str());
    }
    if let Some(tail) = tail_under(&c, "/home/") {
        return concat2("~/", tail.as_str());
    }
    copied(path)
}

fn holder_list(holders: &Vec<LockHolder>) -> (r: Vec<String>)
    ensures
        texts(r@) == holder_words(holders_of(holders@)),
{
    let ghost all = holders_of(holders@);
    let ghost wanted = holder_words(all);
    let mut out: Vec<String> = Vec::new();
    let mut i: usize = 0;
    while i < holders.len()
        invariant
            i <= holders@.len(),
            all == holders_of(holders@),
            wanted == holder_words(all),
            texts(out@) == wanted.take(i as int),
        decreases holders@.len() - i,
    {
        let ghost before = texts(out@);
        assert(all[i as int] == holders@[i as int]@);
        let pid: String = decimal_text(holders[i].pid as u128);
        let one: String = concat4(holders[i].command.as_str(), " (pid ", pid.as_str(), ")");
        assert(wanted[i as int] == one@);
        out.push(one);
        assert(texts(out@) == before.push(one@));
        assert(wanted.take(i + 1) == wanted.take(i as int).push(wanted[i as int]));
        i = i + 1;
    }
    assert(wanted.take(wanted.len() as int) == wanted);
    out
}

fn render_lock(c: &Columns, label: &str, lock: &LockSample, now: u64) -> (r: Row)
    ensures
        r@ == lock_row(*c, label@, lock@, now),
{
    let mut line: Row = Row::default();
    line.cell("LOCK", c.host, HEADING);
    line.cell(label, SUBJECT, VALUE);
    let path: String = tilde_home(lock.path.as_str());
    line.text(path.as_str(), VALUE);
    line.text("  ", VALUE);
    assert(lock@.holders.len() == lock.holders@.len());
    if lock.holders.len() == 0 {
        line.text("free", Color::Green);
    } else {
        let list: Vec<String> = holder_list(&lock.holders);
        let who: String = join(&list, ", ");
        line.text("held by ", LABEL);
        line.text(who.as_str(), Color::Yellow);
        if let Some(since) = lock.since_unix {
            let length: String = fmt_duration(now.saturating_sub(since));
            let words: String = concat2(" for ", length.as_str());
            line.text(words.as_str(), LABEL);
        }
    }
    line
}

/// Adds the state of every lock, in the order of the hosts.
pub fn render_locks(
    out: &mut Vec<Row>,
    c: &Columns,
    model: &ConsolidatedModel,
    probes: &[HostProbes],
    now: u64,
)
    ensures
        ({
            let hosts = sections_of(model.hosts@);
            let order = probes_in_order(hosts, probes_of(probes@));
            row_texts(final(out)@) == row_texts(old(out)@) + all_lock_rows(
                *c,
                hosts,
                order,
                order.len(),
                now,
            )
        }),
{
    let ghost hosts = sections_of(model.hosts@);
    let ghost before = row_texts(out@);
    let order: Vec<&HostProbes> = ordered_probes(&model.hosts, probes);
    let ghost list = referred_probes(order@);
    let mut i: usize = 0;
    assert(before + all_lock_rows(*c, hosts, list, 0, now) == before);
    while i < order.len()
        invariant
            i <= order@.len(),
            hosts == sections_of(model.hosts@),
            list == referred_probes(order@),
            row_texts(out@) == before + all_lock_rows(*c, hosts, list, i as nat, now),
        decreases order@.len() - i,
    {
        let p: &HostProbes = order[i];
        assert(list[i as int] == p@);
        let label: String = model.host_label(p.host_id.as_str());
        let ghost sofar = row_texts(out@);
        let ghost wanted = lock_rows(*c, hosts, p@, now);
        let mut k: usize = 0;
        assert(sofar + wanted.take(0) == sofar);
        while k < p.locks.len()
            invariant
                k <= p.locks@.len(),
                label@ == label_for(hosts, p@.host_id),
                p@.locks == lock_samples(p.locks@),
                wanted == lock_rows(*c, hosts, p@, now),
                row_texts(out@) == sofar + wanted.take(k as int),
            decreases p.locks@.len() - k,
        {
            let row: Row = render_lock(c, label.as_str(), &p.locks[k], now);
            assert(p@.locks[k as int] == p.locks@[k as int]@);
            assert(wanted[k as int] == row@);
            push_row(out, row);
            assert(sofar + wanted.take(k + 1) == (sofar + wanted.take(k as int)).push(
                wanted[k as int],
            ));
            k = k + 1;
        }
        assert(wanted.take(wanted.len() as int) == wanted);
        assert(row_texts(out@) == before + all_lock_rows(*c, hosts, list, (i + 1) as nat, now));
        i = i + 1;
    }
}

/// The rows of the pipeline panel above its locks and links.
pub open spec fn panel_rows(
    cols: nat,
    c: Columns,
    hosts: Seq<SectionModel>,
    p: PipelineStatus,
    series: SeriesModel,
) -> Seq<RowText> {
    let engine = endpoint_words(hosts, p.config.health_url@, url_parse(p.config.health_url@));
    let swap = endpoint_words(hosts, p.config.swap_url@, url_parse(p.config.swap_url@));
    (seq![RowText::empty(), pipeline_heading(cols, p.config.title@)] + engine_rows(
        cols,
        c,
        engine,
        p.engine,
        series,
    )).push(swap_row(c, swap, p.swap))
}

/// The rows under the totals: the pipeline panel with the lock holder and the
/// link that it depends on, or the links and locks alone, where there are any.
pub open spec fn probe_rows(
    cols: nat,
    c: Columns,
    hosts: Seq<SectionModel>,
    probes: Seq<ProbesModel>,
    pipeline: Option<PipelineStatus>,
    series: SeriesModel,
    now: u64,
) -> Seq<RowText> {
    let order = probes_in_order(hosts, probes);
    let links = all_link_rows(cols, c, hosts, order, order.len(), series);
    let locks = all_lock_rows(c, hosts, order, order.len(), now);
    match pipeline {
        Some(p) => panel_rows(cols, c, hosts, p, series) + locks + links,
        None => if any_links(probes) || any_locks(probes) {
            seq![RowText::empty()] + links + locks
        } else {
            seq![]
        },
    }
}

fn render_panel(
    out: &mut Vec<Row>,
    cols: usize,
    c: &Columns,
    model: &ConsolidatedModel,
    p: &PipelineStatus,
    series: &SeriesHistory,
)
    ensures
        row_texts(final(out)@) == row_texts(old(out)@) + panel_rows(
            cols as nat,
            *c,
            sections_of(model.hosts@),
            *p,
            series@,
        ),
{
    let ghost before = row_texts(out@);
    push_row(out, Row::default());
    let heading: Row = render_pipeline_heading(cols, p.config.title.as_str());
    let ghost title = heading@;
    push_row(out, heading);
    let ghost head = seq![RowText::empty(), title];
    assert(before.push(RowText::empty()).push(title) == before + head);
    let engine: String = endpoint_label(model, p.config.health_url.as_str());
    render_engine(out, cols, c, engine.as_str(), &p.engine, series);
    let ghost body = engine_rows(cols as nat, *c, engine@, p.engine, series@);
    assert(before + head + body == before + (head + body));
    let swap: String = endpoint_label(model, p.config.swap_url.as_str());
    let row: Row = render_swap(c, swap.as_str(), &p.swap);
    let ghost last = row@;
    push_row(out, row);
    assert((before + (head + body)).push(last) == before + (head + body).push(last));
}

/// Adds link throughput and lock holders from the opt-in exporter probes, and
/// the pipeline panel where there is one.
pub fn render_probes(
    out: &mut Vec<Row>,
    cols: usize,
    c: &Columns,
    model: &ConsolidatedModel,
    probes: &[HostProbes],
    state: &ConsolidatedState,
    now: u64,
)
    requires
        c.host <= 0xffff,
    ensures
        row_texts(final(out)@) == row_texts(old(out)@) + probe_rows(
            cols as nat,
            *c,
            sections_of(model.hosts@),
            probes_of(probes@),
            state.pipeline,
            state.history@,
            now,
        ),
{
    let ghost before = row_texts(out@);
    let ghost hosts = sections_of(model.hosts@);
    let ghost order = probes_in_order(hosts, probes_of(probes@));
    let ghost links = all_link_rows(
        cols as nat,
        *c,
        hosts,
        order,
        order.len(),
        state.history@,
    );
    let ghost locks = all_lock_rows(*c, hosts, order, order.len(), now);
    match &state.pipeline {
        Some(p) => {
            // The panel groups the engine and llama-swap with the lock holder
            // and link it depends on.
            render_panel(out, cols, c, model, p, &state.history);
            let ghost panel = panel_rows(cols as nat, *c, hosts, *p, state.history@);
            render_locks(out, c, model, probes, now);
            render_links(out, cols, c, model, probes, &state.history);
            assert(before + panel + locks + links == before + (panel + locks + links));
        },
        None => {
            let linked: bool = some_links(probes);
            let locked: bool = some_locks(probes);
            if linked || locked {
                push_row(out, Row::default());
                let ghost gap = seq![RowText::empty()];
                assert(before.push(RowText::empty()) == before + gap);
                render_links(out, cols, c, model, probes, &state.history);
                render_locks(out, c, model, probes, now);
                assert(before + gap + links + locks == before + (gap + links + locks));
            } else {
                assert(before + Seq::<RowText>::empty() == before);
            }
        },
    }
}

impl ConsolidatedInputs<'_> {
    /// The sections of all hosts.
    pub open spec fn sections(&self) -> Seq<SectionModel> {
        sections_from(
            self.gpu_info@,
            self.cpu_info@,
            Seq::<MemoryInfo>::empty(),
            Seq::<HostProbes>::empty(),
            texts(self.tabs@),
            self.connection_status@,
        )
    }

    /// Whether every sum over the hosts fits its type.
    pub open spec fn sums_fit(&self) -> bool {
        let t = tally(self.sections(), self.sections().len());
        &&& sums_fit_in(self.sections(), self.cpu_info@)
        &&& t.unified_used + t.dedicated_used <= u64::MAX
        &&& t.unified_total + t.dedicated_total <= u64::MAX
    }
}

/// The device table and its totals.
pub open spec fn table_rows(
    cols: nat,
    c: Columns,
    hosts: Seq<SectionModel>,
    t: Totals,
    series: SeriesModel,
) -> Seq<RowText> {
    (seq![title_row(t), device_header(c)] + all_host_rows(hosts, hosts.len(), c, series)).push(
        rule_row(cols),
    ) + total_rows(c, t, series)
}

/// All rows of the tab.
pub open spec fn tab_rows(
    cols: nat,
    hosts: Seq<SectionModel>,
    probes: Seq<ProbesModel>,
    pipeline: Option<PipelineStatus>,
    series: SeriesModel,
    now: u64,
) -> Seq<RowText> {
    let c = columns_at(cols);
    table_rows(cols, c, hosts, totals_of(tally(hosts, hosts.len())), series) + probe_rows(
        cols,
        c,
        hosts,
        probes,
        pipeline,
        series,
        now,
    )
}

fn render_table(cols: usize, c: &Columns, model: &ConsolidatedModel, series: &SeriesHistory) -> (r:
    Vec<Row>)
    requires
        c.spark_util < usize::MAX,
        c.spark_power < usize::MAX,
        model.totals.unified_used + model.totals.dedicated_used <= u64::MAX,
        model.totals.unified_total + model.totals.dedicated_total <= u64::MAX,
    ensures
        row_texts(r@) == table_rows(
            cols as nat,
            *c,
            sections_of(model.hosts@),
            model.totals,
            series@,
        ),
{
    let ghost hosts = sections_of(model.hosts@);
    let mut out: Vec<Row> = Vec::new();
    let title: Row = render_title(&model.totals);
    let heading: Row = render_device_header(c);
    let ghost head = seq![title@, heading@];
    assert(row_texts(out@) == Seq::<RowText>::empty());
    push_row(&mut out, title);
    push_row(&mut out, heading);
    assert(row_texts(out@) == head);
    let mut i: usize = 0;
    assert(head + all_host_rows(hosts, 0, *c, series@) == head);
    while i < model.hosts.len()
        invariant
            i <= model.hosts@.len(),
            hosts == sections_of(model.hosts@),
            row_texts(out@) == head + all_host_rows(hosts, i as nat, *c, series@),
        decreases model.hosts@.len() - i,
    {
        assert(hosts[i as int] == model.hosts@[i as int]@);
        render_host(&mut out, c, &model.hosts[i], series);
        assert(row_texts(out@) == head + all_host_rows(hosts, (i + 1) as nat, *c, series@));
        i = i + 1;
    }
    let mut rule: Row = Row::default();
    let dashes: String = repeated('─', cols);
    rule.text(dashes.as_str(), LABEL);
    push_row(&mut out, rule);
    render_totals(&mut out, c, &model.totals, series);
    out
}

/// The model of the tab, where every sum over the hosts fits its type.
fn model_of(inputs: &ConsolidatedInputs) -> (r: Option<ConsolidatedModel>)
    ensures
        match r {
            Some(m) => {
                &&& inputs.sums_fit()
                &&& sections_of(m.hosts@) == inputs.sections()
                &&& m.totals == totals_of(tally(inputs.sections(), inputs.sections().len()))
                &&& m.totals.unified_used + m.totals.dedicated_used <= u64::MAX
                &&& m.totals.unified_total + m.totals.dedicated_total <= u64::MAX
            },
            None => !inputs.sums_fit(),
        },
{
    let no_memory: Vec<MemoryInfo> = Vec::new();
    let no_probes: Vec<HostProbes> = Vec::new();
    assert(no_memory@ == Seq::<MemoryInfo>::empty());
    assert(no_probes@ == Seq::<HostProbes>::empty());
    match ConsolidatedModel::try_build(
        &ModelSources {
            gpu_info: inputs.gpu_info,
            cpu_info: inputs.cpu_info,
            memory_info: no_memory.as_slice(),
            host_probes: no_probes.as_slice(),
            host_order: inputs.tabs,
            connection_status: inputs.connection_status,
        },
    ) {
        Some(m) => {
            if m.totals.dedicated_used <= u64::MAX - m.totals.unified_used
                && m.totals.dedicated_total <= u64::MAX - m.totals.unified_total {
                Some(m)
            } else {
                None
            }
        },
        None => None,
    }
}

/// Whether the tab can be rendered: every sum over the hosts fits its type.
pub fn can_render(inputs: &ConsolidatedInputs) -> (r: bool)
    ensures
        r == inputs.sums_fit(),
{
    model_of(inputs).is_some()
}

/// Renders the tab body in at most `rows` rows of `cols` columns.
pub fn render_consolidated_tab(inputs: &ConsolidatedInputs, cols: u16, rows: u16) -> (r: Vec<Row>)
    requires
        inputs.sums_fit(),
    ensures
        row_texts(r@) == page_of(
            tab_rows(
                cols as nat,
                inputs.sections(),
                probes_of(inputs.host_probes@),
                inputs.state.pipeline,
                inputs.state.history@,
                inputs.now_unix,
            ),
            cols as nat,
            rows as nat,
        ),
{
    let model: ConsolidatedModel = model_of(inputs).unwrap();
    let width: usize = cols as usize;
    let c: Columns = Columns::for_width(width);
    let mut out: Vec<Row> = render_table(width, &c, &model, &inputs.state.history);
    render_probes(&mut out, width, &c, &model, inputs.host_probes, inputs.state, inputs.now_unix);
    page(&out, width, rows as usize)
}

/// Probe rows follow the host order of the device table, and no host's probes
/// are lost or shown twice.
pub proof fn probe_rows_follow_host_order(hosts: Seq<SectionModel>, probes: Seq<ProbesModel>)
    ensures
        probes_in_order(hosts, probes).to_multiset() == probes.to_multiset(),
        forall|i: int, j: int|
            0 <= i < j < probes.len() ==> place_of(
                hosts,
                (#[trigger] probes_in_order(hosts, probes)[i]).host_id,
            ) <= place_of(hosts, (#[trigger] probes_in_order(hosts, probes)[j]).host_id),
{
    let rule = stands_before(hosts);
    sorting_orders(probes, rule);
    let r = probes_in_order(hosts, probes);
    assert forall|i: int, j: int| 0 <= i < j < probes.len() implies place_of(
        hosts,
        (#[trigger] r[i]).host_id,
    ) <= place_of(hosts, (#[trigger] r[j]).host_id) by {
        assert(!rule(r[j], r[i]));
    }
}

/// At 80 columns and beyond the value columns fit the terminal, and the
/// sparklines never take more than is left.
pub proof fn columns_fit_the_terminal(cols: nat)
    requires
        cols >= 80,
    ensures
        columns_at(cols).fixed() <= cols,
        columns_at(cols).spark_util > 0 ==> columns_at(cols).fixed() + columns_at(cols).spark_util
            + 1 <= cols,
        columns_at(cols).spark_power > 0 ==> columns_at(cols).fixed() + columns_at(cols).spark_util
            + columns_at(cols).spark_power + 2 <= cols,
{
}

} // verus!
