//! All tab device table: one group per host (a host line with OS, CPU and RAM),
//! one aligned row per accelerator under it, and an optional details line per
//! device.
//!
//! Columns give way in a fixed order as the terminal narrows: clock, the
//! memory-kind label, bar width down to a minimum, the name down to a minimum,
//! then the memory bar and finally the utilization bar.
use vstd::prelude::*;
use vstd::string::*;

use crate::reading::Reading;
use crate::text::{
    concat2, concat3, concat4, copied, decimal, decimal_text, display_width, join, joined, repeated,
    run_of, texts,
};
use crate::ui::cluster::line::{
    cell_text, cells_have_exact_widths, fit_keeping_index, fitted_name, fmt_gib_pair, fmt_watts,
    gib_pair_text, line_width, rcell_text, watts_text, with_bar, with_cell, with_rcell,
    with_text, Line, LineText,
};
use crate::ui::consolidated::model::{
    any_unified, device_label, memory_fraction, power_fraction, DeviceModel, DeviceRow,
    HostSection, SectionModel,
};
use crate::ui::theme::{
    filled_cells, level_of, margins_fit, mem_level, power_level, temp_level, temperature_level,
    util_level, Color, Level, CRIT, MEM_CRIT, MEM_WARN, MUTED, OK, POWER_CRIT, POWER_WARN, RULE,
    SUBTLE, TEXT, UTIL_CRIT, UTIL_WARN,
};

verus! {

pub const INDENT: usize = 3;

pub const MIN_NAME: usize = 20;

pub const MAX_NAME: usize = 36;

pub const MIN_BAR: usize = 8;

pub const MAX_BAR: usize = 32;

pub const UTIL_VALUE: usize = 6;

pub const MEM_TEXT: usize = 16;

pub const KIND: usize = 9;

pub const TEMP: usize = 7;

pub const POWER: usize = 12;

pub const CLOCK: usize = 11;

/// Column widths for one terminal width.
#[derive(Clone, Copy, Debug, PartialEq, Eq, Structural)]
pub struct Columns {
    pub name: usize,
    pub util_bar: usize,
    pub mem_bar: usize,
    pub kind: bool,
    pub clock: bool,
    pub power: bool,
    pub temp: bool,
}

/// The columns without bars after `k` of them have given way.
pub open spec fn given_way(name: usize, k: nat) -> Columns {
    Columns {
        name: if k >= 3 {
            MIN_NAME
        } else {
            name
        },
        util_bar: 0,
        mem_bar: 0,
        clock: k < 1,
        kind: k < 2,
        power: k < 4,
        temp: k < 5,
    }
}

/// The width that the bars need after `k` columns have given way: two bars at
/// their least, one once the name has shrunk.
pub open spec fn bars_needed(k: nat) -> int {
    if k < 3 {
        2 * MIN_BAR
    } else {
        MIN_BAR as int
    }
}

/// How many columns give way, given that the first `k` have: no more than make
/// room for the bars.
pub open spec fn ways_given(cols: nat, name: usize, k: nat) -> nat
    decreases 5 - k,
{
    if k >= 5 || given_way(name, k).room(cols) >= bars_needed(k) {
        k
    } else {
        ways_given(cols, name, k + 1)
    }
}

/// A device label's column, between its least and its largest width.
pub open spec fn name_width(longest: usize) -> usize {
    if longest < MIN_NAME {
        MIN_NAME
    } else if longest > MAX_NAME {
        MAX_NAME
    } else {
        longest
    }
}

/// The columns for a terminal of `cols` columns.
pub open spec fn columns_for(cols: nat, longest: usize) -> Columns {
    let name = name_width(longest);
    let c = given_way(name, ways_given(cols, name, 0));
    let room = c.room(cols);
    if room >= 2 * MIN_BAR {
        let each = if room / 2 > MAX_BAR {
            MAX_BAR
        } else {
            (room / 2) as usize
        };
        Columns { util_bar: each, mem_bar: each, ..c }
    } else if room >= MIN_BAR {
        Columns {
            util_bar: if room > MAX_BAR {
                MAX_BAR
            } else {
                room as usize
            },
            ..c
        }
    } else {
        c
    }
}

impl Columns {
    /// The width of everything but the bars.
    pub open spec fn fixed_width(self) -> int {
        INDENT + self.name + 2 + UTIL_VALUE + 1 + MEM_TEXT + (if self.kind {
            KIND as int
        } else {
            0
        }) + (if self.temp {
            TEMP as int
        } else {
            0
        }) + (if self.power {
            POWER as int
        } else {
            0
        }) + (if self.clock {
            CLOCK as int
        } else {
            0
        })
    }

    /// What is left of `cols` columns for bars, one column kept free.
    pub open spec fn room(self, cols: nat) -> int {
        cols - self.fixed_width() - 1
    }

    /// The width of a full device row.
    pub open spec fn row_width(self) -> int {
        self.fixed_width() + self.util_bar + self.mem_bar
    }

    /// `longest_name` is the widest device label on screen, so the name column
    /// is never wider than it needs to be.
    pub fn for_width(cols: usize, longest_name: usize) -> (r: Columns)
        requires
            cols <= isize::MAX,
        ensures
            r == columns_for(cols as nat, longest_name),
    {
        let name: usize = if longest_name < MIN_NAME {
            MIN_NAME
        } else if longest_name > MAX_NAME {
            MAX_NAME
        } else {
            longest_name
        };
        let mut c = Columns {
            name,
            util_bar: 0,
            mem_bar: 0,
            kind: true,
            clock: true,
            power: true,
            temp: true,
        };
        // Give way in priority order until two minimum bars fit; past the
        // name, only until one does.
        let mut steps: usize = 0;
        assert(c == given_way(name, 0));
        while steps < 5 && c.spare(cols) < bars_at(steps)
            invariant
                steps <= 5,
                cols <= isize::MAX,
                MIN_NAME <= name <= MAX_NAME,
                c == given_way(name, steps as nat),
                ways_given(cols as nat, name, 0) == ways_given(cols as nat, name, steps as nat),
            decreases 5 - steps,
        {
            if steps == 0 {
                c.clock = false;
            } else if steps == 1 {
                c.kind = false;
            } else if steps == 2 {
                c.name = MIN_NAME;
            } else if steps == 3 {
                c.power = false;
            } else {
                c.temp = false;
            }
            steps = steps + 1;
        }
        assert(steps == ways_given(cols as nat, name, 0));
        let spare: isize = c.spare(cols);
        if spare >= 2 * MIN_BAR as isize {
            let half: usize = spare as usize / 2;
            let each: usize = if half > MAX_BAR {
                MAX_BAR
            } else {
                half
            };
            c.util_bar = each;
            c.mem_bar = each;
        } else if spare >= MIN_BAR as isize {
            c.util_bar = if spare as usize > MAX_BAR {
                MAX_BAR
            } else {
                spare as usize
            };
        }
        c
    }

    fn fixed(&self) -> (r: usize)
        requires
            self.name <= MAX_NAME,
        ensures
            r == self.fixed_width(),
    {
        let kind: usize = if self.kind {
            KIND
        } else {
            0
        };
        let temp: usize = if self.temp {
            TEMP
        } else {
            0
        };
        let power: usize = if self.power {
            POWER
        } else {
            0
        };
        let clock: usize = if self.clock {
            CLOCK
        } else {
            0
        };
        INDENT + self.name + 2 + UTIL_VALUE + 1 + MEM_TEXT + kind + temp + power + clock
    }

    fn spare(&self, cols: usize) -> (r: isize)
        requires
            self.name <= MAX_NAME,
            cols <= isize::MAX,
        ensures
            r == self.room(cols as nat),
    {
        cols as isize - self.fixed() as isize - 1
    }

    /// Display width of a full device row.
    pub fn width(&self) -> (r: usize)
        requires
            self.name <= MAX_NAME,
            self.util_bar <= MAX_BAR,
            self.mem_bar <= MAX_BAR,
        ensures
            r == self.row_width(),
    {
        self.fixed() + self.util_bar + self.mem_bar
    }
}

fn bars_at(steps: usize) -> (r: isize)
    ensures
        r == bars_needed(steps as nat),
{
    if steps < 3 {
        2 * MIN_BAR as isize
    } else {
        MIN_BAR as isize
    }
}

/// The indentation of device rows.
pub open spec fn indented() -> LineText {
    with_text(seq![], run_of(' ', INDENT as nat), MUTED)
}

/// `l` with a column that is shown only where `on`.
pub open spec fn with_optional_cell(
    l: LineText,
    on: bool,
    s: Seq<char>,
    width: nat,
    color: Color,
) -> LineText {
    if on {
        with_cell(l, s, width, color)
    } else {
        l
    }
}

pub open spec fn with_optional_rcell(
    l: LineText,
    on: bool,
    s: Seq<char>,
    width: nat,
    color: Color,
) -> LineText {
    if on {
        with_rcell(l, s, width, color)
    } else {
        l
    }
}

/// The column headings.
pub open spec fn header_cells(c: Columns) -> LineText {
    let a = with_cell(indented(), "DEVICE"@, (c.name + 2) as nat, MUTED);
    let b = with_cell(a, "UTIL"@, (c.util_bar + UTIL_VALUE) as nat, MUTED);
    let d = with_cell(with_text(b, " "@, MUTED), "MEMORY"@, (c.mem_bar + MEM_TEXT) as nat, MUTED);
    let e = with_optional_cell(d, c.kind, ""@, KIND as nat, MUTED);
    let f = with_optional_rcell(e, c.temp, "TEMP"@, TEMP as nat, MUTED);
    let g = with_optional_rcell(f, c.power, "POWER"@, POWER as nat, MUTED);
    with_optional_rcell(g, c.clock, "CLOCK"@, CLOCK as nat, MUTED)
}

/// Whether the columns are ones that some terminal width gives.
pub open spec fn sane_columns(c: Columns) -> bool {
    c.name <= MAX_NAME && c.util_bar <= MAX_BAR && c.mem_bar <= MAX_BAR
}

pub fn column_header(c: &Columns) -> (r: Line)
    requires
        sane_columns(*c),
    ensures
        r@ == header_cells(*c),
{
    let mut line: Line = Line::default();
    let indent: String = repeated(' ', INDENT);
    line.text(indent.as_str(), MUTED);
    line.cell("DEVICE", c.name + 2, MUTED);
    line.cell("UTIL", c.util_bar + UTIL_VALUE, MUTED);
    line.text(" ", MUTED);
    line.cell("MEMORY", c.mem_bar + MEM_TEXT, MUTED);
    if c.kind {
        line.cell("", KIND, MUTED);
    }
    if c.temp {
        line.rcell("TEMP", TEMP, MUTED);
    }
    if c.power {
        line.rcell("POWER", POWER, MUTED);
    }
    if c.clock {
        line.rcell("CLOCK", CLOCK, MUTED);
    }
    line
}

/// `color`, or the muted one.
pub open spec fn toned(dim: bool, color: Color) -> Color {
    if dim {
        MUTED
    } else {
        color
    }
}

/// The utilization of a device: a bar and a figure.
pub open spec fn with_utilization(
    l: LineText,
    utilization: Option<Reading>,
    bar: usize,
    dim: bool,
) -> LineText {
    match utilization {
        Some(u) => {
            let level = level_of(u, UTIL_WARN, UTIL_CRIT);
            let a = if bar > 0 {
                with_bar(
                    l,
                    bar as nat,
                    u.quotient(Reading::of_natural(100)),
                    toned(dim, level.shade()),
                )
            } else {
                l
            };
            with_rcell(a, u.fixed(0) + "%"@, UTIL_VALUE as nat, toned(dim, level.value_shade()))
        },
        None => {
            let a = if bar > 0 {
                with_bar(l, bar as nat, Reading { bits: 0 }, MUTED)
            } else {
                l
            };
            with_rcell(a, "n/a"@, UTIL_VALUE as nat, MUTED)
        },
    }
}

/// The memory of a device: a bar and used of total.
pub open spec fn with_memory(l: LineText, d: DeviceModel, bar: usize, dim: bool) -> LineText {
    let ratio = memory_fraction(d.used_memory, d.total_memory);
    let level = level_of(ratio, MEM_WARN, MEM_CRIT);
    let pair = gib_pair_text(d.used_memory as nat, d.total_memory as nat);
    if bar > 0 {
        let a = with_bar(l, bar as nat, ratio, toned(dim, level.shade()));
        with_cell(
            with_text(a, " "@, MUTED),
            pair,
            (MEM_TEXT - 1) as nat,
            toned(dim, level.value_shade()),
        )
    } else {
        with_cell(l, pair, MEM_TEXT as nat, toned(dim, level.value_shade()))
    }
}

/// The temperature of a device.
pub open spec fn with_temperature(l: LineText, d: DeviceModel, dim: bool) -> LineText {
    match d.temperature_c {
        Some(t) => with_rcell(
            l,
            decimal(t as nat) + "°C"@,
            TEMP as nat,
            toned(dim, temperature_level(t, d.slowdown_c).value_shade()),
        ),
        None => with_rcell(l, "n/a"@, TEMP as nat, MUTED),
    }
}

/// Power, against the limit where one is known.
pub open spec fn power_text(power: Option<Reading>, limit: Option<Reading>) -> Seq<char> {
    match (power, limit) {
        (Some(p), Some(l)) => p.fixed(0) + "/"@ + l.fixed(0) + " W"@,
        (Some(p), None) => watts_text(p),
        (None, _) => "n/a"@,
    }
}

/// The color of a power figure.
pub open spec fn power_shade(power: Option<Reading>, limit: Option<Reading>) -> Color {
    match power_fraction(power, limit) {
        Some(r) => level_of(r, POWER_WARN, POWER_CRIT).value_shade(),
        None => TEXT,
    }
}

/// A clock rate.
pub open spec fn clock_text(mhz: Option<u32>) -> Seq<char> {
    match mhz {
        Some(f) => decimal(f as nat) + " MHz"@,
        None => "n/a"@,
    }
}

/// The row of a device.
pub open spec fn device_cells(d: DeviceModel, c: Columns, dim: bool) -> LineText {
    let a = with_cell(
        indented(),
        fitted_name(device_label(d), c.name as nat),
        (c.name + 2) as nat,
        toned(dim, TEXT),
    );
    let b = with_utilization(a, d.utilization, c.util_bar, dim);
    let e = with_memory(with_text(b, " "@, MUTED), d, c.mem_bar, dim);
    let f = with_optional_cell(e, c.kind, d.memory_kind.name(), KIND as nat, MUTED);
    let g = if c.temp {
        with_temperature(f, d, dim)
    } else {
        f
    };
    let h = with_optional_rcell(
        g,
        c.power,
        power_text(d.power_watts, d.power_limit_watts),
        POWER as nat,
        toned(dim, power_shade(d.power_watts, d.power_limit_watts)),
    );
    with_optional_rcell(
        h,
        c.clock,
        clock_text(d.frequency_mhz),
        CLOCK as nat,
        toned(dim, SUBTLE),
    )
}

/// Whether a temperature leaves room for the margins above it.
pub open spec fn measurable(t: Option<u32>, slowdown: Option<u32>) -> bool {
    match t {
        Some(x) => margins_fit(x, slowdown),
        None => true,
    }
}

fn tone(dim: bool, color: Color) -> (r: Color)
    ensures
        r == toned(dim, color),
{
    if dim {
        MUTED
    } else {
        color
    }
}

fn put_utilization(line: &mut Line, utilization: Option<Reading>, bar: usize, dim: bool)
    ensures
        final(line)@ == with_utilization(old(line)@, utilization, bar, dim),
{
    match utilization {
        Some(u) => {
            let level: Level = util_level(u);
            if bar > 0 {
                line.bar(bar, u.over(Reading::from_u64(100)), tone(dim, level.color()));
            }
            let n: String = u.fixed_text(0);
            let figure: String = concat2(n.as_str(), "%");
            line.rcell(figure.as_str(), UTIL_VALUE, tone(dim, level.value_color()));
        },
        None => {
            if bar > 0 {
                line.bar(bar, Reading { bits: 0 }, MUTED);
            }
            line.rcell("n/a", UTIL_VALUE, MUTED);
        },
    }
}

fn put_memory(line: &mut Line, d: &DeviceRow, bar: usize, dim: bool)
    ensures
        final(line)@ == with_memory(old(line)@, d@, bar, dim),
{
    let ratio: Reading = d.memory_ratio();
    let level: Level = mem_level(ratio);
    let pair: String = fmt_gib_pair(d.used_memory, d.total_memory);
    if bar > 0 {
        line.bar(bar, ratio, tone(dim, level.color()));
        line.text(" ", MUTED);
        line.cell(pair.as_str(), MEM_TEXT - 1, tone(dim, level.value_color()));
    } else {
        line.cell(pair.as_str(), MEM_TEXT, tone(dim, level.value_color()));
    }
}

fn put_temperature(line: &mut Line, d: &DeviceRow, dim: bool)
    requires
        measurable(d.temperature_c, d.slowdown_c),
    ensures
        final(line)@ == with_temperature(old(line)@, d@, dim),
{
    match d.temperature_c {
        Some(t) => {
            let level: Level = temp_level(t, d.slowdown_c);
            let n: String = decimal_text(t as u128);
            let figure: String = concat2(n.as_str(), "°C");
            line.rcell(figure.as_str(), TEMP, tone(dim, level.value_color()));
        },
        None => {
            line.rcell("n/a", TEMP, MUTED);
        },
    }
}

/// Power, against the limit where one is known.
pub fn fmt_power(power: Option<Reading>, limit: Option<Reading>) -> (r: String)
    ensures
        r@ == power_text(power, limit),
{
    match (power, limit) {
        (Some(p), Some(l)) => {
            let a: String = p.fixed_text(0);
            let b: String = l.fixed_text(0);
            concat4(a.as_str(), "/", b.as_str(), " W")
        },
        (Some(p), None) => fmt_watts(p),
        (None, _) => copied("n/a"),
    }
}

/// One device row. `dim` renders every value muted (a stale host, or a device
/// outside the active filter).
pub fn device_line(d: &DeviceRow, c: &Columns, dim: bool) -> (r: Line)
    requires
        sane_columns(*c),
        measurable(d.temperature_c, d.slowdown_c),
    ensures
        r@ == device_cells(d@, *c, dim),
{
    let mut line: Line = Line::default();
    let indent: String = repeated(' ', INDENT);
    line.text(indent.as_str(), MUTED);
    let label: String = d.label();
    let name: String = fit_keeping_index(label.as_str(), c.name);
    line.cell(name.as_str(), c.name + 2, tone(dim, TEXT));
    put_utilization(&mut line, d.utilization, c.util_bar, dim);
    line.text(" ", MUTED);
    put_memory(&mut line, d, c.mem_bar, dim);
    if c.kind {
        line.cell(d.memory_kind.label(), KIND, MUTED);
    }
    if c.temp {
        put_temperature(&mut line, d, dim);
    }
    if c.power {
        let power: String = fmt_power(d.power_watts, d.power_limit_watts);
        let color: Color = match d.power_ratio() {
            Some(r) => power_level(r).value_color(),
            None => TEXT,
        };
        line.rcell(power.as_str(), POWER, tone(dim, color));
    }
    if c.clock {
        let clock: String = match d.frequency_mhz {
            Some(f) => {
                let n: String = decimal_text(f as u128);
                concat2(n.as_str(), " MHz")
            },
            None => copied("n/a"),
        };
        line.rcell(clock.as_str(), CLOCK, tone(dim, SUBTLE));
    }
    line
}

/// OS and CPU of a host.
pub open spec fn platform_parts(host: SectionModel) -> Seq<Seq<char>> {
    let a = match host.os {
        Some(os) => seq![os],
        None => seq![],
    };
    match host.cpu {
        Some(cpu) => {
            let b = a.push(cpu.model);
            if cpu.cores > 0 {
                b.push(decimal(cpu.cores as nat) + "-core CPU"@)
            } else {
                b
            }
        },
        None => a,
    }
}

/// The facts on a host line, each with its color.
pub open spec fn host_facts(host: SectionModel) -> LineText {
    let platform = platform_parts(host);
    let a: LineText = if platform.len() > 0 {
        seq![(joined(platform, " · "@), MUTED)]
    } else {
        seq![]
    };
    let b = match host.cpu {
        Some(cpu) => a.push(("CPU "@ + cpu.utilization.fixed(0) + "%"@, SUBTLE)),
        None => a,
    };
    let c = if host.ram_total > 0 {
        b.push(
            (
                "RAM "@ + gib_pair_text(host.ram_used, host.ram_total) + (if any_unified(
                    host.devices,
                ) {
                    " unified"@
                } else {
                    ""@
                }),
                SUBTLE,
            ),
        )
    } else {
        b
    };
    if host.devices.len() == 0 {
        c.push(("no accelerators reported"@, MUTED))
    } else {
        c
    }
}

/// `l` with the facts from `i` on, as long as they fit in `cols` columns.
pub open spec fn with_facts(l: LineText, facts: LineText, i: nat, cols: nat) -> LineText
    decreases facts.len() - i,
{
    if i >= facts.len() {
        l
    } else {
        let a = if i > 0 {
            with_text(l, "  ·  "@, MUTED)
        } else {
            l
        };
        if line_width(a) + facts[i as int].0.len() > cols {
            a
        } else {
            with_facts(with_text(a, facts[i as int].0, facts[i as int].1), facts, i + 1, cols)
        }
    }
}

/// The line of a host.
pub open spec fn host_cells(host: SectionModel, cols: nat) -> LineText {
    let a = with_text(seq![], " "@, MUTED);
    let b = with_text(
        a,
        "● "@,
        if host.connected {
            OK
        } else {
            CRIT
        },
    );
    let c = with_text(b, host.label, TEXT);
    if !host.connected {
        let d = with_text(c, "  unreachable"@, CRIT);
        match host.last_error {
            Some(e) => with_text(d, ": "@ + e, MUTED),
            None => d,
        }
    } else {
        with_facts(with_text(c, "   "@, MUTED), host_facts(host), 0, cols)
    }
}

fn platform_text(host: &HostSection) -> (r: Vec<String>)
    ensures
        texts(r@) == platform_parts(host@),
{
    let mut parts: Vec<String> = Vec::new();
    if let Some(os) = &host.os {
        parts.push(copied(os.as_str()));
    }
    assert(texts(parts@) == (match host@.os {
        Some(os) => seq![os],
        None => Seq::<Seq<char>>::empty(),
    }));
    if let Some(cpu) = &host.cpu {
        let ghost a = texts(parts@);
        parts.push(copied(cpu.model.as_str()));
        assert(texts(parts@) == a.push(cpu.model@));
        if cpu.cores > 0 {
            let n: String = decimal_text(cpu.cores as u128);
            let ghost b = texts(parts@);
            let t: String = concat2(n.as_str(), "-core CPU");
            parts.push(t);
            assert(texts(parts@) == b.push(t@));
        }
    }
    parts
}

fn facts_of(host: &HostSection) -> (r: Line)
    ensures
        r@ == host_facts(host@),
{
    let mut facts: Line = Line::default();
    let platform: Vec<String> = platform_text(host);
    assert(texts(platform@).len() == platform@.len());
    if platform.len() > 0 {
        facts.segs.push((join(&platform, " · "), MUTED));
    }
    let ghost a: LineText = if platform_parts(host@).len() > 0 {
        seq![(joined(platform_parts(host@), " · "@), MUTED)]
    } else {
        seq![]
    };
    assert(facts@ == a);
    if let Some(cpu) = &host.cpu {
        let n: String = cpu.utilization.fixed_text(0);
        let t: String = concat3("CPU ", n.as_str(), "%");
        let ghost before = facts@;
        facts.segs.push((t, SUBTLE));
        assert(facts@ == before.push((t@, SUBTLE)));
    }
    if host.ram_total > 0 {
        let pool: &str = if host.has_unified_memory() {
            " unified"
        } else {
            ""
        };
        let pair: String = fmt_gib_pair(host.ram_used, host.ram_total);
        let t: String = concat3("RAM ", pair.as_str(), pool);
        let ghost before = facts@;
        facts.segs.push((t, SUBTLE));
        assert(facts@ == before.push((t@, SUBTLE)));
    }
    if host.devices.is_empty() {
        let t: String = copied("no accelerators reported");
        let ghost before = facts@;
        facts.segs.push((t, MUTED));
        assert(facts@ == before.push((t@, MUTED)));
    }
    facts
}

/// The host line: status dot, name, then OS / CPU / RAM facts.
pub fn host_line(host: &HostSection, cols: usize) -> (r: Line)
    requires
        cols < usize::MAX,
    ensures
        r@ == host_cells(host@, cols as nat),
{
    let mut line: Line = Line::default();
    line.text(" ", MUTED);
    line.text(
        "● ",
        if host.connected {
            OK
        } else {
            CRIT
        },
    );
    line.text(host.label.as_str(), TEXT);
    if !host.connected {
        line.text("  unreachable", CRIT);
        if let Some(e) = &host.last_error {
            let t: String = concat2(": ", e.as_str());
            line.text(t.as_str(), MUTED);
        }
        return line;
    }
    let facts: Line = facts_of(host);
    line.text("   ", MUTED);
    let ghost all = facts@;
    let ghost start = line@;
    let mut i: usize = 0;
    while i < facts.segs.len()
        invariant
            i <= facts.segs@.len(),
            cols < usize::MAX,
            all == facts@,
            with_facts(start, all, 0, cols as nat) == with_facts(
                line@,
                all,
                i as nat,
                cols as nat,
            ),
            start == with_text(
                with_text(
                    with_text(with_text(seq![], " "@, MUTED), "● "@, OK),
                    host@.label,
                    TEXT,
                ),
                "   "@,
                MUTED,
            ),
            all == host_facts(host@),
            host.connected,
        decreases facts.segs@.len() - i,
    {
        if i > 0 {
            line.text("  ·  ", MUTED);
        }
        assert(all[i as int] == (facts.segs@[i as int].0@, facts.segs@[i as int].1));
        let n: usize = display_width(facts.segs[i].0.as_str());
        if line.width().saturating_add(n) > cols {
            return line;
        }
        line.text(facts.segs[i].0.as_str(), facts.segs[i].1);
        i = i + 1;
    }
    line
}

/// The parts of a details line.
pub open spec fn detail_parts(d: DeviceModel, host: SectionModel) -> Seq<Seq<char>> {
    let rails = match d.ane_watts {
        Some(ane) => {
            let a = seq!["ANE "@ + watts_text(ane)];
            match host.cpu_power_watts {
                Some(cpu) => a.push("CPU "@ + watts_text(cpu)),
                None => a,
            }
        },
        None => seq![],
    };
    rails + d.details
}

/// The details line of a device, where there is anything to say.
pub open spec fn details_cells(d: DeviceModel, host: SectionModel) -> Option<LineText> {
    let parts = detail_parts(d, host);
    if parts.len() == 0 {
        None
    } else {
        Some(
            with_text(
                with_text(seq![], run_of(' ', (INDENT + 2) as nat), MUTED),
                joined(parts, "  ·  "@),
                MUTED,
            ),
        )
    }
}

/// Details line: thresholds, P-state, driver, firmware, link; SoC rails for
/// Apple GPUs.
pub fn details_line(d: &DeviceRow, host: &HostSection) -> (r: Option<Line>)
    ensures
        match r {
            Some(l) => details_cells(d@, host@) == Some(l@),
            None => details_cells(d@, host@) is None,
        },
{
    let mut parts: Vec<String> = Vec::new();
    if let Some(ane) = d.ane_watts {
        let w: String = fmt_watts(ane);
        let t: String = concat2("ANE ", w.as_str());
        parts.push(t);
        assert(texts(parts@) == seq!["ANE "@ + watts_text(ane)]);
        if let Some(cpu) = host.cpu_power_watts {
            let ghost before = texts(parts@);
            let w: String = fmt_watts(cpu);
            let t: String = concat2("CPU ", w.as_str());
            parts.push(t);
            assert(texts(parts@) == before.push(t@));
        }
    }
    let ghost rails = texts(parts@);
    let ghost notes = texts(d.details@);
    assert(d.ane_watts is None ==> rails == Seq::<Seq<char>>::empty());
    let mut i: usize = 0;
    assert(rails + notes.take(0) == rails);
    while i < d.details.len()
        invariant
            i <= d.details@.len(),
            notes == texts(d.details@),
            texts(parts@) == rails + notes.take(i as int),
        decreases d.details@.len() - i,
    {
        let ghost before = texts(parts@);
        let t: String = copied(d.details[i].as_str());
        parts.push(t);
        assert(texts(parts@) == before.push(t@));
        assert(notes.take(i + 1) == notes.take(i as int).push(t@));
        assert(before.push(t@) == rails + notes.take(i + 1));
        i = i + 1;
    }
    assert(notes.take(notes.len() as int) == notes);
    assert(texts(parts@) == detail_parts(d@, host@));
    assert(texts(parts@).len() == parts@.len());
    if parts.is_empty() {
        return None;
    }
    let mut line: Line = Line::default();
    let indent: String = repeated(' ', INDENT + 2);
    line.text(indent.as_str(), MUTED);
    let text: String = join(&parts, "  ·  ");
    line.text(text.as_str(), MUTED);
    Some(line)
}

proof fn width_with_text(l: LineText, s: Seq<char>, color: Color)
    ensures
        line_width(with_text(l, s, color)) == line_width(l) + s.len(),
{
    if s.len() > 0 {
        assert(l.push((s, color)).drop_last() == l);
    }
}

proof fn width_with_cell(l: LineText, s: Seq<char>, width: nat, color: Color)
    ensures
        line_width(with_cell(l, s, width, color)) == line_width(l) + width,
        width >= 1 ==> line_width(with_rcell(l, s, width, color)) == line_width(l) + width,
{
    cells_have_exact_widths(s, width);
    assert(l.push((cell_text(s, width), color)).drop_last() == l);
    assert(l.push((rcell_text(s, width), color)).drop_last() == l);
}

proof fn width_with_bar(l: LineText, width: nat, ratio: Reading, fill: Color)
    ensures
        line_width(with_bar(l, width, ratio, fill)) == line_width(l) + width,
{
    let filled = filled_cells(width, ratio);
    let a = with_text(l, run_of(crate::ui::theme::BAR_FILL, filled), fill);
    width_with_text(l, run_of(crate::ui::theme::BAR_FILL, filled), fill);
    width_with_text(a, run_of(crate::ui::theme::BAR_TRACK, (width - filled) as nat), RULE);
}

/// Device rows align with the column headings: for every device and every
/// layout, header and row are exactly as wide as the columns say.
pub proof fn rows_align_with_the_header(d: DeviceModel, c: Columns, dim: bool)
    requires
        sane_columns(c),
    ensures
        line_width(header_cells(c)) == c.row_width(),
        line_width(device_cells(d, c, dim)) == c.row_width(),
{
    reveal_strlit(" ");
    let s = indented();
    width_with_text(seq![], run_of(' ', INDENT as nat), MUTED);
    // headings
    let a = with_cell(s, "DEVICE"@, (c.name + 2) as nat, MUTED);
    width_with_cell(s, "DEVICE"@, (c.name + 2) as nat, MUTED);
    let b = with_cell(a, "UTIL"@, (c.util_bar + UTIL_VALUE) as nat, MUTED);
    width_with_cell(a, "UTIL"@, (c.util_bar + UTIL_VALUE) as nat, MUTED);
    let b1 = with_text(b, " "@, MUTED);
    width_with_text(b, " "@, MUTED);
    let e = with_cell(b1, "MEMORY"@, (c.mem_bar + MEM_TEXT) as nat, MUTED);
    width_with_cell(b1, "MEMORY"@, (c.mem_bar + MEM_TEXT) as nat, MUTED);
    width_with_cell(e, ""@, KIND as nat, MUTED);
    let f = with_optional_cell(e, c.kind, ""@, KIND as nat, MUTED);
    width_with_cell(f, "TEMP"@, TEMP as nat, MUTED);
    let g = with_optional_rcell(f, c.temp, "TEMP"@, TEMP as nat, MUTED);
    width_with_cell(g, "POWER"@, POWER as nat, MUTED);
    let h = with_optional_rcell(g, c.power, "POWER"@, POWER as nat, MUTED);
    width_with_cell(h, "CLOCK"@, CLOCK as nat, MUTED);
    // the row
    let name = fitted_name(device_label(d), c.name as nat);
    let a = with_cell(s, name, (c.name + 2) as nat, toned(dim, TEXT));
    width_with_cell(s, name, (c.name + 2) as nat, toned(dim, TEXT));
    let b = with_utilization(a, d.utilization, c.util_bar, dim);
    width_of_utilization(a, d.utilization, c.util_bar, dim);
    let b1 = with_text(b, " "@, MUTED);
    width_with_text(b, " "@, MUTED);
    let e = with_memory(b1, d, c.mem_bar, dim);
    width_of_memory(b1, d, c.mem_bar, dim);
    width_with_cell(e, d.memory_kind.name(), KIND as nat, MUTED);
    let f = with_optional_cell(e, c.kind, d.memory_kind.name(), KIND as nat, MUTED);
    let g = if c.temp {
        with_temperature(f, d, dim)
    } else {
        f
    };
    match d.temperature_c {
        Some(t) => width_with_cell(
            f,
            decimal(t as nat) + "°C"@,
            TEMP as nat,
            toned(dim, temperature_level(t, d.slowdown_c).value_shade()),
        ),
        None => width_with_cell(f, "n/a"@, TEMP as nat, MUTED),
    }
    let p = power_text(d.power_watts, d.power_limit_watts);
    let shade = toned(dim, power_shade(d.power_watts, d.power_limit_watts));
    width_with_cell(g, p, POWER as nat, shade);
    let h = with_optional_rcell(g, c.power, p, POWER as nat, shade);
    width_with_cell(h, clock_text(d.frequency_mhz), CLOCK as nat, toned(dim, SUBTLE));
}

proof fn width_of_utilization(l: LineText, u: Option<Reading>, bar: usize, dim: bool)
    ensures
        line_width(with_utilization(l, u, bar, dim)) == line_width(l) + bar + UTIL_VALUE,
{
    match u {
        Some(x) => {
            let level = level_of(x, UTIL_WARN, UTIL_CRIT);
            let ratio = x.quotient(Reading::of_natural(100));
            width_with_bar(l, bar as nat, ratio, toned(dim, level.shade()));
            let a = if bar > 0 {
                with_bar(l, bar as nat, ratio, toned(dim, level.shade()))
            } else {
                l
            };
            width_with_cell(
                a,
                x.fixed(0) + "%"@,
                UTIL_VALUE as nat,
                toned(dim, level.value_shade()),
            );
        },
        None => {
            width_with_bar(l, bar as nat, Reading { bits: 0 }, MUTED);
            let a = if bar > 0 {
                with_bar(l, bar as nat, Reading { bits: 0 }, MUTED)
            } else {
                l
            };
            width_with_cell(a, "n/a"@, UTIL_VALUE as nat, MUTED);
        },
    }
}

proof fn width_of_memory(l: LineText, d: DeviceModel, bar: usize, dim: bool)
    ensures
        line_width(with_memory(l, d, bar, dim)) == line_width(l) + bar + MEM_TEXT,
{
    reveal_strlit(" ");
    let ratio = memory_fraction(d.used_memory, d.total_memory);
    let level = level_of(ratio, MEM_WARN, MEM_CRIT);
    let pair = gib_pair_text(d.used_memory as nat, d.total_memory as nat);
    let a = with_bar(l, bar as nat, ratio, toned(dim, level.shade()));
    width_with_bar(l, bar as nat, ratio, toned(dim, level.shade()));
    width_with_text(a, " "@, MUTED);
    width_with_cell(
        with_text(a, " "@, MUTED),
        pair,
        (MEM_TEXT - 1) as nat,
        toned(dim, level.value_shade()),
    );
    width_with_cell(l, pair, MEM_TEXT as nat, toned(dim, level.value_shade()));
}

/// A device row always leaves the last column of the terminal free, on every
/// terminal that holds the columns that never give way.
pub proof fn rows_fit_the_terminal(cols: nat, longest: usize)
    requires
        cols >= 49,
    ensures
        columns_for(cols, longest).row_width() < cols,
        sane_columns(columns_for(cols, longest)),
{
    let name = name_width(longest);
    ways_make_room(cols, name, 0);
}

proof fn ways_make_room(cols: nat, name: usize, k: nat)
    requires
        k <= 5,
    ensures
        k <= ways_given(cols, name, k) <= 5,
        ways_given(cols, name, k) < 5 ==> given_way(name, ways_given(cols, name, k)).room(cols)
            >= bars_needed(ways_given(cols, name, k)),
    decreases 5 - k,
{
    if k < 5 {
        ways_make_room(cols, name, k + 1);
    }
}

} // verus!
