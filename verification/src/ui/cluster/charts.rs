//! History panel at the bottom of the All tab: one column of charts per
//! accelerator (utilization, memory in use, power), sized to the rows left
//! under the device table. With more devices than fit side by side the columns
//! wrap; when even that does not fit, the panel falls back to one cluster-wide
//! column (average utilization, total power).
//!
//! The panel is laid out first; the sparklines are then drawn to the size that
//! the layout gives them, and the panel is written with them.
use vstd::arithmetic::div_mod::*;
use vstd::arithmetic::mul::*;
use vstd::prelude::*;
use vstd::string::*;

use crate::reading::Reading;
use crate::text::{
    chars_of, concat2, concat3, copied, decimal, decimal_text, display_width, repeated, run_of,
    text_between,
};
use crate::ui::cluster::header::{less, lesser};
use crate::ui::cluster::line::{
    a_line_continues, continues, duration_text, emitted, fit_keeping_index, fitted_name, fmt_duration, fmt_watts, heading_line,
    watts_text, with_padding, with_text, Line, LineText, Screen, Writer,
};
use crate::ui::consolidated::history::{
    mem_key, power_key, samples_of, util_key, SeriesHistory, SeriesModel, TOTAL_POWER_KEY,
    TOTAL_UTIL_KEY,
};
use crate::ui::consolidated::model::{
    device_label, device_rows, sections_of, ConsolidatedModel, DeviceModel, DeviceRow, MemoryKind,
    SectionModel, Totals,
};
use crate::ui::consolidated::pipeline_view::larger;
use crate::ui::theme::{Color, ACCENT, MUTED, RULE, SUBTLE, TEXT};

verus! {

/// Narrowest chart column.
pub const MIN_CELL: usize = 36;

/// Gap between columns.
pub const GAP: usize = 3;

pub const MARGIN: usize = 1;

/// Tallest chart; taller panels leave the extra rows blank.
pub const MAX_CHART_ROWS: usize = 10;

/// Rows the panel needs to be worth drawing: heading, a title line, and two
/// charts of two rows each with their labels.
pub const MIN_ROWS: usize = 8;

/// Widest terminal the panel is laid out for.
pub const MAX_COLS: usize = 0x3fff_ffff;

/// How a chart's figures are written.
#[derive(Clone, Copy, Debug, PartialEq, Eq, Structural)]
pub enum Unit {
    Percent,
    Watts,
}

/// One chart: a title, a series and the top of its range, which begins at zero.
pub struct Chart {
    pub label: &'static str,
    pub values: Vec<Reading>,
    pub ceiling: Reading,
    pub unit: Unit,
    pub color: Color,
}

/// What a chart shows.
#[verifier::ext_equal]
pub struct ChartModel {
    pub label: Seq<char>,
    pub values: Seq<Reading>,
    pub ceiling: Reading,
    pub unit: Unit,
    pub color: Color,
}

impl View for Chart {
    type V = ChartModel;

    open spec fn view(&self) -> ChartModel {
        ChartModel {
            label: self.label@,
            values: self.values@,
            ceiling: self.ceiling,
            unit: self.unit,
            color: self.color,
        }
    }
}

/// One column: a device (or the cluster) and its charts, top to bottom.
pub struct Column {
    pub title: String,
    pub charts: Vec<Chart>,
}

/// What a column shows.
#[verifier::ext_equal]
pub struct ColumnModel {
    pub title: Seq<char>,
    pub charts: Seq<ChartModel>,
}

impl View for Column {
    type V = ColumnModel;

    open spec fn view(&self) -> ColumnModel {
        ColumnModel {
            title: self.title@,
            charts: self.charts@.map_values(|c: Chart| c@),
        }
    }
}

/// The columns of a list.
pub open spec fn columns_of(v: Seq<Column>) -> Seq<ColumnModel> {
    v.map_values(|c: Column| c@)
}

/// The layout of the panel.
pub struct HistoryPlan {
    pub columns: Vec<Column>,
    /// Columns side by side.
    pub per_row: usize,
    /// Charts in a column.
    pub charts: usize,
    /// Rows of a chart.
    pub chart_h: usize,
    /// Width of a column.
    pub cell_w: usize,
}

/// What a layout says.
#[verifier::ext_equal]
pub struct PlanModel {
    pub columns: Seq<ColumnModel>,
    pub per_row: nat,
    pub charts: nat,
    pub chart_h: nat,
    pub cell_w: nat,
}

impl View for HistoryPlan {
    type V = PlanModel;

    open spec fn view(&self) -> PlanModel {
        PlanModel {
            columns: columns_of(self.columns@),
            per_row: self.per_row as nat,
            charts: self.charts as nat,
            chart_h: self.chart_h as nat,
            cell_w: self.cell_w as nat,
        }
    }
}

/// The largest of `start` and the first `n` values.
pub open spec fn peak_from(start: Reading, values: Seq<Reading>, n: nat) -> Reading
    decreases n,
{
    if n == 0 {
        start
    } else {
        larger(peak_from(start, values, (n - 1) as nat), values[n - 1])
    }
}

/// One and a half, as a bit pattern.
pub const HEADROOM: u64 = 0x3ff8_0000_0000_0000;

/// The top of a power chart.
pub open spec fn ceiling_of(limit: Option<Reading>, values: Seq<Reading>) -> Reading {
    let peak = peak_from(Reading { bits: 0 }, values, values.len());
    let roomy = larger(peak.product(Reading { bits: HEADROOM }), Reading::of_natural(1));
    match limit {
        Some(l) => if l.above(Reading { bits: 0 }) {
            larger(l, peak)
        } else {
            roomy
        },
        None => roomy,
    }
}

/// The larger of two readings.
pub fn max_of(a: Reading, b: Reading) -> (r: Reading)
    ensures
        r == larger(a, b),
{
    if a.is_nan() || b.gt(a) {
        b
    } else {
        a
    }
}

/// The largest of `start` and the values.
pub fn peak_value(start: Reading, values: &Vec<Reading>) -> (r: Reading)
    ensures
        r == peak_from(start, values@, values@.len()),
{
    let mut peak: Reading = start;
    let mut i: usize = 0;
    while i < values.len()
        invariant
            i <= values@.len(),
            peak == peak_from(start, values@, i as nat),
        decreases values@.len() - i,
    {
        peak = max_of(peak, values[i]);
        i = i + 1;
    }
    peak
}

/// The board limit when there is one; otherwise headroom over the peak so a
/// steady draw does not fill the chart.
pub fn power_ceiling(limit: Option<Reading>, values: &Vec<Reading>) -> (r: Reading)
    ensures
        r == ceiling_of(limit, values@),
{
    let peak: Reading = peak_value(Reading { bits: 0 }, values);
    if let Some(l) = limit {
        if l.gt(Reading { bits: 0 }) {
            return max_of(l, peak);
        }
    }
    max_of(peak.times(Reading { bits: HEADROOM }), Reading::from_u64(1))
}

/// The column of a device.
pub open spec fn device_column(d: DeviceModel, series: SeriesModel) -> ColumnModel {
    let power = samples_of(series, "power:"@ + d.uuid);
    ColumnModel {
        title: device_label(d),
        charts: seq![
            ChartModel {
                label: "util"@,
                values: samples_of(series, "util:"@ + d.uuid),
                ceiling: Reading::of_natural(100),
                unit: Unit::Percent,
                color: ACCENT,
            },
            ChartModel {
                label: if d.memory_kind == MemoryKind::Unified {
                    "unified mem"@
                } else {
                    "VRAM"@
                },
                values: samples_of(series, "mem:"@ + d.uuid),
                ceiling: Reading::of_natural(100),
                unit: Unit::Percent,
                color: SUBTLE,
            },
            ChartModel {
                label: "power"@,
                values: power,
                ceiling: ceiling_of(d.power_limit_watts, power),
                unit: Unit::Watts,
                color: SUBTLE,
            },
        ],
    }
}

/// The column of the whole cluster.
pub open spec fn cluster_column(t: Totals, series: SeriesModel) -> ColumnModel {
    let power = samples_of(series, TOTAL_POWER_KEY@);
    let limit = if t.power_limit_watts.above(Reading { bits: 0 }) {
        Some(t.power_limit_watts)
    } else {
        None
    };
    ColumnModel {
        title: "all "@ + decimal(t.devices as nat) + " accelerators"@,
        charts: seq![
            ChartModel {
                label: "avg util"@,
                values: samples_of(series, TOTAL_UTIL_KEY@),
                ceiling: Reading::of_natural(100),
                unit: Unit::Percent,
                color: ACCENT,
            },
            ChartModel {
                label: "total power"@,
                values: power,
                ceiling: ceiling_of(limit, power),
                unit: Unit::Watts,
                color: SUBTLE,
            },
        ],
    }
}

fn column_for_device(d: &DeviceRow, series: &SeriesHistory) -> (r: Column)
    ensures
        r@ == device_column(d@, series@),
{
    let power_name: String = power_key(d.uuid.as_str());
    let power: Vec<Reading> = series.values(power_name.as_str());
    let util_name: String = util_key(d.uuid.as_str());
    let mem_name: String = mem_key(d.uuid.as_str());
    let ceiling: Reading = power_ceiling(d.power_limit_watts, &power);
    let mut charts: Vec<Chart> = Vec::new();
    charts.push(
        Chart {
            label: "util",
            values: series.values(util_name.as_str()),
            ceiling: Reading::from_u64(100),
            unit: Unit::Percent,
            color: ACCENT,
        },
    );
    charts.push(
        Chart {
            label: match d.memory_kind {
                MemoryKind::Unified => "unified mem",
                MemoryKind::Dedicated => "VRAM",
            },
            values: series.values(mem_name.as_str()),
            ceiling: Reading::from_u64(100),
            unit: Unit::Percent,
            color: SUBTLE,
        },
    );
    charts.push(
        Chart { label: "power", values: power, ceiling, unit: Unit::Watts, color: SUBTLE },
    );
    let r = Column { title: d.label(), charts };
    assert(r@.charts == device_column(d@, series@).charts);
    r
}

fn column_for_cluster(model: &ConsolidatedModel, series: &SeriesHistory) -> (r: Column)
    ensures
        r@ == cluster_column(model.totals, series@),
{
    let power: Vec<Reading> = series.values(TOTAL_POWER_KEY);
    let limit: Option<Reading> = if model.totals.power_limit_watts.gt(Reading { bits: 0 }) {
        Some(model.totals.power_limit_watts)
    } else {
        None
    };
    let ceiling: Reading = power_ceiling(limit, &power);
    let count: String = decimal_text(model.totals.devices as u128);
    let mut charts: Vec<Chart> = Vec::new();
    charts.push(
        Chart {
            label: "avg util",
            values: series.values(TOTAL_UTIL_KEY),
            ceiling: Reading::from_u64(100),
            unit: Unit::Percent,
            color: ACCENT,
        },
    );
    charts.push(
        Chart { label: "total power", values: power, ceiling, unit: Unit::Watts, color: SUBTLE },
    );
    let r = Column { title: concat3("all ", count.as_str(), " accelerators"), charts };
    assert(r@.charts == cluster_column(model.totals, series@).charts);
    r
}

/// The devices of the first `n` hosts, in order.
pub open spec fn all_devices(s: Seq<SectionModel>, n: nat) -> Seq<DeviceModel>
    decreases n,
{
    if n == 0 {
        seq![]
    } else {
        all_devices(s, (n - 1) as nat) + s[n - 1].devices
    }
}

/// The columns of all devices.
pub open spec fn device_columns(s: Seq<SectionModel>, series: SeriesModel) -> Seq<ColumnModel> {
    all_devices(s, s.len()).map_values(|d: DeviceModel| device_column(d, series))
}

fn columns_for_devices(model: &ConsolidatedModel, series: &SeriesHistory) -> (r: Vec<Column>)
    ensures
        columns_of(r@) == device_columns(sections_of(model.hosts@), series@),
{
    let ghost all = sections_of(model.hosts@);
    let ghost f = |d: DeviceModel| device_column(d, series@);
    let mut out: Vec<Column> = Vec::new();
    let mut i: usize = 0;
    assert(columns_of(out@) == all_devices(all, 0).map_values(f));
    while i < model.hosts.len()
        invariant
            i <= model.hosts@.len(),
            all == sections_of(model.hosts@),
            f == (|d: DeviceModel| device_column(d, series@)),
            columns_of(out@) == all_devices(all, i as nat).map_values(f),
        decreases model.hosts@.len() - i,
    {
        let ghost rows = all[i as int].devices;
        let ghost before = all_devices(all, i as nat);
        assert(all[i as int] == model.hosts@[i as int]@);
        let mut k: usize = 0;
        assert(before + rows.take(0) == before);
        while k < model.hosts[i as usize].devices.len()
            invariant
                i < model.hosts@.len(),
                k <= model.hosts@[i as int].devices@.len(),
                rows == device_rows(model.hosts@[i as int].devices@),
                f == (|d: DeviceModel| device_column(d, series@)),
                columns_of(out@) == (before + rows.take(k as int)).map_values(f),
            decreases model.hosts@[i as int].devices@.len() - k,
        {
            let ghost sofar = columns_of(out@);
            let c: Column = column_for_device(&model.hosts[i].devices[k], series);
            assert(rows[k as int] == model.hosts@[i as int].devices@[k as int]@);
            out.push(c);
            assert(columns_of(out@) == sofar.push(c@));
            assert(before + rows.take(k + 1) == (before + rows.take(k as int)).push(
                rows[k as int],
            ));
            assert((before + rows.take(k + 1)).map_values(f) == (before + rows.take(
                k as int,
            )).map_values(f).push(c@));
            k = k + 1;
        }
        assert(rows.take(rows.len() as int) == rows);
        i = i + 1;
    }
    out
}

/// `n / d`, rounded up.
pub open spec fn div_up(n: nat, d: nat) -> nat {
    ((n + d - 1) as nat) / d
}

pub open spec fn at_least_one(n: nat) -> nat {
    if n < 1 {
        1
    } else {
        n
    }
}

/// How many columns fit side by side.
pub open spec fn columns_that_fit(cols: nat) -> nat {
    at_least_one((less(cols, MARGIN as nat) + GAP as nat) / ((MIN_CELL + GAP) as nat))
}

/// Whether every device gets a column: when there are devices, and every row
/// of columns has room for a title and three charts of at least two rows.
pub open spec fn per_device(devices: nat, rows: nat, cols: nat) -> bool {
    let side = lesser(columns_that_fit(cols), at_least_one(devices));
    devices > 0 && ((rows - 1) as nat) / at_least_one(div_up(devices, side)) > 9
}

/// The layout of the panel for `rows` rows.
pub open spec fn history_plan(
    s: Seq<SectionModel>,
    t: Totals,
    series: SeriesModel,
    rows: nat,
    cols: nat,
) -> PlanModel {
    let each = per_device(all_devices(s, s.len()).len(), rows, cols);
    let columns = if each {
        device_columns(s, series)
    } else {
        seq![cluster_column(t, series)]
    };
    let charts: nat = if each {
        3
    } else {
        2
    };
    let per_row = lesser(columns_that_fit(cols), columns.len());
    let body = ((rows - 1) as nat) / div_up(columns.len(), per_row);
    let high = less(body, 1 + charts) / charts;
    PlanModel {
        columns,
        per_row,
        charts,
        chart_h: if high < 1 {
            1
        } else if high > MAX_CHART_ROWS {
            MAX_CHART_ROWS as nat
        } else {
            high
        },
        cell_w: ((less(cols, MARGIN as nat) + GAP) as nat / per_row - GAP) as nat,
    }
}

fn count_devices(model: &ConsolidatedModel) -> (r: usize)
    requires
        all_devices(sections_of(model.hosts@), model.hosts@.len()).len() <= usize::MAX,
    ensures
        r == all_devices(sections_of(model.hosts@), model.hosts@.len()).len(),
{
    let ghost all = sections_of(model.hosts@);
    let mut n: usize = 0;
    let mut i: usize = 0;
    while i < model.hosts.len()
        invariant
            i <= model.hosts@.len(),
            all == sections_of(model.hosts@),
            all_devices(all, all.len()).len() <= usize::MAX,
            n == all_devices(all, i as nat).len(),
        decreases model.hosts@.len() - i,
    {
        assert(all[i as int] == model.hosts@[i as int]@);
        proof {
            devices_add_up(all, (i + 1) as nat, all.len());
        }
        n = n + model.hosts[i].devices.len();
        i = i + 1;
    }
    n
}

proof fn devices_add_up(s: Seq<SectionModel>, n: nat, m: nat)
    requires
        n <= m <= s.len(),
    ensures
        all_devices(s, n).len() <= all_devices(s, m).len(),
    decreases m,
{
    if n < m {
        devices_add_up(s, n, (m - 1) as nat);
    }
}

fn divide_up(n: usize, d: usize) -> (r: usize)
    requires
        d >= 1,
    ensures
        r == div_up(n as nat, d as nat),
        n >= 1 ==> r >= 1,
{
    proof {
        if n == 0 {
            lemma_basic_div((d - 1) as int, d as int);
        } else {
            lemma_div_plus_one((n - 1) as int, d as int);
            assert((n + d - 1) == d + (n - 1));
            lemma_div_pos_is_pos((n - 1) as int, d as int);
            lemma_div_nonincreasing((n - 1) as int, d as int);
        }
    }
    if n == 0 {
        0
    } else {
        (n - 1) / d + 1
    }
}

/// Lays the panel out for `rows` rows of `cols` columns; nothing where the
/// rows are too few to be worth drawing.
pub fn plan_history(
    model: &ConsolidatedModel,
    series: &SeriesHistory,
    rows: usize,
    cols: usize,
) -> (r: Option<HistoryPlan>)
    requires
        cols <= MAX_COLS,
        all_devices(sections_of(model.hosts@), model.hosts@.len()).len() <= usize::MAX,
    ensures
        r is Some <==> rows >= MIN_ROWS,
        r matches Some(p) ==> p@ == history_plan(
            sections_of(model.hosts@),
            model.totals,
            series@,
            rows as nat,
            cols as nat,
        ) && 1 <= p.per_row && p.cell_w <= MAX_COLS && p.chart_h <= MAX_CHART_ROWS && p.charts <= 3
            && p.columns@.len() >= 1 && p.per_row <= p.columns@.len() && p.per_row * (p.cell_w
            + GAP) <= cols + GAP,
{
    if rows < MIN_ROWS {
        return None;
    }
    let devices: usize = count_devices(model);
    let width: usize = cols.saturating_sub(MARGIN);
    let quotient: usize = (width + GAP) / (MIN_CELL + GAP);
    let fit: usize = if quotient < 1 {
        1
    } else {
        quotient
    };
    // Per device when every row of columns still gets two-row charts;
    // otherwise one cluster-wide column.
    let most: usize = if devices < 1 {
        1
    } else {
        devices
    };
    let side: usize = if fit < most {
        fit
    } else {
        most
    };
    let stacked: usize = divide_up(devices, side);
    let column_rows: usize = if stacked < 1 {
        1
    } else {
        stacked
    };
    let each: bool = devices > 0 && (rows - 1) / column_rows > 9;
    let ghost all = sections_of(model.hosts@);
    let columns: Vec<Column> = if each {
        columns_for_devices(model, series)
    } else {
        let mut one: Vec<Column> = Vec::new();
        one.push(column_for_cluster(model, series));
        assert(columns_of(one@) == seq![cluster_column(model.totals, series@)]);
        one
    };
    assert(columns_of(columns@).len() == columns@.len());
    let charts: usize = if each {
        3
    } else {
        2
    };
    let per_row: usize = if fit < columns.len() {
        fit
    } else {
        columns.len()
    };
    let rows_of_columns: usize = divide_up(columns.len(), per_row);
    let body: usize = (rows - 1) / rows_of_columns;
    let high: usize = body.saturating_sub(1 + charts) / charts;
    let chart_h: usize = if high < 1 {
        1
    } else if high > MAX_CHART_ROWS {
        MAX_CHART_ROWS
    } else {
        high
    };
    proof {
        let x = (width + GAP) as int;
        let p = per_row as int;
        lemma_fundamental_div_mod(x, p);
        lemma_mod_pos_bound(x, p);
        lemma_fundamental_div_mod(x, 39);
        lemma_mod_pos_bound(x, 39);
        let q = x / p;
        assert(q >= GAP) by (nonlinear_arith)
            requires
                x == p * q + x % p,
                0 <= x % p < p,
                x >= 3,
                p == 1 || x >= 39 * p,
                p >= 1,
                GAP == 3,
        ;
        assert(q <= x) by (nonlinear_arith)
            requires
                x == p * q + x % p,
                0 <= x % p,
                p >= 1,
                q >= 0,
        ;
        assert(p * q <= x);
    }
    let cell_w: usize = (width + GAP) / per_row - GAP;
    Some(HistoryPlan { columns, per_row, charts, chart_h, cell_w })
}

/// Where the `i`-th column of a row begins.
pub open spec fn column_start(i: nat, cell_w: nat) -> nat {
    MARGIN as nat + i * (cell_w + GAP as nat)
}

/// The titles of `n` columns from `start` on.
pub open spec fn title_cells(
    c: Seq<ColumnModel>,
    start: nat,
    cell_w: nat,
    n: nat,
) -> LineText
    decreases n,
{
    if n == 0 {
        seq![]
    } else {
        let l = with_padding(
            title_cells(c, start, cell_w, (n - 1) as nat),
            column_start((n - 1) as nat, cell_w),
        );
        with_text(l, fitted_name(c[start + n - 1].title, cell_w), TEXT)
    }
}

/// A figure of a chart.
pub open spec fn figure(unit: Unit, v: Reading) -> Seq<char> {
    match unit {
        Unit::Percent => v.fixed(0) + "%"@,
        Unit::Watts => watts_text(v),
    }
}

/// The latest figure of a chart, and its peak.
pub open spec fn chart_stat(c: ChartModel) -> Seq<char> {
    let now = if c.values.len() > 0 {
        figure(c.unit, c.values.last())
    } else {
        "n/a"@
    };
    let peak = peak_from(crate::reading::undefined(), c.values, c.values.len());
    if peak.finite() {
        now + " · peak "@ + figure(c.unit, peak)
    } else {
        now
    }
}

/// The labels above the `k`-th charts of `n` columns from `start` on.
pub open spec fn label_cells(
    c: Seq<ColumnModel>,
    start: nat,
    cell_w: nat,
    k: nat,
    n: nat,
) -> LineText
    decreases n,
{
    if n == 0 {
        seq![]
    } else {
        let before = label_cells(c, start, cell_w, k, (n - 1) as nat);
        let charts = c[start + n - 1].charts;
        if k >= charts.len() {
            before
        } else {
            let chart = charts[k as int];
            let at = column_start((n - 1) as nat, cell_w);
            let stat = chart_stat(chart);
            let a = with_text(with_padding(before, at), chart.label, MUTED);
            with_text(with_padding(a, at + less(cell_w, stat.len())), stat, SUBTLE)
        }
    }
}

/// How many spaces `s` begins with.
pub open spec fn leading_blanks(s: Seq<char>) -> nat
    decreases s.len(),
{
    if s.len() > 0 && s[0] == ' ' {
        1 + leading_blanks(s.drop_first())
    } else {
        0
    }
}

/// A row of a sparkline. The bottom row doubles as the axis: history not yet
/// recorded shows as a dim baseline, not as empty space.
pub open spec fn with_spark(l: LineText, text: Seq<char>, bottom: bool, color: Color) -> LineText {
    if bottom {
        let blank = leading_blanks(text);
        with_text(with_text(l, run_of('⣀', blank), RULE), text.skip(blank as int), color)
    } else {
        with_text(l, text, color)
    }
}

/// Drawn sparklines: by column, by chart, by row.
pub type Drawn = Vec<Vec<Vec<String>>>;

/// Row `r` of the sparkline of chart `k` of column `c`.
pub open spec fn spark(d: Drawn, c: int, k: int, r: int) -> Seq<char> {
    d@[c]@[k]@[r]@
}

/// Whether every chart of the layout is drawn, with rows enough.
pub open spec fn drawn_for(d: Drawn, p: PlanModel) -> bool {
    &&& d@.len() == p.columns.len()
    &&& forall|c: int|
        0 <= c < p.columns.len() ==> (#[trigger] d@[c])@.len() == p.columns[c].charts.len()
    &&& forall|c: int, k: int|
        0 <= c < p.columns.len() && 0 <= k < p.columns[c].charts.len() ==> (
        #[trigger] d@[c]@[k])@.len() >= p.chart_h
}

/// Row `r` of the `k`-th charts of `n` columns from `start` on.
pub open spec fn chart_cells(
    p: PlanModel,
    d: Drawn,
    start: nat,
    k: nat,
    r: nat,
    n: nat,
) -> LineText
    decreases n,
{
    if n == 0 {
        seq![]
    } else {
        let before = chart_cells(p, d, start, k, r, (n - 1) as nat);
        let c = start + n - 1;
        if k >= p.columns[c].charts.len() {
            before
        } else {
            with_spark(
                with_padding(before, column_start((n - 1) as nat, p.cell_w)),
                spark(d, c, k as int, r as int),
                r + 1 == p.chart_h,
                p.columns[c].charts[k as int].color,
            )
        }
    }
}

/// The screen after the first `h` rows of the `k`-th charts of a row of
/// columns.
pub open spec fn emitted_chart(
    s: Screen,
    p: PlanModel,
    d: Drawn,
    start: nat,
    n: nat,
    k: nat,
    h: nat,
) -> Screen
    decreases h,
{
    if h == 0 {
        s
    } else {
        emitted(
            emitted_chart(s, p, d, start, n, k, (h - 1) as nat),
            chart_cells(p, d, start, k, (h - 1) as nat, n),
        )
    }
}

/// The screen after the first `m` charts of a row of columns, each under its
/// label.
pub open spec fn emitted_charts(
    s: Screen,
    p: PlanModel,
    d: Drawn,
    start: nat,
    n: nat,
    m: nat,
) -> Screen
    decreases m,
{
    if m == 0 {
        s
    } else {
        let k = (m - 1) as nat;
        let a = emitted(
            emitted_charts(s, p, d, start, n, k),
            label_cells(p.columns, start, p.cell_w, k, n),
        );
        emitted_chart(a, p, d, start, n, k, p.chart_h)
    }
}

/// The screen after the columns from `start` on.
pub open spec fn emitted_columns(s: Screen, p: PlanModel, d: Drawn, start: nat) -> Screen
    decreases p.columns.len() - start,
{
    if start >= p.columns.len() || p.per_row == 0 {
        s
    } else {
        let n = lesser(p.per_row, (p.columns.len() - start) as nat);
        let a = emitted(s, title_cells(p.columns, start, p.cell_w, n));
        emitted_columns(emitted_charts(a, p, d, start, n, p.charts), p, d, start + n)
    }
}

/// The heading of the panel.
pub open spec fn history_heading(cols: nat, cell_w: nat, interval_secs: u64) -> LineText {
    let secs = at_least_one(interval_secs as nat);
    heading_line(
        cols,
        with_text(seq![], "History"@, ACCENT),
        Some(with_text(seq![], "last "@ + duration_text(cell_w * 2 * secs), MUTED)),
    )
}

/// The screen after the panel.
pub open spec fn emitted_history(s: Screen, p: PlanModel, d: Drawn, interval_secs: u64) -> Screen {
    emitted_columns(emitted(s, history_heading(s.cols, p.cell_w, interval_secs)), p, d, 0)
}

fn figure_text(unit: Unit, v: Reading) -> (r: String)
    ensures
        r@ == figure(unit, v),
{
    match unit {
        Unit::Percent => {
            let n: String = v.fixed_text(0);
            concat2(n.as_str(), "%")
        },
        Unit::Watts => fmt_watts(v),
    }
}

fn stat_text(c: &Chart) -> (r: String)
    ensures
        r@ == chart_stat(c@),
{
    let now: String = if c.values.len() > 0 {
        figure_text(c.unit, c.values[c.values.len() - 1])
    } else {
        copied("n/a")
    };
    let peak: Reading = peak_value(Reading { bits: crate::reading::UNDEFINED }, &c.values);
    if peak.is_finite() {
        let top: String = figure_text(c.unit, peak);
        concat3(now.as_str(), " · peak ", top.as_str())
    } else {
        now
    }
}

/// Whether a layout stays within what its places are computed for.
pub open spec fn placeable(p: HistoryPlan) -> bool {
    &&& 1 <= p.per_row
    &&& p.cell_w <= MAX_COLS
    &&& p.per_row * (p.cell_w + GAP) <= MAX_COLS + GAP
}

fn start_of(i: usize, p: &HistoryPlan) -> (r: usize)
    requires
        placeable(*p),
        i < p.per_row,
    ensures
        r == column_start(i as nat, p.cell_w as nat),
        r <= MAX_COLS + GAP + MARGIN,
{
    proof {
        assert(i * (p.cell_w + GAP) <= p.per_row * (p.cell_w + GAP)) by (nonlinear_arith)
            requires
                0 <= i < p.per_row,
        ;
    }
    MARGIN + i * (p.cell_w + GAP)
}

fn emit_titles(w: &mut Writer, p: &HistoryPlan, start: usize, n: usize)
    requires
        placeable(*p),
        n <= p.per_row,
        start + n <= p.columns@.len(),
    ensures
        final(w).cols == old(w).cols,
        final(w)@ == emitted(
            old(w)@,
            title_cells(p@.columns, start as nat, p.cell_w as nat, n as nat),
        ),
{
    let count: usize = p.columns.len();
    let mut line: Line = Line::default();
    let mut i: usize = 0;
    while i < n
        invariant
            i <= n <= p.per_row,
            placeable(*p),
            start + n <= p.columns@.len() == count,
            line@ == title_cells(p@.columns, start as nat, p.cell_w as nat, i as nat),
        decreases n - i,
    {
        assert(p@.columns[start + i] == p.columns@[start + i]@);
        line.pad_to(start_of(i, p));
        let name: String = fit_keeping_index(p.columns[start + i].title.as_str(), p.cell_w);
        line.text(name.as_str(), TEXT);
        i = i + 1;
    }
    w.emit(&line);
}

/// `util                 30% · peak 55%` above chart `k` of each column.
fn emit_label(w: &mut Writer, p: &HistoryPlan, start: usize, n: usize, k: usize)
    requires
        placeable(*p),
        n <= p.per_row,
        start + n <= p.columns@.len(),
    ensures
        final(w).cols == old(w).cols,
        final(w)@ == emitted(
            old(w)@,
            label_cells(p@.columns, start as nat, p.cell_w as nat, k as nat, n as nat),
        ),
{
    let count: usize = p.columns.len();
    let mut line: Line = Line::default();
    let mut i: usize = 0;
    while i < n
        invariant
            i <= n <= p.per_row,
            placeable(*p),
            start + n <= p.columns@.len() == count,
            line@ == label_cells(
                p@.columns,
                start as nat,
                p.cell_w as nat,
                k as nat,
                i as nat,
            ),
        decreases n - i,
    {
        let col: &Column = &p.columns[start + i];
        assert(p@.columns[start + i] == col@);
        if k < col.charts.len() {
            assert(col@.charts[k as int] == col.charts@[k as int]@);
            let at: usize = start_of(i, p);
            let stat: String = stat_text(&col.charts[k]);
            line.pad_to(at);
            line.text(col.charts[k].label, MUTED);
            line.pad_to(at + p.cell_w.saturating_sub(display_width(stat.as_str())));
            line.text(stat.as_str(), SUBTLE);
        }
        i = i + 1;
    }
    w.emit(&line);
}

fn put_spark(line: &mut Line, text: &str, bottom: bool, color: Color)
    ensures
        final(line)@ == with_spark(old(line)@, text@, bottom, color),
{
    if bottom {
        let c: Vec<char> = chars_of(text);
        let mut blank: usize = 0;
        assert(c@.skip(0) == c@);
        while blank < c.len() && c[blank] == ' '
            invariant
                blank <= c@.len(),
                leading_blanks(c@) == blank + leading_blanks(c@.skip(blank as int)),
            decreases c@.len() - blank,
        {
            assert(c@.skip(blank as int).drop_first() == c@.skip(blank + 1));
            blank = blank + 1;
        }
        assert(leading_blanks(c@) == blank);
        let axis: String = repeated('⣀', blank);
        line.text(axis.as_str(), RULE);
        let rest: String = text_between(c.as_slice(), blank, c.len());
        assert(c@.subrange(blank as int, c@.len() as int) == text@.skip(blank as int));
        line.text(rest.as_str(), color);
    } else {
        line.text(text, color);
    }
}

fn emit_chart(w: &mut Writer, p: &HistoryPlan, d: &Drawn, start: usize, n: usize, k: usize)
    requires
        placeable(*p),
        n <= p.per_row,
        start + n <= p.columns@.len(),
        drawn_for(*d, p@),
    ensures
        final(w).cols == old(w).cols,
        final(w)@ == emitted_chart(
            old(w)@,
            p@,
            *d,
            start as nat,
            n as nat,
            k as nat,
            p.chart_h as nat,
        ),
{
    let count: usize = p.columns.len();
    let mut r: usize = 0;
    while r < p.chart_h
        invariant
            r <= p.chart_h,
            placeable(*p),
            n <= p.per_row,
            start + n <= p.columns@.len() == count,
            drawn_for(*d, p@),
            w.cols == old(w).cols,
            w@ == emitted_chart(old(w)@, p@, *d, start as nat, n as nat, k as nat, r as nat),
        decreases p.chart_h - r,
    {
        let mut line: Line = Line::default();
        let mut i: usize = 0;
        while i < n
            invariant
                i <= n <= p.per_row,
                r < p.chart_h,
                placeable(*p),
                start + n <= p.columns@.len() == count,
                drawn_for(*d, p@),
                line@ == chart_cells(p@, *d, start as nat, k as nat, r as nat, i as nat),
            decreases n - i,
        {
            let col: &Column = &p.columns[start + i];
            assert(p@.columns[start + i] == col@);
            assert(d@[start + i]@.len() == p@.columns[start + i].charts.len());
            if k < col.charts.len() {
                assert(col@.charts[k as int] == col.charts@[k as int]@);
                line.pad_to(start_of(i, p));
                assert(d@[start + i]@[k as int]@.len() >= p@.chart_h);
                let rows: &Vec<String> = &d[start + i][k];
                put_spark(
                    &mut line,
                    rows[r].as_str(),
                    r + 1 == p.chart_h,
                    col.charts[k].color,
                );
            }
            i = i + 1;
        }
        w.emit(&line);
        r = r + 1;
    }
}

/// Writes the panel with its sparklines.
pub fn render_history(w: &mut Writer, p: &HistoryPlan, d: &Drawn, interval_secs: u64)
    requires
        placeable(*p),
        drawn_for(*d, p@),
        p.cell_w * 2 * at_least_one(interval_secs as nat) <= u64::MAX,
    ensures
        final(w).cols == old(w).cols,
        final(w)@ == emitted_history(old(w)@, p@, *d, interval_secs),
{
    let secs: u64 = if interval_secs < 1 {
        1
    } else {
        interval_secs
    };
    let span: u64 = (p.cell_w * 2) as u64 * secs;
    let mut title: Line = Line::default();
    title.text("History", ACCENT);
    let mut note: Line = Line::default();
    let length: String = fmt_duration(span);
    let words: String = concat2("last ", length.as_str());
    note.text(words.as_str(), MUTED);
    w.heading(&title, Some(&note));
    let ghost first = w@;
    let mut start: usize = 0;
    while start < p.columns.len()
        invariant
            start <= p.columns@.len(),
            placeable(*p),
            drawn_for(*d, p@),
            w.cols == old(w).cols,
            p@.columns.len() == p.columns@.len(),
            emitted_columns(first, p@, *d, 0) == emitted_columns(w@, p@, *d, start as nat),
        decreases p.columns@.len() - start,
    {
        let rest: usize = p.columns.len() - start;
        let n: usize = if p.per_row < rest {
            p.per_row
        } else {
            rest
        };
        emit_titles(w, p, start, n);
        let ghost titled = w@;
        let mut k: usize = 0;
        while k < p.charts
            invariant
                k <= p.charts,
                placeable(*p),
                n <= p.per_row,
                start + n <= p.columns@.len(),
                drawn_for(*d, p@),
                w.cols == old(w).cols,
                w@ == emitted_charts(titled, p@, *d, start as nat, n as nat, k as nat),
            decreases p.charts - k,
        {
            emit_label(w, p, start, n, k);
            emit_chart(w, p, d, start, n, k);
            k = k + 1;
        }
        start = start + n;
    }
}

proof fn a_chart_continues(
    s: Screen,
    t: Screen,
    p: PlanModel,
    d: Drawn,
    start: nat,
    n: nat,
    k: nat,
    h: nat,
)
    requires
        continues(s, t),
    ensures
        continues(s, emitted_chart(t, p, d, start, n, k, h)),
    decreases h,
{
    if h > 0 {
        let g = (h - 1) as nat;
        a_chart_continues(s, t, p, d, start, n, k, g);
        a_line_continues(
            s,
            emitted_chart(t, p, d, start, n, k, g),
            chart_cells(p, d, start, k, g, n),
        );
    }
}

proof fn charts_continue(
    s: Screen,
    t: Screen,
    p: PlanModel,
    d: Drawn,
    start: nat,
    n: nat,
    m: nat,
)
    requires
        continues(s, t),
    ensures
        continues(s, emitted_charts(t, p, d, start, n, m)),
    decreases m,
{
    if m > 0 {
        let k = (m - 1) as nat;
        charts_continue(s, t, p, d, start, n, k);
        let before = emitted_charts(t, p, d, start, n, k);
        let label = label_cells(p.columns, start, p.cell_w, k, n);
        a_line_continues(s, before, label);
        a_chart_continues(s, emitted(before, label), p, d, start, n, k, p.chart_h);
    }
}

proof fn columns_continue(s: Screen, t: Screen, p: PlanModel, d: Drawn, start: nat)
    requires
        continues(s, t),
    ensures
        continues(s, emitted_columns(t, p, d, start)),
    decreases p.columns.len() - start,
{
    if start < p.columns.len() && p.per_row > 0 {
        let n = lesser(p.per_row, (p.columns.len() - start) as nat);
        let title = title_cells(p.columns, start, p.cell_w, n);
        a_line_continues(s, t, title);
        charts_continue(s, emitted(t, title), p, d, start, n, p.charts);
        columns_continue(
            s,
            emitted_charts(emitted(t, title), p, d, start, n, p.charts),
            p,
            d,
            start + n,
        );
    }
}

/// The panel keeps to the width of the terminal and to the rows that are left,
/// whatever is drawn in it.
pub proof fn the_panel_keeps_to_the_screen(
    s: Screen,
    p: PlanModel,
    d: Drawn,
    interval_secs: u64,
)
    ensures
        continues(s, emitted_history(s, p, d, interval_secs)),
{
    let heading = history_heading(s.cols, p.cell_w, interval_secs);
    a_line_continues(s, s, heading);
    columns_continue(s, emitted(s, heading), p, d, 0);
}

} // verus!
