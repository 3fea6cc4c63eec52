//! The cluster views: the header and overview shown above every tab, and the
//! body of the All tab (device table grouped by host, the optional pipeline
//! strip, and the history panel).
pub mod charts;
pub mod devices;
pub mod figures;
pub mod header;
pub mod line;
pub mod listing;
pub mod shown;

use vstd::prelude::*;
use vstd::string::*;

use crate::app_state::{AppState, SortCriteria};
use crate::order::{insert_sorted, lemma_insert_at, sorted, sorting_orders};
use crate::reading::Reading;
use crate::text::{concat3, decimal, decimal_text, display_width, same, texts};
use crate::ui::cluster::charts::{
    all_devices, at_least_one, history_plan, plan_history, HistoryPlan, MIN_ROWS,
};
use crate::ui::cluster::devices::{
    column_header, columns_for, details_cells, details_line, device_cells, device_line,
    header_cells, host_cells, host_line, measurable, sane_columns, Columns,
};
use crate::ui::cluster::header::{
    block_row_count, header_rows, hottest_measurable, less, lesser, overview,
};
use crate::ui::cluster::line::{
    a_line_continues, continues, emitted, emitted_all, line_texts, lines_continue, with_text, Line,
    LineText, Screen, Writer,
};
use crate::ui::consolidated::history::SeriesHistory;
use crate::ui::consolidated::model::{
    device_label, device_rows, mean_utilization, sections_of, tally, tally_of, totals_of, ConsolidatedModel,
    DeviceModel, DeviceRow, HostSection, ModelSources, SectionModel,
};
use crate::ui::theme::MUTED;

verus! {

/// Everything the All tab body reads.
pub struct AllTabInputs<'a> {
    pub model: &'a ConsolidatedModel,
    pub series: &'a SeriesHistory,
    /// The compact pipeline strip, empty where none is shown.
    pub pipeline: &'a Vec<Line>,
    pub show_details: bool,
    pub sort: SortCriteria,
    /// Devices to skip from the top (↑/↓ scrolling).
    pub scroll: usize,
    /// Device UUIDs outside the active filter: dimmed, or hidden when
    /// `hide_filtered` is set.
    pub filtered_out: &'a Vec<String>,
    pub hide_filtered: bool,
}

/// Minus one: the place of a device without the reading that it is sorted by.
pub const UNREPORTED: u64 = 0xbff0_0000_0000_0000;

/// By what a device is placed among its siblings: the greater first.
pub open spec fn sort_key(d: DeviceModel, sort: SortCriteria) -> Reading {
    match sort {
        SortCriteria::Utilization => match d.utilization {
            Some(u) => u,
            None => Reading { bits: UNREPORTED },
        },
        SortCriteria::GpuMemory => Reading::of_natural(d.used_memory as nat),
        SortCriteria::Power => match d.power_watts {
            Some(p) => p,
            None => Reading { bits: UNREPORTED },
        },
        SortCriteria::Temperature => match d.temperature_c {
            Some(t) => Reading::of_natural(t as nat),
            None => Reading { bits: UNREPORTED },
        },
        _ => Reading { bits: 0 },
    }
}

/// Whether `a` goes before `b`.
pub open spec fn goes_first(sort: SortCriteria) -> spec_fn(DeviceModel, DeviceModel) -> bool {
    |a: DeviceModel, b: DeviceModel| sort_key(b, sort).total_rank() < sort_key(a, sort).total_rank()
}

/// The devices behind a list of references.
pub open spec fn referred(v: Seq<&DeviceRow>) -> Seq<DeviceModel> {
    v.map_values(|d: &DeviceRow| d@)
}

fn key_of(d: &DeviceRow, sort: SortCriteria) -> (r: Reading)
    ensures
        r == sort_key(d@, sort),
{
    match sort {
        SortCriteria::Utilization => match d.utilization {
            Some(u) => u,
            None => Reading { bits: UNREPORTED },
        },
        SortCriteria::GpuMemory => Reading::from_u64(d.used_memory),
        SortCriteria::Power => match d.power_watts {
            Some(p) => p,
            None => Reading { bits: UNREPORTED },
        },
        SortCriteria::Temperature => match d.temperature_c {
            Some(t) => Reading::from_u64(t as u64),
            None => Reading { bits: UNREPORTED },
        },
        _ => Reading { bits: 0 },
    }
}

/// Whether every temperature among `v` can be shown.
pub open spec fn all_measurable(v: Seq<DeviceModel>) -> bool {
    forall|i: int| 0 <= i < v.len() ==> measurable(
        (#[trigger] v[i]).temperature_c,
        v[i].slowdown_c,
    )
}

fn insert_device<'a>(out: &mut Vec<&'a DeviceRow>, d: &'a DeviceRow, sort: SortCriteria)
    ensures
        referred(final(out)@) == insert_sorted(referred(old(out)@), d@, goes_first(sort)),
        all_measurable(referred(old(out)@)) && measurable(d.temperature_c, d.slowdown_c)
            ==> all_measurable(referred(final(out)@)),
{
    let ghost before = referred(out@);
    let key: Reading = key_of(d, sort);
    let mut at: usize = out.len();
    while at > 0
        invariant_except_break
            at <= out@.len(),
            out@ == old(out)@,
            before == referred(out@),
            key == sort_key(d@, sort),
            forall|j: int| at <= j < before.len() ==> #[trigger] goes_first(sort)(d@, before[j]),
        ensures
            at <= out@.len(),
            out@ == old(out)@,
            before == referred(out@),
            forall|j: int| at <= j < before.len() ==> #[trigger] goes_first(sort)(d@, before[j]),
            at > 0 ==> !goes_first(sort)(d@, before[at - 1]),
        decreases at,
    {
        let other: Reading = key_of(out[at - 1], sort);
        assert(before[at - 1] == out@[at - 1]@);
        if !other.total_before(key) {
            break ;
        }
        at = at - 1;
    }
    proof {
        lemma_insert_at(before, d@, goes_first(sort), at as int);
    }
    out.insert(at, d);
    assert(referred(out@) == before.insert(at as int, d@));
}

/// Orders devices by `sort`, the greatest first. Devices that the criterion
/// does not tell apart keep their order.
pub fn sort_devices<'a>(devices: &Vec<&'a DeviceRow>, sort: SortCriteria) -> (r: Vec<
    &'a DeviceRow,
>)
    ensures
        referred(r@) == sorted(referred(devices@), goes_first(sort)),
        all_measurable(referred(devices@)) ==> all_measurable(referred(r@)),
{
    let ghost all = referred(devices@);
    let mut out: Vec<&'a DeviceRow> = Vec::new();
    let mut i: usize = 0;
    assert(all.take(0) == Seq::<DeviceModel>::empty());
    assert(referred(out@) == Seq::<DeviceModel>::empty());
    while i < devices.len()
        invariant
            i <= devices@.len(),
            all == referred(devices@),
            referred(out@) == sorted(all.take(i as int), goes_first(sort)),
            all_measurable(all) ==> all_measurable(referred(out@)),
        decreases devices@.len() - i,
    {
        assert(all[i as int] == devices@[i as int]@);
        assert(all.take(i + 1).drop_last() == all.take(i as int));
        insert_device(&mut out, devices[i], sort);
        i = i + 1;
    }
    assert(all.take(all.len() as int) == all);
    out
}

/// How the table is looked at.
#[verifier::ext_equal]
pub struct TableView {
    pub show_details: bool,
    pub sort: SortCriteria,
    pub scroll: nat,
    pub filtered_out: Seq<Seq<char>>,
    pub hide_filtered: bool,
}

impl AllTabInputs<'_> {
    /// How the table is looked at.
    pub open spec fn table_view(&self) -> TableView {
        TableView {
            show_details: self.show_details,
            sort: self.sort,
            scroll: self.scroll as nat,
            filtered_out: texts(self.filtered_out@),
            hide_filtered: self.hide_filtered,
        }
    }
}

/// The devices of a host that pass the filter.
pub open spec fn passing(v: TableView) -> spec_fn(DeviceModel) -> bool {
    |d: DeviceModel| !(v.hide_filtered && v.filtered_out.contains(d.uuid))
}

/// The devices of a host that the table holds, in order.
pub open spec fn shown_devices(host: SectionModel, v: TableView) -> Seq<DeviceModel> {
    sorted(host.devices.filter(passing(v)), goes_first(v.sort))
}

/// The lines of one device: its row, and its details where they are asked for.
pub open spec fn device_block(
    d: DeviceModel,
    host: SectionModel,
    v: TableView,
    c: Columns,
) -> Seq<LineText> {
    let row = seq![device_cells(d, c, !host.connected || v.filtered_out.contains(d.uuid))];
    match details_cells(d, host) {
        Some(l) => if v.show_details {
            row.push(l)
        } else {
            row
        },
        None => row,
    }
}

/// The lines of several devices.
pub open spec fn device_blocks(
    ds: Seq<DeviceModel>,
    host: SectionModel,
    v: TableView,
    c: Columns,
) -> Seq<LineText>
    decreases ds.len(),
{
    if ds.len() == 0 {
        seq![]
    } else {
        device_blocks(ds.drop_last(), host, v, c) + device_block(ds.last(), host, v, c)
    }
}

/// The table of the first `n` hosts, and how many devices remain to be
/// scrolled past. Scrolling skips whole devices from the top; a host whose
/// devices all scrolled away drops out with them.
pub open spec fn table_of(
    hosts: Seq<SectionModel>,
    n: nat,
    v: TableView,
    c: Columns,
    cols: nat,
) -> (Seq<LineText>, nat)
    decreases n,
{
    if n == 0 {
        (seq![header_cells(c)], v.scroll)
    } else {
        let (lines, skip) = table_of(hosts, (n - 1) as nat, v, c, cols);
        let host = hosts[n - 1];
        let shown = shown_devices(host, v);
        let skipped = lesser(skip, shown.len());
        let left = (skip - skipped) as nat;
        if skipped > 0 && skipped == shown.len() {
            (lines, left)
        } else {
            let gap = if n > 1 && lines.len() > 1 {
                lines.push(seq![])
            } else {
                lines
            };
            (
                gap.push(host_cells(host, cols)) + device_blocks(
                    shown.skip(skipped as int),
                    host,
                    v,
                    c,
                ),
                left,
            )
        }
    }
}

/// The longest label among the first `n` of `ds`.
pub open spec fn longest_in(ds: Seq<DeviceModel>, n: nat) -> nat
    decreases n,
{
    if n == 0 {
        0
    } else {
        let before = longest_in(ds, (n - 1) as nat);
        let one = device_label(ds[n - 1]).len();
        if one > before {
            one
        } else {
            before
        }
    }
}

/// The longest label of the first `n` hosts.
pub open spec fn longest_label(hosts: Seq<SectionModel>, n: nat) -> nat
    decreases n,
{
    if n == 0 {
        0
    } else {
        let before = longest_label(hosts, (n - 1) as nat);
        let here = longest_in(hosts[n - 1].devices, hosts[n - 1].devices.len());
        if here > before {
            here
        } else {
            before
        }
    }
}

/// The whole table.
pub open spec fn table_lines(hosts: Seq<SectionModel>, v: TableView, cols: nat) -> Seq<LineText> {
    let c = columns_for(cols, longest_label(hosts, hosts.len()) as usize);
    table_of(hosts, hosts.len(), v, c, cols).0
}

/// Whether every temperature can be shown.
pub open spec fn readable(hosts: Seq<SectionModel>) -> bool {
    forall|h: int| 0 <= h < hosts.len() ==> all_measurable((#[trigger] hosts[h]).devices)
}

fn longest_of(devices: &Vec<DeviceRow>) -> (r: usize)
    ensures
        r == longest_in(device_rows(devices@), devices@.len()),
{
    let ghost all = device_rows(devices@);
    let mut best: usize = 0;
    let mut i: usize = 0;
    while i < devices.len()
        invariant
            i <= devices@.len(),
            all == device_rows(devices@),
            best == longest_in(all, i as nat),
        decreases devices@.len() - i,
    {
        assert(all[i as int] == devices@[i as int]@);
        let label: String = devices[i].label();
        let width: usize = display_width(label.as_str());
        if width > best {
            best = width;
        }
        i = i + 1;
    }
    best
}

fn widest_label(hosts: &Vec<HostSection>) -> (r: usize)
    ensures
        r == longest_label(sections_of(hosts@), hosts@.len()),
{
    let ghost all = sections_of(hosts@);
    let mut best: usize = 0;
    let mut i: usize = 0;
    while i < hosts.len()
        invariant
            i <= hosts@.len(),
            all == sections_of(hosts@),
            best == longest_label(all, i as nat),
        decreases hosts@.len() - i,
    {
        assert(all[i as int] == hosts@[i as int]@);
        let here: usize = longest_of(&hosts[i].devices);
        if here > best {
            best = here;
        }
        i = i + 1;
    }
    best
}

fn listed(list: &Vec<String>, item: &str) -> (r: bool)
    ensures
        r == texts(list@).contains(item@),
{
    let mut i: usize = 0;
    while i < list.len()
        invariant
            i <= list@.len(),
            forall|j: int| 0 <= j < i ==> (#[trigger] texts(list@)[j]) != item@,
        decreases list@.len() - i,
    {
        if same(list[i].as_str(), item) {
            assert(texts(list@)[i as int] == item@);
            return true;
        }
        i = i + 1;
    }
    false
}

fn passing_devices<'a>(host: &'a HostSection, inputs: &AllTabInputs) -> (r: Vec<&'a DeviceRow>)
    ensures
        referred(r@) == host@.devices.filter(passing(inputs.table_view())),
        all_measurable(host@.devices) ==> all_measurable(referred(r@)),
{
    let ghost all = host@.devices;
    let ghost keep = passing(inputs.table_view());
    let mut out: Vec<&'a DeviceRow> = Vec::new();
    let mut i: usize = 0;
    proof {
        reveal(Seq::filter);
        assert(all.take(0) == Seq::<DeviceModel>::empty());
        assert(referred(out@) == Seq::<DeviceModel>::empty());
    }
    while i < host.devices.len()
        invariant
            i <= host.devices@.len(),
            all == host@.devices,
            keep == passing(inputs.table_view()),
            referred(out@) == all.take(i as int).filter(keep),
            all_measurable(all) ==> all_measurable(referred(out@)),
        decreases host.devices@.len() - i,
    {
        assert(all[i as int] == host.devices@[i as int]@);
        let ghost before = referred(out@);
        proof {
            reveal(Seq::filter);
            assert(all.take(i + 1).drop_last() == all.take(i as int));
        }
        if !(inputs.hide_filtered && listed(inputs.filtered_out, host.devices[i].uuid.as_str())) {
            out.push(&host.devices[i]);
            assert(referred(out@) == before.push(all[i as int]));
        }
        i = i + 1;
    }
    assert(all.take(all.len() as int) == all);
    out
}

/// Adds the lines of one device.
fn push_device(
    lines: &mut Vec<Line>,
    d: &DeviceRow,
    host: &HostSection,
    inputs: &AllTabInputs,
    c: &Columns,
)
    requires
        sane_columns(*c),
        measurable(d.temperature_c, d.slowdown_c),
    ensures
        line_texts(final(lines)@) == line_texts(old(lines)@) + device_block(
            d@,
            host@,
            inputs.table_view(),
            *c,
        ),
{
    let ghost before = line_texts(lines@);
    let dim: bool = !host.connected || listed(inputs.filtered_out, d.uuid.as_str());
    let row: Line = device_line(d, c, dim);
    lines.push(row);
    assert(line_texts(lines@) == before.push(row@));
    let ghost with_row = line_texts(lines@);
    match details_line(d, host) {
        Some(details) => {
            if inputs.show_details {
                lines.push(details);
                assert(line_texts(lines@) == with_row.push(details@));
            }
        },
        None => {},
    }
    assert(line_texts(lines@) == before + device_block(d@, host@, inputs.table_view(), *c));
}

/// Column header, then per host: host line, device rows and details lines, with
/// a blank line between hosts.
pub fn device_table(inputs: &AllTabInputs, cols: usize) -> (r: Vec<Line>)
    requires
        cols <= isize::MAX,
        readable(sections_of(inputs.model.hosts@)),
    ensures
        line_texts(r@) == table_lines(
            sections_of(inputs.model.hosts@),
            inputs.table_view(),
            cols as nat,
        ),
{
    let ghost all = sections_of(inputs.model.hosts@);
    let ghost v = inputs.table_view();
    let longest: usize = widest_label(&inputs.model.hosts);
    let c: Columns = Columns::for_width(cols, longest);
    let mut lines: Vec<Line> = Vec::new();
    let first: Line = column_header(&c);
    lines.push(first);
    assert(line_texts(lines@) == seq![header_cells(c)]);
    let mut skip: usize = inputs.scroll;
    let mut i: usize = 0;
    while i < inputs.model.hosts.len()
        invariant
            i <= inputs.model.hosts@.len(),
            cols <= isize::MAX,
            all == sections_of(inputs.model.hosts@),
            readable(all),
            v == inputs.table_view(),
            sane_columns(c),
            lines@.len() >= 1,
            (line_texts(lines@), skip as nat) == table_of(all, i as nat, v, c, cols as nat),
        decreases inputs.model.hosts@.len() - i,
    {
        let host: &HostSection = &inputs.model.hosts[i];
        assert(all[i as int] == host@);
        assert(all_measurable(all[i as int].devices));
        let pass: Vec<&DeviceRow> = passing_devices(host, inputs);
        let shown: Vec<&DeviceRow> = sort_devices(&pass, inputs.sort);
        let ghost rows = referred(shown@);
        let ghost sofar = line_texts(lines@);
        let skipped: usize = if skip < shown.len() {
            skip
        } else {
            shown.len()
        };
        let ghost had = skip;
        skip = skip - skipped;
        if !(skipped > 0 && skipped == shown.len()) {
            if i > 0 && lines.len() > 1 {
                let gap: Line = Line::default();
                lines.push(gap);
                assert(line_texts(lines@) == sofar.push(seq![]));
            }
            let ghost gapped = line_texts(lines@);
            let title: Line = host_line(host, cols);
            lines.push(title);
            assert(line_texts(lines@) == gapped.push(title@));
            let ghost titled = line_texts(lines@);
            let ghost rest = rows.skip(skipped as int);
            let mut k: usize = skipped;
            assert(rest.take(0) == Seq::<DeviceModel>::empty());
            assert(titled + device_blocks(rest.take(0), host@, v, c) == titled);
            while k < shown.len()
                invariant
                    skipped <= k <= shown@.len(),
                    rows == referred(shown@),
                    rest == rows.skip(skipped as int),
                    all_measurable(rows),
                    v == inputs.table_view(),
                    sane_columns(c),
                    lines@.len() >= 1,
                    line_texts(lines@) == titled + device_blocks(
                        rest.take(k - skipped),
                        host@,
                        v,
                        c,
                    ),
                decreases shown@.len() - k,
            {
                assert(rows[k as int] == shown@[k as int]@);
                assert(measurable(rows[k as int].temperature_c, rows[k as int].slowdown_c));
                push_device(&mut lines, shown[k], host, inputs, &c);
                assert(rest.take(k + 1 - skipped).drop_last() == rest.take(k - skipped));
                assert(rest.take(k + 1 - skipped).last() == rows[k as int]);
                assert(line_texts(lines@) == titled + device_blocks(
                    rest.take(k + 1 - skipped),
                    host@,
                    v,
                    c,
                ));
                assert(line_texts(lines@).len() == lines@.len());
                k = k + 1;
            }
            assert(rest.take(rest.len() as int) == rest);
        }
        i = i + 1;
    }
    lines
}

/// The line under a table that does not fit.
pub open spec fn more_line(hidden: nat) -> LineText {
    with_text(seq![], "   ↓ "@ + decimal(hidden) + " more lines (↑/↓ to scroll)"@, MUTED)
}

/// The screen after the table, which may take `budget` rows.
pub open spec fn emitted_table(s: Screen, table: Seq<LineText>, budget: nat) -> Screen {
    if table.len() > budget {
        let shown = less(budget, 1);
        emitted(
            emitted_all(s, table.take(shown as int)),
            more_line((table.len() - shown) as nat),
        )
    } else {
        emitted_all(s, table)
    }
}

/// The screen after the table and the strip under it. The table gets the rows
/// it needs, less what the strip takes.
pub open spec fn table_screen(
    cols: nat,
    rows: nat,
    table: Seq<LineText>,
    strip: Seq<LineText>,
) -> Screen {
    let strip_rows = if strip.len() == 0 {
        0
    } else {
        strip.len() + 1
    };
    let s = emitted_table(
        Screen { cols, rows_left: rows, lines: seq![] },
        table,
        at_least_one(less(rows, strip_rows)),
    );
    if strip.len() == 0 {
        s
    } else {
        emitted_all(emitted(s, seq![]), strip)
    }
}

/// The body of the All tab, and the history panel that the rows left under it
/// are laid out for.
pub struct AllTab {
    pub writer: Writer,
    pub history: Option<HistoryPlan>,
}

/// The screen above the history panel: where enough rows are left for one, a
/// blank line stands before it.
pub open spec fn body_screen(s: Screen) -> Screen {
    if s.rows_left > MIN_ROWS {
        emitted(s, seq![])
    } else {
        s
    }
}

fn emit_lines(w: &mut Writer, lines: &Vec<Line>, n: usize)
    requires
        n <= lines@.len(),
    ensures
        final(w)@ == emitted_all(old(w)@, line_texts(lines@).take(n as int)),
        final(w).cols == old(w).cols,
{
    let ghost all = line_texts(lines@);
    let ghost first = w@;
    let mut i: usize = 0;
    assert(all.take(0) == Seq::<LineText>::empty());
    while i < n
        invariant
            i <= n <= lines@.len(),
            all == line_texts(lines@),
            w.cols == old(w).cols,
            w@ == emitted_all(first, all.take(i as int)),
        decreases n - i,
    {
        assert(all[i as int] == lines@[i as int]@);
        w.emit(&lines[i]);
        assert(all.take(i + 1).drop_last() == all.take(i as int));
        i = i + 1;
    }
}

/// Renders the All tab body in at most `rows` rows, up to the history panel,
/// and lays that panel out for the rows left.
pub fn render_all_tab(inputs: &AllTabInputs, cols: u16, rows: u16) -> (r: AllTab)
    requires
        readable(sections_of(inputs.model.hosts@)),
        inputs.pipeline@.len() < usize::MAX,
        all_devices(sections_of(inputs.model.hosts@), inputs.model.hosts@.len()).len()
            <= usize::MAX,
    ensures
        ({
            let hosts = sections_of(inputs.model.hosts@);
            let s = table_screen(
                cols as nat,
                rows as nat,
                table_lines(hosts, inputs.table_view(), cols as nat),
                line_texts(inputs.pipeline@),
            );
            &&& r.writer@ == body_screen(s)
            &&& r.history is Some <==> s.rows_left > MIN_ROWS
            &&& r.history matches Some(p) ==> p@ == history_plan(
                hosts,
                inputs.model.totals,
                inputs.series@,
                r.writer@.rows_left,
                cols as nat,
            )
        }),
{
    let mut w: Writer = Writer::new(cols as usize, rows as usize);
    let ghost first = w@;
    let table: Vec<Line> = device_table(inputs, cols as usize);
    let ghost lines = line_texts(table@);
    let ghost strip = line_texts(inputs.pipeline@);
    let strip_rows: usize = if inputs.pipeline.len() == 0 {
        0
    } else {
        inputs.pipeline.len() + 1
    };
    let left: usize = w.rows_left.saturating_sub(strip_rows);
    let budget: usize = if left < 1 {
        1
    } else {
        left
    };
    if table.len() > budget {
        let shown: usize = budget - 1;
        let hidden: usize = table.len() - shown;
        emit_lines(&mut w, &table, shown);
        let n: String = decimal_text(hidden as u128);
        let words: String = concat3("   ↓ ", n.as_str(), " more lines (↑/↓ to scroll)");
        let mut more: Line = Line::default();
        more.text(words.as_str(), MUTED);
        w.emit(&more);
    } else {
        let count: usize = table.len();
        emit_lines(&mut w, &table, count);
        assert(lines.take(lines.len() as int) == lines);
    }
    if inputs.pipeline.len() > 0 {
        w.blank();
        let count: usize = inputs.pipeline.len();
        emit_lines(&mut w, inputs.pipeline, count);
        assert(strip.take(strip.len() as int) == strip);
    }
    if w.rows_left > MIN_ROWS {
        w.blank();
        let history: Option<HistoryPlan> = plan_history(
            inputs.model,
            inputs.series,
            w.rows_left,
            w.cols,
        );
        AllTab { writer: w, history }
    } else {
        AllTab { writer: w, history: None }
    }
}

/// Whether the rows above the tab body can be counted.
pub open spec fn countable(state: AppState) -> bool {
    &&& state.sums_fit()
    &&& hottest_measurable(tally(state.sections(), state.sections().len()).max_temperature)
}

/// The shared host / device model for the current remote state.
pub fn model_for(state: &AppState) -> (r: ConsolidatedModel)
    requires
        state.sums_fit(),
    ensures
        sections_of(r.hosts@) == state.sections(),
        ({
            let t = tally(state.sections(), state.sections().len());
            tally_of(r.totals, t.util_sum, t.util_count) == t && r.totals.avg_utilization
                == mean_utilization(t)
        }),
        r.totals == totals_of(tally(state.sections(), state.sections().len())),
        r.totals.unified_devices <= r.totals.devices,
{
    ConsolidatedModel::build(
        &ModelSources {
            gpu_info: state.gpu_info.as_slice(),
            cpu_info: state.cpu_info.as_slice(),
            memory_info: state.memory_info.as_slice(),
            host_probes: state.host_probes.as_slice(),
            host_order: state.tabs.as_slice(),
            connection_status: state.connection_status.as_slice(),
        },
    )
}

/// Rows above the tab body: the header, whose blocks depend on what the hosts
/// report, and two rows for the tabs.
pub open spec fn remote_rows(hosts: Seq<SectionModel>, cols: nat) -> nat {
    let t = totals_of(tally(hosts, hosts.len()));
    3 + 3 * block_row_count(overview(t, hosts).len(), cols) + 2
}

/// Rows above the tab body in remote mode: the header, the tab strip and its
/// rule.
pub fn remote_header_rows(state: &AppState, cols: u16) -> (r: u16)
    requires
        countable(*state),
    ensures
        r == remote_rows(state.sections(), cols as nat),
        r <= 29,
{
    let model: ConsolidatedModel = model_for(state);
    header_rows(&model, cols) + 2
}

/// The body of the All tab keeps to its rows and to the width of the terminal,
/// however short or narrow that is.
pub proof fn the_all_tab_keeps_to_the_screen(
    cols: nat,
    rows: nat,
    table: Seq<LineText>,
    strip: Seq<LineText>,
)
    ensures
        continues(
            Screen { cols, rows_left: rows, lines: seq![] },
            body_screen(table_screen(cols, rows, table, strip)),
        ),
        body_screen(table_screen(cols, rows, table, strip)).lines.len() <= rows,
{
    let s = Screen { cols, rows_left: rows, lines: seq![] };
    let strip_rows = if strip.len() == 0 {
        0
    } else {
        strip.len() + 1
    };
    let budget = at_least_one(less(rows, strip_rows));
    let shown = less(budget, 1);
    if table.len() > budget {
        lines_continue(s, s, table.take(shown as int));
        a_line_continues(
            s,
            emitted_all(s, table.take(shown as int)),
            more_line((table.len() - shown) as nat),
        );
    } else {
        lines_continue(s, s, table);
    }
    let t = emitted_table(s, table, budget);
    if strip.len() > 0 {
        a_line_continues(s, t, seq![]);
        lines_continue(s, emitted(t, seq![]), strip);
    }
    a_line_continues(s, table_screen(cols, rows, table, strip), seq![]);
}

/// The devices of a host stand in descending order of what they are sorted by,
/// and sorting neither loses a device nor adds one.
pub proof fn devices_are_sorted(ds: Seq<DeviceModel>, sort: SortCriteria)
    ensures
        sorted(ds, goes_first(sort)).to_multiset() == ds.to_multiset(),
        forall|i: int, j: int|
            0 <= i < j < ds.len() ==> sort_key(
                #[trigger] sorted(ds, goes_first(sort))[i],
                sort,
            ).total_rank() >= sort_key(
                #[trigger] sorted(ds, goes_first(sort))[j],
                sort,
            ).total_rank(),
{
    sorting_orders(ds, goes_first(sort));
    let r = sorted(ds, goes_first(sort));
    assert forall|i: int, j: int| 0 <= i < j < ds.len() implies sort_key(
        #[trigger] r[i],
        sort,
    ).total_rank() >= sort_key(#[trigger] r[j], sort).total_rank() by {
        assert(!goes_first(sort)(r[j], r[i]));
    }
}

/// In the default order the devices stay as the host reports them.
pub proof fn the_default_order_changes_nothing(ds: Seq<DeviceModel>)
    ensures
        sorted(ds, goes_first(SortCriteria::Default)) == ds,
    decreases ds.len(),
{
    if ds.len() > 0 {
        the_default_order_changes_nothing(ds.drop_last());
        assert(ds.drop_last().push(ds.last()) == ds);
    } else {
        assert(ds == Seq::<DeviceModel>::empty());
    }
}

} // verus!
