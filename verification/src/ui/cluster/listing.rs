//! What the table of the cluster tab lists, and how its charts are laid out.
use vstd::prelude::*;
use vstd::string::*;

use crate::text::{decimal, joined};
use crate::ui::cluster::{
    device_block, device_blocks, longest_in, longest_label, shown_devices, table_of, TableView,
};
use crate::ui::cluster::charts::{
    all_devices, cluster_column, columns_that_fit, device_columns, div_up, history_plan, per_device,
};
use crate::ui::cluster::devices::{
    detail_parts, details_cells, device_cells, given_way, header_cells, host_cells, platform_parts,
    Columns,
};
use crate::ui::cluster::header::{
    blocks_per_row, device_mix, less, lesser, title_left, title_line, title_right, MIN_BLOCK,
};
use crate::ui::cluster::line::{line_width, plural_text, watts_text, LineText};
use crate::ui::consolidated::history::SeriesModel;
use crate::ui::consolidated::model::{device_label, DeviceModel, SectionModel, Totals};

verus! {

/// Whether a line stands among the lines.
pub open spec fn stands(lines: Seq<LineText>, line: LineText) -> bool {
    exists|k: int| 0 <= k < lines.len() && #[trigger] lines[k] == line
}

proof fn stands_in_front(a: Seq<LineText>, b: Seq<LineText>, line: LineText)
    requires
        stands(a, line),
    ensures
        stands(a + b, line),
{
    let k = choose|k: int| 0 <= k < a.len() && #[trigger] a[k] == line;
    assert((a + b)[k] == line);
}

proof fn stands_behind(a: Seq<LineText>, b: Seq<LineText>, line: LineText)
    requires
        stands(b, line),
    ensures
        stands(a + b, line),
{
    let k = choose|k: int| 0 <= k < b.len() && #[trigger] b[k] == line;
    assert((a + b)[a.len() + k] == line);
}

/// How many devices the first `n` hosts show.
pub open spec fn shown_before(hosts: Seq<SectionModel>, v: TableView, n: nat) -> nat
    decreases n,
{
    if n == 0 {
        0
    } else {
        shown_before(hosts, v, (n - 1) as nat) + shown_devices(hosts[n - 1], v).len()
    }
}

proof fn blocks_stand(
    ds: Seq<DeviceModel>,
    host: SectionModel,
    v: TableView,
    c: Columns,
    i: int,
)
    requires
        0 <= i < ds.len(),
    ensures
        stands(
            device_blocks(ds, host, v, c),
            device_cells(ds[i], c, !host.connected || v.filtered_out.contains(ds[i].uuid)),
        ),
        v.show_details && details_cells(ds[i], host) is Some ==> stands(
            device_blocks(ds, host, v, c),
            details_cells(ds[i], host)->0,
        ),
    decreases ds.len(),
{
    let rest = device_blocks(ds.drop_last(), host, v, c);
    let last = device_block(ds.last(), host, v, c);
    let line = device_cells(ds[i], c, !host.connected || v.filtered_out.contains(ds[i].uuid));
    if i == ds.len() - 1 {
        assert(last[0] == line);
        stands_behind(rest, last, line);
        if v.show_details && details_cells(ds[i], host) is Some {
            assert(last[1] == details_cells(ds[i], host)->0);
            stands_behind(rest, last, details_cells(ds[i], host)->0);
        }
    } else {
        assert(ds.drop_last()[i] == ds[i]);
        blocks_stand(ds.drop_last(), host, v, c, i);
        stands_in_front(rest, last, line);
        if v.show_details && details_cells(ds[i], host) is Some {
            stands_in_front(rest, last, details_cells(ds[i], host)->0);
        }
    }
}

/// The lines that a host adds to the table, if any of its devices is in sight.
proof fn one_host_more(
    hosts: Seq<SectionModel>,
    n: nat,
    v: TableView,
    c: Columns,
    cols: nat,
    line: LineText,
)
    requires
        0 < n <= hosts.len(),
        stands(table_of(hosts, (n - 1) as nat, v, c, cols).0, line),
    ensures
        stands(table_of(hosts, n, v, c, cols).0, line),
{
    let (lines, skip) = table_of(hosts, (n - 1) as nat, v, c, cols);
    let more = table_of(hosts, n, v, c, cols).0;
    let k = choose|k: int| 0 <= k < lines.len() && #[trigger] lines[k] == line;
    assert(more[k] == line);
}

proof fn scrolling_counts_devices(
    hosts: Seq<SectionModel>,
    n: nat,
    v: TableView,
    c: Columns,
    cols: nat,
)
    requires
        n <= hosts.len(),
    ensures
        table_of(hosts, n, v, c, cols).1 == less(v.scroll, shown_before(hosts, v, n)),
        table_of(hosts, n, v, c, cols).0.len() >= 1,
        table_of(hosts, n, v, c, cols).0[0] == header_cells(c),
    decreases n,
{
    if n > 0 {
        scrolling_counts_devices(hosts, (n - 1) as nat, v, c, cols);
    }
}

/// The table begins with the names of its columns. Every device that is shown has
/// its row, and its details where they are asked for, under the line of its host,
/// but for as many of the first devices as were scrolled away.
pub proof fn devices_in_sight_are_listed(
    hosts: Seq<SectionModel>,
    n: nat,
    v: TableView,
    c: Columns,
    cols: nat,
    h: int,
    i: int,
)
    requires
        0 <= h < n <= hosts.len(),
        0 <= i < shown_devices(hosts[h], v).len(),
        shown_before(hosts, v, h as nat) + i >= v.scroll,
    ensures
        ({
            let lines = table_of(hosts, n, v, c, cols).0;
            let d = shown_devices(hosts[h], v)[i];
            &&& lines[0] == header_cells(c)
            &&& stands(lines, host_cells(hosts[h], cols))
            &&& stands(
                lines,
                device_cells(d, c, !hosts[h].connected || v.filtered_out.contains(d.uuid)),
            )
            &&& v.show_details && details_cells(d, hosts[h]) is Some ==> stands(
                lines,
                details_cells(d, hosts[h])->0,
            )
        }),
    decreases n,
{
    scrolling_counts_devices(hosts, n, v, c, cols);
    let host = hosts[h];
    let d = shown_devices(host, v)[i];
    let row = device_cells(d, c, !host.connected || v.filtered_out.contains(d.uuid));
    if h < n - 1 {
        devices_in_sight_are_listed(hosts, (n - 1) as nat, v, c, cols, h, i);
        one_host_more(hosts, n, v, c, cols, host_cells(host, cols));
        one_host_more(hosts, n, v, c, cols, row);
        if v.show_details && details_cells(d, host) is Some {
            one_host_more(hosts, n, v, c, cols, details_cells(d, host)->0);
        }
    } else {
        scrolling_counts_devices(hosts, (n - 1) as nat, v, c, cols);
        let (lines, skip) = table_of(hosts, (n - 1) as nat, v, c, cols);
        let shown = shown_devices(host, v);
        let skipped = if skip < shown.len() {
            skip
        } else {
            shown.len()
        };
        assert(skipped <= i);
        let rest = shown.skip(skipped as int);
        assert(rest[i - skipped] == d);
        let gap = if n > 1 && lines.len() > 1 {
            lines.push(seq![])
        } else {
            lines
        };
        let upper = gap.push(host_cells(host, cols));
        let blocks = device_blocks(rest, host, v, c);
        assert(table_of(hosts, n, v, c, cols).0 == upper + blocks);
        blocks_stand(rest, host, v, c, i - skipped);
        assert(upper[upper.len() - 1] == host_cells(host, cols));
        stands_in_front(upper, blocks, host_cells(host, cols));
        stands_behind(upper, blocks, row);
        if v.show_details && details_cells(d, host) is Some {
            stands_behind(upper, blocks, details_cells(d, host)->0);
        }
    }
}

/// A host that shows no device keeps its line.
pub proof fn hosts_without_devices_are_listed(
    hosts: Seq<SectionModel>,
    n: nat,
    v: TableView,
    c: Columns,
    cols: nat,
    h: int,
)
    requires
        0 <= h < n <= hosts.len(),
        shown_devices(hosts[h], v).len() == 0,
    ensures
        stands(table_of(hosts, n, v, c, cols).0, host_cells(hosts[h], cols)),
    decreases n,
{
    if h < n - 1 {
        hosts_without_devices_are_listed(hosts, (n - 1) as nat, v, c, cols, h);
        one_host_more(hosts, n, v, c, cols, host_cells(hosts[h], cols));
    } else {
        let (lines, skip) = table_of(hosts, (n - 1) as nat, v, c, cols);
        let gap = if n > 1 && lines.len() > 1 {
            lines.push(seq![])
        } else {
            lines
        };
        let more = table_of(hosts, n, v, c, cols).0;
        assert(more[gap.len() as int] == host_cells(hosts[h], cols));
    }
}

/// The details of a device: its rails where it has them, each with its watts, and
/// then what it reports of itself.
pub proof fn details_are_listed(d: DeviceModel, host: SectionModel)
    ensures
        ({
            let parts = detail_parts(d, host);
            let rails = (parts.len() - d.details.len()) as int;
            &&& parts.skip(rails) =~= d.details
            &&& d.ane_watts is None ==> rails == 0
            &&& d.ane_watts matches Some(ane) ==> parts[0] == "ANE "@ + watts_text(ane)
            &&& d.ane_watts is Some && host.cpu_power_watts is Some ==> rails == 2 && parts[1]
                == "CPU "@ + watts_text(host.cpu_power_watts->0)
            &&& d.ane_watts is Some && host.cpu_power_watts is None ==> rails == 1
            &&& details_cells(d, host) is None <==> parts.len() == 0
            &&& details_cells(d, host) matches Some(l) ==> joined(parts, "  ·  "@).len() > 0
                ==> l.last().0 == joined(parts, "  ·  "@)
        }),
{
}

proof fn longest_of_a_host(ds: Seq<DeviceModel>, n: nat)
    requires
        n <= ds.len(),
    ensures
        forall|i: int| 0 <= i < n ==> device_label(#[trigger] ds[i]).len() <= longest_in(ds, n),
        longest_in(ds, n) > 0 ==> exists|i: int|
            0 <= i < n && device_label(#[trigger] ds[i]).len() == longest_in(ds, n),
    decreases n,
{
    if n > 0 {
        longest_of_a_host(ds, (n - 1) as nat);
    }
}

/// The names take the room of the longest of all.
pub proof fn the_longest_name_is_found(hosts: Seq<SectionModel>, n: nat)
    requires
        n <= hosts.len(),
    ensures
        forall|h: int, i: int|
            0 <= h < n && 0 <= i < hosts[h].devices.len() ==> device_label(
                #[trigger] hosts[h].devices[i],
            ).len() <= longest_label(hosts, n),
        longest_label(hosts, n) > 0 ==> exists|h: int, i: int|
            0 <= h < n && 0 <= i < hosts[h].devices.len() && device_label(
                #[trigger] hosts[h].devices[i],
            ).len() == longest_label(hosts, n),
    decreases n,
{
    if n > 0 {
        the_longest_name_is_found(hosts, (n - 1) as nat);
        longest_of_a_host(hosts[n - 1].devices, hosts[n - 1].devices.len());
    }
}

/// As many columns of charts stand side by side as have 36 cells each, three
/// between them and one in front; one stands there in any case.
pub proof fn columns_have_room(cols: nat)
    ensures
        ({
            let n = columns_that_fit(cols);
            &&& n >= 1
            &&& n > 1 ==> 1 + 36 * n + 3 * (n - 1) <= cols
            &&& 1 + 36 * (n + 1) + 3 * n > cols
        }),
{
    let room = (less(cols, 1) + 3) as nat;
    assert(columns_that_fit(cols) == if room / 39 < 1 {
        1
    } else {
        room / 39
    });
}

proof fn rounded_up(n: nat, d: nat, strips: nat)
    requires
        n > 0,
        d > 0,
        d * strips >= n,
        d * (strips - 1) < n,
    ensures
        div_up(n, d) == strips,
{
    let k = (n + d - 1) as nat;
    assert(k / d == strips) by (nonlinear_arith)
        requires
            k == n + d - 1,
            d > 0,
            d * strips >= n,
            d * (strips - 1) < n,
    ;
}

/// Every device has its charts where ten rows are left for each strip of them
/// below the heading; otherwise the cluster has one column for all of them.
pub proof fn devices_have_charts_where_there_is_room(
    s: Seq<SectionModel>,
    t: Totals,
    series: SeriesModel,
    rows: nat,
    cols: nat,
    strips: nat,
)
    requires
        rows >= 1,
        ({
            let devices = all_devices(s, s.len()).len();
            let side = if columns_that_fit(cols) < devices {
                columns_that_fit(cols)
            } else {
                devices
            };
            devices > 0 && side * strips >= devices && side * (strips - 1) < devices
        }),
    ensures
        ({
            let plan = history_plan(s, t, series, rows, cols);
            &&& rows - 1 >= 10 * strips ==> plan.columns == device_columns(s, series)
                && plan.charts == 3
            &&& rows - 1 < 10 * strips ==> plan.columns == seq![cluster_column(t, series)]
                && plan.charts == 2 && plan.per_row == 1
        }),
{
    columns_have_room(cols);
    let devices = all_devices(s, s.len()).len();
    let side = lesser(columns_that_fit(cols), devices);
    rounded_up(devices, side, strips);
    assert(strips >= 1) by (nonlinear_arith)
        requires
            side * strips >= devices,
            devices > 0,
    ;
    let left = (rows - 1) as nat;
    assert(left / strips > 9 <==> left >= 10 * strips) by (nonlinear_arith)
        requires
            strips >= 1,
    ;
    assert(per_device(devices, rows, cols) <==> left >= 10 * strips);
}

/// Charts are one to ten rows high, stand on the screen side by side, and below
/// each other as long as they are more than one row high.
pub proof fn charts_keep_to_their_room(
    s: Seq<SectionModel>,
    t: Totals,
    series: SeriesModel,
    rows: nat,
    cols: nat,
)
    requires
        rows >= 1,
        cols >= 39,
    ensures
        ({
            let plan = history_plan(s, t, series, rows, cols);
            let strips = div_up(plan.columns.len(), plan.per_row);
            &&& 1 <= plan.chart_h <= 10
            &&& plan.columns.len() > 0 ==> plan.per_row * (plan.cell_w + 3) <= cols + 2
            &&& plan.columns.len() > 0 ==> plan.cell_w >= 36
            &&& plan.columns.len() > 0 && plan.chart_h > 1 ==> 1 + strips * (1 + plan.charts
                + plan.charts * plan.chart_h) <= rows
        }),
{
    columns_have_room(cols);
    let plan = history_plan(s, t, series, rows, cols);
    if plan.columns.len() > 0 {
        let per = plan.per_row;
        let room = (cols - 1 + 3) as nat;
        let fit = columns_that_fit(cols);
        assert(per >= 1);
        assert(per <= fit);
        assert(39 * per <= room);
        assert(room / per >= 39) by (nonlinear_arith)
            requires
                39 * per <= room,
                per >= 1,
        ;
        assert(per * (room / per) <= room) by (nonlinear_arith)
            requires
                per >= 1,
        ;
        assert(plan.cell_w + 3 == room / per);
        let strips = div_up(plan.columns.len(), per);
        let n = plan.columns.len();
        assert((n + per - 1) / (per as int) >= 1) by (nonlinear_arith)
            requires
                n >= 1,
                per >= 1,
        ;
        let left = (rows - 1) as nat;
        let body = left / strips;
        assert(strips * body <= left) by (nonlinear_arith)
            requires
                strips >= 1,
                body == left / strips,
        ;
        if plan.chart_h > 1 {
            let high = 1 + plan.charts + plan.charts * plan.chart_h;
            let x = less(body, 1 + plan.charts);
            assert(plan.charts * (x / plan.charts) <= x) by (nonlinear_arith)
                requires
                    plan.charts > 0,
            ;
            assert(plan.charts * plan.chart_h <= plan.charts * (x / plan.charts))
                by (nonlinear_arith)
                requires
                    plan.chart_h <= x / plan.charts,
                    plan.charts > 0,
            ;
            assert(high <= body);
            assert(strips * high <= strips * body) by (nonlinear_arith)
                requires
                    high <= body,
            ;
        }
    }
}

/// What a host runs on: its system, its processor and how many cores that has.
pub proof fn platforms_are_described(host: SectionModel)
    ensures
        ({
            let p = platform_parts(host);
            let skip: int = if host.os is Some {
                1
            } else {
                0
            };
            &&& host.os matches Some(os) ==> p[0] == os
            &&& host.cpu is None ==> p.len() == skip
            &&& host.cpu matches Some(cpu) ==> {
                &&& p[skip] == cpu.model
                &&& cpu.cores == 0 ==> p.len() == skip + 1
                &&& cpu.cores > 0 ==> p.len() == skip + 2 && p[skip + 1] == decimal(
                    cpu.cores as nat,
                ) + "-core CPU"@
            }
        }),
{
}

/// Accelerators are counted by kind: those that share their host's memory, and
/// those that have their own.
pub proof fn kinds_are_counted(unified: nat, discrete: nat)
    ensures
        unified > 0 && discrete > 0 ==> device_mix(unified, discrete) == decimal(unified)
            + " SoC · "@ + decimal(discrete) + " dGPU"@,
        device_mix(0, discrete) == plural_text(discrete, "discrete GPU"@),
        unified > 0 ==> device_mix(unified, 0) == plural_text(unified, "SoC GPU"@),
{
}

/// The figures of the overview stand side by side as far as each has its least
/// width; one stands in every row, and no more than there are.
pub proof fn figures_share_the_rows(n: nat, cols: nat)
    requires
        n > 0,
        cols > 0,
    ensures
        ({
            let k = blocks_per_row(n, cols);
            &&& 1 <= k <= n
            &&& k > 1 ==> 1 + k * 17 <= cols
            &&& k < n ==> 1 + (k + 1) * 17 > cols
        }),
{
    assert(MIN_BLOCK == 17);
    let fit = ((cols - 1) as nat) / 17;
    assert(fit * 17 <= cols - 1 < (fit + 1) * 17);
}

/// Columns give way one after the other: the clock first, then the kind, the room
/// of the name, the power and the temperature.
pub proof fn columns_give_way_in_turn(name: usize, k: nat)
    ensures
        ({
            let c = given_way(name, k);
            &&& c.clock <==> k == 0
            &&& c.kind <==> k <= 1
            &&& k <= 2 ==> c.name == name
            &&& k >= 3 ==> c.name == 20
            &&& c.power <==> k <= 3
            &&& c.temp <==> k <= 4
        }),
{
}

/// The title says how many of the hosts are up, the time and the version; on a
/// narrow screen the time alone.
pub proof fn the_title_says_how_many_are_up(
    cols: nat,
    t: Totals,
    time: Seq<char>,
    version: Seq<char>,
    runtime: Option<Seq<char>>,
)
    requires
        time.len() > 0,
    ensures
        ({
            let l = title_line(cols, t, time, version, runtime);
            let wide = cols >= line_width(title_left(runtime)) + line_width(
                title_right(t, time, version),
            ) + 2;
            &&& wide ==> l.last().0 == "v"@ + version + " "@
            &&& wide ==> l[l.len() - 3].0 == time
            &&& wide ==> l[l.len() - 5].0 == decimal(t.hosts_up as nat) + " of "@ + decimal(
                t.hosts_total as nat,
            ) + " hosts up"@
            &&& !wide ==> l.last().0 == time
        }),
{
    reveal_strlit("v");
    reveal_strlit(" ");
    reveal_strlit(" of ");
    reveal_strlit("  ·  ");
    let right = title_right(t, time, version);
    assert(right.len() == 5);
}

/// A host whose devices were all scrolled away adds no line to the table.
pub proof fn hosts_out_of_sight_add_nothing(
    hosts: Seq<SectionModel>,
    n: nat,
    v: TableView,
    c: Columns,
    cols: nat,
)
    requires
        0 < n <= hosts.len(),
        shown_devices(hosts[n - 1], v).len() > 0,
        shown_before(hosts, v, n) <= v.scroll,
    ensures
        table_of(hosts, n, v, c, cols).0 == table_of(hosts, (n - 1) as nat, v, c, cols).0,
{
    scrolling_counts_devices(hosts, (n - 1) as nat, v, c, cols);
}

} // verus!
