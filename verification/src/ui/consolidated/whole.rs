//! What the consolidated tab holds: every host, link and lock, and the totals.
use vstd::prelude::*;
use vstd::string::*;

use crate::order::sorting_keeps_elements;
use crate::probes::{any_links, any_locks, ProbesModel};
use crate::text::joined;
use crate::ui::cluster::line::{cell_text, rcell_text};
use crate::ui::consolidated::history::SeriesModel;
use crate::ui::consolidated::model::{label_for, tally, totals_of, SectionModel, Totals};
use crate::ui::consolidated::pipeline::PipelineStatus;
use crate::ui::consolidated::render::{
    all_host_rows, all_link_rows, all_lock_rows, columns_at, device_header, host_rows, link_row,
    link_rows, lock_row, lock_rows, panel_rows, place_of, pool_parts, probe_rows, probes_in_order,
    stands_before, tab_rows, table_rows, title_row, total_rows, totals_row, Columns,
};
use crate::ui::consolidated::row::{rule_row, RowText};
use crate::ui::consolidated::shown::written;

verus! {

/// Whether a row stands among the rows.
pub open spec fn stands(rows: Seq<RowText>, row: RowText) -> bool {
    exists|k: int| 0 <= k < rows.len() && #[trigger] rows[k] == row
}

proof fn stands_in_front(a: Seq<RowText>, b: Seq<RowText>, row: RowText)
    requires
        stands(a, row),
    ensures
        stands(a + b, row),
{
    let k = choose|k: int| 0 <= k < a.len() && #[trigger] a[k] == row;
    assert((a + b)[k] == row);
}

proof fn stands_behind(a: Seq<RowText>, b: Seq<RowText>, row: RowText)
    requires
        stands(b, row),
    ensures
        stands(a + b, row),
{
    let k = choose|k: int| 0 <= k < b.len() && #[trigger] b[k] == row;
    assert((a + b)[a.len() + k] == row);
}

proof fn hosts_stand(
    hosts: Seq<SectionModel>,
    n: nat,
    c: Columns,
    series: SeriesModel,
    h: int,
    i: int,
)
    requires
        0 <= h < n <= hosts.len(),
        0 <= i < host_rows(hosts[h], c, series).len(),
    ensures
        stands(all_host_rows(hosts, n, c, series), host_rows(hosts[h], c, series)[i]),
    decreases n,
{
    let before = all_host_rows(hosts, (n - 1) as nat, c, series);
    let last = host_rows(hosts[n - 1], c, series);
    if h == n - 1 {
        assert(stands(last, last[i]));
        stands_behind(before, last, last[i]);
    } else {
        hosts_stand(hosts, (n - 1) as nat, c, series, h, i);
        stands_in_front(before, last, host_rows(hosts[h], c, series)[i]);
    }
}

proof fn stands_in_the_middle(
    head: Seq<RowText>,
    listed: Seq<RowText>,
    rule: RowText,
    foot: Seq<RowText>,
    row: RowText,
)
    requires
        stands(listed, row),
    ensures
        stands((head + listed).push(rule) + foot, row),
{
    let k = choose|k: int| 0 <= k < listed.len() && #[trigger] listed[k] == row;
    assert(((head + listed).push(rule) + foot)[head.len() + k] == row);
}

proof fn hosts_stand_in_the_table(
    cols: nat,
    c: Columns,
    hosts: Seq<SectionModel>,
    t: Totals,
    series: SeriesModel,
    h: int,
    i: int,
)
    requires
        0 <= h < hosts.len(),
        0 <= i < host_rows(hosts[h], c, series).len(),
    ensures
        stands(table_rows(cols, c, hosts, t, series), host_rows(hosts[h], c, series)[i]),
{
    hosts_stand(hosts, hosts.len(), c, series, h, i);
    stands_in_the_middle(
        seq![title_row(t), device_header(c)],
        all_host_rows(hosts, hosts.len(), c, series),
        rule_row(cols),
        total_rows(c, t, series),
        host_rows(hosts[h], c, series)[i],
    );
}

proof fn the_table_has_a_head_and_a_foot(
    cols: nat,
    c: Columns,
    hosts: Seq<SectionModel>,
    t: Totals,
    series: SeriesModel,
)
    ensures
        ({
            let rows = table_rows(cols, c, hosts, t, series);
            &&& rows.len() >= 4
            &&& rows[0] == title_row(t)
            &&& rows[1] == device_header(c)
            &&& stands(rows, totals_row(c, t, series))
        }),
{
    let listed = all_host_rows(hosts, hosts.len(), c, series);
    let head = seq![title_row(t), device_header(c)];
    let upper = (head + listed).push(rule_row(cols));
    assert(total_rows(c, t, series)[0] == totals_row(c, t, series));
    stands_behind(upper, total_rows(c, t, series), totals_row(c, t, series));
}

/// The tab begins with its title and the names of the columns, and every row of
/// every host stands in it, whatever the probes and the pipeline add.
pub proof fn every_host_is_listed(
    cols: nat,
    hosts: Seq<SectionModel>,
    probes: Seq<ProbesModel>,
    pipeline: Option<PipelineStatus>,
    series: SeriesModel,
    now: u64,
    h: int,
    i: int,
)
    requires
        0 <= h < hosts.len(),
        0 <= i < host_rows(hosts[h], columns_at(cols), series).len(),
    ensures
        ({
            let rows = tab_rows(cols, hosts, probes, pipeline, series, now);
            let t = totals_of(tally(hosts, hosts.len()));
            &&& rows[0] == title_row(t)
            &&& rows[1] == device_header(columns_at(cols))
            &&& stands(rows, host_rows(hosts[h], columns_at(cols), series)[i])
            &&& stands(rows, totals_row(columns_at(cols), t, series))
        }),
{
    let c = columns_at(cols);
    let t = totals_of(tally(hosts, hosts.len()));
    let table = table_rows(cols, c, hosts, t, series);
    let rest = probe_rows(cols, c, hosts, probes, pipeline, series, now);
    assert(tab_rows(cols, hosts, probes, pipeline, series, now) == table + rest);
    the_table_has_a_head_and_a_foot(cols, c, hosts, t, series);
    hosts_stand_in_the_table(cols, c, hosts, t, series, h, i);
    stands_in_front(table, rest, host_rows(hosts[h], c, series)[i]);
    stands_in_front(table, rest, totals_row(c, t, series));
}

/// The columns of the table are named above it.
pub proof fn columns_are_named(c: Columns)
    requires
        c.clock > 0,
    ensures
        ({
            let l = device_header(c);
            &&& l.len() >= 7
            &&& written(l[0]) == cell_text("HOST"@, c.host as nat)
            &&& written(l[1]) == cell_text("DEVICE"@, c.device as nat)
            &&& written(l[2]) == rcell_text("UTIL"@, c.util as nat)
            &&& written(l[3]) == cell_text("MEMORY"@, c.mem as nat)
            &&& written(l[4]) == rcell_text("POWER"@, c.power as nat)
            &&& written(l[5]) == rcell_text("TEMP"@, c.temp as nat)
            &&& written(l[6]) == rcell_text("CLOCK"@, c.clock as nat)
        }),
{
}

proof fn links_stand(
    cols: nat,
    c: Columns,
    hosts: Seq<SectionModel>,
    probes: Seq<ProbesModel>,
    n: nat,
    series: SeriesModel,
    p: int,
    i: int,
)
    requires
        0 <= p < n <= probes.len(),
        0 <= i < probes[p].interfaces.len(),
    ensures
        stands(
            all_link_rows(cols, c, hosts, probes, n, series),
            link_row(
                cols,
                c,
                label_for(hosts, probes[p].host_id),
                probes[p].host_id,
                probes[p].interfaces[i],
                series,
            ),
        ),
    decreases n,
{
    let before = all_link_rows(cols, c, hosts, probes, (n - 1) as nat, series);
    let here = link_rows(cols, c, hosts, probes[n - 1], series);
    let row = link_row(
        cols,
        c,
        label_for(hosts, probes[p].host_id),
        probes[p].host_id,
        probes[p].interfaces[i],
        series,
    );
    if p == n - 1 {
        assert(here[i] == row);
        stands_behind(before, here, row);
    } else {
        links_stand(cols, c, hosts, probes, (n - 1) as nat, series, p, i);
        stands_in_front(before, here, row);
    }
}

proof fn locks_stand(
    c: Columns,
    hosts: Seq<SectionModel>,
    probes: Seq<ProbesModel>,
    n: nat,
    now: u64,
    p: int,
    i: int,
)
    requires
        0 <= p < n <= probes.len(),
        0 <= i < probes[p].locks.len(),
    ensures
        stands(
            all_lock_rows(c, hosts, probes, n, now),
            lock_row(c, label_for(hosts, probes[p].host_id), probes[p].locks[i], now),
        ),
    decreases n,
{
    let before = all_lock_rows(c, hosts, probes, (n - 1) as nat, now);
    let here = lock_rows(c, hosts, probes[n - 1], now);
    let row = lock_row(c, label_for(hosts, probes[p].host_id), probes[p].locks[i], now);
    if p == n - 1 {
        assert(here[i] == row);
        stands_behind(before, here, row);
    } else {
        locks_stand(c, hosts, probes, (n - 1) as nat, now, p, i);
        stands_in_front(before, here, row);
    }
}

proof fn found_in_order(hosts: Seq<SectionModel>, probes: Seq<ProbesModel>, p: int) -> (q: int)
    requires
        0 <= p < probes.len(),
    ensures
        0 <= q < probes_in_order(hosts, probes).len(),
        probes_in_order(hosts, probes)[q] == probes[p],
{
    let order = probes_in_order(hosts, probes);
    sorting_keeps_elements(probes, stands_before(hosts));
    assert(probes.to_multiset().count(probes[p]) > 0) by {
        probes.to_multiset_ensures();
        assert(probes.contains(probes[p]));
    }
    order.to_multiset_ensures();
    assert(order.contains(probes[p]));
    choose|q: int| 0 <= q < order.len() && order[q] == probes[p]
}

/// Every interface of every host has its row, under the host's label, with and
/// without a pipeline.
pub proof fn every_link_is_listed(
    cols: nat,
    hosts: Seq<SectionModel>,
    probes: Seq<ProbesModel>,
    pipeline: Option<PipelineStatus>,
    series: SeriesModel,
    now: u64,
    p: int,
    i: int,
)
    requires
        0 <= p < probes.len(),
        0 <= i < probes[p].interfaces.len(),
    ensures
        stands(
            tab_rows(cols, hosts, probes, pipeline, series, now),
            link_row(
                cols,
                columns_at(cols),
                label_for(hosts, probes[p].host_id),
                probes[p].host_id,
                probes[p].interfaces[i],
                series,
            ),
        ),
{
    let c = columns_at(cols);
    let order = probes_in_order(hosts, probes);
    let q = found_in_order(hosts, probes, p);
    let row = link_row(
        cols,
        c,
        label_for(hosts, probes[p].host_id),
        probes[p].host_id,
        probes[p].interfaces[i],
        series,
    );
    links_stand(cols, c, hosts, order, order.len(), series, q, i);
    let links = all_link_rows(cols, c, hosts, order, order.len(), series);
    let locks = all_lock_rows(c, hosts, order, order.len(), now);
    match pipeline {
        Some(s) => {
            stands_behind(
                panel_rows(cols, c, hosts, s, series) + locks,
                links,
                row,
            );
        },
        None => {
            assert(any_links(probes));
            stands_behind(seq![RowText::empty()], links, row);
            stands_in_front(seq![RowText::empty()] + links, locks, row);
        },
    }
    let t = totals_of(tally(hosts, hosts.len()));
    stands_behind(
        table_rows(cols, c, hosts, t, series),
        probe_rows(cols, c, hosts, probes, pipeline, series, now),
        row,
    );
}

/// Every lock of every host has its row, under the host's label, with and without
/// a pipeline.
pub proof fn every_lock_is_listed(
    cols: nat,
    hosts: Seq<SectionModel>,
    probes: Seq<ProbesModel>,
    pipeline: Option<PipelineStatus>,
    series: SeriesModel,
    now: u64,
    p: int,
    i: int,
)
    requires
        0 <= p < probes.len(),
        0 <= i < probes[p].locks.len(),
    ensures
        stands(
            tab_rows(cols, hosts, probes, pipeline, series, now),
            lock_row(
                columns_at(cols),
                label_for(hosts, probes[p].host_id),
                probes[p].locks[i],
                now,
            ),
        ),
{
    let c = columns_at(cols);
    let order = probes_in_order(hosts, probes);
    let q = found_in_order(hosts, probes, p);
    let row = lock_row(c, label_for(hosts, probes[p].host_id), probes[p].locks[i], now);
    locks_stand(c, hosts, order, order.len(), now, q, i);
    let links = all_link_rows(cols, c, hosts, order, order.len(), series);
    let locks = all_lock_rows(c, hosts, order, order.len(), now);
    match pipeline {
        Some(s) => {
            let panel = panel_rows(cols, c, hosts, s, series);
            stands_behind(panel, locks, row);
            stands_in_front(panel + locks, links, row);
        },
        None => {
            assert(any_locks(probes));
            stands_behind(seq![RowText::empty()] + links, locks, row);
        },
    }
    let t = totals_of(tally(hosts, hosts.len()));
    stands_behind(
        table_rows(cols, c, hosts, t, series),
        probe_rows(cols, c, hosts, probes, pipeline, series, now),
        row,
    );
}

proof fn the_table_ends_with_the_totals(
    cols: nat,
    c: Columns,
    hosts: Seq<SectionModel>,
    t: Totals,
    series: SeriesModel,
)
    ensures
        ({
            let rows = table_rows(cols, c, hosts, t, series);
            let listed = all_host_rows(hosts, hosts.len(), c, series).len();
            let sums = total_rows(c, t, series);
            &&& rows.len() == listed + 3 + sums.len()
            &&& rows.skip(listed as int + 3) =~= sums
        }),
{
}

proof fn pools_stand_below(c: Columns, t: Totals, series: SeriesModel)
    ensures
        ({
            let rows = total_rows(c, t, series);
            &&& rows[0] == totals_row(c, t, series)
            &&& rows.len() == if pool_parts(t).len() == 0 {
                1
            } else {
                2int
            }
            &&& pool_parts(t).len() > 0 && joined(pool_parts(t), " · "@).len() > 0 ==> written(
                rows[1][1],
            ) == joined(pool_parts(t), " · "@)
        }),
{
}

/// Without probes and without a pipeline the tab ends with the totals; the pools
/// of unified memory stand in a row below them, where there are any.
pub proof fn the_totals_close_the_table(
    cols: nat,
    hosts: Seq<SectionModel>,
    series: SeriesModel,
    now: u64,
)
    ensures
        ({
            let t = totals_of(tally(hosts, hosts.len()));
            let c = columns_at(cols);
            let rows = tab_rows(cols, hosts, seq![], None, series, now);
            let sums = rows.skip(3 + all_host_rows(hosts, hosts.len(), c, series).len() as int);
            &&& sums.len() == if pool_parts(t).len() == 0 {
                1
            } else {
                2int
            }
            &&& sums[0] == totals_row(c, t, series)
            &&& pool_parts(t).len() > 0 && joined(pool_parts(t), " · "@).len() > 0 ==> written(
                sums[1][1],
            ) == joined(pool_parts(t), " · "@)
        }),
{
    let t = totals_of(tally(hosts, hosts.len()));
    let c = columns_at(cols);
    let table = table_rows(cols, c, hosts, t, series);
    let rest = probe_rows(cols, c, hosts, seq![], None, series, now);
    assert(!any_links(seq![]));
    assert(!any_locks(seq![]));
    assert(rest == Seq::<RowText>::empty());
    assert(tab_rows(cols, hosts, seq![], None, series, now) =~= table);
    the_table_ends_with_the_totals(cols, c, hosts, t, series);
    pools_stand_below(c, t, series);
}

/// The place of a host is that of the first section with its identifier, and
/// behind all of them where there is none.
pub proof fn hosts_have_their_place(hosts: Seq<SectionModel>, i: int)
    requires
        0 <= i < hosts.len(),
        forall|j: int| 0 <= j < i ==> (#[trigger] hosts[j]).host_id != hosts[i].host_id,
    ensures
        place_of(hosts, hosts[i].host_id) == i,
    decreases i,
{
    if i > 0 {
        let rest = hosts.drop_first();
        assert(hosts[0].host_id != hosts[i].host_id);
        assert(rest[i - 1] == hosts[i]);
        assert forall|j: int| 0 <= j < i - 1 implies (#[trigger] rest[j]).host_id
            != rest[i - 1].host_id by {
            assert(rest[j] == hosts[j + 1]);
        }
        hosts_have_their_place(rest, i - 1);
    }
}

} // verus!
