//! What the All tab shows of the model.
use vstd::arithmetic::div_mod::*;
use vstd::arithmetic::power2::*;
use vstd::prelude::*;
use vstd::string::*;

use crate::app_state::SortCriteria;
use crate::order::sorted;
use crate::reading::{
    bits_of_a_power, multiples_divide_evenly, naturals_are_finite, naturals_keep_their_order,
    whole_numbers_are_written_plainly, Reading, STEP,
};
use crate::text::{decimal, padded};
use crate::ui::cluster::{goes_first, passing, shown_devices, sort_key, TableView};
use crate::ui::cluster::devices::{device_cells, host_cells, Columns};
use crate::ui::cluster::header::{
    devices_block, down_labels, overview, power_block, util_block, with_hosts_block,
    with_pool_block, with_temp_block, BlockModel, UnderModel,
};
use crate::ui::cluster::line::{
    cell_text, duration_text, emitted, fitted_name, gib_text, line_width, plain_text, rate_text,
    rcell_text, watts_text, LineText, Screen, GIB,
};
use crate::ui::consolidated::model::{device_label, DeviceModel, MemoryKind, SectionModel, Totals};
use crate::ui::theme::{Color, CRIT};

verus! {

/// Whether a block with this label shows this value.
pub open spec fn shows(b: Seq<BlockModel>, label: Seq<char>, value: Seq<char>) -> bool {
    exists|i: int| 0 <= i < b.len() && (#[trigger] b[i]).label == label && b[i].value == value
}

/// Whether a block has this label.
pub open spec fn has_block(b: Seq<BlockModel>, label: Seq<char>) -> bool {
    exists|i: int| 0 <= i < b.len() && (#[trigger] b[i]).label == label
}

proof fn one_block_more(b: Seq<BlockModel>, x: BlockModel)
    ensures
        shows(b.push(x), x.label, x.value),
        forall|l: Seq<char>, v: Seq<char>| #[trigger]
            shows(b, l, v) ==> shows(b.push(x), l, v),
        forall|l: Seq<char>| #[trigger]
            has_block(b.push(x), l) == (has_block(b, l) || l == x.label),
{
    let more = b.push(x);
    assert(more[b.len() as int] == x);
    assert forall|l: Seq<char>, v: Seq<char>| #[trigger] shows(b, l, v) implies shows(
        more,
        l,
        v,
    ) by {
        let i = choose|i: int|
            0 <= i < b.len() && (#[trigger] b[i]).label == l && b[i].value == v;
        assert(more[i] == b[i]);
    }
    assert forall|l: Seq<char>| #[trigger]
        has_block(more, l) == (has_block(b, l) || l == x.label) by {
        if has_block(b, l) {
            let i = choose|i: int| 0 <= i < b.len() && (#[trigger] b[i]).label == l;
            assert(more[i] == b[i]);
        }
        if has_block(more, l) {
            let i = choose|i: int| 0 <= i < more.len() && (#[trigger] more[i]).label == l;
            if i < b.len() {
                assert(b[i] == more[i]);
            }
        }
    }
}

/// A pool of memory, in use and in all.
pub open spec fn pool(used: u64, total: u64) -> Seq<char> {
    gib_text(used as nat) + " / "@ + gib_text(total as nat) + " GiB"@
}

/// The overview shows the totals: how many accelerators there are, their mean
/// utilization, each pool of memory under its own name where there is one, the
/// power of all of them, and the highest temperature with its threshold.
pub proof fn the_overview_shows_the_totals(t: Totals, hosts: Seq<SectionModel>)
    ensures
        ({
            let o = overview(t, hosts);
            &&& shows(o, "ACCELERATORS"@, decimal(t.devices as nat))
            &&& t.avg_utilization matches Some(u) ==> shows(
                o,
                "GPU UTIL"@,
                u.fixed(0) + "% avg"@,
            )
            &&& t.avg_utilization is None ==> shows(o, "GPU UTIL"@, "n/a"@)
            &&& t.unified_total > 0 ==> shows(
                o,
                "UNIFIED MEMORY"@,
                pool(t.unified_used, t.unified_total),
            )
            &&& t.dedicated_total > 0 ==> shows(
                o,
                "VRAM"@,
                pool(t.dedicated_used, t.dedicated_total),
            )
            &&& t.host_ram_total > 0 ==> shows(
                o,
                "HOST RAM"@,
                pool(t.host_ram_used, t.host_ram_total),
            )
            &&& shows(
                o,
                "POWER"@,
                watts_text(t.unified_power_watts.sum(t.dedicated_power_watts)),
            )
            &&& t.max_temperature matches Some((c, _)) ==> shows(
                o,
                "TEMP MAX"@,
                decimal(c as nat) + "°C"@,
            )
            &&& (exists|i: int| 0 <= i < hosts.len() && !(#[trigger] hosts[i]).connected) ==> shows(
                o,
                "HOSTS"@,
                decimal(t.hosts_up as nat) + " / "@ + decimal(t.hosts_total as nat) + " up"@,
            )
        }),
{
    let down = down_labels(hosts, hosts.len());
    down_hosts_are_named(hosts, hosts.len());
    if exists|i: int| 0 <= i < hosts.len() && !(#[trigger] hosts[i]).connected {
        let i = choose|i: int| 0 <= i < hosts.len() && !(#[trigger] hosts[i]).connected;
        assert(down.contains(hosts[i].label));
        assert(down.len() > 0);
    }
    let zero = Seq::<BlockModel>::empty();
    let a = with_hosts_block(seq![], t, down);
    if down.len() > 0 {
        one_block_more(zero, a[0]);
        assert(zero.push(a[0]) == a);
    }
    one_block_more(a, devices_block(t));
    let a2 = a.push(devices_block(t));
    one_block_more(a2, util_block(t.avg_utilization));
    let b = a2.push(util_block(t.avg_utilization));
    let c = with_pool_block(b, "UNIFIED MEMORY"@, t.unified_used, t.unified_total);
    if t.unified_total > 0 {
        one_block_more(b, c.last());
        assert(b.push(c.last()) == c);
    }
    let d = with_pool_block(c, "VRAM"@, t.dedicated_used, t.dedicated_total);
    if t.dedicated_total > 0 {
        one_block_more(c, d.last());
        assert(c.push(d.last()) == d);
    }
    let e = with_pool_block(d, "HOST RAM"@, t.host_ram_used, t.host_ram_total);
    if t.host_ram_total > 0 {
        one_block_more(d, e.last());
        assert(d.push(e.last()) == e);
    }
    one_block_more(e, power_block(t));
    let f = e.push(power_block(t));
    let g = with_temp_block(f, t.max_temperature);
    if t.max_temperature is Some {
        one_block_more(f, g.last());
        assert(f.push(g.last()) == g);
    }
}

/// The hosts that did not answer are named, in their order, and no other.
pub proof fn down_hosts_are_named(hosts: Seq<SectionModel>, n: nat)
    requires
        n <= hosts.len(),
    ensures
        forall|i: int|
            0 <= i < n && !(#[trigger] hosts[i]).connected ==> down_labels(hosts, n).contains(
                hosts[i].label,
            ),
        forall|k: int|
            0 <= k < down_labels(hosts, n).len() ==> exists|i: int|
                0 <= i < n && !(#[trigger] hosts[i]).connected && hosts[i].label
                    == #[trigger] down_labels(hosts, n)[k],
    decreases n,
{
    if n > 0 {
        let m = (n - 1) as nat;
        down_hosts_are_named(hosts, m);
        let (before, after) = (down_labels(hosts, m), down_labels(hosts, n));
        assert forall|i: int| 0 <= i < n && !(#[trigger] hosts[i]).connected implies after.contains(
            hosts[i].label,
        ) by {
            if i < m {
                let k = choose|k: int| 0 <= k < before.len() && before[k] == hosts[i].label;
                assert(after[k] == before[k]);
            } else {
                assert(after[before.len() as int] == hosts[i].label);
            }
        }
        assert forall|k: int| 0 <= k < after.len() implies exists|i: int|
            0 <= i < n && !(#[trigger] hosts[i]).connected && hosts[i].label
                == #[trigger] after[k] by {
            if k < before.len() {
                assert(after[k] == before[k]);
                let i = choose|i: int|
                    0 <= i < m && !(#[trigger] hosts[i]).connected && hosts[i].label == before[k];
                assert(hosts[i].label == after[k]);
            } else {
                assert(hosts[m as int].label == after[k]);
            }
        }
    }
}

/// The under-lines of the overview say what their values are measured by: a pool
/// of memory its share in use, the power its limit, a temperature the threshold.
pub proof fn the_overview_measures_its_values(
    t: Totals,
    used: u64,
    total: u64,
    label: Seq<char>,
    celsius: u32,
    slowdown: u32,
)
    requires
        total > 0,
    ensures
        ({
            let b = with_pool_block(seq![], label, used, total);
            let share = Reading::of_natural(used as nat).quotient(
                Reading::of_natural(total as nat),
            );
            &&& b.len() == 1
            &&& b[0].under matches UnderModel::Bar { ratio, note, .. } && ratio == share && note
                == share.product(Reading::of_natural(100)).fixed(0) + "%"@
        }),
        t.power_limit_watts.above(Reading { bits: 0 }) ==> (power_block(
            t,
        ).under matches UnderModel::Note(note, _) && note == "limit "@ + watts_text(
            t.power_limit_watts,
        )),
        with_temp_block(seq![], Some((celsius, Some(slowdown))))[0].under matches UnderModel::Note(
            note,
            _,
        ) && note == "slowdown "@ + decimal(slowdown as nat) + "°C"@,
{
}

/// Whether a line holds this text as a piece.
pub open spec fn holds(l: LineText, text: Seq<char>) -> bool {
    exists|k: int| 0 <= k < l.len() && (#[trigger] l[k]).0 == text
}

proof fn one_piece_more(l: LineText, x: (Seq<char>, Color))
    ensures
        holds(l.push(x), x.0),
        forall|s: Seq<char>| #[trigger] holds(l, s) ==> holds(l.push(x), s),
{
    let more = l.push(x);
    assert(more[l.len() as int] == x);
    assert forall|s: Seq<char>| #[trigger] holds(l, s) implies holds(more, s) by {
        let k = choose|k: int| 0 <= k < l.len() && (#[trigger] l[k]).0 == s;
        assert(more[k] == l[k]);
    }
}

/// The row of a device shows its name, its utilization, its memory in use and in
/// all, and, where there is a column for it, its kind of memory, temperature,
/// power and clock, each as the device reports it.
pub proof fn rows_show_what_devices_report(d: DeviceModel, c: Columns, dim: bool)
    ensures
        ({
            let l = device_cells(d, c, dim);
            let memory = gib_text(d.used_memory as nat) + "/"@ + gib_text(d.total_memory as nat)
                + " GiB"@;
            &&& holds(
                l,
                cell_text(fitted_name(device_label(d), c.name as nat), (c.name + 2) as nat),
            )
            &&& holds(
                l,
                rcell_text(
                    if d.utilization is Some {
                        d.utilization->0.fixed(0) + "%"@
                    } else {
                        "n/a"@
                    },
                    6,
                ),
            )
            &&& holds(
                l,
                cell_text(
                    memory,
                    if c.mem_bar > 0 {
                        15
                    } else {
                        16
                    },
                ),
            )
            &&& c.kind ==> holds(
                l,
                cell_text(
                    if d.memory_kind == MemoryKind::Unified {
                        "unified"@
                    } else {
                        "VRAM"@
                    },
                    9,
                ),
            )
            &&& c.temp ==> holds(
                l,
                rcell_text(
                    if d.temperature_c is Some {
                        decimal(d.temperature_c->0 as nat) + "°C"@
                    } else {
                        "n/a"@
                    },
                    7,
                ),
            )
            &&& c.power ==> holds(
                l,
                rcell_text(
                    if d.power_watts is None {
                        "n/a"@
                    } else if d.power_limit_watts is None {
                        watts_text(d.power_watts->0)
                    } else {
                        d.power_watts->0.fixed(0) + "/"@ + d.power_limit_watts->0.fixed(0) + " W"@
                    },
                    12,
                ),
            )
            &&& c.clock ==> holds(
                l,
                rcell_text(
                    if d.frequency_mhz is Some {
                        decimal(d.frequency_mhz->0 as nat) + " MHz"@
                    } else {
                        "n/a"@
                    },
                    11,
                ),
            )
        }),
{
    broadcast use crate::ui::cluster::shown::pieces_stay;

    reveal_strlit(" ");
}

/// A line keeps its pieces when it grows.
pub broadcast proof fn pieces_stay(l: LineText, x: (Seq<char>, Color), s: Seq<char>)
    ensures
        holds(l, s) || x.0 == s ==> #[trigger] holds(l.push(x), s),
{
    one_piece_more(l, x);
}

/// The line of a host names it; one that is unreachable says so, with the reason
/// where it is known.
pub proof fn host_lines_name_the_host(host: SectionModel, cols: nat)
    requires
        !host.connected,
        host.label.len() > 0,
    ensures
        ({
            let l = host_cells(host, cols);
            &&& l.len() >= 4
            &&& l[1].1 == CRIT
            &&& l[2].0 == host.label
            &&& l[3].0 == "  unreachable"@
            &&& host.last_error matches Some(e) ==> l.len() == 5 && l[4].0 == ": "@ + e
        }),
{
    reveal_strlit(" ");
    reveal_strlit("● ");
    reveal_strlit("  unreachable");
    reveal_strlit(": ");
}

/// Sorted by a reading, the devices of a host stand with the higher reading
/// first, and behind all others those that report none.
pub proof fn higher_readings_stand_first(ds: Seq<DeviceModel>, i: int, j: int)
    requires
        0 <= i < j < ds.len(),
    ensures
        ({
            let r = sorted(ds, goes_first(SortCriteria::Utilization));
            r[j].utilization matches Some(u) ==> u.finite() && !u.negative()
                ==> r[i].utilization is Some && (r[i].utilization->0.finite()
                ==> r[i].utilization->0.at_least(u))
        }),
        ({
            let r = sorted(ds, goes_first(SortCriteria::Power));
            r[j].power_watts matches Some(p) ==> p.finite() && !p.negative()
                ==> r[i].power_watts is Some && (r[i].power_watts->0.finite()
                ==> r[i].power_watts->0.at_least(p))
        }),
        ({
            let r = sorted(ds, goes_first(SortCriteria::Temperature));
            r[j].temperature_c matches Some(t) ==> r[i].temperature_c is Some
                && r[i].temperature_c->0 >= t
        }),
        ({
            let r = sorted(ds, goes_first(SortCriteria::GpuMemory));
            r[i].used_memory < 2 * STEP && r[j].used_memory < 2 * STEP ==> r[i].used_memory
                >= r[j].used_memory
        }),
{
    crate::ui::cluster::devices_are_sorted(ds, SortCriteria::Utilization);
    crate::ui::cluster::devices_are_sorted(ds, SortCriteria::Power);
    crate::ui::cluster::devices_are_sorted(ds, SortCriteria::Temperature);
    crate::ui::cluster::devices_are_sorted(ds, SortCriteria::GpuMemory);
    let t = sorted(ds, goes_first(SortCriteria::Temperature));
    let m = sorted(ds, goes_first(SortCriteria::GpuMemory));
    assert(sort_key(t[i], SortCriteria::Temperature).total_rank() >= sort_key(
        t[j],
        SortCriteria::Temperature,
    ).total_rank());
    assert(sort_key(m[i], SortCriteria::GpuMemory).total_rank() >= sort_key(
        m[j],
        SortCriteria::GpuMemory,
    ).total_rank());
    if let Some(x) = t[j].temperature_c {
        naturals_are_finite(x as nat);
        if let Some(y) = t[i].temperature_c {
            naturals_are_finite(y as nat);
            naturals_keep_their_order(x as nat, y as nat);
        }
    }
    naturals_are_finite(m[i].used_memory as nat);
    naturals_are_finite(m[j].used_memory as nat);
    naturals_keep_their_order(m[j].used_memory as nat, m[i].used_memory as nat);
    let u = sorted(ds, goes_first(SortCriteria::Utilization));
    assert(sort_key(u[i], SortCriteria::Utilization).total_rank() >= sort_key(
        u[j],
        SortCriteria::Utilization,
    ).total_rank());
    let p = sorted(ds, goes_first(SortCriteria::Power));
    assert(sort_key(p[i], SortCriteria::Power).total_rank() >= sort_key(
        p[j],
        SortCriteria::Power,
    ).total_rank());
}

/// Devices are hidden only where the filter hides them, and only those that it
/// excludes.
pub proof fn filters_hide_what_they_exclude(host: SectionModel, v: TableView, d: DeviceModel)
    requires
        host.devices.contains(d),
    ensures
        shown_devices(host, v).contains(d) == !(v.hide_filtered && v.filtered_out.contains(d.uuid)),
        shown_devices(host, v).len() <= host.devices.len(),
        !v.hide_filtered ==> shown_devices(host, v).len() == host.devices.len(),
{
    let keep = passing(v);
    let kept = host.devices.filter(keep);
    broadcast use vstd::seq_lib::group_to_multiset_ensures;
    broadcast use vstd::seq_lib::group_seq_properties;

    host.devices.filter_lemma(keep);
    crate::order::sorting_keeps_elements(kept, goes_first(v.sort));
    let all = shown_devices(host, v);
    assert(all.to_multiset() == kept.to_multiset());
    assert(all.contains(d) == (all.to_multiset().count(d) > 0));
    assert(kept.contains(d) == (kept.to_multiset().count(d) > 0));
    if keep(d) {
        let i = choose|i: int| 0 <= i < host.devices.len() && host.devices[i] == d;
        assert(kept.contains(d));
    } else if kept.contains(d) {
        let k = choose|k: int| 0 <= k < kept.len() && kept[k] == d;
        assert(keep(kept[k]));
    }
    if !v.hide_filtered {
        assert(kept == host.devices) by {
            everything_passes(host.devices, keep);
        }
    }
}

proof fn everything_passes(s: Seq<DeviceModel>, keep: spec_fn(DeviceModel) -> bool)
    requires
        forall|d: DeviceModel| #[trigger] keep(d),
    ensures
        s.filter(keep) == s,
    decreases s.len(),
{
    reveal(Seq::filter);
    if s.len() > 0 {
        everything_passes(s.drop_last(), keep);
        assert(s.drop_last().push(s.last()) == s);
    }
}

/// Watts are written in whole numbers from 100 on, with one decimal below.
pub proof fn watts_are_written_by_size(n: nat)
    ensures
        100 <= n < 1000 ==> watts_text(Reading::of_natural(n)) == decimal(n) + " W"@,
        1 <= n < 100 ==> watts_text(Reading::of_natural(n)) == decimal(n) + "."@ + seq!['0']
            + " W"@,
{
    if 1 <= n < 1000 {
        naturals_keep_their_order(1000, n);
        naturals_keep_their_order(100, n);
        naturals_keep_their_order(1, n);
        whole_numbers_are_written_plainly(n);
    }
}

/// A number of GiB is written with one decimal below 100, and without from there
/// on.
pub proof fn memory_is_written_in_gib(k: nat)
    requires
        k < 0x20_0000,
    ensures
        gib_text(k * 0x4000_0000) == if k < 100 {
            decimal(k) + "."@ + seq!['0']
        } else {
            decimal(k)
        },
{
    lemma2_to64();
    bits_of_a_power(30);
    assert(pow2(30) == 0x4000_0000);
    assert(Reading::of_natural(0x4000_0000) == (Reading { bits: GIB }));
    multiples_divide_evenly(k, 0x4000_0000);
    naturals_keep_their_order(100, k);
    whole_numbers_are_written_plainly(k);
}

/// A rate below a thousand is written in bytes per second; from there on in
/// thousands, millions and billions of them.
pub proof fn rates_are_written_by_size(n: nat)
    ensures
        rate_text(None) == "n/a"@,
        n < 1000 ==> rate_text(Some(Reading::of_natural(n))) == decimal(n) + " B/s"@,
        1 <= n < 1000 ==> rate_text(Some(Reading::of_natural(n * 1000))) == decimal(n) + "."@
            + seq!['0'] + " KB/s"@,
        1 <= n < 1000 ==> rate_text(Some(Reading::of_natural(n * 1_000_000))) == decimal(n)
            + "."@ + seq!['0'] + " MB/s"@,
{
    if n < 1000 {
        naturals_keep_their_order(1_000_000_000, n);
        naturals_keep_their_order(1_000_000, n);
        naturals_keep_their_order(1000, n);
        whole_numbers_are_written_plainly(n);
        naturals_keep_their_order(1_000_000_000, n * 1000);
        naturals_keep_their_order(1_000_000, n * 1000);
        naturals_keep_their_order(1000, n * 1000);
        multiples_divide_evenly(n, 1000);
        naturals_keep_their_order(1_000_000_000, n * 1_000_000);
        naturals_keep_their_order(1_000_000, n * 1_000_000);
        multiples_divide_evenly(n, 1_000_000);
    }
}

/// A duration is written in its two largest units.
pub proof fn durations_are_written_in_two_units(a: nat, b: nat, rest: nat)
    ensures
        a < 60 ==> duration_text(a) == decimal(a) + "s"@,
        1 <= a < 60 && b < 60 ==> duration_text(a * 60 + b) == decimal(a) + "m "@ + padded(b, 2)
            + "s"@,
        1 <= a < 24 && b < 60 && rest < 60 ==> duration_text(a * 3600 + b * 60 + rest) == decimal(
            a,
        ) + "h "@ + padded(b, 2) + "m"@,
        1 <= a && b < 24 && rest < 3600 ==> duration_text(a * 86400 + b * 3600 + rest) == decimal(
            a,
        ) + "d "@ + padded(b, 2) + "h"@,
{
    if 1 <= a < 60 && b < 60 {
        lemma_fundamental_div_mod_converse((a * 60 + b) as int, 60, a as int, b as int);
    }
    if 1 <= a < 24 && b < 60 && rest < 60 {
        let n = a * 3600 + b * 60 + rest;
        lemma_fundamental_div_mod_converse(
            n as int,
            3600,
            a as int,
            (b * 60 + rest) as int,
        );
        lemma_fundamental_div_mod_converse((b * 60 + rest) as int, 60, b as int, rest as int);
    }
    if 1 <= a && b < 24 && rest < 3600 {
        let n = a * 86400 + b * 3600 + rest;
        lemma_fundamental_div_mod_converse(
            n as int,
            86400,
            a as int,
            (b * 3600 + rest) as int,
        );
        lemma_fundamental_div_mod_converse((b * 3600 + rest) as int, 3600, b as int, rest as int);
    }
}

/// What is emitted stays on the screen as long as there are rows: a line more is
/// the last one, and all before it are as they were.
pub proof fn lines_are_emitted_in_order(s: Screen, l: LineText)
    ensures
        s.rows_left > 0 ==> {
            let t = emitted(s, l);
            &&& t.lines.len() == s.lines.len() + 1
            &&& t.lines.drop_last() == s.lines
            &&& line_width(l) <= s.cols ==> plain_text(t.lines.last()) == plain_text(l)
        },
        s.rows_left == 0 ==> emitted(s, l) == s,
{
    if s.rows_left > 0 {
        assert(emitted(s, l).lines.drop_last() == s.lines);
        if line_width(l) <= s.cols {
            short_lines_stay(l, s.cols);
        }
    }
}

proof fn short_lines_stay(l: LineText, cols: nat)
    requires
        line_width(l) <= cols,
    ensures
        plain_text(crate::ui::cluster::line::clipped(l, cols)) == plain_text(l),
    decreases l.len(),
{
    let c = crate::ui::cluster::line::clipped(l, cols);
    if l.len() == 0 {
    } else {
        front_of_a_line(l);
        let t = crate::text::clip(l[0].0, cols);
        if cols == 0 {
            nothing_wide_is_empty(l);
        } else {
            assert(t == l[0].0);
            let rest = l.drop_first();
            short_lines_stay(rest, (cols - t.len()) as nat);
            let tail = crate::ui::cluster::line::clipped(rest, (cols - t.len()) as nat);
            front_of_a_line(c);
            assert(c.drop_first() == tail);
        }
    }
}

proof fn front_of_a_line(l: LineText)
    requires
        l.len() > 0,
    ensures
        plain_text(l) == l[0].0 + plain_text(l.drop_first()),
        line_width(l) == l[0].0.len() + line_width(l.drop_first()),
    decreases l.len(),
{
    if l.len() == 1 {
        assert(l.drop_first() == Seq::<(Seq<char>, Color)>::empty());
        assert(l.drop_last() == Seq::<(Seq<char>, Color)>::empty());
        assert(plain_text(l.drop_last()) == Seq::<char>::empty());
        assert(Seq::<char>::empty() + l[0].0 == l[0].0);
        assert(l[0].0 + Seq::<char>::empty() == l[0].0);
        assert(plain_text(l.drop_first()) == Seq::<char>::empty());
    } else {
        front_of_a_line(l.drop_last());
        assert(l.drop_first().drop_last() == l.drop_last().drop_first());
        assert(l.drop_first().last() == l.last());
        assert(plain_text(l) == l[0].0 + plain_text(l.drop_first()));
    }
}

proof fn nothing_wide_is_empty(l: LineText)
    requires
        line_width(l) == 0,
    ensures
        plain_text(l) == Seq::<char>::empty(),
    decreases l.len(),
{
    if l.len() > 0 {
        nothing_wide_is_empty(l.drop_last());
        assert(l.last().0 == Seq::<char>::empty());
    }
}

/// A cell shows its text, cut where it does not fit, and fills its width: behind
/// the text, or before it where it is right-aligned.
pub proof fn cells_show_their_text(s: Seq<char>, width: nat)
    requires
        width > 0,
    ensures
        cell_text(s, width).len() == width,
        rcell_text(s, width).len() == width,
        s.len() < width ==> cell_text(s, width).take(s.len() as int) == s,
        s.len() < width ==> rcell_text(s, width).subrange(
            width - 1 - s.len(),
            width - 1,
        ) == s,
        forall|i: int| s.len() <= i < width ==> cell_text(s, width)[i] == ' ',
        forall|i: int|
            0 <= i < width - 1 - s.len() ==> rcell_text(s, width)[i] == ' ',
        s.len() >= width ==> cell_text(s, width).take(width - 1) == s.take(width - 1),
        s.len() >= width ==> rcell_text(s, width).take(width - 1) == s.take(width - 1),
{
    reveal_strlit(" ");
    if s.len() < width {
        assert(cell_text(s, width).take(s.len() as int) == s);
        assert(rcell_text(s, width).subrange(width - 1 - s.len(), width - 1) == s);
    } else {
        assert(cell_text(s, width).take(width - 1) == s.take(width - 1));
        assert(rcell_text(s, width).take(width - 1) == s.take(width - 1));
    }
}

} // verus!
