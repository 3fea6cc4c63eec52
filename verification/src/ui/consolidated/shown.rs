//! What the Consolidated tab shows of the model.
use vstd::prelude::*;
use vstd::string::*;

use crate::probes::lock::LockModel;
use crate::probes::net::NetSampleModel;
use crate::reading::Reading;
use crate::text::{decimal, first_of, joined};
use crate::ui::cluster::header::less;
use crate::ui::cluster::line::{
    cell_text, duration_text, fitted_name, plural_text, rate_text, rcell_text, watts_text,
};
use crate::ui::consolidated::history::{samples_of, SeriesModel};
use crate::ui::consolidated::model::{DeviceModel, MemoryKind, SectionModel, Totals};
use crate::ui::consolidated::render::{
    absence, device_ceiling, device_entries, device_entry, device_row, device_title, gib1,
    holder_words, link_row, lock_row, percent_used, plain_cell, plain_rcell, pool_parts,
    power_figure, rail_parts, shortened, title_row, totals_row, value_cells, Columns,
};
use crate::ui::consolidated::row::{RowText, SegmentModel, HEADING, LABEL, VALUE};
use crate::ui::theme::Color;

verus! {

/// The text of a segment.
pub open spec fn written(s: SegmentModel) -> Seq<char> {
    match s {
        SegmentModel::Text(t, _) => t,
        SegmentModel::Spark { .. } => Seq::empty(),
    }
}

/// A number of bytes in GiB with one decimal.
pub open spec fn gib(bytes: nat) -> Seq<char> {
    Reading::of_natural(bytes).quotient(Reading { bits: 0x41d0_0000_0000_0000 }).fixed(1)
}

/// The row of a device shows, each in its column, its name, its utilization, its
/// memory in use and in all with its kind, its power with the limit, its
/// temperature and, where there is a column for it, its clock.
pub proof fn rows_show_what_devices_report(
    label: SegmentModel,
    c: Columns,
    d: DeviceModel,
    connected: bool,
)
    ensures
        ({
            let l = value_cells(seq![label], c, d, connected);
            let room = less(c.device as nat, 1);
            &&& l.len() == if c.clock > 0 {
                7
            } else {
                6int
            }
            &&& l[0] == label
            &&& written(l[1]) == cell_text(
                fitted_name(device_title(d, connected, room), room),
                c.device as nat,
            )
            &&& written(l[2]) == rcell_text(
                if d.utilization is Some {
                    d.utilization->0.fixed(1) + "%"@
                } else {
                    "n/a"@
                },
                c.util as nat,
            )
            &&& written(l[3]) == cell_text(
                gib(d.used_memory as nat) + "/"@ + gib(d.total_memory as nat) + " GiB "@ + (
                if d.memory_kind == MemoryKind::Unified {
                    "unified"@
                } else {
                    "VRAM"@
                }),
                c.mem as nat,
            )
            &&& written(l[4]) == rcell_text(
                power_figure(d.power_watts, d.power_limit_watts),
                c.power as nat,
            )
            &&& written(l[5]) == rcell_text(
                if d.temperature_c is Some {
                    decimal(d.temperature_c->0 as nat) + "°C"@
                } else {
                    "n/a"@
                },
                c.temp as nat,
            )
            &&& c.clock > 0 ==> written(l[6]) == rcell_text(
                if d.frequency_mhz is Some {
                    decimal(d.frequency_mhz->0 as nat) + " MHz"@
                } else {
                    "n/a"@
                },
                c.clock as nat,
            )
        }),
{
}

/// Power is shown against the limit in whole watts where there is one, and alone
/// where there is none.
pub proof fn power_is_shown_against_its_limit(p: Reading, limit: Reading)
    ensures
        power_figure(None, Some(limit)) == "n/a"@,
        power_figure(Some(p), None) == watts_text(p),
        p.at_least(Reading::of_natural(100)) && !p.at_least(Reading::of_natural(1000))
            ==> power_figure(Some(p), Some(limit)) == p.fixed(0) + "/"@ + limit.fixed(0) + " W"@,
        p.at_least(Reading::of_natural(1)) && !p.at_least(Reading::of_natural(100))
            && !p.at_least(Reading::of_natural(1000)) ==> power_figure(Some(p), Some(limit))
            == p.fixed(1) + "/"@ + limit.fixed(0) + " W"@,
{
}

/// A device is called by its name, with its core count where there is room, and
/// marked where its host is gone.
pub proof fn devices_are_called_by_name(d: DeviceModel, room: nat)
    ensures
        d.core_count is None ==> device_title(d, true, room) == d.name,
        d.core_count matches Some(n) ==> d.name.len() + 12 <= room ==> device_title(d, true, room)
            == d.name + " ("@ + decimal(n as nat) + " cores)"@,
        d.core_count is Some && d.name.len() + 12 > room ==> device_title(d, true, room) == d.name,
        device_title(d, false, room) == device_title(d, true, room) + " (stale)"@,
{
}

/// The sparklines of a device are those of its own series, up to a hundred
/// percent and up to its power limit or its highest sample.
pub proof fn sparklines_show_their_own_series(
    r: RowText,
    c: Columns,
    d: DeviceModel,
    connected: bool,
    series: SeriesModel,
)
    requires
        c.spark_util > 0,
        c.spark_power > 0,
    ensures
        ({
            let l = device_row(r, c, d, connected, series);
            let n = l.len();
            &&& n >= 4
            &&& l[n - 3] matches SegmentModel::Spark { values, width, ceiling, .. } && values
                == samples_of(series, "util:"@ + d.uuid) && width == c.spark_util && ceiling
                == Reading::of_natural(100)
            &&& l[n - 1] matches SegmentModel::Spark { values, width, ceiling, .. } && values
                == samples_of(series, "power:"@ + d.uuid) && width == c.spark_power && ceiling
                == device_ceiling(d.power_limit_watts, samples_of(series, "power:"@ + d.uuid))
        }),
{
    reveal_strlit(" ");
}

/// The row of totals shows how many accelerators there are, their mean
/// utilization, the memory of both kinds together, and their power together.
pub proof fn totals_are_shown_together(c: Columns, t: Totals, series: SeriesModel)
    ensures
        ({
            let l = totals_row(c, t, series);
            let used = (t.unified_used + t.dedicated_used) as nat;
            let all = (t.unified_total + t.dedicated_total) as nat;
            let share = if all > 0 {
                Reading::of_natural(used).product(Reading::of_natural(100)).quotient(
                    Reading::of_natural(all),
                )
            } else {
                Reading { bits: 0 }
            };
            &&& l.len() >= 6
            &&& written(l[0]) == cell_text("TOTAL"@, c.host as nat)
            &&& written(l[1]) == cell_text(
                plural_text(t.devices as nat, "accelerator"@),
                c.device as nat,
            )
            &&& written(l[2]) == rcell_text(
                if t.avg_utilization is Some {
                    t.avg_utilization->0.fixed(1) + "%"@
                } else {
                    "n/a"@
                },
                c.util as nat,
            )
            &&& written(l[3]) == cell_text(
                gib(used) + "/"@ + gib(all) + " GiB "@ + share.fixed(0) + "%"@,
                c.mem as nat,
            )
            &&& written(l[4]) == rcell_text(
                watts_text(t.unified_power_watts.sum(t.dedicated_power_watts)),
                c.power as nat,
            )
        }),
{
    let used = (t.unified_used + t.dedicated_used) as nat;
    let all = (t.unified_total + t.dedicated_total) as nat;
    let a = plain_cell(
        plain_cell(seq![], "TOTAL"@, c.host, HEADING),
        plural_text(t.devices as nat, "accelerator"@),
        c.device,
        VALUE,
    );
    let b = match t.avg_utilization {
        Some(u) => plain_rcell(a, u.fixed(1) + "%"@, c.util, VALUE),
        None => plain_rcell(a, "n/a"@, c.util, LABEL),
    };
    let d = plain_cell(
        b,
        gib1(used) + "/"@ + gib1(all) + " GiB "@ + percent_used(used, all).fixed(0) + "%"@,
        c.mem,
        VALUE,
    );
    let power = t.unified_power_watts.sum(t.dedicated_power_watts);
    let e = plain_rcell(plain_rcell(d, watts_text(power), c.power, VALUE), ""@, c.temp, VALUE);
    assert(e.len() == 6);
    totals_begin_so(c, t, series, e);
}

proof fn totals_begin_so(c: Columns, t: Totals, series: SeriesModel, e: RowText)
    requires
        e.len() == 6,
        ({
            let used = (t.unified_used + t.dedicated_used) as nat;
            let all = (t.unified_total + t.dedicated_total) as nat;
            let a = plain_cell(
                plain_cell(seq![], "TOTAL"@, c.host, HEADING),
                plural_text(t.devices as nat, "accelerator"@),
                c.device,
                VALUE,
            );
            let b = match t.avg_utilization {
                Some(u) => plain_rcell(a, u.fixed(1) + "%"@, c.util, VALUE),
                None => plain_rcell(a, "n/a"@, c.util, LABEL),
            };
            let d = plain_cell(
                b,
                gib1(used) + "/"@ + gib1(all) + " GiB "@ + percent_used(used, all).fixed(0)
                    + "%"@,
                c.mem,
                VALUE,
            );
            let power = t.unified_power_watts.sum(t.dedicated_power_watts);
            e == plain_rcell(
                plain_rcell(d, watts_text(power), c.power, VALUE),
                ""@,
                c.temp,
                VALUE,
            )
        }),
    ensures
        totals_row(c, t, series).len() >= 6,
        forall|i: int| 0 <= i < 6 ==> totals_row(c, t, series)[i] == #[trigger] e[i],
{
}

/// The pools stand apart, each with its own memory and power, and only where
/// there is memory of that kind.
pub proof fn pools_stand_apart(t: Totals)
    ensures
        ({
            let unified = "unified "@ + gib(t.unified_used as nat) + "/"@ + gib(
                t.unified_total as nat,
            ) + " GiB, SoC GPU "@ + watts_text(t.unified_power_watts);
            let dedicated = "VRAM "@ + gib(t.dedicated_used as nat) + "/"@ + gib(
                t.dedicated_total as nat,
            ) + " GiB, discrete GPUs "@ + watts_text(t.dedicated_power_watts);
            &&& t.unified_total > 0 && t.dedicated_total > 0 ==> pool_parts(t) == seq![
                unified,
                dedicated,
            ]
            &&& t.unified_total > 0 && t.dedicated_total == 0 ==> pool_parts(t) == seq![unified]
            &&& t.unified_total == 0 && t.dedicated_total > 0 ==> pool_parts(t) == seq![dedicated]
            &&& t.unified_total == 0 && t.dedicated_total == 0 ==> pool_parts(t).len() == 0
        }),
{
}

/// The title counts the accelerators and the hosts, and how many of them
/// answered.
pub proof fn the_title_counts_the_system(t: Totals)
    ensures
        title_row(t).len() == 2,
        written(title_row(t)[1]) == "  "@ + plural_text(t.devices as nat, "accelerator"@)
            + " on "@ + plural_text(t.hosts_total as nat, "host"@) + " ("@ + decimal(
            t.hosts_up as nat,
        ) + " up) as one system"@,
{
    reveal_strlit("Consolidated");
    reveal_strlit("  ");
    let s = "  "@ + plural_text(t.devices as nat, "accelerator"@) + " on "@ + plural_text(
        t.hosts_total as nat,
        "host"@,
    ) + " ("@ + decimal(t.hosts_up as nat) + " up) as one system"@;
    assert(s.len() > 0);
}

/// A host without devices says why: that it reports none, or what went wrong.
pub proof fn hosts_without_devices_say_why(host: SectionModel)
    ensures
        host.connected ==> absence(host) == "connected, no accelerators reported"@,
        !host.connected ==> (host.last_error matches Some(e) ==> absence(host)
            == "unreachable: "@ + e),
        !host.connected && host.last_error is None ==> absence(host) == "unreachable: "@
            + "no response yet"@,
{
}

proof fn rows_begin_as_they_do(
    r: RowText,
    c: Columns,
    d: DeviceModel,
    connected: bool,
    series: SeriesModel,
)
    requires
        r.len() > 0,
    ensures
        device_row(r, c, d, connected, series).len() > 0,
        device_row(r, c, d, connected, series)[0] == r[0],
{
}

/// Every device of every host has its row, in their order; the first of a host
/// carries its label, and the rails that share a device's budget stand below it.
pub proof fn devices_are_listed_in_order(
    host: SectionModel,
    n: nat,
    c: Columns,
    series: SeriesModel,
)
    requires
        n < host.devices.len(),
    ensures
        ({
            let (before, after) = (
                device_entries(host, n, c, series),
                device_entries(host, n + 1, c, series),
            );
            let d = host.devices[n as int];
            let rails = rail_parts(d, host);
            let entry = after.skip(before.len() as int);
            &&& after.take(before.len() as int) == before
            &&& entry.len() == if d.ane_watts is Some {
                2
            } else {
                1int
            }
            &&& entry[0].len() > 0
            &&& written(entry[0][0]) == cell_text(
                if n == 0 {
                    host.label
                } else {
                    ""@
                },
                c.host as nat,
            )
            &&& d.ane_watts matches Some(ane) ==> {
                &&& rails[0] == "ANE "@ + watts_text(ane)
                &&& host.cpu_power_watts matches Some(cpu) ==> rails.len() == 2 && rails[1]
                    == "CPU "@ + watts_text(cpu)
                &&& written(entry[1].last()) == "└ "@ + joined(rails, " · "@)
            }
        }),
{
    let (before, after) = (
        device_entries(host, n, c, series),
        device_entries(host, n + 1, c, series),
    );
    let entry = device_entry(host, n as int, c, series);
    let start = plain_cell(
        seq![],
        if n == 0 {
            host.label
        } else {
            ""@
        },
        c.host,
        if host.connected {
            VALUE
        } else {
            Color::Red
        },
    );
    rows_begin_as_they_do(start, c, host.devices[n as int], host.connected, series);
    assert(after.take(before.len() as int) == before);
    assert(after.skip(before.len() as int) == entry);
    reveal_strlit("└ ");
    reveal_strlit(" ");
    let d = host.devices[n as int];
    let s = "└ "@ + joined(rail_parts(d, host), " · "@);
    assert(s.len() > 0);
}

/// A link is shown with what it receives behind the arrow down, and what it sends
/// behind the arrow up.
pub proof fn links_show_both_directions(
    cols: nat,
    c: Columns,
    label: Seq<char>,
    host: Seq<char>,
    l: NetSampleModel,
    series: SeriesModel,
)
    ensures
        ({
            let r = link_row(cols, c, label, host, l, series);
            &&& r.len() >= 7
            &&& written(r[1]) == cell_text(label, 22)
            &&& written(r[2]) == cell_text(l.interface, 16)
            &&& written(r[3]) == "↓ "@
            &&& written(r[4]) == rcell_text(rate_text(l.rx_bytes_per_sec), 11)
            &&& written(r[5]) == "  ↑ "@
            &&& written(r[6]) == rcell_text(rate_text(l.tx_bytes_per_sec), 11)
            &&& r.len() > 7 ==> {
                &&& r.len() == 11
                &&& r[8] matches SegmentModel::Spark { values, .. } && values == samples_of(
                    series,
                    "net_rx:"@ + host + "/"@ + l.interface,
                )
                &&& r[10] matches SegmentModel::Spark { values, .. } && values == samples_of(
                    series,
                    "net_tx:"@ + host + "/"@ + l.interface,
                )
            }
        }),
{
    reveal_strlit("↓ ");
    reveal_strlit("  ↑ ");
    reveal_strlit("  ");
    reveal_strlit(" ");
}

/// A lock is free, or held by its holders for as long as they are dated.
pub proof fn locks_show_their_holders(c: Columns, label: Seq<char>, lock: LockModel, now: u64)
    requires
        shortened(lock.path).len() > 0,
        lock.holders.len() > 0 ==> joined(holder_words(lock.holders), ", "@).len() > 0,
    ensures
        ({
            let r = lock_row(c, label, lock, now);
            &&& written(r[1]) == cell_text(label, 22)
            &&& written(r[2]) == shortened(lock.path)
            &&& lock.holders.len() == 0 ==> r.len() == 5 && written(r[4]) == "free"@
            &&& lock.holders.len() > 0 ==> {
                &&& written(r[4]) == "held by "@
                &&& written(r[5]) == joined(holder_words(lock.holders), ", "@)
                &&& lock.since_unix matches Some(since) ==> r.len() == 7 && written(r[6])
                    == " for "@ + duration_text(
                    if now >= since {
                        (now - since) as nat
                    } else {
                        0
                    },
                )
            }
        }),
        forall|i: int|
            0 <= i < lock.holders.len() ==> (#[trigger] holder_words(lock.holders)[i])
                == lock.holders[i].1 + " (pid "@ + decimal(lock.holders[i].0 as nat) + ")"@,
{
    reveal_strlit("  ");
    reveal_strlit("free");
    reveal_strlit("held by ");
    reveal_strlit(" for ");
}

/// A path below a home directory is shown from there on.
pub proof fn paths_are_shortened_below_home(user: Seq<char>, rest: Seq<char>)
    requires
        !user.contains('/'),
    ensures
        shortened("/Users/"@ + user + seq!['/'] + rest) == "~/"@ + rest,
{
    let root = "/Users/"@;
    let path = root + user + seq!['/'] + rest;
    reveal_strlit("/Users/");
    assert(path.take(root.len() as int) == root);
    let tail = user + seq!['/'] + rest;
    assert(path.skip(root.len() as int) == tail);
    slash_behind(user, rest);
    assert(tail.skip(user.len() as int + 1) == rest);
}

proof fn slash_behind(user: Seq<char>, rest: Seq<char>)
    requires
        !user.contains('/'),
    ensures
        first_of(user + seq!['/'] + rest, '/') == user.len(),
    decreases user.len(),
{
    let s = user + seq!['/'] + rest;
    if user.len() > 0 {
        let tail = user.drop_first();
        assert(user.contains(user[0]));
        assert forall|i: int| 0 <= i < tail.len() implies tail[i] != '/' by {
            assert(tail[i] == user[i + 1]);
            assert(user.contains(user[i + 1]));
        }
        slash_behind(tail, rest);
        assert(s.drop_first() == tail + seq!['/'] + rest);
    }
}

} // verus!
