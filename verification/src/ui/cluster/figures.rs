//! What the figures of the history panel say of the samples behind them.
use vstd::prelude::*;
use vstd::string::*;

use crate::reading::{undefined, Reading};
use crate::text::begins;
use crate::ui::cluster::charts::{
    all_devices, ceiling_of, chart_stat, cluster_column, device_column, device_columns, peak_from,
    ChartModel, Unit,
};
use crate::ui::cluster::line::watts_text;
use crate::ui::consolidated::history::{samples_of, SeriesModel};
use crate::ui::consolidated::model::{DeviceModel, MemoryKind, SectionModel, Totals};

verus! {

/// A sample in the unit of a chart.
pub open spec fn in_unit(unit: Unit, v: Reading) -> Seq<char> {
    if unit == Unit::Percent {
        v.fixed(0) + "%"@
    } else {
        watts_text(v)
    }
}

/// Whether `p` is one of the values, and none of them is above it.
pub open spec fn is_peak(p: Reading, values: Seq<Reading>) -> bool {
    &&& values.contains(p)
    &&& forall|i: int| 0 <= i < values.len() ==> p.at_least(#[trigger] values[i])
}

proof fn peaks_are_found(start: Reading, values: Seq<Reading>, n: nat)
    requires
        n <= values.len(),
        forall|i: int| 0 <= i < values.len() ==> !(#[trigger] values[i]).is_undefined(),
    ensures
        ({
            let p = peak_from(start, values, n);
            &&& n > 0 || !start.is_undefined() ==> !p.is_undefined()
            &&& !start.is_undefined() ==> p.at_least(start)
            &&& forall|i: int| 0 <= i < n ==> p.at_least(#[trigger] values[i])
            &&& p == start || exists|i: int| 0 <= i < n && #[trigger] values[i] == p
        }),
    decreases n,
{
    if n > 0 {
        peaks_are_found(start, values, (n - 1) as nat);
        let before = peak_from(start, values, (n - 1) as nat);
        let p = peak_from(start, values, n);
        assert(!values[n - 1].is_undefined());
        if p == before && p != start {
            let i = choose|i: int| 0 <= i < n - 1 && #[trigger] values[i] == before;
            assert(values[i] == p);
        } else if p != start {
            assert(values[n - 1] == p);
        }
    }
}

/// A chart shows its newest sample, and behind it the highest of all of them:
/// with one more sample the figure begins with that sample, whatever came
/// before. A chart without samples says so.
pub proof fn charts_show_their_newest_sample_and_their_peak(c: ChartModel, v: Reading)
    requires
        forall|i: int| 0 <= i < c.values.len() ==> (#[trigger] c.values[i]).finite(),
        v.finite(),
    ensures
        ({
            let all = c.values.push(v);
            let shown = chart_stat(ChartModel { values: all, ..c });
            &&& begins(shown, in_unit(c.unit, v))
            &&& exists|p: Reading| #[trigger]
                is_peak(p, all) && shown == in_unit(c.unit, v) + " · peak "@ + in_unit(c.unit, p)
        }),
        c.values.len() == 0 ==> chart_stat(c) == "n/a"@,
{
    let all = c.values.push(v);
    assert forall|i: int| 0 <= i < all.len() implies (#[trigger] all[i]).finite() by {
        if i < c.values.len() {
            assert(all[i] == c.values[i]);
        }
    }
    let p = peak_from(undefined(), all, all.len());
    peaks_are_found(undefined(), all, all.len());
    assert(all.last() == v);
    assert(p != undefined()) by {
        assert(undefined().is_undefined());
    }
    let i = choose|i: int| 0 <= i < all.len() && #[trigger] all[i] == p;
    assert(all.contains(p));
    assert(is_peak(p, all));
    let shown = chart_stat(ChartModel { values: all, ..c });
    let now = in_unit(c.unit, v);
    assert(shown == now + " · peak "@ + in_unit(c.unit, p));
    assert(shown.take(now.len() as int) == now);
}

/// The top of a power chart: the power limit, or the highest sample where that
/// is above it; without a limit half as much again as the highest sample, and
/// never less than one watt.
pub proof fn power_charts_have_room(limit: Option<Reading>, values: Seq<Reading>, p: Reading)
    requires
        is_peak(p, values),
        p.above(Reading { bits: 0 }),
        forall|i: int| 0 <= i < values.len() ==> !(#[trigger] values[i]).is_undefined(),
    ensures
        ({
            let top = ceiling_of(limit, values);
            let roomy = p.product(Reading { bits: 0x3ff8_0000_0000_0000 });
            &&& limit matches Some(l) ==> l.above(Reading { bits: 0 }) ==> {
                &&& top.at_least(l)
                &&& top.at_least(p)
                &&& top == l || top == p
            }
            &&& limit is None || !limit->0.above(Reading { bits: 0 }) ==> {
                &&& top == roomy || top == Reading::of_natural(1)
                &&& roomy.above(Reading::of_natural(1)) ==> top == roomy
                &&& Reading::of_natural(1).above(roomy) ==> top == Reading::of_natural(1)
            }
        }),
{
    let zero = Reading { bits: 0 };
    let peak = peak_from(zero, values, values.len());
    peaks_are_found(zero, values, values.len());
    let k = choose|k: int| 0 <= k < values.len() && values[k] == p;
    assert(peak.at_least(values[k]));
    assert(peak != zero);
    let i = choose|i: int| 0 <= i < values.len() && #[trigger] values[i] == peak;
    assert(p.at_least(values[i]));
    assert(peak.rank() == p.rank());
    assert(peak == p);
}

/// A device has three charts: its own utilization and memory in percent of a
/// hundred, and its own power in watts. The cluster has two, of its averages and
/// sums.
pub proof fn charts_show_their_own_series(d: DeviceModel, t: Totals, series: SeriesModel)
    ensures
        ({
            let c = device_column(d, series).charts;
            &&& c.len() == 3
            &&& c[0].label == "util"@ && c[0].values == samples_of(series, "util:"@ + d.uuid)
            &&& c[0].unit == Unit::Percent && c[0].ceiling == Reading::of_natural(100)
            &&& c[1].values == samples_of(series, "mem:"@ + d.uuid)
            &&& c[1].unit == Unit::Percent && c[1].ceiling == Reading::of_natural(100)
            &&& c[1].label == if d.memory_kind == MemoryKind::Unified {
                "unified mem"@
            } else {
                "VRAM"@
            }
            &&& c[2].label == "power"@ && c[2].values == samples_of(series, "power:"@ + d.uuid)
            &&& c[2].unit == Unit::Watts
            &&& c[2].ceiling == ceiling_of(d.power_limit_watts, c[2].values)
        }),
        ({
            let c = cluster_column(t, series).charts;
            &&& c.len() == 2
            &&& c[0].label == "avg util"@ && c[0].values == samples_of(series, "total_util"@)
            &&& c[0].unit == Unit::Percent && c[0].ceiling == Reading::of_natural(100)
            &&& c[1].label == "total power"@ && c[1].values == samples_of(
                series,
                "total_power"@,
            )
            &&& c[1].unit == Unit::Watts
        }),
{
}

/// Where every device has a column, the columns stand in the order of the
/// devices.
pub proof fn columns_follow_the_devices(s: Seq<SectionModel>, series: SeriesModel, i: int)
    requires
        0 <= i < all_devices(s, s.len()).len(),
    ensures
        device_columns(s, series).len() == all_devices(s, s.len()).len(),
        device_columns(s, series)[i] == device_column(all_devices(s, s.len())[i], series),
{
}

} // verus!
