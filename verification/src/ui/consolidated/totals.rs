//! What the totals of the model say of the devices that it lists.
use vstd::prelude::*;

use crate::reading::{nothing_is_zero, small_naturals_add_up, Reading, STEP};
use crate::total::{total, total_of_one_more, totals_are_not_negative};
use crate::ui::consolidated::model::{
    any_unified, hotter, tally, totals_of, with_device, with_devices, DeviceModel, MemoryKind,
    SectionModel, Tally,
};

verus! {

/// The devices of the first `n` hosts, in the order in which they are shown.
pub open spec fn listed(s: Seq<SectionModel>, n: nat) -> Seq<DeviceModel>
    decreases n,
{
    if n == 0 {
        seq![]
    } else {
        listed(s, (n - 1) as nat) + s[n - 1].devices
    }
}

/// What `amount` adds up to over a list of devices.
pub open spec fn sum_over(d: Seq<DeviceModel>, amount: spec_fn(DeviceModel) -> int) -> int {
    total(d.map_values(amount))
}

/// What `amount` adds up to over the first `n` hosts.
pub open spec fn sum_over_hosts(
    s: Seq<SectionModel>,
    amount: spec_fn(SectionModel) -> int,
    n: nat,
) -> int {
    total(s.take(n as int).map_values(amount))
}

/// `amount` of the devices that share their host's memory, nothing of others.
pub open spec fn if_unified(amount: spec_fn(DeviceModel) -> int) -> spec_fn(DeviceModel) -> int {
    |d: DeviceModel|
        if d.memory_kind == MemoryKind::Unified {
            amount(d)
        } else {
            0
        }
}

/// `amount` of the devices with memory of their own, nothing of others.
pub open spec fn if_dedicated(amount: spec_fn(DeviceModel) -> int) -> spec_fn(DeviceModel) -> int {
    |d: DeviceModel|
        if d.memory_kind == MemoryKind::Unified {
            0
        } else {
            amount(d)
        }
}

pub open spec fn one_each() -> spec_fn(DeviceModel) -> int {
    |d: DeviceModel| 1int
}

pub open spec fn memory_in_use() -> spec_fn(DeviceModel) -> int {
    |d: DeviceModel| d.used_memory as int
}

pub open spec fn memory_there() -> spec_fn(DeviceModel) -> int {
    |d: DeviceModel| d.total_memory as int
}

proof fn sum_of_one_more(d: Seq<DeviceModel>, x: DeviceModel, amount: spec_fn(DeviceModel) -> int)
    ensures
        sum_over(d.push(x), amount) == sum_over(d, amount) + amount(x),
{
    total_of_one_more(d.map_values(amount), amount(x));
    assert(d.push(x).map_values(amount) == d.map_values(amount).push(amount(x)));
}

/// The sums of a list of devices stand in the tally.
spec fn counts_devices(t: Tally, d: Seq<DeviceModel>) -> bool {
    &&& t.devices == d.len()
    &&& t.unified_devices == sum_over(d, if_unified(one_each()))
    &&& t.unified_used == sum_over(d, if_unified(memory_in_use()))
    &&& t.unified_total == sum_over(d, if_unified(memory_there()))
    &&& t.dedicated_used == sum_over(d, if_dedicated(memory_in_use()))
    &&& t.dedicated_total == sum_over(d, if_dedicated(memory_there()))
}

proof fn one_device_counts(t: Tally, d: Seq<DeviceModel>, x: DeviceModel)
    requires
        counts_devices(t, d),
    ensures
        counts_devices(with_device(t, x), d.push(x)),
{
    sum_of_one_more(d, x, if_unified(one_each()));
    sum_of_one_more(d, x, if_unified(memory_in_use()));
    sum_of_one_more(d, x, if_unified(memory_there()));
    sum_of_one_more(d, x, if_dedicated(memory_in_use()));
    sum_of_one_more(d, x, if_dedicated(memory_there()));
}

proof fn devices_count(t: Tally, before: Seq<DeviceModel>, d: Seq<DeviceModel>, n: nat)
    requires
        n <= d.len(),
        counts_devices(t, before),
    ensures
        counts_devices(with_devices(t, d, n), before + d.take(n as int)),
        with_devices(t, d, n).hosts_up == t.hosts_up,
        with_devices(t, d, n).hosts_total == t.hosts_total,
        with_devices(t, d, n).host_ram_used == t.host_ram_used,
        with_devices(t, d, n).host_ram_total == t.host_ram_total,
    decreases n,
{
    if n == 0 {
        assert(before + d.take(0) == before);
    } else {
        let m = (n - 1) as nat;
        devices_count(t, before, d, m);
        one_device_counts(with_devices(t, d, m), before + d.take(m as int), d[m as int]);
        assert((before + d.take(m as int)).push(d[m as int]) == before + d.take(n as int));
    }
}

/// Where one list of hosts stands for another with one more.
proof fn hosts_of_one_more(
    s: Seq<SectionModel>,
    amount: spec_fn(SectionModel) -> int,
    n: nat,
)
    requires
        n < s.len(),
    ensures
        sum_over_hosts(s, amount, n + 1) == sum_over_hosts(s, amount, n) + amount(s[n as int]),
{
    let head = s.take(n as int).map_values(amount);
    total_of_one_more(head, amount(s[n as int]));
    assert(s.take((n + 1) as int).map_values(amount) == head.push(amount(s[n as int])));
}

/// One where a host answered.
pub open spec fn one_if_up() -> spec_fn(SectionModel) -> int {
    |h: SectionModel|
        if h.connected {
            1int
        } else {
            0
        }
}

/// The RAM in use on a host whose memory no device shares.
pub open spec fn ram_in_use() -> spec_fn(SectionModel) -> int {
    |h: SectionModel|
        if forall|i: int|
            0 <= i < h.devices.len() ==> (#[trigger] h.devices[i]).memory_kind
                != MemoryKind::Unified {
            h.ram_used as int
        } else {
            0
        }
}

/// The RAM of a host whose memory no device shares.
pub open spec fn ram_there() -> spec_fn(SectionModel) -> int {
    |h: SectionModel|
        if forall|i: int|
            0 <= i < h.devices.len() ==> (#[trigger] h.devices[i]).memory_kind
                != MemoryKind::Unified {
            h.ram_total as int
        } else {
            0
        }
}

proof fn hosts_count(s: Seq<SectionModel>, n: nat)
    requires
        n <= s.len(),
    ensures
        counts_devices(tally(s, n), listed(s, n)),
        tally(s, n).hosts_total == s.len(),
        tally(s, n).hosts_up == sum_over_hosts(s, one_if_up(), n),
        tally(s, n).host_ram_used == sum_over_hosts(s, ram_in_use(), n),
        tally(s, n).host_ram_total == sum_over_hosts(s, ram_there(), n),
    decreases n,
{
    if n == 0 {
        assert(listed(s, 0).map_values(one_each()) == Seq::<int>::empty());
        assert(s.take(0).map_values(one_if_up()) == Seq::<int>::empty());
        assert(s.take(0).map_values(ram_in_use()) == Seq::<int>::empty());
        assert(s.take(0).map_values(ram_there()) == Seq::<int>::empty());
        assert forall|amount: spec_fn(DeviceModel) -> int| #[trigger]
            sum_over(listed(s, 0), amount) == 0 by {
            assert(listed(s, 0).map_values(amount) == Seq::<int>::empty());
        }
    } else {
        let m = (n - 1) as nat;
        hosts_count(s, m);
        let h = s[m as int];
        let t = tally(s, m);
        let up = Tally {
            hosts_up: if h.connected {
                t.hosts_up + 1
            } else {
                t.hosts_up
            },
            ..t
        };
        devices_count(up, listed(s, m), h.devices, h.devices.len());
        assert(h.devices.take(h.devices.len() as int) == h.devices);
        hosts_of_one_more(s, one_if_up(), m);
        hosts_of_one_more(s, ram_in_use(), m);
        hosts_of_one_more(s, ram_there(), m);
        if !any_unified(h.devices) {
            assert forall|i: int| 0 <= i < h.devices.len() implies (
            #[trigger] h.devices[i]).memory_kind != MemoryKind::Unified by {}
        }
    }
}

/// The counts and bytes of the totals are those of the devices and hosts that
/// are listed: every device once, its memory under its own kind, the hosts that
/// answered, and the RAM of those hosts whose memory no device shares.
pub proof fn totals_add_up_what_is_listed(s: Seq<SectionModel>)
    ensures
        ({
            let t = tally(s, s.len());
            let d = listed(s, s.len());
            &&& t.devices == d.len()
            &&& t.unified_devices == sum_over(d, if_unified(one_each()))
            &&& t.unified_used == sum_over(d, if_unified(memory_in_use()))
            &&& t.unified_total == sum_over(d, if_unified(memory_there()))
            &&& t.dedicated_used == sum_over(d, if_dedicated(memory_in_use()))
            &&& t.dedicated_total == sum_over(d, if_dedicated(memory_there()))
            &&& t.hosts_total == s.len()
            &&& t.hosts_up == sum_over_hosts(s, one_if_up(), s.len())
            &&& t.host_ram_used == sum_over_hosts(s, ram_in_use(), s.len())
            &&& t.host_ram_total == sum_over_hosts(s, ram_there(), s.len())
        }),
{
    hosts_count(s, s.len());
}

/// Whether `max` is the highest temperature that devices report, with the
/// slowdown threshold of the first that reports it; none where none reports any.
pub open spec fn is_hottest(max: Option<(u32, Option<u32>)>, d: Seq<DeviceModel>) -> bool {
    match max {
        None => forall|i: int| 0 <= i < d.len() ==> (#[trigger] d[i]).temperature_c is None,
        Some((t, slowdown)) => {
            &&& forall|i: int|
                0 <= i < d.len() ==> ((#[trigger] d[i]).temperature_c matches Some(x) ==> x <= t)
            &&& exists|i: int|
                {
                    &&& 0 <= i < d.len()
                    &&& (#[trigger] d[i]).temperature_c == Some(t)
                    &&& d[i].slowdown_c == slowdown
                    &&& forall|j: int| 0 <= j < i ==> (#[trigger] d[j]).temperature_c != Some(t)
                }
        },
    }
}

proof fn one_more_may_be_hotter(
    max: Option<(u32, Option<u32>)>,
    d: Seq<DeviceModel>,
    x: DeviceModel,
)
    requires
        is_hottest(max, d),
    ensures
        is_hottest(hotter(max, x.temperature_c, x.slowdown_c), d.push(x)),
{
    let all = d.push(x);
    let after = hotter(max, x.temperature_c, x.slowdown_c);
    assert(all[d.len() as int] == x);
    assert forall|i: int| 0 <= i < d.len() implies all[i] == d[i] by {}
    if let Some((t, slowdown)) = after {
        if after == max && (x.temperature_c is None || x.temperature_c->0 <= t) {
            let i = choose|i: int|
                {
                    &&& 0 <= i < d.len()
                    &&& (#[trigger] d[i]).temperature_c == Some(t)
                    &&& d[i].slowdown_c == slowdown
                    &&& forall|j: int| 0 <= j < i ==> (#[trigger] d[j]).temperature_c != Some(t)
                };
            assert(all[i].temperature_c == Some(t));
            assert forall|j: int| 0 <= j < i implies (#[trigger] all[j]).temperature_c != Some(
                t,
            ) by {
                assert(all[j] == d[j]);
            }
        } else {
            let i = d.len() as int;
            assert(all[i].temperature_c == Some(t));
            assert forall|j: int| 0 <= j < i implies (#[trigger] all[j]).temperature_c != Some(
                t,
            ) by {
                assert(all[j] == d[j]);
            }
        }
    }
}

proof fn devices_are_compared(t: Tally, before: Seq<DeviceModel>, d: Seq<DeviceModel>, n: nat)
    requires
        n <= d.len(),
        is_hottest(t.max_temperature, before),
    ensures
        is_hottest(with_devices(t, d, n).max_temperature, before + d.take(n as int)),
    decreases n,
{
    if n == 0 {
        assert(before + d.take(0) == before);
    } else {
        let m = (n - 1) as nat;
        devices_are_compared(t, before, d, m);
        one_more_may_be_hotter(
            with_devices(t, d, m).max_temperature,
            before + d.take(m as int),
            d[m as int],
        );
        assert((before + d.take(m as int)).push(d[m as int]) == before + d.take(n as int));
    }
}

proof fn hosts_are_compared(s: Seq<SectionModel>, n: nat)
    requires
        n <= s.len(),
    ensures
        is_hottest(tally(s, n).max_temperature, listed(s, n)),
    decreases n,
{
    if n > 0 {
        let m = (n - 1) as nat;
        hosts_are_compared(s, m);
        let h = s[m as int];
        let t = tally(s, m);
        let up = Tally {
            hosts_up: if h.connected {
                t.hosts_up + 1
            } else {
                t.hosts_up
            },
            ..t
        };
        devices_are_compared(up, listed(s, m), h.devices, h.devices.len());
        assert(h.devices.take(h.devices.len() as int) == h.devices);
    }
}

/// The highest temperature of the totals is the highest that any device of any
/// host reports, and comes with that device's slowdown threshold; there is none
/// only where no device reports a temperature.
pub proof fn the_hottest_device_is_shown(s: Seq<SectionModel>)
    ensures
        is_hottest(tally(s, s.len()).max_temperature, listed(s, s.len())),
        totals_of(tally(s, s.len())).max_temperature == tally(s, s.len()).max_temperature,
{
    hosts_are_compared(s, s.len());
}

/// Whether a reading is a whole number, none at all standing for zero.
pub open spec fn is_whole(r: Option<Reading>, n: nat) -> bool {
    match r {
        Some(x) => x == Reading::of_natural(n),
        None => n == 0,
    }
}

/// The whole numbers that the devices of a list report: utilization, power and
/// power limit.
pub struct Whole {
    pub percent: nat,
    pub watts: nat,
    pub limit: nat,
}

/// Whether the devices report whole numbers.
pub open spec fn report_whole_numbers(d: Seq<DeviceModel>, w: Seq<Whole>) -> bool {
    &&& d.len() == w.len()
    &&& forall|i: int|
        0 <= i < d.len() ==> {
            &&& is_whole((#[trigger] d[i]).utilization, w[i].percent)
            &&& is_whole(d[i].power_watts, w[i].watts)
            &&& is_whole(d[i].power_limit_watts, w[i].limit)
        }
}

/// The watts of the devices of one kind.
pub open spec fn watts_of(d: Seq<DeviceModel>, w: Seq<Whole>, unified: bool) -> int {
    total(
        Seq::new(
            d.len(),
            |i: int|
                if (d[i].memory_kind == MemoryKind::Unified) == unified {
                    w[i].watts as int
                } else {
                    0
                },
        ),
    )
}

/// The power limits of the devices.
pub open spec fn limits_of(w: Seq<Whole>) -> int {
    total(w.map_values(|x: Whole| x.limit as int))
}

/// The percentages of the devices.
pub open spec fn percents_of(w: Seq<Whole>) -> int {
    total(w.map_values(|x: Whole| x.percent as int))
}

/// How many devices report a utilization.
pub open spec fn reporting(d: Seq<DeviceModel>) -> int {
    sum_over(
        d,
        |x: DeviceModel|
            if x.utilization is Some {
                1int
            } else {
                0
            },
    )
}

spec fn adds_up(t: Tally, d: Seq<DeviceModel>, w: Seq<Whole>) -> bool {
    &&& t.unified_power_watts == Reading::of_natural(watts_of(d, w, true) as nat)
    &&& t.dedicated_power_watts == Reading::of_natural(watts_of(d, w, false) as nat)
    &&& t.power_limit_watts == Reading::of_natural(limits_of(w) as nat)
    &&& t.util_sum == Reading::of_natural(percents_of(w) as nat)
    &&& t.util_count == reporting(d)
}

spec fn small(d: Seq<DeviceModel>, w: Seq<Whole>) -> bool {
    &&& watts_of(d, w, true) < 2 * STEP
    &&& watts_of(d, w, false) < 2 * STEP
    &&& limits_of(w) < 2 * STEP
    &&& percents_of(w) < 2 * STEP
}

/// What one more device adds to the whole numbers.
proof fn whole_numbers_of_one_more(
    d: Seq<DeviceModel>,
    w: Seq<Whole>,
    x: DeviceModel,
    y: Whole,
)
    requires
        d.len() == w.len(),
    ensures
        watts_of(d.push(x), w.push(y), true) == watts_of(d, w, true) + (if x.memory_kind
            == MemoryKind::Unified {
            y.watts as int
        } else {
            0
        }),
        watts_of(d.push(x), w.push(y), false) == watts_of(d, w, false) + (if x.memory_kind
            == MemoryKind::Unified {
            0
        } else {
            y.watts as int
        }),
        limits_of(w.push(y)) == limits_of(w) + y.limit,
        percents_of(w.push(y)) == percents_of(w) + y.percent,
        watts_of(d, w, true) >= 0,
        watts_of(d, w, false) >= 0,
        limits_of(w) >= 0,
        percents_of(w) >= 0,
        reporting(d.push(x)) == reporting(d) + (if x.utilization is Some {
            1int
        } else {
            0
        }),
{
    let share = |e: Seq<DeviceModel>, v: Seq<Whole>, unified: bool|
        Seq::new(
            e.len(),
            |i: int|
                if (e[i].memory_kind == MemoryKind::Unified) == unified {
                    v[i].watts as int
                } else {
                    0
                },
        );
    let (here, there) = (share(d, w, true), share(d, w, false));
    let (a, b) = (
        if x.memory_kind == MemoryKind::Unified {
            y.watts as int
        } else {
            0
        },
        if x.memory_kind == MemoryKind::Unified {
            0
        } else {
            y.watts as int
        },
    );
    total_of_one_more(here, a);
    total_of_one_more(there, b);
    assert(share(d.push(x), w.push(y), true) == here.push(a));
    assert(share(d.push(x), w.push(y), false) == there.push(b));
    let limits = w.map_values(|z: Whole| z.limit as int);
    let percents = w.map_values(|z: Whole| z.percent as int);
    total_of_one_more(limits, y.limit as int);
    total_of_one_more(percents, y.percent as int);
    assert(w.push(y).map_values(|z: Whole| z.limit as int) == limits.push(y.limit as int));
    assert(w.push(y).map_values(|z: Whole| z.percent as int) == percents.push(y.percent as int));
    totals_are_not_negative(here);
    totals_are_not_negative(there);
    totals_are_not_negative(limits);
    totals_are_not_negative(percents);
    sum_of_one_more(
        d,
        x,
        |z: DeviceModel|
            if z.utilization is Some {
                1int
            } else {
                0
            },
    );
}

proof fn one_device_adds_up(
    t: Tally,
    d: Seq<DeviceModel>,
    w: Seq<Whole>,
    x: DeviceModel,
    y: Whole,
)
    requires
        d.len() == w.len(),
        adds_up(t, d, w),
        is_whole(x.utilization, y.percent),
        is_whole(x.power_watts, y.watts),
        is_whole(x.power_limit_watts, y.limit),
        small(d.push(x), w.push(y)),
    ensures
        adds_up(with_device(t, x), d.push(x), w.push(y)),
        small(d, w),
{
    whole_numbers_of_one_more(d, w, x, y);
    nothing_is_zero();
    if x.memory_kind == MemoryKind::Unified {
        small_naturals_add_up(watts_of(d, w, true) as nat, y.watts);
    } else {
        small_naturals_add_up(watts_of(d, w, false) as nat, y.watts);
    }
    small_naturals_add_up(limits_of(w) as nat, y.limit);
    small_naturals_add_up(percents_of(w) as nat, y.percent);
}

proof fn prefixes_are_small(d: Seq<DeviceModel>, w: Seq<Whole>, n: nat)
    requires
        d.len() == w.len(),
        n <= d.len(),
        small(d, w),
    ensures
        small(d.take(n as int), w.take(n as int)),
    decreases d.len() - n,
{
    if n == d.len() {
        assert(d.take(n as int) == d && w.take(n as int) == w);
    } else {
        prefixes_are_small(d, w, n + 1);
        let (e, v) = (d.take(n as int), w.take(n as int));
        whole_numbers_of_one_more(e, v, d[n as int], w[n as int]);
        assert(d.take((n + 1) as int) == e.push(d[n as int]));
        assert(w.take((n + 1) as int) == v.push(w[n as int]));
    }
}

proof fn devices_add_up(
    t: Tally,
    all: Seq<DeviceModel>,
    w: Seq<Whole>,
    from: nat,
    d: Seq<DeviceModel>,
    n: nat,
)
    requires
        report_whole_numbers(all, w),
        small(all, w),
        n <= d.len(),
        from + d.len() <= all.len(),
        forall|k: int| 0 <= k < d.len() ==> #[trigger] d[k] == all[from + k],
        adds_up(t, all.take(from as int), w.take(from as int)),
    ensures
        adds_up(with_devices(t, d, n), all.take((from + n) as int), w.take((from + n) as int)),
    decreases n,
{
    if n > 0 {
        let m = (n - 1) as nat;
        devices_add_up(t, all, w, from, d, m);
        let at = (from + m) as int;
        prefixes_are_small(all, w, (at + 1) as nat);
        assert(all.take(at + 1) == all.take(at).push(all[at]));
        assert(w.take(at + 1) == w.take(at).push(w[at]));
        assert(d[m as int] == all[at]);
        one_device_adds_up(with_devices(t, d, m), all.take(at), w.take(at), all[at], w[at]);
    }
}

proof fn lists_are_prefixes(s: Seq<SectionModel>, n: nat, m: nat)
    requires
        n <= m <= s.len(),
    ensures
        listed(s, n).len() <= listed(s, m).len(),
        listed(s, m).take(listed(s, n).len() as int) == listed(s, n),
    decreases m,
{
    if n < m {
        lists_are_prefixes(s, n, (m - 1) as nat);
        let before = listed(s, (m - 1) as nat);
        assert(listed(s, m).take(listed(s, n).len() as int) == before.take(
            listed(s, n).len() as int,
        ));
    } else {
        assert(listed(s, m).take(listed(s, n).len() as int) == listed(s, n));
    }
}

proof fn hosts_add_up(s: Seq<SectionModel>, w: Seq<Whole>, n: nat)
    requires
        n <= s.len(),
        report_whole_numbers(listed(s, s.len()), w),
        small(listed(s, s.len()), w),
    ensures
        adds_up(tally(s, n), listed(s, n), w.take(listed(s, n).len() as int)),
    decreases n,
{
    let all = listed(s, s.len());
    lists_are_prefixes(s, n, s.len());
    if n == 0 {
        nothing_is_zero();
        let (d, v) = (listed(s, 0), w.take(0));
        assert(Seq::new(
            d.len(),
            |i: int|
                if (d[i].memory_kind == MemoryKind::Unified) == true {
                    v[i].watts as int
                } else {
                    0
                },
        ) == Seq::<int>::empty());
        assert(Seq::new(
            d.len(),
            |i: int|
                if (d[i].memory_kind == MemoryKind::Unified) == false {
                    v[i].watts as int
                } else {
                    0
                },
        ) == Seq::<int>::empty());
        assert(v.map_values(|x: Whole| x.limit as int) == Seq::<int>::empty());
        assert(v.map_values(|x: Whole| x.percent as int) == Seq::<int>::empty());
        assert(d.map_values(
            |x: DeviceModel|
                if x.utilization is Some {
                    1int
                } else {
                    0
                },
        ) == Seq::<int>::empty());
    } else {
        let m = (n - 1) as nat;
        hosts_add_up(s, w, m);
        lists_are_prefixes(s, m, s.len());
        let h = s[m as int];
        let t = tally(s, m);
        let up = Tally {
            hosts_up: if h.connected {
                t.hosts_up + 1
            } else {
                t.hosts_up
            },
            ..t
        };
        let from = listed(s, m).len();
        assert forall|k: int| 0 <= k < h.devices.len() implies #[trigger] h.devices[k] == all[from
            + k] by {
            assert(listed(s, n)[from + k] == h.devices[k]);
            assert(all.take(listed(s, n).len() as int)[from + k] == all[from + k]);
        }
        assert(all.take(from as int) == listed(s, m));
        devices_add_up(up, all, w, from, h.devices, h.devices.len());
        assert(from + h.devices.len() == listed(s, n).len());
    }
}

/// Where devices report whole numbers, the power of each kind, the power limits
/// and the mean utilization of the totals are the exact sums over all of them,
/// the mean over those that report one.
pub proof fn readings_add_up_what_is_listed(s: Seq<SectionModel>, w: Seq<Whole>)
    requires
        report_whole_numbers(listed(s, s.len()), w),
        watts_of(listed(s, s.len()), w, true) < 2 * STEP,
        watts_of(listed(s, s.len()), w, false) < 2 * STEP,
        limits_of(w) < 2 * STEP,
        percents_of(w) < 2 * STEP,
    ensures
        ({
            let t = totals_of(tally(s, s.len()));
            let d = listed(s, s.len());
            &&& t.unified_power_watts == Reading::of_natural(watts_of(d, w, true) as nat)
            &&& t.dedicated_power_watts == Reading::of_natural(watts_of(d, w, false) as nat)
            &&& t.power_limit_watts == Reading::of_natural(limits_of(w) as nat)
            &&& t.avg_utilization == if reporting(d) > 0 {
                Some(
                    Reading::of_natural(percents_of(w) as nat).quotient(
                        Reading::of_natural(reporting(d) as nat),
                    ),
                )
            } else {
                None
            }
        }),
{
    hosts_add_up(s, w, s.len());
    assert(w.take(listed(s, s.len()).len() as int) == w);
}

} // verus!
