//! What a collection cycle leaves in the history.
use vstd::prelude::*;
use vstd::string::*;

use crate::device::types::GpuInfo;
use crate::probes::ProbesModel;
use crate::probes::net::NetSampleModel;
use crate::reading::{nothing_is_zero, small_naturals_add_up, Reading, STEP};
use crate::total::{total, total_of_one_more, totals_are_not_negative};
use crate::ui::consolidated::history::{
    recorded, recorded_devices, recorded_hosts, recorded_links, recorded_totals, rx_key, samples_of,
    tx_key, with_reading, with_sample, SeriesModel,
};

verus! {

/// A series with one more sample: at most the newest 240 of them, oldest first.
pub open spec fn newest(s: Seq<Reading>, v: Reading) -> Seq<Reading> {
    let all = s.push(v);
    if all.len() > 240 {
        all.skip(all.len() - 240)
    } else {
        all
    }
}

/// A finite sample goes behind the others of its series, of which the newest 240
/// stay; any other is dropped. No other series changes.
pub proof fn samples_queue_up(m: SeriesModel, key: Seq<char>, v: Reading, other: Seq<char>)
    requires
        samples_of(m, key).len() <= 240,
        m.values.contains_key(key) || m.count < 256,
    ensures
        samples_of(with_sample(m, key, v), key) == if v.finite() {
            newest(samples_of(m, key), v)
        } else {
            samples_of(m, key)
        },
        other != key ==> samples_of(with_sample(m, key, v), other) == samples_of(m, other),
{
    let s = samples_of(m, key);
    if s.len() == 240 {
        assert(s.push(v).skip(1) == s.skip(1).push(v));
    }
}

proof fn lemma_keys(uuid: Seq<char>, other: Seq<char>)
    ensures
        "util:"@ + uuid == "util:"@ + other ==> uuid == other,
        "power:"@ + uuid == "power:"@ + other ==> uuid == other,
        "util:"@ + uuid != "power:"@ + other,
        "util:"@ + uuid != "total_power"@,
        "power:"@ + uuid != "total_power"@,
        "util:"@ + uuid != "total_util"@,
        "power:"@ + uuid != "total_util"@,
        "total_power"@ != "total_util"@,
{
    reveal_strlit("util:");
    reveal_strlit("power:");
    reveal_strlit("total_power");
    reveal_strlit("total_util");
    let (u, p) = ("util:"@ + uuid, "power:"@ + uuid);
    assert(u[0] == 'u' && p[0] == 'p');
    assert(("power:"@ + other)[0] == 'p');
    assert("total_power"@[0] == 't' && "total_util"@[0] == 't');
    assert("total_power"@.len() != "total_util"@.len());
    if u == "util:"@ + other {
        assert(u.skip(5) == uuid);
        assert(("util:"@ + other).skip(5) == other);
    }
    if p == "power:"@ + other {
        assert(p.skip(6) == uuid);
        assert(("power:"@ + other).skip(6) == other);
    }
}

/// Whether series by that key can take another sample.
pub open spec fn takes(m: SeriesModel, key: Seq<char>) -> bool {
    m.values.contains_key(key) && m.values[key].len() <= 240
}

proof fn other_devices_leave(m: SeriesModel, gpus: Seq<GpuInfo>, n: nat, uuid: Seq<char>)
    requires
        n <= gpus.len(),
        forall|i: int| 0 <= i < n ==> (#[trigger] gpus[i]).uuid@ != uuid,
    ensures
        ({
            let s = recorded_devices(m, gpus, n).series;
            &&& samples_of(s, "util:"@ + uuid) == samples_of(m, "util:"@ + uuid)
            &&& samples_of(s, "power:"@ + uuid) == samples_of(m, "power:"@ + uuid)
            &&& m.values.contains_key("util:"@ + uuid) ==> s.values.contains_key("util:"@ + uuid)
            &&& m.values.contains_key("power:"@ + uuid) ==> s.values.contains_key(
                "power:"@ + uuid,
            )
        }),
    decreases n,
{
    if n > 0 {
        other_devices_leave(m, gpus, (n - 1) as nat, uuid);
        assert(gpus[n - 1].uuid@ != uuid);
        lemma_keys(uuid, gpus[n - 1].uuid@);
        lemma_keys(gpus[n - 1].uuid@, uuid);
    }
}

proof fn a_device_is_recorded(m: SeriesModel, gpus: Seq<GpuInfo>, n: nat, i: int)
    requires
        0 <= i < n <= gpus.len(),
        forall|j: int| 0 <= j < gpus.len() && j != i ==> (#[trigger] gpus[j]).uuid@
            != gpus[i].uuid@,
        takes(m, "util:"@ + gpus[i].uuid@),
        takes(m, "power:"@ + gpus[i].uuid@),
    ensures
        ({
            let s = recorded_devices(m, gpus, n).series;
            let (u, p) = ("util:"@ + gpus[i].uuid@, "power:"@ + gpus[i].uuid@);
            &&& samples_of(s, u) == after_reading(samples_of(m, u), gpus[i].utilization)
            &&& samples_of(s, p) == after_reading(samples_of(m, p), gpus[i].power_consumption)
        }),
    decreases n,
{
    let uuid = gpus[i].uuid@;
    let (u, p) = ("util:"@ + uuid, "power:"@ + uuid);
    let s = recorded_devices(m, gpus, (n - 1) as nat).series;
    let g = gpus[n - 1];
    lemma_keys(uuid, g.uuid@);
    lemma_keys(g.uuid@, uuid);
    if i < n - 1 {
        a_device_is_recorded(m, gpus, (n - 1) as nat, i);
        assert(gpus[n - 1].uuid@ != uuid);
    } else {
        other_devices_leave(m, gpus, (n - 1) as nat, uuid);
        let a = with_reading(s, u, g.utilization);
        if let Some(v) = g.utilization {
            samples_queue_up(s, u, v, p);
        }
        if let Some(v) = g.power_consumption {
            samples_queue_up(a, p, v, u);
        }
    }
}

/// A series after a reading: with one more sample where it is a finite one.
pub open spec fn after_reading(s: Seq<Reading>, v: Option<Reading>) -> Seq<Reading> {
    match v {
        Some(x) => if x.finite() {
            newest(s, x)
        } else {
            s
        },
        None => s,
    }
}

proof fn links_leave(
    m: SeriesModel,
    host: Seq<char>,
    links: Seq<NetSampleModel>,
    n: nat,
    key: Seq<char>,
)
    requires
        forall|j: int| 0 <= j < n ==> key != "net_rx:"@ + host + "/"@ + (
        #[trigger] links[j]).interface && key != "net_tx:"@ + host + "/"@ + links[j].interface,
    ensures
        samples_of(recorded_links(m, host, links, n), key) == samples_of(m, key),
        m.values.contains_key(key) ==> recorded_links(m, host, links, n).values.contains_key(key),
    decreases n,
{
    if n > 0 {
        links_leave(m, host, links, (n - 1) as nat, key);
        assert(key != rx_key(host, links[n - 1].interface));
        assert(key != tx_key(host, links[n - 1].interface));
    }
}

proof fn hosts_leave(m: SeriesModel, probes: Seq<ProbesModel>, n: nat, key: Seq<char>)
    requires
        key.len() > 0,
        key[0] != 'n',
    ensures
        samples_of(recorded_hosts(m, probes, n), key) == samples_of(m, key),
    decreases n,
{
    if n > 0 {
        hosts_leave(m, probes, (n - 1) as nat, key);
        let p = probes[n - 1];
        assert forall|j: int| 0 <= j < p.interfaces.len() implies key != "net_rx:"@ + p.host_id
            + "/"@ + (#[trigger] p.interfaces[j]).interface && key != "net_tx:"@ + p.host_id
            + "/"@ + p.interfaces[j].interface by {
            reveal_strlit("net_rx:");
            reveal_strlit("net_tx:");
            let f = p.interfaces[j].interface;
            assert(("net_rx:"@ + p.host_id + "/"@ + f)[0] == 'n');
            assert(("net_tx:"@ + p.host_id + "/"@ + f)[0] == 'n');
        }
        links_leave(
            recorded_hosts(m, probes, (n - 1) as nat),
            p.host_id,
            p.interfaces,
            p.interfaces.len(),
            key,
        );
    }
}

/// After a cycle the newest sample of a device's own series is what it reported
/// in that cycle: its utilization in one, its power in the other.
pub proof fn a_cycle_records_every_device(
    m: SeriesModel,
    gpus: Seq<GpuInfo>,
    probes: Seq<ProbesModel>,
    i: int,
)
    requires
        0 <= i < gpus.len(),
        forall|j: int| 0 <= j < gpus.len() && j != i ==> (#[trigger] gpus[j]).uuid@
            != gpus[i].uuid@,
        takes(m, "util:"@ + gpus[i].uuid@),
        takes(m, "power:"@ + gpus[i].uuid@),
    ensures
        ({
            let after = recorded(m, gpus, probes);
            let (u, p) = ("util:"@ + gpus[i].uuid@, "power:"@ + gpus[i].uuid@);
            &&& samples_of(after, u) == after_reading(samples_of(m, u), gpus[i].utilization)
            &&& samples_of(after, p) == after_reading(samples_of(m, p), gpus[i].power_consumption)
        }),
{
    let uuid = gpus[i].uuid@;
    a_device_is_recorded(m, gpus, gpus.len(), i);
    let totals = recorded_totals(recorded_devices(m, gpus, gpus.len()), gpus.len());
    lemma_keys(uuid, uuid);
    reveal_strlit("util:");
    reveal_strlit("power:");
    assert(("util:"@ + uuid)[0] == 'u' && ("power:"@ + uuid)[0] == 'p');
    hosts_leave(totals, probes, probes.len(), "util:"@ + uuid);
    hosts_leave(totals, probes, probes.len(), "power:"@ + uuid);
}

/// The rates of an interface are recorded each in its own series: what it
/// receives in one, what it sends in the other.
pub proof fn links_record_their_rates(m: SeriesModel, host: Seq<char>, l: NetSampleModel)
    requires
        takes(m, "net_rx:"@ + host + "/"@ + l.interface),
        takes(m, "net_tx:"@ + host + "/"@ + l.interface),
    ensures
        ({
            let after = recorded_links(m, host, seq![l], 1);
            let (rx, tx) = (
                "net_rx:"@ + host + "/"@ + l.interface,
                "net_tx:"@ + host + "/"@ + l.interface,
            );
            &&& samples_of(after, rx) == after_reading(samples_of(m, rx), l.rx_bytes_per_sec)
            &&& samples_of(after, tx) == after_reading(samples_of(m, tx), l.tx_bytes_per_sec)
        }),
{
    let (rx, tx) = (
        "net_rx:"@ + host + "/"@ + l.interface,
        "net_tx:"@ + host + "/"@ + l.interface,
    );
    reveal_strlit("net_rx:");
    reveal_strlit("net_tx:");
    assert(rx[4] == 'r' && tx[4] == 't');
    assert(recorded_links(m, host, seq![l], 0) == m);
    let a = with_reading(m, rx, l.rx_bytes_per_sec);
    if let Some(v) = l.rx_bytes_per_sec {
        samples_queue_up(m, rx, v, tx);
    }
    if let Some(v) = l.tx_bytes_per_sec {
        samples_queue_up(a, tx, v, rx);
    }
}

/// Whether the devices report whole watts and percentages, none standing for
/// zero.
pub open spec fn whole_readings(gpus: Seq<GpuInfo>, watts: Seq<nat>, percents: Seq<nat>) -> bool {
    &&& watts.len() == gpus.len() && percents.len() == gpus.len()
    &&& forall|i: int|
        0 <= i < gpus.len() ==> {
            &&& (#[trigger] gpus[i]).power_consumption is None ==> watts[i] == 0
            &&& gpus[i].power_consumption is Some ==> gpus[i].power_consumption->0
                == Reading::of_natural(watts[i])
            &&& gpus[i].utilization is None ==> percents[i] == 0
            &&& gpus[i].utilization is Some ==> gpus[i].utilization->0 == Reading::of_natural(
                percents[i],
            )
        }
}

/// A list of naturals as integers.
pub open spec fn ints(v: Seq<nat>) -> Seq<int> {
    v.map_values(|n: nat| n as int)
}

/// One for every device that reports its utilization.
pub open spec fn reports(gpus: Seq<GpuInfo>) -> Seq<int> {
    gpus.map_values(
        |g: GpuInfo|
            if g.utilization is Some {
                1int
            } else {
                0
            },
    )
}

proof fn part_of_a_total(v: Seq<nat>, n: nat)
    requires
        n < v.len(),
    ensures
        total(ints(v.take(n as int))) >= 0,
        total(ints(v.take((n + 1) as int))) == total(ints(v.take(n as int))) + v[n as int],
        total(ints(v.take((n + 1) as int))) <= total(ints(v)),
    decreases v.len() - n,
{
    let head = ints(v.take(n as int));
    total_of_one_more(head, v[n as int] as int);
    assert(ints(v.take((n + 1) as int)) == head.push(v[n as int] as int));
    totals_are_not_negative(head);
    if n + 1 < v.len() {
        part_of_a_total(v, n + 1);
    } else {
        assert(v.take((n + 1) as int) == v);
    }
}

proof fn devices_sum_up(m: SeriesModel, gpus: Seq<GpuInfo>, watts: Seq<nat>, percents: Seq<nat>, n: nat)
    requires
        n <= gpus.len(),
        whole_readings(gpus, watts, percents),
        total(ints(watts)) < 2 * STEP,
        total(ints(percents)) < 2 * STEP,
    ensures
        ({
            let s = recorded_devices(m, gpus, n);
            &&& s.power == Reading::of_natural(total(ints(watts.take(n as int))) as nat)
            &&& s.util == Reading::of_natural(total(ints(percents.take(n as int))) as nat)
            &&& s.util_count == total(reports(gpus.take(n as int)))
        }),
    decreases n,
{
    if n == 0 {
        nothing_is_zero();
        assert(ints(watts.take(0)) == Seq::<int>::empty());
        assert(ints(percents.take(0)) == Seq::<int>::empty());
        assert(reports(gpus.take(0)) == Seq::<int>::empty());
    } else {
        let k = (n - 1) as nat;
        devices_sum_up(m, gpus, watts, percents, k);
        part_of_a_total(watts, k);
        part_of_a_total(percents, k);
        small_naturals_add_up(total(ints(watts.take(k as int))) as nat, watts[k as int]);
        small_naturals_add_up(total(ints(percents.take(k as int))) as nat, percents[k as int]);
        let head = reports(gpus.take(k as int));
        let x = if gpus[k as int].utilization is Some {
            1int
        } else {
            0
        };
        total_of_one_more(head, x);
        assert(reports(gpus.take(n as int)) == head.push(x));
    }
}

proof fn devices_leave_totals(m: SeriesModel, gpus: Seq<GpuInfo>, n: nat)
    requires
        takes(m, "total_power"@),
        takes(m, "total_util"@),
    ensures
        ({
            let s = recorded_devices(m, gpus, n).series;
            &&& takes(s, "total_power"@) && takes(s, "total_util"@)
            &&& samples_of(s, "total_power"@) == samples_of(m, "total_power"@)
            &&& samples_of(s, "total_util"@) == samples_of(m, "total_util"@)
        }),
    decreases n,
{
    if n > 0 {
        devices_leave_totals(m, gpus, (n - 1) as nat);
        lemma_keys(gpus[n - 1].uuid@, seq![]);
    }
}

/// A cycle records the power of all devices together, and their mean
/// utilization over those that report one: exactly so for whole readings.
pub proof fn a_cycle_records_the_totals(
    m: SeriesModel,
    gpus: Seq<GpuInfo>,
    probes: Seq<ProbesModel>,
    watts: Seq<nat>,
    percents: Seq<nat>,
)
    requires
        gpus.len() > 0,
        whole_readings(gpus, watts, percents),
        total(ints(watts)) < 2 * STEP,
        total(ints(percents)) < 2 * STEP,
        takes(m, "total_power"@),
        takes(m, "total_util"@),
    ensures
        ({
            let after = recorded(m, gpus, probes);
            let power = Reading::of_natural(total(ints(watts)) as nat);
            let mean = Reading::of_natural(total(ints(percents)) as nat).quotient(
                Reading::of_natural(total(reports(gpus)) as nat),
            );
            &&& samples_of(after, "total_power"@) == after_reading(
                samples_of(m, "total_power"@),
                Some(power),
            )
            &&& samples_of(after, "total_util"@) == if total(reports(gpus)) > 0 {
                after_reading(samples_of(m, "total_util"@), Some(mean))
            } else {
                samples_of(m, "total_util"@)
            }
        }),
{
    devices_sum_up(m, gpus, watts, percents, gpus.len());
    assert(watts.take(gpus.len() as int) == watts);
    assert(percents.take(gpus.len() as int) == percents);
    assert(gpus.take(gpus.len() as int) == gpus);
    let s = recorded_devices(m, gpus, gpus.len());
    let (p, u) = ("total_power"@, "total_util"@);
    lemma_keys(seq![], seq![]);
    devices_leave_totals(m, gpus, gpus.len());
    let a = with_sample(s.series, p, s.power);
    samples_queue_up(s.series, p, s.power, u);
    if s.util_count > 0 {
        let mean = s.util.quotient(Reading::of_natural(s.util_count));
        samples_queue_up(a, u, mean, p);
    }
    let totals = recorded_totals(s, gpus.len());
    reveal_strlit("total_power");
    reveal_strlit("total_util");
    assert(p[0] == 't' && u[0] == 't');
    hosts_leave(totals, probes, probes.len(), p);
    hosts_leave(totals, probes, probes.len(), u);
}

/// A cycle without devices records no total: every series but those of the links
/// stays as it was.
pub proof fn nothing_is_recorded_of_nothing(m: SeriesModel, probes: Seq<ProbesModel>)
    ensures
        recorded(m, seq![], seq![]) == m,
        recorded(m, seq![], probes) == recorded_hosts(m, probes, probes.len()),
{
    let none = Seq::<GpuInfo>::empty();
    assert(recorded_devices(m, none, 0).series == m);
    assert(recorded_devices(m, none, 0).util_count == 0);
    assert(recorded_totals(recorded_devices(m, none, 0), 0) == m);
    assert(recorded_hosts(m, Seq::<ProbesModel>::empty(), 0) == m);
}

} // verus!
