//! Sparkline history for the cluster views.
//!
//! The cluster-wide histories elsewhere are averages; these views need a series
//! per device and per link, so they keep their own keyed ring buffers. One
//! sample is appended per collection cycle.
use vstd::prelude::*;
use vstd::string::*;

use crate::device::types::GpuInfo;
use crate::probes::net::NetSampleModel;
use crate::probes::{probes_of, HostProbes, ProbesModel};
use crate::reading::Reading;
use crate::table::Table;
use crate::text::{concat2, concat4, copied};
use crate::ui::consolidated::pipeline::{
    job_label, EngineHealth, PipelineStatus, Probe, SwapModel,
};

verus! {

/// Samples kept per series. Enough to fill a 120-column braille sparkline (two
/// samples per cell), i.e. 8 minutes at the default 2 s interval.
pub const HISTORY_LEN: usize = 240;

/// Upper bound on distinct series so a host that churns device UUIDs cannot
/// grow the map without bound.
pub const MAX_SERIES: usize = 256;

/// Key of a device's utilization series.
pub fn util_key(uuid: &str) -> (r: String)
    ensures
        r@ == "util:"@ + uuid@,
{
    concat2("util:", uuid)
}

/// Key of a device's power series.
pub fn power_key(uuid: &str) -> (r: String)
    ensures
        r@ == "power:"@ + uuid@,
{
    concat2("power:", uuid)
}

/// Key of a device's memory series.
pub fn mem_key(uuid: &str) -> (r: String)
    ensures
        r@ == "mem:"@ + uuid@,
{
    concat2("mem:", uuid)
}

/// Key of the receive series of a host's interface.
pub open spec fn rx_key(host_id: Seq<char>, iface: Seq<char>) -> Seq<char> {
    "net_rx:"@ + host_id + "/"@ + iface
}

/// Key of the transmit series of a host's interface.
pub open spec fn tx_key(host_id: Seq<char>, iface: Seq<char>) -> Seq<char> {
    "net_tx:"@ + host_id + "/"@ + iface
}

pub fn net_rx_key(host_id: &str, iface: &str) -> (r: String)
    ensures
        r@ == rx_key(host_id@, iface@),
{
    concat4("net_rx:", host_id, "/", iface)
}

pub fn net_tx_key(host_id: &str, iface: &str) -> (r: String)
    ensures
        r@ == tx_key(host_id@, iface@),
{
    concat4("net_tx:", host_id, "/", iface)
}

pub const TOTAL_POWER_KEY: &'static str = "total_power";

pub const TOTAL_UTIL_KEY: &'static str = "total_util";

/// 1 while the pipeline engine reports a GPU job, else 0.
pub const PIPE_BUSY_KEY: &'static str = "pipe_busy";

pub const PIPE_QUEUE_KEY: &'static str = "pipe_queue";

/// The series, samples oldest first, and how many series there are.
#[verifier::ext_equal]
pub struct SeriesModel {
    pub values: Map<Seq<char>, Seq<Reading>>,
    pub count: nat,
}

/// A full buffer loses its oldest sample to a new one.
pub open spec fn appended(s: Seq<Reading>, value: Reading) -> Seq<Reading> {
    if s.len() == HISTORY_LEN {
        s.skip(1).push(value)
    } else {
        s.push(value)
    }
}

/// The series after one more sample. Samples that are not finite are dropped,
/// and so are those of a new series once there are enough.
pub open spec fn with_sample(m: SeriesModel, key: Seq<char>, value: Reading) -> SeriesModel {
    if !value.finite() || (!m.values.contains_key(key) && m.count >= MAX_SERIES) {
        m
    } else if m.values.contains_key(key) {
        SeriesModel { values: m.values.insert(key, appended(m.values[key], value)), ..m }
    } else {
        SeriesModel { values: m.values.insert(key, seq![value]), count: m.count + 1 }
    }
}

/// The series after one more sample, where there is a reading.
pub open spec fn with_reading(m: SeriesModel, key: Seq<char>, value: Option<Reading>) -> SeriesModel {
    match value {
        Some(v) => with_sample(m, key, v),
        None => m,
    }
}

pub struct SeriesHistory {
    pub series: Table<Vec<Reading>>,
}

impl View for SeriesHistory {
    type V = SeriesModel;

    open spec fn view(&self) -> SeriesModel {
        SeriesModel {
            values: self.series@.map_values(|v: Vec<Reading>| v@),
            count: self.series.entries@.len(),
        }
    }
}

impl Default for SeriesHistory {
    fn default() -> (r: SeriesHistory)
        ensures
            r@ == (SeriesModel { values: Map::empty(), count: 0 }),
    {
        let r = SeriesHistory { series: Table::new() };
        assert(r@.values == Map::<Seq<char>, Seq<Reading>>::empty());
        r
    }
}

impl SeriesHistory {
    pub fn push(&mut self, key: String, value: Reading)
        ensures
            final(self)@ == with_sample(old(self)@, key@, value),
    {
        if !value.is_finite() {
            return ;
        }
        let known: Option<Vec<Reading>> = match self.series.get(key.as_str()) {
            Some(v) => Some(copy_samples(v)),
            None => None,
        };
        let ghost before = self@.values;
        match known {
            Some(mut buffer) => {
                assert(before[key@] == buffer@);
                if buffer.len() == HISTORY_LEN {
                    let _ = buffer.remove(0);
                    assert(buffer@ == before[key@].skip(1));
                }
                buffer.push(value);
                assert(buffer@ == appended(before[key@], value));
                let ghost name = key@;
                self.series.insert(key, buffer);
                assert(self@.values == before.insert(name, buffer@));
            },
            None => {
                if self.series.len() >= MAX_SERIES {
                    return ;
                }
                let mut buffer: Vec<Reading> = Vec::new();
                buffer.push(value);
                assert(buffer@ == seq![value]);
                let ghost name = key@;
                self.series.insert(key, buffer);
                assert(self@.values == before.insert(name, buffer@));
            },
        }
    }

    /// Samples oldest-first, or an empty vector for an unknown series.
    pub fn values(&self, key: &str) -> (r: Vec<Reading>)
        ensures
            r@ == samples_of(self@, key@),
    {
        match self.series.get(key) {
            Some(v) => copy_samples(v),
            None => Vec::new(),
        }
    }

    pub fn len(&self) -> (r: usize)
        ensures
            r == self@.count,
    {
        self.series.len()
    }

    pub fn is_empty(&self) -> (r: bool)
        ensures
            r == (self@.count == 0),
    {
        self.series.is_empty()
    }
}

/// The samples of a series; none for an unknown one.
pub open spec fn samples_of(m: SeriesModel, key: Seq<char>) -> Seq<Reading> {
    if m.values.contains_key(key) {
        m.values[key]
    } else {
        seq![]
    }
}

fn copy_samples(v: &Vec<Reading>) -> (r: Vec<Reading>)
    ensures
        r@ == v@,
{
    let mut r: Vec<Reading> = Vec::new();
    let mut i: usize = 0;
    while i < v.len()
        invariant
            i <= v@.len(),
            r@ == v@.take(i as int),
        decreases v@.len() - i,
    {
        r.push(v[i]);
        assert(v@.take(i + 1) == v@.take(i as int).push(v@[i as int]));
        i = i + 1;
    }
    assert(v@.take(v@.len() as int) == v@);
    r
}

/// The series and sums after the devices of one cycle.
#[verifier::ext_equal]
pub struct DeviceSums {
    pub series: SeriesModel,
    pub power: Reading,
    pub util: Reading,
    pub util_count: nat,
}

/// The series and sums after the first `n` devices. A device without a reading
/// contributes nothing rather than a zero.
pub open spec fn recorded_devices(m: SeriesModel, gpus: Seq<GpuInfo>, n: nat) -> DeviceSums
    decreases n,
{
    if n == 0 {
        DeviceSums {
            series: m,
            power: Reading { bits: 0 },
            util: Reading { bits: 0 },
            util_count: 0,
        }
    } else {
        let s = recorded_devices(m, gpus, (n - 1) as nat);
        let g = gpus[n - 1];
        DeviceSums {
            series: with_reading(
                with_reading(s.series, "util:"@ + g.uuid@, g.utilization),
                "power:"@ + g.uuid@,
                g.power_consumption,
            ),
            power: match g.power_consumption {
                Some(w) => s.power.sum(w),
                None => s.power,
            },
            util: match g.utilization {
                Some(u) => s.util.sum(u),
                None => s.util,
            },
            util_count: if g.utilization is Some {
                s.util_count + 1
            } else {
                s.util_count
            },
        }
    }
}

/// The series with the totals of a cycle.
pub open spec fn recorded_totals(s: DeviceSums, devices: nat) -> SeriesModel {
    let a = if devices > 0 {
        with_sample(s.series, TOTAL_POWER_KEY@, s.power)
    } else {
        s.series
    };
    if s.util_count > 0 {
        with_sample(a, TOTAL_UTIL_KEY@, s.util.quotient(Reading::of_natural(s.util_count)))
    } else {
        a
    }
}

/// The series after the first `n` interfaces of a host.
pub open spec fn recorded_links(
    m: SeriesModel,
    host: Seq<char>,
    links: Seq<NetSampleModel>,
    n: nat,
) -> SeriesModel
    decreases n,
{
    if n == 0 {
        m
    } else {
        let l = links[n - 1];
        with_reading(
            with_reading(
                recorded_links(m, host, links, (n - 1) as nat),
                rx_key(host, l.interface),
                l.rx_bytes_per_sec,
            ),
            tx_key(host, l.interface),
            l.tx_bytes_per_sec,
        )
    }
}

/// The series after the links of the first `n` hosts.
pub open spec fn recorded_hosts(m: SeriesModel, probes: Seq<ProbesModel>, n: nat) -> SeriesModel
    decreases n,
{
    if n == 0 {
        m
    } else {
        let p = probes[n - 1];
        recorded_links(
            recorded_hosts(m, probes, (n - 1) as nat),
            p.host_id,
            p.interfaces,
            p.interfaces.len(),
        )
    }
}

/// The series after one collection cycle.
pub open spec fn recorded(m: SeriesModel, gpus: Seq<GpuInfo>, probes: Seq<ProbesModel>) -> SeriesModel {
    recorded_hosts(
        recorded_totals(recorded_devices(m, gpus, gpus.len()), gpus.len()),
        probes,
        probes.len(),
    )
}

/// Everything the cluster views keep between frames.
pub struct ConsolidatedState {
    pub history: SeriesHistory,
    /// Pipeline panel; `None` hides the panel.
    pub pipeline: Option<PipelineStatus>,
}

impl Default for ConsolidatedState {
    fn default() -> (r: ConsolidatedState)
        ensures
            r.history@ == (SeriesModel { values: Map::empty(), count: 0 }),
            r.pipeline is None,
    {
        ConsolidatedState { history: SeriesHistory::default(), pipeline: None }
    }
}

impl ConsolidatedState {
    /// Append one sample per series from a finished collection cycle. Devices
    /// with no reading contribute nothing rather than a zero, so a gap in the
    /// source never renders as an idle dip.
    pub fn record_collection(&mut self, gpu_info: &[GpuInfo], host_probes: &[HostProbes])
        ensures
            final(self).pipeline == old(self).pipeline,
            final(self).history@ == recorded(
                old(self).history@,
                gpu_info@,
                probes_of(host_probes@),
            ),
    {
        let ghost start = self.history@;
        let mut total_power: Reading = Reading { bits: 0 };
        let mut util_sum: Reading = Reading { bits: 0 };
        let mut util_count: usize = 0;
        let mut i: usize = 0;
        while i < gpu_info.len()
            invariant
                i <= gpu_info@.len(),
                util_count <= i,
                self.pipeline == old(self).pipeline,
                start == old(self).history@,
                ({
                    let s = recorded_devices(start, gpu_info@, i as nat);
                    self.history@ == s.series && total_power == s.power && util_sum == s.util
                        && util_count == s.util_count
                }),
            decreases gpu_info@.len() - i,
        {
            let gpu: &GpuInfo = &gpu_info[i];
            if let Some(util) = gpu.utilization {
                self.history.push(util_key(gpu.uuid.as_str()), util);
                util_sum = util_sum.plus(util);
                util_count = util_count + 1;
            }
            if let Some(watts) = gpu.power_consumption {
                self.history.push(power_key(gpu.uuid.as_str()), watts);
                total_power = total_power.plus(watts);
            }
            i = i + 1;
        }
        if gpu_info.len() > 0 {
            self.history.push(copied(TOTAL_POWER_KEY), total_power);
        }
        if util_count > 0 {
            self.history.push(
                copied(TOTAL_UTIL_KEY),
                util_sum.over(Reading::from_u64(util_count as u64)),
            );
        }
        let ghost counted = self.history@;
        let ghost all = probes_of(host_probes@);
        let mut k: usize = 0;
        while k < host_probes.len()
            invariant
                k <= host_probes@.len(),
                self.pipeline == old(self).pipeline,
                all == probes_of(host_probes@),
                self.history@ == recorded_hosts(counted, all, k as nat),
            decreases host_probes@.len() - k,
        {
            assert(all[k as int] == host_probes@[k as int]@);
            self.record_links(&host_probes[k]);
            k = k + 1;
        }
    }

    fn record_links(&mut self, host: &HostProbes)
        ensures
            final(self).pipeline == old(self).pipeline,
            final(self).history@ == recorded_links(
                old(self).history@,
                host@.host_id,
                host@.interfaces,
                host@.interfaces.len(),
            ),
    {
        let mut i: usize = 0;
        while i < host.interfaces.len()
            invariant
                i <= host.interfaces@.len(),
                self.pipeline == old(self).pipeline,
                self.history@ == recorded_links(
                    old(self).history@,
                    host@.host_id,
                    host@.interfaces,
                    i as nat,
                ),
            decreases host.interfaces@.len() - i,
        {
            assert(host@.interfaces[i as int] == host.interfaces@[i as int]@);
            if let Some(rx) = host.interfaces[i].rx_bytes_per_sec {
                self.history.push(
                    net_rx_key(host.host_id.as_str(), host.interfaces[i].interface.as_str()),
                    rx,
                );
            }
            if let Some(tx) = host.interfaces[i].tx_bytes_per_sec {
                self.history.push(
                    net_tx_key(host.host_id.as_str(), host.interfaces[i].interface.as_str()),
                    tx,
                );
            }
            i = i + 1;
        }
    }

    /// Store one engine `/health` poll. A failed poll replaces the last reading
    /// so a dead engine is never shown as healthy.
    pub fn record_engine(&mut self, result: Result<EngineHealth, String>)
        ensures
            match (old(self).pipeline, final(self).pipeline) {
                (Some(p), Some(q)) => {
                    &&& q.config == p.config
                    &&& q.swap == p.swap
                    &&& q.prefill_since == p.prefill_since
                    &&& q.prefill_elapsed == p.prefill_elapsed
                    &&& q.last_prefill == p.last_prefill
                    &&& match result {
                        Ok(h) => q.engine == Probe::Up(h) && final(self).history@ == polled(
                            old(self).history@,
                            h,
                        ),
                        Err(e) => q.engine == Probe::<EngineHealth>::Failed(e)
                            && final(self).history@ == old(self).history@,
                    }
                },
                (None, None) => final(self).history@ == old(self).history@,
                _ => false,
            },
    {
        if self.pipeline.is_none() {
            return ;
        }
        let engine: Probe<EngineHealth> = match result {
            Ok(health) => {
                let busy: Reading = Reading::from_u64(
                    if health.is_busy() {
                        1
                    } else {
                        0
                    },
                );
                self.history.push(copied(PIPE_BUSY_KEY), busy);
                if let Some(q) = health.queued_jobs {
                    self.history.push(copied(PIPE_QUEUE_KEY), Reading::from_u64(q));
                }
                Probe::Up(health)
            },
            Err(e) => Probe::Failed(e),
        };
        if let Some(pipeline) = &mut self.pipeline {
            pipeline.engine = engine;
        }
    }

    /// Store one llama-swap `/running` poll.
    pub fn record_swap(&mut self, result: Result<Vec<SwapModel>, String>)
        ensures
            final(self).history@ == old(self).history@,
            match (old(self).pipeline, final(self).pipeline) {
                (Some(p), Some(q)) => {
                    &&& q.config == p.config
                    &&& q.engine == p.engine
                    &&& q.prefill_since == p.prefill_since
                    &&& q.prefill_elapsed == p.prefill_elapsed
                    &&& q.last_prefill == p.last_prefill
                    &&& q.swap == (match result {
                        Ok(v) => Probe::Up(v),
                        Err(e) => Probe::<Vec<SwapModel>>::Failed(e),
                    })
                },
                (None, None) => true,
                _ => false,
            },
    {
        if let Some(pipeline) = &mut self.pipeline {
            pipeline.swap = match result {
                Ok(models) => Probe::Up(models),
                Err(e) => Probe::Failed(e),
            };
        }
    }
}

/// The series after a successful engine poll.
pub open spec fn polled(m: SeriesModel, h: EngineHealth) -> SeriesModel {
    let a = with_sample(
        m,
        PIPE_BUSY_KEY@,
        Reading::of_natural(
            if job_label(h.gpu_job) is Some {
                1
            } else {
                0
            },
        ),
    );
    match h.queued_jobs {
        Some(q) => with_sample(a, PIPE_QUEUE_KEY@, Reading::of_natural(q as nat)),
        None => a,
    }
}

/// Whether memory use is bounded: few series, and none of them long.
pub open spec fn bounded(m: SeriesModel) -> bool {
    &&& m.count <= MAX_SERIES
    &&& forall|k: Seq<char>| #[trigger]
        m.values.contains_key(k) ==> m.values[k].len() <= HISTORY_LEN
}

/// The history never outgrows its bounds.
pub proof fn history_stays_bounded(m: SeriesModel, key: Seq<char>, value: Reading)
    requires
        bounded(m),
    ensures
        bounded(with_sample(m, key, value)),
{
}

proof fn devices_stay_bounded(m: SeriesModel, gpus: Seq<GpuInfo>, n: nat)
    requires
        bounded(m),
    ensures
        bounded(recorded_devices(m, gpus, n).series),
    decreases n,
{
    if n > 0 {
        devices_stay_bounded(m, gpus, (n - 1) as nat);
    }
}

proof fn links_stay_bounded(m: SeriesModel, host: Seq<char>, links: Seq<NetSampleModel>, n: nat)
    requires
        bounded(m),
    ensures
        bounded(recorded_links(m, host, links, n)),
    decreases n,
{
    if n > 0 {
        links_stay_bounded(m, host, links, (n - 1) as nat);
    }
}

proof fn hosts_stay_bounded(m: SeriesModel, probes: Seq<ProbesModel>, n: nat)
    requires
        bounded(m),
    ensures
        bounded(recorded_hosts(m, probes, n)),
    decreases n,
{
    if n > 0 {
        hosts_stay_bounded(m, probes, (n - 1) as nat);
        let p = probes[n - 1];
        links_stay_bounded(
            recorded_hosts(m, probes, (n - 1) as nat),
            p.host_id,
            p.interfaces,
            p.interfaces.len(),
        );
    }
}

/// Neither a collection cycle nor a poll of the engine outgrows the bounds,
/// however many devices and interfaces it names.
pub proof fn cycles_stay_bounded(
    m: SeriesModel,
    gpus: Seq<GpuInfo>,
    probes: Seq<ProbesModel>,
    health: EngineHealth,
)
    requires
        bounded(m),
    ensures
        bounded(recorded(m, gpus, probes)),
        bounded(polled(m, health)),
{
    devices_stay_bounded(m, gpus, gpus.len());
    hosts_stay_bounded(
        recorded_totals(recorded_devices(m, gpus, gpus.len()), gpus.len()),
        probes,
        probes.len(),
    );
}

proof fn keys_differ(uuid: Seq<char>, other: Seq<char>, host: Seq<char>, iface: Seq<char>)
    ensures
        "util:"@ + uuid == "util:"@ + other ==> uuid == other,
        "power:"@ + uuid == "power:"@ + other ==> uuid == other,
        "util:"@ + uuid != "power:"@ + other,
        "util:"@ + uuid != TOTAL_POWER_KEY@,
        "power:"@ + uuid != TOTAL_POWER_KEY@,
        "util:"@ + uuid != TOTAL_UTIL_KEY@,
        "power:"@ + uuid != TOTAL_UTIL_KEY@,
        "util:"@ + uuid != rx_key(host, iface),
        "util:"@ + uuid != tx_key(host, iface),
        "power:"@ + uuid != rx_key(host, iface),
        "power:"@ + uuid != tx_key(host, iface),
{
    reveal_strlit("util:");
    reveal_strlit("power:");
    reveal_strlit("total_power");
    reveal_strlit("total_util");
    reveal_strlit("net_rx:");
    reveal_strlit("net_tx:");
    let (u, p) = ("util:"@ + uuid, "power:"@ + uuid);
    assert(u[0] == 'u' && p[0] == 'p');
    assert(("power:"@ + other)[0] == 'p');
    assert(TOTAL_POWER_KEY@[0] == 't' && TOTAL_UTIL_KEY@[0] == 't');
    assert(rx_key(host, iface)[0] == 'n' && tx_key(host, iface)[0] == 'n');
    if u == "util:"@ + other {
        assert(u.skip(5) == uuid);
        assert(("util:"@ + other).skip(5) == other);
    }
    if p == "power:"@ + other {
        assert(p.skip(6) == uuid);
        assert(("power:"@ + other).skip(6) == other);
    }
}

/// Whether no device of that identifier reports its utilization.
pub open spec fn no_utilization(gpus: Seq<GpuInfo>, uuid: Seq<char>) -> bool {
    forall|i: int|
        0 <= i < gpus.len() && (#[trigger] gpus[i]).uuid@ == uuid ==> gpus[i].utilization is None
}

/// Whether no device of that identifier reports its power.
pub open spec fn no_power(gpus: Seq<GpuInfo>, uuid: Seq<char>) -> bool {
    forall|i: int|
        0 <= i < gpus.len() && (#[trigger] gpus[i]).uuid@ == uuid
            ==> gpus[i].power_consumption is None
}

proof fn devices_leave_gaps(m: SeriesModel, gpus: Seq<GpuInfo>, n: nat, uuid: Seq<char>)
    requires
        n <= gpus.len(),
    ensures
        no_utilization(gpus, uuid) ==> samples_of(
            recorded_devices(m, gpus, n).series,
            "util:"@ + uuid,
        ) == samples_of(m, "util:"@ + uuid),
        no_power(gpus, uuid) ==> samples_of(
            recorded_devices(m, gpus, n).series,
            "power:"@ + uuid,
        ) == samples_of(m, "power:"@ + uuid),
    decreases n,
{
    if n > 0 {
        devices_leave_gaps(m, gpus, (n - 1) as nat, uuid);
        keys_differ(uuid, gpus[n - 1].uuid@, seq![], seq![]);
        keys_differ(gpus[n - 1].uuid@, uuid, seq![], seq![]);
    }
}

proof fn links_leave_devices(
    m: SeriesModel,
    host: Seq<char>,
    links: Seq<NetSampleModel>,
    n: nat,
    uuid: Seq<char>,
)
    ensures
        samples_of(recorded_links(m, host, links, n), "util:"@ + uuid) == samples_of(
            m,
            "util:"@ + uuid,
        ),
        samples_of(recorded_links(m, host, links, n), "power:"@ + uuid) == samples_of(
            m,
            "power:"@ + uuid,
        ),
    decreases n,
{
    if n > 0 {
        links_leave_devices(m, host, links, (n - 1) as nat, uuid);
        keys_differ(uuid, uuid, host, links[n - 1].interface);
    }
}

proof fn hosts_leave_devices(m: SeriesModel, probes: Seq<ProbesModel>, n: nat, uuid: Seq<char>)
    ensures
        samples_of(recorded_hosts(m, probes, n), "util:"@ + uuid) == samples_of(
            m,
            "util:"@ + uuid,
        ),
        samples_of(recorded_hosts(m, probes, n), "power:"@ + uuid) == samples_of(
            m,
            "power:"@ + uuid,
        ),
    decreases n,
{
    if n > 0 {
        hosts_leave_devices(m, probes, (n - 1) as nat, uuid);
        let p = probes[n - 1];
        links_leave_devices(
            recorded_hosts(m, probes, (n - 1) as nat),
            p.host_id,
            p.interfaces,
            p.interfaces.len(),
            uuid,
        );
    }
}

/// A gap in the source never becomes an idle dip: a cycle in which a device
/// reports no utilization, or no power, leaves that series as it was.
pub proof fn a_gap_is_no_dip(
    m: SeriesModel,
    gpus: Seq<GpuInfo>,
    probes: Seq<ProbesModel>,
    uuid: Seq<char>,
)
    ensures
        no_utilization(gpus, uuid) ==> samples_of(recorded(m, gpus, probes), "util:"@ + uuid)
            == samples_of(m, "util:"@ + uuid),
        no_power(gpus, uuid) ==> samples_of(recorded(m, gpus, probes), "power:"@ + uuid)
            == samples_of(m, "power:"@ + uuid),
{
    devices_leave_gaps(m, gpus, gpus.len(), uuid);
    keys_differ(uuid, uuid, seq![], seq![]);
    hosts_leave_devices(
        recorded_totals(recorded_devices(m, gpus, gpus.len()), gpus.len()),
        probes,
        probes.len(),
        uuid,
    );
}

/// A sample that is accepted is the newest of its series, and every other
/// series is left alone.
pub proof fn samples_arrive_at_the_end(
    m: SeriesModel,
    key: Seq<char>,
    value: Reading,
    other: Seq<char>,
)
    requires
        value.finite(),
        m.values.contains_key(key) || m.count < MAX_SERIES,
    ensures
        samples_of(with_sample(m, key, value), key).len() > 0,
        samples_of(with_sample(m, key, value), key).last() == value,
        other != key ==> samples_of(with_sample(m, key, value), other) == samples_of(m, other),
{
}

} // verus!
