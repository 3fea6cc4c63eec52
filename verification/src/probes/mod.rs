//! Host-level probes exported next to the device metrics.
//!
//! Three opt-in probes, all read-only:
//!
//! * `net`: cumulative byte counters (and the rate since the previous cycle)
//!   for named network interfaces, e.g. a direct link between two machines
//!   that serve one model together.
//! * `lock`: which processes hold a named lock file open, found with `lsof`,
//!   so the lock itself is never touched.
//! * `json`: numeric fields (and their rates) of a loopback JSON status
//!   endpoint, e.g. a model server's `/health`.
pub mod json;
pub mod lock;
pub mod net;
pub mod reports;

use vstd::prelude::*;
use vstd::string::*;

use crate::common::url_parts::optional_text;
use crate::probes::json::{
    answers_of, history_of, in_name_order, json_pass, json_samples, probe_names, Fetched,
    HistoryModel, JsonProbeSample, JsonProbeSpec, JsonProber, JsonSampleModel,
};
use crate::probes::lock::{
    lock_pass, lock_samples, observations, seen_of, LockModel, LockObservation, LockSample,
    LockWatcher, SeenModel,
};
use crate::probes::net::{
    net_pass, net_samples, NetInterfaceSample, NetSampleModel, NetSampler, Previous,
};
use crate::text::{copied, same, texts};

verus! {

/// Everything the probes observed on one host in one collection cycle.
#[derive(Clone, Debug, PartialEq, Eq)]
pub struct HostProbes {
    /// Host identifier (the scraped `host:port` on the viewer side).
    pub host_id: String,
    pub hostname: String,
    pub instance: String,
    pub interfaces: Vec<NetInterfaceSample>,
    pub locks: Vec<LockSample>,
    pub json: Vec<JsonProbeSample>,
    /// Exporter OS from its build info (viewer side only).
    pub os: Option<String>,
}

/// What was observed.
#[verifier::ext_equal]
pub struct ProbesModel {
    pub host_id: Seq<char>,
    pub hostname: Seq<char>,
    pub instance: Seq<char>,
    pub interfaces: Seq<NetSampleModel>,
    pub locks: Seq<LockModel>,
    pub json: Seq<JsonSampleModel>,
    pub os: Option<Seq<char>>,
}

impl View for HostProbes {
    type V = ProbesModel;

    open spec fn view(&self) -> ProbesModel {
        ProbesModel {
            host_id: self.host_id@,
            hostname: self.hostname@,
            instance: self.instance@,
            interfaces: net_samples(self.interfaces@),
            locks: lock_samples(self.locks@),
            json: json_samples(self.json@),
            os: optional_text(self.os),
        }
    }
}

impl Default for HostProbes {
    fn default() -> (r: HostProbes)
        ensures
            r@ == (ProbesModel {
                host_id: seq![],
                hostname: seq![],
                instance: seq![],
                interfaces: seq![],
                locks: seq![],
                json: seq![],
                os: None,
            }),
    {
        let r = HostProbes {
            host_id: String::new(),
            hostname: String::new(),
            instance: String::new(),
            interfaces: Vec::new(),
            locks: Vec::new(),
            json: Vec::new(),
            os: None,
        };
        assert(r@.interfaces == Seq::<NetSampleModel>::empty());
        assert(r@.locks == Seq::<LockModel>::empty());
        assert(r@.json == Seq::<JsonSampleModel>::empty());
        r
    }
}

/// The first probe of a list that was exported under `name`; the length of
/// the list if none was.
pub open spec fn probe_index(v: Seq<JsonSampleModel>, name: Seq<char>) -> int
    decreases v.len(),
{
    if v.len() == 0 || v[0].name == name {
        0
    } else {
        1 + probe_index(v.drop_first(), name)
    }
}

impl HostProbes {
    pub fn is_empty(&self) -> (r: bool)
        ensures
            r == (self@.interfaces.len() == 0 && self@.locks.len() == 0 && self@.json.len() == 0),
    {
        self.interfaces.is_empty() && self.locks.is_empty() && self.json.is_empty()
    }

    /// The JSON probe exported under `name`, if any.
    pub fn json_probe(&self, name: &str) -> (r: Option<&JsonProbeSample>)
        ensures
            match r {
                Some(p) => probe_index(self@.json, name@) < self@.json.len() && p@
                    == self@.json[probe_index(self@.json, name@)],
                None => probe_index(self@.json, name@) == self@.json.len(),
            },
    {
        let mut i: usize = 0;
        assert(self@.json.skip(0) == self@.json);
        while i < self.json.len()
            invariant
                i <= self.json@.len(),
                probe_index(self@.json, name@) == i + probe_index(
                    self@.json.skip(i as int),
                    name@,
                ),
            decreases self.json@.len() - i,
        {
            assert(self@.json.skip(i as int)[0] == self.json@[i as int]@);
            if same(self.json[i].name.as_str(), name) {
                return Some(&self.json[i]);
            }
            assert(self@.json.skip(i as int).drop_first() == self@.json.skip(i + 1));
            i = i + 1;
        }
        None
    }
}

/// What one cycle read: the byte counters of the watched interfaces and when,
/// in nanoseconds; the holders of the watched locks and when, in Unix time; the
/// answers of the JSON endpoints.
pub struct ProbeReadings {
    pub counters: Vec<Option<(u64, u64)>>,
    pub counted_at: u64,
    pub locks: Vec<Option<LockObservation>>,
    pub unix_now: u64,
    pub answers: Vec<Option<(Fetched, u64)>>,
}

/// Owns the state the probes carry between cycles (previous counters, when
/// each lock holder was first seen).
pub struct ProbeSampler {
    pub net: Option<NetSampler>,
    pub locks: Option<LockWatcher>,
    pub json: Option<JsonProber>,
}

/// The interfaces that one cycle reports.
pub open spec fn sampled_net(s: Option<NetSampler>, read: ProbeReadings) -> Seq<NetSampleModel> {
    match s {
        Some(n) => net_pass(
            texts(n.interfaces@),
            read.counters@,
            read.counted_at,
            n.previous@,
            read.counters@.len(),
        ).1,
        None => seq![],
    }
}

/// The locks that one cycle reports.
pub open spec fn sampled_locks(s: Option<LockWatcher>, read: ProbeReadings) -> Seq<LockModel> {
    match s {
        Some(w) => lock_pass(
            texts(w.paths@),
            observations(read.locks@),
            w.primed,
            read.unix_now,
            seen_of(w.first_seen@),
            read.locks@.len(),
        ).1,
        None => seq![],
    }
}

/// The JSON probes that one cycle reports.
pub open spec fn sampled_json(s: Option<JsonProber>, read: ProbeReadings) -> Seq<JsonSampleModel> {
    match s {
        Some(p) => json_pass(
            probe_names(p.specs@),
            answers_of(read.answers@),
            history_of(p.previous@),
            read.answers@.len(),
        ).1,
        None => seq![],
    }
}

impl ProbeSampler {
    /// Whether `read` holds one reading for each thing watched.
    pub open spec fn is_read_by(&self, read: &ProbeReadings) -> bool {
        &&& self.net matches Some(n) ==> read.counters@.len() == n.interfaces@.len()
        &&& self.locks matches Some(w) ==> read.locks@.len() == w.paths@.len()
        &&& self.json matches Some(p) ==> read.answers@.len() == p.specs@.len()
    }

    /// Returns `None` when no probe was requested, so callers skip the whole
    /// probe path on a stock exporter.
    pub fn new(
        interfaces: Vec<String>,
        lock_paths: Vec<String>,
        json_probes: Vec<JsonProbeSpec>,
    ) -> (r: Option<ProbeSampler>)
        ensures
            r is None <==> interfaces@.len() == 0 && lock_paths@.len() == 0 && json_probes@.len()
                == 0,
            r matches Some(s) ==> {
                &&& s.net is Some <==> interfaces@.len() > 0
                &&& s.net matches Some(n) ==> n.interfaces == interfaces && n.previous@
                    == Map::<Seq<char>, Previous>::empty()
                &&& s.locks is Some <==> lock_paths@.len() > 0
                &&& s.locks matches Some(w) ==> w.paths == lock_paths && !w.primed && seen_of(
                    w.first_seen@,
                ) == SeenModel::empty()
                &&& s.json is Some <==> json_probes@.len() > 0
                &&& s.json matches Some(p) ==> p.specs == json_probes && history_of(p.previous@)
                    == HistoryModel::empty()
            },
    {
        if interfaces.is_empty() && lock_paths.is_empty() && json_probes.is_empty() {
            return None;
        }
        let net: Option<NetSampler> = if interfaces.is_empty() {
            None
        } else {
            Some(NetSampler::new(interfaces))
        };
        let locks: Option<LockWatcher> = if lock_paths.is_empty() {
            None
        } else {
            Some(LockWatcher::new(lock_paths))
        };
        let json: Option<JsonProber> = if json_probes.is_empty() {
            None
        } else {
            Some(JsonProber::new(json_probes))
        };
        Some(ProbeSampler { net, locks, json })
    }

    /// Everything the probes make of one cycle's readings.
    pub fn sample(&mut self, hostname: &str, read: &ProbeReadings) -> (r: HostProbes)
        requires
            old(self).is_read_by(read),
        ensures
            final(self).is_read_by(read),
            match (old(self).net, final(self).net) {
                (Some(n), Some(m)) => m.interfaces == n.interfaces && m.previous@ == net_pass(
                    texts(n.interfaces@),
                    read.counters@,
                    read.counted_at,
                    n.previous@,
                    read.counters@.len(),
                ).0,
                (None, None) => true,
                _ => false,
            },
            match (old(self).locks, final(self).locks) {
                (Some(w), Some(m)) => m.paths == w.paths && m.primed && seen_of(m.first_seen@)
                    == lock_pass(
                    texts(w.paths@),
                    observations(read.locks@),
                    w.primed,
                    read.unix_now,
                    seen_of(w.first_seen@),
                    read.locks@.len(),
                ).0,
                (None, None) => true,
                _ => false,
            },
            match (old(self).json, final(self).json) {
                (Some(p), Some(m)) => m.specs == p.specs && history_of(m.previous@) == json_pass(
                    probe_names(p.specs@),
                    answers_of(read.answers@),
                    history_of(p.previous@),
                    read.answers@.len(),
                ).0,
                (None, None) => true,
                _ => false,
            },
            r@ == (ProbesModel {
                host_id: hostname@,
                hostname: hostname@,
                instance: hostname@,
                interfaces: sampled_net(old(self).net, *read),
                locks: sampled_locks(old(self).locks, *read),
                json: sampled_json(old(self).json, *read),
                os: None,
            }),
            in_name_order(r.json@, read.answers@),
    {
        let interfaces: Vec<NetInterfaceSample> = match &mut self.net {
            Some(n) => n.sample(read.counters.as_slice(), read.counted_at),
            None => Vec::new(),
        };
        let locks: Vec<LockSample> = match &mut self.locks {
            Some(w) => w.sample(read.locks.as_slice(), read.unix_now),
            None => Vec::new(),
        };
        let json: Vec<JsonProbeSample> = match &mut self.json {
            Some(p) => p.sample(read.answers.as_slice()),
            None => Vec::new(),
        };
        let r = HostProbes {
            host_id: copied(hostname),
            hostname: copied(hostname),
            instance: copied(hostname),
            interfaces,
            locks,
            json,
            os: None,
        };
        assert(r@.interfaces == sampled_net(old(self).net, *read));
        assert(r@.locks == sampled_locks(old(self).locks, *read));
        assert(r@.json == sampled_json(old(self).json, *read));
        r
    }
}

/// The probes of several hosts.
pub open spec fn probes_of(v: Seq<HostProbes>) -> Seq<ProbesModel> {
    v.map_values(|p: HostProbes| p@)
}

/// Whether any host reports a link.
pub open spec fn any_links(probes: Seq<ProbesModel>) -> bool {
    exists|i: int| 0 <= i < probes.len() && (#[trigger] probes[i]).interfaces.len() > 0
}

/// Whether any host reports a lock.
pub open spec fn any_locks(probes: Seq<ProbesModel>) -> bool {
    exists|i: int| 0 <= i < probes.len() && (#[trigger] probes[i]).locks.len() > 0
}

/// Whether any host reports a link.
pub fn some_links(probes: &[HostProbes]) -> (r: bool)
    ensures
        r == any_links(probes_of(probes@)),
{
    let ghost all = probes_of(probes@);
    let mut i: usize = 0;
    while i < probes.len()
        invariant
            i <= probes@.len(),
            all == probes_of(probes@),
            forall|j: int| 0 <= j < i ==> (#[trigger] all[j]).interfaces.len() == 0,
        decreases probes@.len() - i,
    {
        assert(all[i as int] == probes@[i as int]@);
        if probes[i].interfaces.len() > 0 {
            assert(all[i as int].interfaces.len() > 0);
            return true;
        }
        i = i + 1;
    }
    false
}

/// Whether any host reports a lock.
pub fn some_locks(probes: &[HostProbes]) -> (r: bool)
    ensures
        r == any_locks(probes_of(probes@)),
{
    let ghost all = probes_of(probes@);
    let mut i: usize = 0;
    while i < probes.len()
        invariant
            i <= probes@.len(),
            all == probes_of(probes@),
            forall|j: int| 0 <= j < i ==> (#[trigger] all[j]).locks.len() == 0,
        decreases probes@.len() - i,
    {
        assert(all[i as int] == probes@[i as int]@);
        if probes[i].locks.len() > 0 {
            assert(all[i as int].locks.len() > 0);
            return true;
        }
        i = i + 1;
    }
    false
}

} // verus!
