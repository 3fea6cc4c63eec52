//! Metric families for the opt-in host probes. Nothing is published when no
//! probe is configured, so a stock exporter's output is unchanged.
use vstd::prelude::*;
use vstd::string::*;

use crate::api::metrics::{items_text, labels_of, ItemModel, Label, MetricBuilder};
use crate::probes::lock::{holders_of, lock_samples, LockModel, LockSample};
use crate::probes::net::{net_samples, NetInterfaceSample, NetSampleModel};
use crate::probes::{
    any_links, any_locks, probes_of, some_links, some_locks, HostProbes, ProbesModel,
};
use crate::text::{copied, decimal, decimal_text};

verus! {

pub const NET_RX_TOTAL: &'static str = "all_smi_network_receive_bytes_total";

pub const NET_TX_TOTAL: &'static str = "all_smi_network_transmit_bytes_total";

pub const NET_RX_RATE: &'static str = "all_smi_network_receive_bytes_per_second";

pub const NET_TX_RATE: &'static str = "all_smi_network_transmit_bytes_per_second";

pub const LOCK_HELD: &'static str = "all_smi_lock_held";

pub const LOCK_HOLDER_INFO: &'static str = "all_smi_lock_holder_info";

pub const LOCK_HELD_SINCE: &'static str = "all_smi_lock_held_since_seconds";

/// The families of an interface.
#[derive(Clone, Copy, Debug, PartialEq, Eq, Structural)]
pub enum NetFamily {
    RxTotal,
    TxTotal,
    RxRate,
    TxRate,
}

impl NetFamily {
    pub open spec fn title(self) -> Seq<char> {
        match self {
            NetFamily::RxTotal => NET_RX_TOTAL@,
            NetFamily::TxTotal => NET_TX_TOTAL@,
            NetFamily::RxRate => NET_RX_RATE@,
            NetFamily::TxRate => NET_TX_RATE@,
        }
    }

    pub open spec fn sort(self) -> Seq<char> {
        match self {
            NetFamily::RxTotal | NetFamily::TxTotal => "counter"@,
            NetFamily::RxRate | NetFamily::TxRate => "gauge"@,
        }
    }

    pub open spec fn purpose(self) -> Seq<char> {
        match self {
            NetFamily::RxTotal => "Bytes received on the interface"@,
            NetFamily::TxTotal => "Bytes transmitted on the interface"@,
            NetFamily::RxRate => {
                "Receive rate in bytes per second over the last collection interval"@
            },
            NetFamily::TxRate => {
                "Transmit rate in bytes per second over the last collection interval"@
            },
        }
    }

    /// The value of an interface in this family; a rate has one decimal.
    pub open spec fn figure(self, l: NetSampleModel) -> Option<Seq<char>> {
        match self {
            NetFamily::RxTotal => Some(decimal(l.rx_bytes as nat)),
            NetFamily::TxTotal => Some(decimal(l.tx_bytes as nat)),
            NetFamily::RxRate => match l.rx_bytes_per_sec {
                Some(r) => Some(r.fixed(1)),
                None => None,
            },
            NetFamily::TxRate => match l.tx_bytes_per_sec {
                Some(r) => Some(r.fixed(1)),
                None => None,
            },
        }
    }

    fn name(self) -> (r: &'static str)
        ensures
            r@ == self.title(),
    {
        match self {
            NetFamily::RxTotal => NET_RX_TOTAL,
            NetFamily::TxTotal => NET_TX_TOTAL,
            NetFamily::RxRate => NET_RX_RATE,
            NetFamily::TxRate => NET_TX_RATE,
        }
    }

    fn kind(self) -> (r: &'static str)
        ensures
            r@ == self.sort(),
    {
        match self {
            NetFamily::RxTotal => "counter",
            NetFamily::TxTotal => "counter",
            NetFamily::RxRate => "gauge",
            NetFamily::TxRate => "gauge",
        }
    }

    fn help(self) -> (r: &'static str)
        ensures
            r@ == self.purpose(),
    {
        match self {
            NetFamily::RxTotal => "Bytes received on the interface",
            NetFamily::TxTotal => "Bytes transmitted on the interface",
            NetFamily::RxRate =>
                "Receive rate in bytes per second over the last collection interval",
            NetFamily::TxRate =>
                "Transmit rate in bytes per second over the last collection interval",
        }
    }

    fn value(self, l: &NetInterfaceSample) -> (r: Option<String>)
        ensures
            match r {
                Some(s) => self.figure(l@) == Some(s@),
                None => self.figure(l@) is None,
            },
    {
        match self {
            NetFamily::RxTotal => Some(decimal_text(l.rx_bytes as u128)),
            NetFamily::TxTotal => Some(decimal_text(l.tx_bytes as u128)),
            NetFamily::RxRate => match l.rx_bytes_per_sec {
                Some(r) => Some(r.fixed_text(1)),
                None => None,
            },
            NetFamily::TxRate => match l.tx_bytes_per_sec {
                Some(r) => Some(r.fixed_text(1)),
                None => None,
            },
        }
    }
}

/// The labels that every sample of a host carries, and one more.
pub open spec fn host_labels(p: ProbesModel, key: Seq<char>, value: Seq<char>) -> Seq<Label> {
    seq![("instance"@, p.instance), ("hostname"@, p.hostname), (key, value)]
}

/// The sample of one interface in a family, where it has one.
pub open spec fn net_sample(p: ProbesModel, l: NetSampleModel, f: NetFamily) -> Seq<ItemModel> {
    match f.figure(l) {
        Some(v) => seq![
            ItemModel::Sample {
                name: f.title(),
                labels: host_labels(p, "interface"@, l.interface),
                value: v,
            },
        ],
        None => seq![],
    }
}

/// The samples of the first `n` interfaces of a host in a family.
pub open spec fn host_net_samples(p: ProbesModel, n: nat, f: NetFamily) -> Seq<ItemModel>
    decreases n,
{
    if n == 0 {
        seq![]
    } else {
        host_net_samples(p, (n - 1) as nat, f) + net_sample(p, p.interfaces[n - 1], f)
    }
}

/// The samples of the first `n` hosts in a family.
pub open spec fn all_net_samples(hosts: Seq<ProbesModel>, n: nat, f: NetFamily) -> Seq<ItemModel>
    decreases n,
{
    if n == 0 {
        seq![]
    } else {
        all_net_samples(hosts, (n - 1) as nat, f) + host_net_samples(
            hosts[n - 1],
            hosts[n - 1].interfaces.len(),
            f,
        )
    }
}

/// The lines of one family.
pub open spec fn net_family(hosts: Seq<ProbesModel>, f: NetFamily) -> Seq<ItemModel> {
    seq![
        ItemModel::Help { name: f.title(), text: f.purpose() },
        ItemModel::Kind { name: f.title(), kind: f.sort() },
    ] + all_net_samples(hosts, hosts.len(), f)
}

/// The lines of the links.
pub open spec fn network_items(hosts: Seq<ProbesModel>) -> Seq<ItemModel> {
    if any_links(hosts) {
        net_family(hosts, NetFamily::RxTotal) + net_family(hosts, NetFamily::TxTotal) + net_family(
            hosts,
            NetFamily::RxRate,
        ) + net_family(hosts, NetFamily::TxRate)
    } else {
        seq![]
    }
}

/// The families of a lock.
#[derive(Clone, Copy, Debug, PartialEq, Eq, Structural)]
pub enum LockFamily {
    Held,
    Holder,
    Since,
}

impl LockFamily {
    pub open spec fn title(self) -> Seq<char> {
        match self {
            LockFamily::Held => LOCK_HELD@,
            LockFamily::Holder => LOCK_HOLDER_INFO@,
            LockFamily::Since => LOCK_HELD_SINCE@,
        }
    }

    pub open spec fn purpose(self) -> Seq<char> {
        match self {
            LockFamily::Held => "1 when some process has the watched lock file open"@,
            LockFamily::Holder => "Process holding the watched lock file open"@,
            LockFamily::Since => {
                "Unix time the current holder of the watched lock file was first seen"@
            },
        }
    }

    fn name(self) -> (r: &'static str)
        ensures
            r@ == self.title(),
    {
        match self {
            LockFamily::Held => LOCK_HELD,
            LockFamily::Holder => LOCK_HOLDER_INFO,
            LockFamily::Since => LOCK_HELD_SINCE,
        }
    }

    fn help(self) -> (r: &'static str)
        ensures
            r@ == self.purpose(),
    {
        match self {
            LockFamily::Held => "1 when some process has the watched lock file open",
            LockFamily::Holder => "Process holding the watched lock file open",
            LockFamily::Since =>
                "Unix time the current holder of the watched lock file was first seen",
        }
    }
}

/// The labels of a holder.
pub open spec fn holder_labels(p: ProbesModel, path: Seq<char>, h: (u32, Seq<char>)) -> Seq<Label> {
    seq![
        ("instance"@, p.instance),
        ("hostname"@, p.hostname),
        ("path"@, path),
        ("pid"@, decimal(h.0 as nat)),
        ("command"@, h.1),
    ]
}

/// The samples of the first `n` holders of a lock.
pub open spec fn holder_samples(p: ProbesModel, lock: LockModel, n: nat) -> Seq<ItemModel>
    decreases n,
{
    if n == 0 {
        seq![]
    } else {
        holder_samples(p, lock, (n - 1) as nat).push(
            ItemModel::Sample {
                name: LOCK_HOLDER_INFO@,
                labels: holder_labels(p, lock.path, lock.holders[n - 1]),
                value: "1"@,
            },
        )
    }
}

/// The samples of one lock in a family.
pub open spec fn lock_samples_in(p: ProbesModel, lock: LockModel, f: LockFamily) -> Seq<ItemModel> {
    match f {
        LockFamily::Held => seq![
            ItemModel::Sample {
                name: LOCK_HELD@,
                labels: host_labels(p, "path"@, lock.path),
                value: if lock.holders.len() > 0 {
                    "1"@
                } else {
                    "0"@
                },
            },
        ],
        LockFamily::Holder => holder_samples(p, lock, lock.holders.len()),
        LockFamily::Since => match lock.since_unix {
            Some(since) => seq![
                ItemModel::Sample {
                    name: LOCK_HELD_SINCE@,
                    labels: host_labels(p, "path"@, lock.path),
                    value: decimal(since as nat),
                },
            ],
            None => seq![],
        },
    }
}

/// The samples of the first `n` locks of a host in a family.
pub open spec fn host_lock_samples(p: ProbesModel, n: nat, f: LockFamily) -> Seq<ItemModel>
    decreases n,
{
    if n == 0 {
        seq![]
    } else {
        host_lock_samples(p, (n - 1) as nat, f) + lock_samples_in(p, p.locks[n - 1], f)
    }
}

/// The samples of the first `n` hosts in a family.
pub open spec fn all_lock_samples(hosts: Seq<ProbesModel>, n: nat, f: LockFamily) -> Seq<ItemModel>
    decreases n,
{
    if n == 0 {
        seq![]
    } else {
        all_lock_samples(hosts, (n - 1) as nat, f) + host_lock_samples(
            hosts[n - 1],
            hosts[n - 1].locks.len(),
            f,
        )
    }
}

/// The lines of one family.
pub open spec fn lock_family(hosts: Seq<ProbesModel>, f: LockFamily) -> Seq<ItemModel> {
    seq![
        ItemModel::Help { name: f.title(), text: f.purpose() },
        ItemModel::Kind { name: f.title(), kind: "gauge"@ },
    ] + all_lock_samples(hosts, hosts.len(), f)
}

/// The lines of the locks.
pub open spec fn lock_items(hosts: Seq<ProbesModel>) -> Seq<ItemModel> {
    if any_locks(hosts) {
        lock_family(hosts, LockFamily::Held) + lock_family(hosts, LockFamily::Holder) + lock_family(
            hosts,
            LockFamily::Since,
        )
    } else {
        seq![]
    }
}

/// All lines.
pub open spec fn probe_items(hosts: Seq<ProbesModel>) -> Seq<ItemModel> {
    network_items(hosts) + lock_items(hosts)
}

fn labels_for(p: &HostProbes, key: &str, value: &str) -> (r: Vec<(String, String)>)
    ensures
        labels_of(r@) == host_labels(p@, key@, value@),
{
    let mut v: Vec<(String, String)> = Vec::new();
    v.push((copied("instance"), copied(p.instance.as_str())));
    v.push((copied("hostname"), copied(p.hostname.as_str())));
    v.push((copied(key), copied(value)));
    assert(labels_of(v@) == host_labels(p@, key@, value@));
    v
}

pub struct ProbeMetricExporter<'a> {
    pub probes: &'a [HostProbes],
}

impl<'a> ProbeMetricExporter<'a> {
    pub fn new(probes: &'a [HostProbes]) -> (r: ProbeMetricExporter<'a>)
        ensures
            r.probes@ == probes@,
    {
        ProbeMetricExporter { probes }
    }

    fn export_net_host(&self, builder: &mut MetricBuilder, p: &HostProbes, f: NetFamily)
        ensures
            final(builder)@ == old(builder)@ + host_net_samples(
                p@,
                p.interfaces@.len(),
                f,
            ),
    {
        let ghost before = builder@;
        let mut k: usize = 0;
        assert(before + host_net_samples(p@, 0, f) == before);
        while k < p.interfaces.len()
            invariant
                k <= p.interfaces@.len(),
                p@.interfaces == net_samples(p.interfaces@),
                builder@ == before + host_net_samples(p@, k as nat, f),
            decreases p.interfaces@.len() - k,
        {
            let l: &NetInterfaceSample = &p.interfaces[k];
            assert(p@.interfaces[k as int] == l@);
            let ghost sofar = builder@;
            match f.value(l) {
                Some(v) => {
                    let labels: Vec<(String, String)> = labels_for(
                        p,
                        "interface",
                        l.interface.as_str(),
                    );
                    builder.metric(f.name(), labels, v);
                    assert(builder@ == sofar + net_sample(p@, l@, f));
                },
                None => {
                    assert(sofar == sofar + net_sample(p@, l@, f));
                },
            }
            assert(builder@ == before + host_net_samples(p@, (k + 1) as nat, f));
            k = k + 1;
        }
    }

    fn export_net_family(&self, builder: &mut MetricBuilder, f: NetFamily)
        ensures
            final(builder)@ == old(builder)@ + net_family(probes_of(self.probes@), f),
    {
        let ghost all = probes_of(self.probes@);
        let ghost before = builder@;
        let ghost head = seq![
            ItemModel::Help { name: f.title(), text: f.purpose() },
            ItemModel::Kind { name: f.title(), kind: f.sort() },
        ];
        builder.help(f.name(), f.help());
        builder.type_(f.name(), f.kind());
        assert(builder@ == before + head);
        let mut i: usize = 0;
        assert(before + (head + all_net_samples(all, 0, f)) == before + head);
        while i < self.probes.len()
            invariant
                i <= self.probes@.len(),
                all == probes_of(self.probes@),
                builder@ == before + (head + all_net_samples(all, i as nat, f)),
            decreases self.probes@.len() - i,
        {
            assert(all[i as int] == self.probes@[i as int]@);
            self.export_net_host(builder, &self.probes[i], f);
            assert(builder@ == before + (head + all_net_samples(all, (i + 1) as nat, f)));
            i = i + 1;
        }
    }

    /// Adds the families of the links.
    pub fn export_network(&self, builder: &mut MetricBuilder)
        ensures
            final(builder)@ == old(builder)@ + network_items(probes_of(self.probes@)),
    {
        let ghost before = builder@;
        if !some_links(self.probes) {
            assert(before + Seq::<ItemModel>::empty() == before);
            return ;
        }
        self.export_net_family(builder, NetFamily::RxTotal);
        self.export_net_family(builder, NetFamily::TxTotal);
        self.export_net_family(builder, NetFamily::RxRate);
        self.export_net_family(builder, NetFamily::TxRate);
        assert(builder@ == before + network_items(probes_of(self.probes@)));
    }

    fn export_lock(&self, builder: &mut MetricBuilder, p: &HostProbes, lock: &LockSample, f: LockFamily)
        ensures
            final(builder)@ == old(builder)@ + lock_samples_in(p@, lock@, f),
    {
        let ghost before = builder@;
        match f {
            LockFamily::Held => {
                let labels: Vec<(String, String)> = labels_for(p, "path", lock.path.as_str());
                let value: &str = if lock.is_held() {
                    "1"
                } else {
                    "0"
                };
                builder.metric(LOCK_HELD, labels, copied(value));
                assert(builder@ == before + lock_samples_in(p@, lock@, f));
            },
            LockFamily::Holder => {
                let mut k: usize = 0;
                assert(before + holder_samples(p@, lock@, 0) == before);
                while k < lock.holders.len()
                    invariant
                        k <= lock.holders@.len(),
                        lock@.holders == holders_of(lock.holders@),
                        builder@ == before + holder_samples(p@, lock@, k as nat),
                    decreases lock.holders@.len() - k,
                {
                    assert(lock@.holders[k as int] == lock.holders@[k as int]@);
                    let mut labels: Vec<(String, String)> = labels_for(
                        p,
                        "path",
                        lock.path.as_str(),
                    );
                    let ghost base = labels_of(labels@);
                    labels.push((copied("pid"), decimal_text(lock.holders[k].pid as u128)));
                    labels.push((copied("command"), copied(lock.holders[k].command.as_str())));
                    assert(labels_of(labels@) == base.push(
                        ("pid"@, decimal(lock@.holders[k as int].0 as nat)),
                    ).push(("command"@, lock@.holders[k as int].1)));
                    assert(labels_of(labels@) == holder_labels(
                        p@,
                        lock@.path,
                        lock@.holders[k as int],
                    ));
                    builder.metric(LOCK_HOLDER_INFO, labels, copied("1"));
                    assert(builder@ == before + holder_samples(p@, lock@, (k + 1) as nat));
                    k = k + 1;
                }
            },
            LockFamily::Since => {
                match lock.since_unix {
                    Some(since) => {
                        let labels: Vec<(String, String)> = labels_for(
                            p,
                            "path",
                            lock.path.as_str(),
                        );
                        builder.metric(LOCK_HELD_SINCE, labels, decimal_text(since as u128));
                        assert(builder@ == before + lock_samples_in(p@, lock@, f));
                    },
                    None => {
                        assert(before == before + lock_samples_in(p@, lock@, f));
                    },
                }
            },
        }
    }

    fn export_lock_host(&self, builder: &mut MetricBuilder, p: &HostProbes, f: LockFamily)
        ensures
            final(builder)@ == old(builder)@ + host_lock_samples(p@, p.locks@.len(), f),
    {
        let ghost before = builder@;
        let mut k: usize = 0;
        assert(before + host_lock_samples(p@, 0, f) == before);
        while k < p.locks.len()
            invariant
                k <= p.locks@.len(),
                p@.locks == lock_samples(p.locks@),
                builder@ == before + host_lock_samples(p@, k as nat, f),
            decreases p.locks@.len() - k,
        {
            assert(p@.locks[k as int] == p.locks@[k as int]@);
            self.export_lock(builder, p, &p.locks[k], f);
            assert(builder@ == before + host_lock_samples(p@, (k + 1) as nat, f));
            k = k + 1;
        }
    }

    fn export_lock_family(&self, builder: &mut MetricBuilder, f: LockFamily)
        ensures
            final(builder)@ == old(builder)@ + lock_family(probes_of(self.probes@), f),
    {
        let ghost all = probes_of(self.probes@);
        let ghost before = builder@;
        let ghost head = seq![
            ItemModel::Help { name: f.title(), text: f.purpose() },
            ItemModel::Kind { name: f.title(), kind: "gauge"@ },
        ];
        builder.help(f.name(), f.help());
        builder.type_(f.name(), "gauge");
        assert(builder@ == before + head);
        let mut i: usize = 0;
        assert(before + (head + all_lock_samples(all, 0, f)) == before + head);
        while i < self.probes.len()
            invariant
                i <= self.probes@.len(),
                all == probes_of(self.probes@),
                builder@ == before + (head + all_lock_samples(all, i as nat, f)),
            decreases self.probes@.len() - i,
        {
            assert(all[i as int] == self.probes@[i as int]@);
            self.export_lock_host(builder, &self.probes[i], f);
            assert(builder@ == before + (head + all_lock_samples(all, (i + 1) as nat, f)));
            i = i + 1;
        }
    }

    /// Adds the families of the locks.
    pub fn export_locks(&self, builder: &mut MetricBuilder)
        ensures
            final(builder)@ == old(builder)@ + lock_items(probes_of(self.probes@)),
    {
        let ghost before = builder@;
        if !some_locks(self.probes) {
            assert(before + Seq::<ItemModel>::empty() == before);
            return ;
        }
        self.export_lock_family(builder, LockFamily::Held);
        self.export_lock_family(builder, LockFamily::Holder);
        self.export_lock_family(builder, LockFamily::Since);
        assert(builder@ == before + lock_items(probes_of(self.probes@)));
    }

    /// All families as one text.
    pub fn export_metrics(&self) -> (r: String)
        ensures
            r@ == items_text(probe_items(probes_of(self.probes@))),
    {
        let mut builder: MetricBuilder = MetricBuilder::new();
        self.export_network(&mut builder);
        self.export_locks(&mut builder);
        assert(builder@ == probe_items(probes_of(self.probes@)));
        builder.build()
    }
}

/// A host without links and locks adds nothing, and without any such host
/// nothing is published.
pub proof fn no_probes_publish_nothing(hosts: Seq<ProbesModel>)
    requires
        forall|i: int|
            0 <= i < hosts.len() ==> (#[trigger] hosts[i]).interfaces.len() == 0
                && hosts[i].locks.len() == 0,
    ensures
        items_text(probe_items(hosts)) == Seq::<char>::empty(),
{
    assert(!any_links(hosts));
    assert(!any_locks(hosts));
    assert(probe_items(hosts) == Seq::<ItemModel>::empty());
}

} // verus!
