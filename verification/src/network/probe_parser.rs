//! Viewer-side parser for the opt-in host probe families.
use vstd::prelude::*;
use vstd::string::*;

use crate::api::metrics::{labels_of, Label};
use crate::common::url_parts::optional_text;
use crate::order::{sorted, sorting_keeps_elements};
use crate::probes::json::JsonProbeSample;
use crate::probes::json::JsonSampleModel;
use crate::probes::lock::{
    copy_holders, has_pid, holders_of, lists_pid, lock_samples, pid_before, sort_holders,
    LockHolder, LockModel, LockSample,
};
use crate::probes::net::{net_samples, NetInterfaceSample, NetSampleModel};
use crate::probes::{HostProbes, ProbesModel};
use crate::reading::Reading;
use crate::table::Table;
use crate::text::{
    begins, begins_with, chars_of, copied, display_width, parse_unsigned, same, text_between,
    unsigned,
};

verus! {

/// Per-scrape caps so a hostile exporter cannot grow the viewer's memory by
/// advertising unbounded interface names, lock paths, or holders.
pub const MAX_INTERFACES: usize = 64;

pub const MAX_LOCKS: usize = 64;

pub const MAX_HOLDERS_PER_LOCK: usize = 16;

/// Whether a metric is one of the host probes'.
pub open spec fn probe_metric(name: Seq<char>) -> bool {
    begins(name, "network_"@) || begins(name, "lock_"@)
}

/// True for metric names (without the `all_smi_` prefix) this parser owns.
pub fn is_probe_metric(metric_name: &str) -> (r: bool)
    ensures
        r == probe_metric(metric_name@),
{
    let c: Vec<char> = chars_of(metric_name);
    begins_with(c.as_slice(), "network_") || begins_with(c.as_slice(), "lock_")
}

/// The value of the first label by this name.
pub open spec fn label_of(labels: Seq<Label>, key: Seq<char>) -> Option<Seq<char>>
    decreases labels.len(),
{
    if labels.len() == 0 {
        None
    } else if labels[0].0 == key {
        Some(labels[0].1)
    } else {
        label_of(labels.drop_first(), key)
    }
}

fn label<'a>(labels: &'a [(String, String)], key: &str) -> (r: Option<&'a str>)
    ensures
        match r {
            Some(v) => label_of(labels_of(labels@), key@) == Some(v@),
            None => label_of(labels_of(labels@), key@) is None,
        },
{
    let ghost all = labels_of(labels@);
    let mut i: usize = 0;
    assert(all.skip(0) == all);
    while i < labels.len()
        invariant
            i <= labels@.len(),
            all == labels_of(labels@),
            label_of(all, key@) == label_of(all.skip(i as int), key@),
        decreases labels@.len() - i,
    {
        assert(all.skip(i as int)[0] == (labels@[i as int].0@, labels@[i as int].1@));
        if same(labels[i].0.as_str(), key) {
            return Some(labels[i].1.as_str());
        }
        assert(all.skip(i as int).drop_first() == all.skip(i + 1));
        i = i + 1;
    }
    None
}

/// A label that is present and not empty.
pub open spec fn filled_label(labels: Seq<Label>, key: Seq<char>) -> Option<Seq<char>> {
    match label_of(labels, key) {
        Some(v) => if v.len() > 0 {
            Some(v)
        } else {
            None
        },
        None => None,
    }
}

/// What was read so far.
#[verifier::ext_equal]
pub struct ParseModel {
    pub hostname: Option<Seq<char>>,
    pub instance: Option<Seq<char>>,
    pub interfaces: Map<Seq<char>, NetSampleModel>,
    pub interface_count: nat,
    pub locks: Map<Seq<char>, LockModel>,
    pub lock_count: nat,
}

/// An interface of which nothing is known yet.
pub open spec fn unread_interface(name: Seq<char>) -> NetSampleModel {
    NetSampleModel {
        interface: name,
        rx_bytes: 0,
        tx_bytes: 0,
        rx_bytes_per_sec: None,
        tx_bytes_per_sec: None,
    }
}

/// A lock of which nothing is known yet.
pub open spec fn unread_lock(path: Seq<char>) -> LockModel {
    LockModel { path, holders: seq![], since_unix: None }
}

/// An interface with one more field.
pub open spec fn net_with(s: NetSampleModel, field: Seq<char>, value: Reading) -> NetSampleModel {
    if field == "receive_bytes_total"@ {
        NetSampleModel { rx_bytes: value.integer_part(u64::MAX as nat) as u64, ..s }
    } else if field == "transmit_bytes_total"@ {
        NetSampleModel { tx_bytes: value.integer_part(u64::MAX as nat) as u64, ..s }
    } else if field == "receive_bytes_per_second"@ {
        NetSampleModel { rx_bytes_per_sec: Some(value), ..s }
    } else if field == "transmit_bytes_per_second"@ {
        NetSampleModel { tx_bytes_per_sec: Some(value), ..s }
    } else {
        s
    }
}

/// A lock with one more holder, where its labels name one that is new and the
/// list is not full.
pub open spec fn with_holder(s: LockModel, labels: Seq<Label>) -> LockModel {
    let pid = match label_of(labels, "pid"@) {
        Some(p) => unsigned(p, u32::MAX as nat),
        None => None,
    };
    let command = match label_of(labels, "command"@) {
        Some(c) => c,
        None => seq![],
    };
    match pid {
        Some(p) => if s.holders.len() < MAX_HOLDERS_PER_LOCK && !lists_pid(s.holders, p) {
            LockModel { holders: sorted(s.holders.push((p as u32, command)), pid_before()), ..s }
        } else {
            s
        },
        None => s,
    }
}

/// A lock with one more field.
pub open spec fn lock_with(
    s: LockModel,
    field: Seq<char>,
    labels: Seq<Label>,
    value: Reading,
) -> LockModel {
    if field == "holder_info"@ {
        with_holder(s, labels)
    } else if field == "held_since_seconds"@ {
        LockModel { since_unix: Some(value.integer_part(u64::MAX as nat) as u64), ..s }
    } else {
        s
    }
}

/// What is known after one sample of a link.
pub open spec fn with_network(
    m: ParseModel,
    field: Seq<char>,
    labels: Seq<Label>,
    value: Reading,
) -> ParseModel {
    match filled_label(labels, "interface"@) {
        Some(name) => if !m.interfaces.contains_key(name) && m.interface_count >= MAX_INTERFACES {
            m
        } else if m.interfaces.contains_key(name) {
            ParseModel {
                interfaces: m.interfaces.insert(name, net_with(m.interfaces[name], field, value)),
                ..m
            }
        } else {
            ParseModel {
                interfaces: m.interfaces.insert(
                    name,
                    net_with(unread_interface(name), field, value),
                ),
                interface_count: m.interface_count + 1,
                ..m
            }
        },
        None => m,
    }
}

/// What is known after one sample of a lock.
pub open spec fn with_lock(
    m: ParseModel,
    field: Seq<char>,
    labels: Seq<Label>,
    value: Reading,
) -> ParseModel {
    match filled_label(labels, "path"@) {
        Some(path) => if !m.locks.contains_key(path) && m.lock_count >= MAX_LOCKS {
            m
        } else if m.locks.contains_key(path) {
            ParseModel {
                locks: m.locks.insert(path, lock_with(m.locks[path], field, labels, value)),
                ..m
            }
        } else {
            ParseModel {
                locks: m.locks.insert(path, lock_with(unread_lock(path), field, labels, value)),
                lock_count: m.lock_count + 1,
                ..m
            }
        },
        None => m,
    }
}

/// Whether a value is one that a probe can have.
pub open spec fn readable_value(value: Reading) -> bool {
    value.finite() && !(Reading { bits: 0 }).above(value)
}

/// What is known after one sample.
pub open spec fn with_sample(
    m: ParseModel,
    name: Seq<char>,
    labels: Seq<Label>,
    value: Reading,
) -> ParseModel {
    if !readable_value(value) {
        m
    } else {
        let named = ParseModel {
            hostname: if m.hostname is Some {
                m.hostname
            } else {
                label_of(labels, "hostname"@)
            },
            instance: if m.instance is Some {
                m.instance
            } else {
                label_of(labels, "instance"@)
            },
            ..m
        };
        if begins(name, "network_"@) {
            with_network(named, name.skip("network_"@.len() as int), labels, value)
        } else if begins(name, "lock_"@) {
            with_lock(named, name.skip("lock_"@.len() as int), labels, value)
        } else {
            named
        }
    }
}

pub struct ProbeParseState {
    pub hostname: Option<String>,
    pub instance: Option<String>,
    pub interfaces: Table<NetInterfaceSample>,
    pub locks: Table<LockSample>,
}

/// What was read of interfaces, by name.
pub open spec fn net_models(m: Map<Seq<char>, NetInterfaceSample>) -> Map<
    Seq<char>,
    NetSampleModel,
> {
    m.map_values(|s: NetInterfaceSample| s@)
}

/// What was read of locks, by path.
pub open spec fn lock_models(m: Map<Seq<char>, LockSample>) -> Map<Seq<char>, LockModel> {
    m.map_values(|s: LockSample| s@)
}

impl View for ProbeParseState {
    type V = ParseModel;

    open spec fn view(&self) -> ParseModel {
        ParseModel {
            hostname: optional_text(self.hostname),
            instance: optional_text(self.instance),
            interfaces: net_models(self.interfaces@),
            interface_count: self.interfaces.entries@.len(),
            locks: lock_models(self.locks@),
            lock_count: self.locks.entries@.len(),
        }
    }
}

/// Nothing read yet.
pub open spec fn nothing_read() -> ParseModel {
    ParseModel {
        hostname: None,
        instance: None,
        interfaces: Map::empty(),
        interface_count: 0,
        locks: Map::empty(),
        lock_count: 0,
    }
}

impl Default for ProbeParseState {
    fn default() -> (r: ProbeParseState)
        ensures
            r@ == nothing_read(),
            r.well_formed(),
    {
        let r = ProbeParseState {
            hostname: None,
            instance: None,
            interfaces: Table::new(),
            locks: Table::new(),
        };
        assert(r@.interfaces == Map::<Seq<char>, NetSampleModel>::empty());
        assert(r@.locks == Map::<Seq<char>, LockModel>::empty());
        r
    }
}

fn copy_interface(s: &NetInterfaceSample) -> (r: NetInterfaceSample)
    ensures
        r@ == s@,
{
    NetInterfaceSample {
        interface: copied(s.interface.as_str()),
        rx_bytes: s.rx_bytes,
        tx_bytes: s.tx_bytes,
        rx_bytes_per_sec: s.rx_bytes_per_sec,
        tx_bytes_per_sec: s.tx_bytes_per_sec,
    }
}

fn copy_lock(s: &LockSample) -> (r: LockSample)
    ensures
        r@ == s@,
{
    LockSample {
        path: copied(s.path.as_str()),
        holders: copy_holders(&s.holders),
        since_unix: s.since_unix,
    }
}

fn optional_copy(s: Option<&str>) -> (r: Option<String>)
    ensures
        match s {
            Some(t) => optional_text(r) == Some(t@),
            None => r is None,
        },
{
    match s {
        Some(t) => Some(copied(t)),
        None => None,
    }
}

impl ProbeParseState {
    /// Interfaces and locks stand in the order of their names.
    pub open spec fn well_formed(&self) -> bool {
        self.interfaces.ordered() && self.locks.ordered()
    }

    /// Takes one sample in: its name without the `all_smi_` prefix, its labels
    /// and its value.
    pub fn process(&mut self, metric_name: &str, labels: &[(String, String)], value: Reading)
        requires
            old(self).well_formed(),
        ensures
            final(self).well_formed(),
            final(self)@ == with_sample(
                old(self)@,
                metric_name@,
                labels_of(labels@),
                value,
            ),
    {
        if !value.is_finite() || (Reading { bits: 0 }).gt(value) {
            return ;
        }
        if self.hostname.is_none() {
            self.hostname = optional_copy(label(labels, "hostname"));
        }
        if self.instance.is_none() {
            self.instance = optional_copy(label(labels, "instance"));
        }
        let c: Vec<char> = chars_of(metric_name);
        let len: usize = c.len();
        if begins_with(c.as_slice(), "network_") {
            let start: usize = display_width("network_");
            assert(c@.subrange(start as int, len as int) == c@.skip(start as int));
            let field: String = text_between(c.as_slice(), start, len);
            self.process_network(field.as_str(), labels, value);
        } else if begins_with(c.as_slice(), "lock_") {
            let start: usize = display_width("lock_");
            assert(c@.subrange(start as int, len as int) == c@.skip(start as int));
            let field: String = text_between(c.as_slice(), start, len);
            self.process_lock(field.as_str(), labels, value);
        }
    }

    fn process_network(&mut self, field: &str, labels: &[(String, String)], value: Reading)
        requires
            old(self).well_formed(),
        ensures
            final(self).well_formed(),
            final(self)@ == with_network(old(self)@, field@, labels_of(labels@), value),
    {
        let name: &str = match label(labels, "interface") {
            Some(n) => n,
            None => {
                return ;
            },
        };
        if display_width(name) == 0 {
            return ;
        }
        let ghost before = self@.interfaces;
        let mut iface: NetInterfaceSample = match self.interfaces.get(name) {
            Some(known) => {
                assert(before[name@] == known@);
                copy_interface(known)
            },
            None => {
                if self.interfaces.len() >= MAX_INTERFACES {
                    return ;
                }
                NetInterfaceSample {
                    interface: copied(name),
                    rx_bytes: 0,
                    tx_bytes: 0,
                    rx_bytes_per_sec: None,
                    tx_bytes_per_sec: None,
                }
            },
        };
        if same(field, "receive_bytes_total") {
            iface.rx_bytes = value.truncated(u64::MAX);
        } else if same(field, "transmit_bytes_total") {
            iface.tx_bytes = value.truncated(u64::MAX);
        } else if same(field, "receive_bytes_per_second") {
            iface.rx_bytes_per_sec = Some(value);
        } else if same(field, "transmit_bytes_per_second") {
            iface.tx_bytes_per_sec = Some(value);
        }
        let ghost stored = iface@;
        self.interfaces.insert(copied(name), iface);
        assert(self@.interfaces == before.insert(name@, stored));
    }

    fn process_lock(&mut self, field: &str, labels: &[(String, String)], value: Reading)
        requires
            old(self).well_formed(),
        ensures
            final(self).well_formed(),
            final(self)@ == with_lock(old(self)@, field@, labels_of(labels@), value),
    {
        let path: &str = match label(labels, "path") {
            Some(p) => p,
            None => {
                return ;
            },
        };
        if display_width(path) == 0 {
            return ;
        }
        let ghost before = self@.locks;
        let mut lock: LockSample = match self.locks.get(path) {
            Some(known) => {
                assert(before[path@] == known@);
                copy_lock(known)
            },
            None => {
                if self.locks.len() >= MAX_LOCKS {
                    return ;
                }
                let fresh: LockSample = LockSample {
                    path: copied(path),
                    holders: Vec::new(),
                    since_unix: None,
                };
                assert(fresh@.holders == Seq::<(u32, Seq<char>)>::empty());
                fresh
            },
        };
        if same(field, "holder_info") {
            add_holder(&mut lock, labels);
        } else if same(field, "held_since_seconds") {
            lock.since_unix = Some(value.truncated(u64::MAX));
        }
        // Any other field only establishes the entry.
        let ghost stored = lock@;
        self.locks.insert(copied(path), lock);
        assert(self@.locks == before.insert(path@, stored));
    }

    /// What a scrape of `host` told about it. `None` when the scrape carried no
    /// probe series at all.
    pub fn finish(self, host: &str) -> (r: Option<HostProbes>)
        ensures
            match r {
                Some(p) => finished(self, host@) == Some(p@),
                None => finished(self, host@) is None,
            },
    {
        if self.interfaces.is_empty() && self.locks.is_empty() {
            return None;
        }
        let hostname: String = match &self.hostname {
            Some(h) => copied(h.as_str()),
            None => copied(host),
        };
        let instance: String = match &self.instance {
            Some(i) => copied(i.as_str()),
            None => copied(hostname.as_str()),
        };
        let json: Vec<JsonProbeSample> = Vec::new();
        let p = HostProbes {
            host_id: copied(host),
            hostname,
            instance,
            interfaces: interface_values(&self.interfaces),
            locks: lock_values(&self.locks),
            json,
            os: None,
        };
        assert(p@.json == Seq::<JsonSampleModel>::empty());
        Some(p)
    }
}

/// What a scrape of `host` told about it, if anything: interfaces and locks in
/// the order of the tables.
pub open spec fn finished(s: ProbeParseState, host: Seq<char>) -> Option<ProbesModel> {
    let hostname = match s@.hostname {
        Some(h) => h,
        None => host,
    };
    if s@.interface_count == 0 && s@.lock_count == 0 {
        None
    } else {
        Some(
            ProbesModel {
                host_id: host,
                hostname,
                instance: match s@.instance {
                    Some(i) => i,
                    None => hostname,
                },
                interfaces: entry_models(s.interfaces.entries@),
                locks: lock_entry_models(s.locks.entries@),
                json: seq![],
                os: None,
            },
        )
    }
}

/// The interfaces of a table, in its order.
pub open spec fn entry_models(v: Seq<(String, NetInterfaceSample)>) -> Seq<NetSampleModel> {
    v.map_values(|e: (String, NetInterfaceSample)| e.1@)
}

/// The locks of a table, in its order.
pub open spec fn lock_entry_models(v: Seq<(String, LockSample)>) -> Seq<LockModel> {
    v.map_values(|e: (String, LockSample)| e.1@)
}

fn interface_values(t: &Table<NetInterfaceSample>) -> (r: Vec<NetInterfaceSample>)
    ensures
        net_samples(r@) == entry_models(t.entries@),
{
    let ghost all = entry_models(t.entries@);
    let mut out: Vec<NetInterfaceSample> = Vec::new();
    let mut i: usize = 0;
    while i < t.entries.len()
        invariant
            i <= t.entries@.len(),
            all == entry_models(t.entries@),
            net_samples(out@) == all.take(i as int),
        decreases t.entries@.len() - i,
    {
        let ghost before = net_samples(out@);
        let one: NetInterfaceSample = copy_interface(&t.entries[i].1);
        assert(all[i as int] == one@);
        out.push(one);
        assert(net_samples(out@) == before.push(one@));
        assert(all.take(i + 1) == all.take(i as int).push(all[i as int]));
        i = i + 1;
    }
    assert(all.take(all.len() as int) == all);
    out
}

fn lock_values(t: &Table<LockSample>) -> (r: Vec<LockSample>)
    ensures
        lock_samples(r@) == lock_entry_models(t.entries@),
{
    let ghost all = lock_entry_models(t.entries@);
    let mut out: Vec<LockSample> = Vec::new();
    let mut i: usize = 0;
    while i < t.entries.len()
        invariant
            i <= t.entries@.len(),
            all == lock_entry_models(t.entries@),
            lock_samples(out@) == all.take(i as int),
        decreases t.entries@.len() - i,
    {
        let ghost before = lock_samples(out@);
        let one: LockSample = copy_lock(&t.entries[i].1);
        assert(all[i as int] == one@);
        out.push(one);
        assert(lock_samples(out@) == before.push(one@));
        assert(all.take(i + 1) == all.take(i as int).push(all[i as int]));
        i = i + 1;
    }
    assert(all.take(all.len() as int) == all);
    out
}

fn add_holder(lock: &mut LockSample, labels: &[(String, String)])
    ensures
        final(lock)@ == with_holder(old(lock)@, labels_of(labels@)),
{
    let text: &str = match label(labels, "pid") {
        Some(p) => p,
        None => {
            return ;
        },
    };
    let c: Vec<char> = chars_of(text);
    assert(c@.subrange(0, c@.len() as int) == c@);
    let pid: u32 = match parse_unsigned(c.as_slice(), 0, c.len(), u32::MAX as u64) {
        Some(n) => n as u32,
        None => {
            return ;
        },
    };
    if lock.holders.len() < MAX_HOLDERS_PER_LOCK && !has_pid(&lock.holders, pid) {
        let command: String = match label(labels, "command") {
            Some(s) => copied(s),
            None => String::new(),
        };
        let ghost before = holders_of(lock.holders@);
        let one: LockHolder = LockHolder { pid, command };
        let ghost new = one@;
        let mut holders: Vec<LockHolder> = copy_holders(&lock.holders);
        holders.push(one);
        assert(holders_of(holders@) == before.push(new));
        lock.holders = sort_holders(&holders);
    }
}

/// Whether a state keeps to the caps.
pub open spec fn capped(m: ParseModel) -> bool {
    &&& m.interface_count <= MAX_INTERFACES
    &&& m.lock_count <= MAX_LOCKS
    &&& forall|path: Seq<char>| #[trigger]
        m.locks.contains_key(path) ==> m.locks[path].holders.len() <= MAX_HOLDERS_PER_LOCK
}

proof fn holders_stay_capped(
    s: LockModel,
    field: Seq<char>,
    labels: Seq<Label>,
    value: Reading,
)
    requires
        s.holders.len() <= MAX_HOLDERS_PER_LOCK,
    ensures
        lock_with(s, field, labels, value).holders.len() <= MAX_HOLDERS_PER_LOCK,
{
    match label_of(labels, "pid"@) {
        Some(p) => {
            if let Some(n) = unsigned(p, u32::MAX as nat) {
                let command = match label_of(labels, "command"@) {
                    Some(c) => c,
                    None => seq![],
                };
                sorting_keeps_elements(s.holders.push((n as u32, command)), pid_before());
            }
        },
        None => {},
    }
}

/// However many interfaces, locks and holders a scrape names, no more are kept
/// than the caps allow.
pub proof fn caps_hold(m: ParseModel, name: Seq<char>, labels: Seq<Label>, value: Reading)
    requires
        capped(m),
    ensures
        capped(nothing_read()),
        capped(with_sample(m, name, labels, value)),
{
    if begins(name, "lock_"@) {
        if let Some(path) = filled_label(labels, "path"@) {
            let field = name.skip("lock_"@.len() as int);
            if m.locks.contains_key(path) {
                holders_stay_capped(m.locks[path], field, labels, value);
            } else {
                holders_stay_capped(unread_lock(path), field, labels, value);
            }
        }
    }
}

} // verus!
