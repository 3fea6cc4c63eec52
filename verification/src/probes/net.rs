//! Network interface byte counters.
//!
//! The rate is computed between two of the exporter's own samples rather than
//! by the viewer: a viewer that scrapes on a different cadence than the
//! exporter collects would otherwise see alternating zero and double-sized
//! deltas.
use vstd::prelude::*;
use vstd::string::*;

use crate::common::span::{no_time_is_no_seconds, time_that_passed_is_positive, Span};
use crate::reading::Reading;
use crate::table::Table;
use crate::text::copied;

verus! {

/// One interface's cumulative counters and the rate since the previous sample.
#[derive(Clone, Debug, PartialEq, Eq)]
pub struct NetInterfaceSample {
    pub interface: String,
    pub rx_bytes: u64,
    pub tx_bytes: u64,
    /// Bytes per second since the previous sample. `None` on the first sample
    /// and after a counter reset.
    pub rx_bytes_per_sec: Option<Reading>,
    pub tx_bytes_per_sec: Option<Reading>,
}

/// What a sample holds.
#[verifier::ext_equal]
pub struct NetSampleModel {
    pub interface: Seq<char>,
    pub rx_bytes: u64,
    pub tx_bytes: u64,
    pub rx_bytes_per_sec: Option<Reading>,
    pub tx_bytes_per_sec: Option<Reading>,
}

impl View for NetInterfaceSample {
    type V = NetSampleModel;

    open spec fn view(&self) -> NetSampleModel {
        NetSampleModel {
            interface: self.interface@,
            rx_bytes: self.rx_bytes,
            tx_bytes: self.tx_bytes,
            rx_bytes_per_sec: self.rx_bytes_per_sec,
            tx_bytes_per_sec: self.tx_bytes_per_sec,
        }
    }
}

/// The samples of a list.
pub open spec fn net_samples(v: Seq<NetInterfaceSample>) -> Seq<NetSampleModel> {
    v.map_values(|s: NetInterfaceSample| s@)
}

/// The counters of one interface and when they were read, in nanoseconds.
#[derive(Clone, Copy, Debug, PartialEq, Eq, Structural)]
pub struct Previous {
    pub rx: u64,
    pub tx: u64,
    pub at: u64,
}

/// Bytes per second between two cumulative readings, where time passed and
/// the counter did not go backwards.
pub open spec fn byte_rate(previous: u64, current: u64, elapsed: Span) -> Option<Reading> {
    let secs = elapsed.in_seconds();
    if (Reading { bits: 0 }).at_least(secs) || current < previous {
        None
    } else {
        Some(Reading::of_natural((current - previous) as nat).quotient(secs))
    }
}

/// Bytes per second between two cumulative readings. `None` when no time
/// elapsed or the counter went backwards (interface reset), because either
/// would render as a nonsense spike.
pub fn rate(previous: u64, current: u64, elapsed: Span) -> (r: Option<Reading>)
    ensures
        r == byte_rate(previous, current, elapsed),
{
    let secs: Reading = elapsed.seconds();
    let zero: Reading = Reading { bits: 0 };
    if zero.ge(secs) || current < previous {
        return None;
    }
    Some(Reading::from_u64(current - previous).over(secs))
}

/// What is remembered and reported after looking at the first `n` interfaces.
pub open spec fn net_pass(
    names: Seq<Seq<char>>,
    counters: Seq<Option<(u64, u64)>>,
    now: u64,
    before: Map<Seq<char>, Previous>,
    n: nat,
) -> (Map<Seq<char>, Previous>, Seq<NetSampleModel>)
    decreases n,
{
    if n == 0 {
        (before, seq![])
    } else {
        let (kept, out) = net_pass(names, counters, now, before, (n - 1) as nat);
        let name = names[n - 1];
        match counters[n - 1] {
            None => (kept.remove(name), out),
            Some((rx, tx)) => {
                let rates = if kept.contains_key(name) {
                    let p = kept[name];
                    let elapsed = Span::spanning(p.at, now);
                    (byte_rate(p.rx, rx, elapsed), byte_rate(p.tx, tx, elapsed))
                } else {
                    (None, None)
                };
                (
                    kept.insert(name, Previous { rx, tx, at: now }),
                    out.push(
                        NetSampleModel {
                            interface: name,
                            rx_bytes: rx,
                            tx_bytes: tx,
                            rx_bytes_per_sec: rates.0,
                            tx_bytes_per_sec: rates.1,
                        },
                    ),
                )
            },
        }
    }
}

/// Remembers the counters of the watched interfaces between samples.
pub struct NetSampler {
    pub interfaces: Vec<String>,
    pub previous: Table<Previous>,
}

impl NetSampler {
    pub fn new(interfaces: Vec<String>) -> (r: NetSampler)
        ensures
            r.interfaces == interfaces,
            r.previous@ == Map::<Seq<char>, Previous>::empty(),
    {
        NetSampler { interfaces, previous: Table::new() }
    }

    /// Sample every requested interface that currently exists: `counters` holds
    /// received and transmitted bytes for each of them, in order, and `now` is
    /// the time of reading in nanoseconds. An interface that is missing
    /// (unplugged, renamed) is skipped rather than reported as zero traffic.
    pub fn sample(&mut self, counters: &[Option<(u64, u64)>], now: u64) -> (r: Vec<
        NetInterfaceSample,
    >)
        requires
            counters@.len() == old(self).interfaces@.len(),
        ensures
            final(self).interfaces == old(self).interfaces,
            (final(self).previous@, net_samples(r@)) == net_pass(
                crate::text::texts(old(self).interfaces@),
                counters@,
                now,
                old(self).previous@,
                counters@.len(),
            ),
    {
        let mut out: Vec<NetInterfaceSample> = Vec::new();
        let mut i: usize = 0;
        let ghost names = crate::text::texts(self.interfaces@);
        assert(net_samples(out@) == Seq::<NetSampleModel>::empty());
        while i < self.interfaces.len()
            invariant
                i <= self.interfaces@.len(),
                counters@.len() == self.interfaces@.len(),
                self.interfaces == old(self).interfaces,
                names == crate::text::texts(self.interfaces@),
                (self.previous@, net_samples(out@)) == net_pass(
                    names,
                    counters@,
                    now,
                    old(self).previous@,
                    i as nat,
                ),
            decreases self.interfaces@.len() - i,
        {
            let name: String = copied(self.interfaces[i].as_str());
            assert(names[i as int] == name@);
            match counters[i] {
                None => {
                    self.previous.remove(name.as_str());
                },
                Some((rx, tx)) => {
                    let (rx_rate, tx_rate) = match self.previous.get(name.as_str()) {
                        Some(p) => {
                            let elapsed: Span = Span::between(p.at, now);
                            (rate(p.rx, rx, elapsed), rate(p.tx, tx, elapsed))
                        },
                        None => (None, None),
                    };
                    self.previous.insert(copied(name.as_str()), Previous { rx, tx, at: now });
                    let ghost before = net_samples(out@);
                    let row = NetInterfaceSample {
                        interface: name,
                        rx_bytes: rx,
                        tx_bytes: tx,
                        rx_bytes_per_sec: rx_rate,
                        tx_bytes_per_sec: tx_rate,
                    };
                    out.push(row);
                    assert(net_samples(out@) == before.push(row@));
                },
            }
            i = i + 1;
        }
        out
    }
}

/// A missing interface loses its history: the next sample of it has no rate.
pub proof fn a_gap_resets_the_rate(
    names: Seq<Seq<char>>,
    counters: Seq<Option<(u64, u64)>>,
    now: u64,
    before: Map<Seq<char>, Previous>,
    n: nat,
    i: int,
)
    requires
        n <= names.len(),
        0 <= i < n,
        counters[i] is None,
        forall|j: int| i < j < n ==> names[j] != names[i],
    ensures
        !net_pass(names, counters, now, before, n).0.contains_key(names[i]),
    decreases n,
{
    if i < n - 1 {
        assert(names[n - 1] != names[i]);
        a_gap_resets_the_rate(names, counters, now, before, (n - 1) as nat, i);
    }
}

/// How many of the first `n` interfaces are there.
pub open spec fn present(counters: Seq<Option<(u64, u64)>>, n: nat) -> nat
    decreases n,
{
    if n == 0 {
        0
    } else if counters[n - 1] is Some {
        present(counters, (n - 1) as nat) + 1
    } else {
        present(counters, (n - 1) as nat)
    }
}

/// What is remembered of an interface that none of the first `n` names is what
/// was remembered before.
proof fn other_interfaces_stay(
    names: Seq<Seq<char>>,
    counters: Seq<Option<(u64, u64)>>,
    now: u64,
    before: Map<Seq<char>, Previous>,
    n: nat,
    name: Seq<char>,
)
    requires
        n <= names.len(),
        forall|j: int| 0 <= j < n ==> names[j] != name,
    ensures
        ({
            let kept = net_pass(names, counters, now, before, n).0;
            &&& kept.contains_key(name) == before.contains_key(name)
            &&& kept.contains_key(name) ==> kept[name] == before[name]
        }),
    decreases n,
{
    if n > 0 {
        assert(names[n - 1] != name);
        other_interfaces_stay(names, counters, now, before, (n - 1) as nat, name);
    }
}

/// Every interface that is there is reported once, in its place, with its own
/// counters, and remembered with them. Each direction's rate is what that
/// direction's counter gained over the seconds that passed; there is none where
/// no time passed, where that counter fell, or where the interface was not
/// remembered.
pub proof fn rates_follow_their_own_counters(
    names: Seq<Seq<char>>,
    counters: Seq<Option<(u64, u64)>>,
    now: u64,
    before: Map<Seq<char>, Previous>,
    n: nat,
    i: int,
)
    requires
        n <= names.len(),
        0 <= i < n,
        counters[i] is Some,
        forall|j: int| 0 <= j < n && j != i ==> names[j] != names[i],
    ensures
        ({
            let (kept, out) = net_pass(names, counters, now, before, n);
            let (rx, tx) = counters[i]->0;
            let row = out[present(counters, i as nat) as int];
            let p = before[names[i]];
            let seconds = Span::spanning(p.at, now).in_seconds();
            let timed = before.contains_key(names[i]) && now > p.at;
            &&& out.len() == present(counters, n)
            &&& present(counters, i as nat) < out.len()
            &&& row.interface == names[i]
            &&& row.rx_bytes == rx && row.tx_bytes == tx
            &&& kept.contains_key(names[i])
            &&& kept[names[i]].rx == rx && kept[names[i]].tx == tx && kept[names[i]].at == now
            &&& row.rx_bytes_per_sec == if timed && rx >= p.rx {
                Some(Reading::of_natural((rx - p.rx) as nat).quotient(seconds))
            } else {
                None
            }
            &&& row.tx_bytes_per_sec == if timed && tx >= p.tx {
                Some(Reading::of_natural((tx - p.tx) as nat).quotient(seconds))
            } else {
                None
            }
        }),
    decreases n,
{
    let m = (n - 1) as nat;
    samples_are_counted(names, counters, now, before, n);
    samples_are_counted(names, counters, now, before, m);
    if i < n - 1 {
        rates_follow_their_own_counters(names, counters, now, before, m, i);
        assert(names[n - 1] != names[i]);
    } else {
        other_interfaces_stay(names, counters, now, before, m, names[i]);
        let p = before[names[i]];
        if now > p.at {
            time_that_passed_is_positive(p.at, now);
        } else {
            no_time_is_no_seconds(p.at, now);
        }
    }
}

proof fn samples_are_counted(
    names: Seq<Seq<char>>,
    counters: Seq<Option<(u64, u64)>>,
    now: u64,
    before: Map<Seq<char>, Previous>,
    n: nat,
)
    ensures
        net_pass(names, counters, now, before, n).1.len() == present(counters, n),
    decreases n,
{
    if n > 0 {
        samples_are_counted(names, counters, now, before, (n - 1) as nat);
    }
}

} // verus!
