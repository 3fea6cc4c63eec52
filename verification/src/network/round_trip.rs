//! What the exporter publishes, the viewer reads back.
use vstd::prelude::*;
use vstd::string::*;

use crate::api::metrics::probes::{
    all_lock_samples, all_net_samples, holder_labels, holder_samples, host_labels,
    host_lock_samples, host_net_samples, lock_family, lock_items, lock_samples_in, net_family,
    net_sample, network_items, probe_items, LockFamily, NetFamily, LOCK_HELD, LOCK_HELD_SINCE,
    LOCK_HOLDER_INFO,
};
use crate::api::metrics::ItemModel;
use crate::network::probe_parser::{
    entry_models, finished, label_of, lock_entry_models, net_with, nothing_read, readable_value,
    unread_interface, unread_lock, with_holder, with_sample, ParseModel, ProbeParseState,
    MAX_HOLDERS_PER_LOCK, MAX_INTERFACES, MAX_LOCKS,
};
use crate::numeral::{
    one_decimal, one_decimal_reads_back, reading_in, whole_numbers_read_as_themselves,
};
use crate::order::sorted;
use crate::probes::lock::{lists_pid, pid_before, LockModel};
use crate::probes::net::NetSampleModel;
use crate::probes::{any_links, any_locks, ProbesModel};
use crate::reading::{naturals_are_finite, small_naturals_read_back, undefined, Reading, STEP};
use crate::table::{ascending, find_entry, lemma_find_at, lemma_found};
use crate::text::{
    begins, decimal, precedes, precedes_is_strict, rising, unsigned_reads_decimal,
};

verus! {

/// What is known after one published line, whose value is read by `read`. Lines
/// that are no samples tell nothing.
pub open spec fn fed_one(
    m: ParseModel,
    item: ItemModel,
    read: spec_fn(Seq<char>) -> Reading,
) -> ParseModel {
    match item {
        ItemModel::Sample { name, labels, value } => if begins(name, "all_smi_"@) {
            with_sample(m, name.skip("all_smi_"@.len() as int), labels, read(value))
        } else {
            m
        },
        _ => m,
    }
}

/// What is known after several published lines.
pub open spec fn fed(
    m: ParseModel,
    items: Seq<ItemModel>,
    read: spec_fn(Seq<char>) -> Reading,
) -> ParseModel
    decreases items.len(),
{
    if items.len() == 0 {
        m
    } else {
        fed_one(fed(m, items.drop_last(), read), items.last(), read)
    }
}

proof fn fed_in_turn(
    m: ParseModel,
    a: Seq<ItemModel>,
    b: Seq<ItemModel>,
    read: spec_fn(Seq<char>) -> Reading,
)
    ensures
        fed(m, a + b, read) == fed(fed(m, a, read), b, read),
    decreases b.len(),
{
    if b.len() == 0 {
        assert(a + b == a);
    } else {
        assert((a + b).drop_last() == a + b.drop_last());
        fed_in_turn(m, a, b.drop_last(), read);
    }
}

proof fn fed_single(m: ParseModel, item: ItemModel, read: spec_fn(Seq<char>) -> Reading)
    ensures
        fed(m, seq![item], read) == fed_one(m, item, read),
{
    let one = seq![item];
    assert(one.drop_last() == Seq::<ItemModel>::empty());
    assert(fed(m, one.drop_last(), read) == m);
}

/// Whether `read` reads whole numbers as they are written, as near as a reading
/// can be.
pub open spec fn reads_numbers(read: spec_fn(Seq<char>) -> Reading) -> bool {
    forall|n: nat| n <= u64::MAX ==> #[trigger] read(decimal(n)) == Reading::of_natural(n)
}

/// Whether the names of interfaces differ.
pub open spec fn distinct_names(s: Seq<NetSampleModel>) -> bool {
    forall|i: int, j: int|
        0 <= i < j < s.len() ==> (#[trigger] s[i]).interface != (#[trigger] s[j]).interface
}

/// Interfaces by name.
pub open spec fn by_name(s: Seq<NetSampleModel>) -> Map<Seq<char>, NetSampleModel>
    decreases s.len(),
{
    if s.len() == 0 {
        Map::empty()
    } else {
        by_name(s.drop_last()).insert(s.last().interface, s.last())
    }
}

proof fn by_name_holds(s: Seq<NetSampleModel>)
    requires
        distinct_names(s),
    ensures
        forall|i: int|
            0 <= i < s.len() ==> by_name(s).contains_key((#[trigger] s[i]).interface)
                && by_name(s)[s[i].interface] == s[i],
        forall|k: Seq<char>| #[trigger]
            by_name(s).contains_key(k) ==> exists|i: int|
                0 <= i < s.len() && (#[trigger] s[i]).interface == k,
    decreases s.len(),
{
    if s.len() > 0 {
        let head = s.drop_last();
        by_name_holds(head);
        assert forall|i: int| 0 <= i < s.len() implies by_name(s).contains_key(
            (#[trigger] s[i]).interface,
        ) && by_name(s)[s[i].interface] == s[i] by {
            if i < head.len() {
                assert(head[i] == s[i]);
                assert(s[i].interface != s[s.len() - 1].interface);
            }
        }
        assert forall|k: Seq<char>| #[trigger] by_name(s).contains_key(k) implies exists|i: int|
            0 <= i < s.len() && (#[trigger] s[i]).interface == k by {
            if k == s.last().interface {
                assert(s[s.len() - 1].interface == k);
            } else {
                assert(by_name(head).contains_key(k));
                let i = choose|i: int| 0 <= i < head.len() && (#[trigger] head[i]).interface == k;
                assert(s[i].interface == k);
            }
        }
    }
}

proof fn by_name_updated(s: Seq<NetSampleModel>, at: int, x: NetSampleModel)
    requires
        distinct_names(s),
        0 <= at < s.len(),
        x.interface == s[at].interface,
    ensures
        by_name(s.update(at, x)) == by_name(s).insert(x.interface, x),
        distinct_names(s.update(at, x)),
{
    let t = s.update(at, x);
    assert(distinct_names(t)) by {
        assert forall|i: int, j: int| 0 <= i < j < t.len() implies (#[trigger] t[i]).interface != (
        #[trigger] t[j]).interface by {
            assert(s[i].interface != s[j].interface);
        }
    }
    by_name_holds(s);
    by_name_holds(t);
    let a = by_name(t);
    let b = by_name(s).insert(x.interface, x);
    assert forall|k: Seq<char>| a.contains_key(k) == b.contains_key(k) by {
        if a.contains_key(k) {
            let i = choose|i: int| 0 <= i < t.len() && (#[trigger] t[i]).interface == k;
            assert(s[i].interface == k);
        }
        if b.contains_key(k) {
            if k == x.interface {
                assert(t[at].interface == k);
            } else {
                let i = choose|i: int| 0 <= i < s.len() && (#[trigger] s[i]).interface == k;
                assert(t[i].interface == k);
            }
        }
    }
    assert forall|k: Seq<char>| #[trigger] a.contains_key(k) implies a[k] == b[k] by {
        let i = choose|i: int| 0 <= i < t.len() && (#[trigger] t[i]).interface == k;
        assert(t[i].interface == k);
        assert(s[i].interface == k);
        if i == at {
            assert(a[t[at].interface] == t[at]);
        } else {
            assert(a[t[i].interface] == t[i]);
            assert(b[s[i].interface] == s[i]) by {
                if i < at {
                    assert(s[i].interface != s[at].interface);
                } else {
                    assert(s[at].interface != s[i].interface);
                }
            }
        }
    }
    assert(a =~= b);
}

/// `s` with the field of one family read from what was published of `l`.
pub open spec fn refilled(
    s: NetSampleModel,
    l: NetSampleModel,
    f: NetFamily,
    read: spec_fn(Seq<char>) -> Reading,
) -> NetSampleModel {
    match f {
        NetFamily::RxTotal => NetSampleModel {
            rx_bytes: Reading::of_natural(l.rx_bytes as nat).integer_part(
                u64::MAX as nat,
            ) as u64,
            ..s
        },
        NetFamily::TxTotal => NetSampleModel {
            tx_bytes: Reading::of_natural(l.tx_bytes as nat).integer_part(
                u64::MAX as nat,
            ) as u64,
            ..s
        },
        NetFamily::RxRate => match l.rx_bytes_per_sec {
            Some(r) => NetSampleModel { rx_bytes_per_sec: Some(read(r.fixed(1))), ..s },
            None => s,
        },
        NetFamily::TxRate => match l.tx_bytes_per_sec {
            Some(r) => NetSampleModel { tx_bytes_per_sec: Some(read(r.fixed(1))), ..s },
            None => s,
        },
    }
}

/// Whether what is published of an interface can be read.
pub open spec fn publishable(l: NetSampleModel, read: spec_fn(Seq<char>) -> Reading) -> bool {
    &&& l.interface.len() > 0
    &&& l.rx_bytes_per_sec matches Some(r) ==> readable_value(read(r.fixed(1)))
    &&& l.tx_bytes_per_sec matches Some(r) ==> readable_value(read(r.fixed(1)))
}

/// The field of a family, as the parser sees it.
pub open spec fn field_of(f: NetFamily) -> Seq<char> {
    match f {
        NetFamily::RxTotal => "receive_bytes_total"@,
        NetFamily::TxTotal => "transmit_bytes_total"@,
        NetFamily::RxRate => "receive_bytes_per_second"@,
        NetFamily::TxRate => "transmit_bytes_per_second"@,
    }
}

proof fn net_names(f: NetFamily)
    ensures
        begins(f.title(), "all_smi_"@),
        begins(f.title().skip("all_smi_"@.len() as int), "network_"@),
        f.title().skip("all_smi_"@.len() as int).skip("network_"@.len() as int) == field_of(f),
{
    reveal_strlit("all_smi_");
    reveal_strlit("network_");
    match f {
        NetFamily::RxTotal => {
            reveal_strlit("all_smi_network_receive_bytes_total");
            reveal_strlit("receive_bytes_total");
        },
        NetFamily::TxTotal => {
            reveal_strlit("all_smi_network_transmit_bytes_total");
            reveal_strlit("transmit_bytes_total");
        },
        NetFamily::RxRate => {
            reveal_strlit("all_smi_network_receive_bytes_per_second");
            reveal_strlit("receive_bytes_per_second");
        },
        NetFamily::TxRate => {
            reveal_strlit("all_smi_network_transmit_bytes_per_second");
            reveal_strlit("transmit_bytes_per_second");
        },
    }
    let t = f.title();
    assert(t.take(8) =~= "all_smi_"@);
    assert(t.skip(8).take(8) =~= "network_"@);
    assert(t.skip(8).skip(8) =~= field_of(f));
}

proof fn host_label_values(p: ProbesModel, key: Seq<char>, value: Seq<char>)
    requires
        key == "interface"@ || key == "path"@,
    ensures
        label_of(host_labels(p, key, value), "instance"@) == Some(p.instance),
        label_of(host_labels(p, key, value), "hostname"@) == Some(p.hostname),
        label_of(host_labels(p, key, value), key) == Some(value),
{
    reveal_strlit("instance");
    reveal_strlit("hostname");
    reveal_strlit("interface");
    reveal_strlit("path");
    let l = host_labels(p, key, value);
    let a = l.drop_first();
    let b = a.drop_first();
    assert(a == seq![("hostname"@, p.hostname), (key, value)]);
    assert(b == seq![(key, value)]);
    assert("instance"@[0] != "hostname"@[0]);
    assert("instance"@.len() != "interface"@.len());
    assert("hostname"@.len() != "interface"@.len());
    assert("instance"@.len() != "path"@.len());
    assert("hostname"@.len() != "path"@.len());
    assert(label_of(b, key) == Some(value));
    assert(label_of(a, key) == label_of(b, key));
    assert(label_of(a, "hostname"@) == Some(p.hostname));
}

/// `m` once the names of the host are known.
pub open spec fn named(m: ParseModel, p: ProbesModel) -> ParseModel {
    ParseModel { hostname: Some(p.hostname), instance: Some(p.instance), ..m }
}

/// Whether nothing but the names of `p` is known of the host.
pub open spec fn of_host(m: ParseModel, p: ProbesModel) -> bool {
    &&& m.hostname is None || m.hostname == Some(p.hostname)
    &&& m.instance is None || m.instance == Some(p.instance)
}

/// One interface in one family.
proof fn one_interface(
    m: ParseModel,
    p: ProbesModel,
    l: NetSampleModel,
    f: NetFamily,
    read: spec_fn(Seq<char>) -> Reading,
)
    requires
        reads_numbers(read),
        publishable(l, read),
        of_host(m, p),
        m.interfaces.contains_key(l.interface) || m.interface_count < MAX_INTERFACES,
        f == NetFamily::RxTotal || (m.interfaces.contains_key(l.interface) && m == named(m, p)),
    ensures
        ({
            let r = fed(m, net_sample(p, l, f), read);
            let had = m.interfaces.contains_key(l.interface);
            let start = if had {
                m.interfaces[l.interface]
            } else {
                unread_interface(l.interface)
            };
            let stored = m.interfaces.insert(l.interface, refilled(start, l, f, read));
            let count = if had {
                m.interface_count
            } else {
                m.interface_count + 1
            };
            r == named(ParseModel { interfaces: stored, interface_count: count, ..m }, p)
        }),
{
    let had = m.interfaces.contains_key(l.interface);
    let start = if had {
        m.interfaces[l.interface]
    } else {
        unread_interface(l.interface)
    };
    net_names(f);
    host_label_values(p, "interface"@, l.interface);
    naturals_are_finite(l.rx_bytes as nat);
    naturals_are_finite(l.tx_bytes as nat);
    assert(read(decimal(l.rx_bytes as nat)) == Reading::of_natural(l.rx_bytes as nat));
    assert(read(decimal(l.tx_bytes as nat)) == Reading::of_natural(l.tx_bytes as nat));
    reveal_strlit("receive_bytes_total");
    reveal_strlit("transmit_bytes_total");
    reveal_strlit("receive_bytes_per_second");
    reveal_strlit("transmit_bytes_per_second");
    assert("receive_bytes_total"@.len() != "transmit_bytes_total"@.len());
    assert("receive_bytes_per_second"@.len() != "transmit_bytes_per_second"@.len());
    match f.figure(l) {
        Some(v) => {
            let item = ItemModel::Sample {
                name: f.title(),
                labels: host_labels(p, "interface"@, l.interface),
                value: v,
            };
            fed_single(m, item, read);
            assert(net_sample(p, l, f) == seq![item]);
            assert(net_with(start, field_of(f), read(v)) == refilled(start, l, f, read));
        },
        None => {
            assert(m.interfaces.insert(l.interface, start) == m.interfaces);
        },
    }
}

/// Whether the links of a host can be published and read back.
pub open spec fn links_publishable(p: ProbesModel, read: spec_fn(Seq<char>) -> Reading) -> bool {
    &&& p.interfaces.len() <= MAX_INTERFACES
    &&& distinct_names(p.interfaces)
    &&& forall|i: int|
        0 <= i < p.interfaces.len() ==> publishable(#[trigger] p.interfaces[i], read)
}

/// The first `k` interfaces as far as the first family tells.
pub open spec fn first_family(
    s: Seq<NetSampleModel>,
    k: nat,
    read: spec_fn(Seq<char>) -> Reading,
) -> Seq<NetSampleModel> {
    Seq::new(
        k,
        |j: int| refilled(unread_interface(s[j].interface), s[j], NetFamily::RxTotal, read),
    )
}

proof fn first_family_read(
    m: ParseModel,
    p: ProbesModel,
    k: nat,
    read: spec_fn(Seq<char>) -> Reading,
)
    requires
        reads_numbers(read),
        links_publishable(p, read),
        of_host(m, p),
        m.interfaces == Map::<Seq<char>, NetSampleModel>::empty(),
        m.interface_count == 0,
        k <= p.interfaces.len(),
    ensures
        ({
            let r = fed(m, host_net_samples(p, k, NetFamily::RxTotal), read);
            let known = ParseModel {
                interfaces: by_name(first_family(p.interfaces, k, read)),
                interface_count: k,
                ..m
            };
            k > 0 ==> r == named(known, p)
        }),
        k == 0 ==> fed(m, host_net_samples(p, k, NetFamily::RxTotal), read) == m,
    decreases k,
{
    let s = p.interfaces;
    if k > 0 {
        let j = (k - 1) as nat;
        first_family_read(m, p, j, read);
        let before = fed(m, host_net_samples(p, j, NetFamily::RxTotal), read);
        let t = first_family(s, j, read);
        assert(j == 0 ==> by_name(t) == Map::<Seq<char>, NetSampleModel>::empty());
        assert(before.interfaces == by_name(t));
        fed_in_turn(
            m,
            host_net_samples(p, j, NetFamily::RxTotal),
            net_sample(p, s[j as int], NetFamily::RxTotal),
            read,
        );
        assert(publishable(s[j as int], read));
        assert(distinct_names(t)) by {
            assert forall|a: int, b: int| 0 <= a < b < t.len() implies (#[trigger] t[a]).interface
                != (#[trigger] t[b]).interface by {
                assert(s[a].interface != s[b].interface);
            }
        }
        by_name_holds(t);
        assert(!before.interfaces.contains_key(s[j as int].interface)) by {
            if before.interfaces.contains_key(s[j as int].interface) {
                let i = choose|i: int|
                    0 <= i < t.len() && (#[trigger] t[i]).interface == s[j as int].interface;
                assert(t[i].interface == s[i].interface);
                assert(s[i].interface != s[j as int].interface);
            }
        }
        one_interface(before, p, s[j as int], NetFamily::RxTotal, read);
        let next = first_family(s, k, read);
        assert(next.drop_last() == t);
        assert(next.last() == refilled(
            unread_interface(s[j as int].interface),
            s[j as int],
            NetFamily::RxTotal,
            read,
        ));
    }
}

/// Interfaces after the first `k` of them were read in family `f`.
pub open spec fn family_read(
    t: Seq<NetSampleModel>,
    s: Seq<NetSampleModel>,
    f: NetFamily,
    k: nat,
    read: spec_fn(Seq<char>) -> Reading,
) -> Seq<NetSampleModel> {
    Seq::new(
        t.len(),
        |j: int|
            if j < k {
                refilled(t[j], s[j], f, read)
            } else {
                t[j]
            },
    )
}

proof fn later_family_read(
    m: ParseModel,
    p: ProbesModel,
    t: Seq<NetSampleModel>,
    f: NetFamily,
    k: nat,
    read: spec_fn(Seq<char>) -> Reading,
)
    requires
        reads_numbers(read),
        links_publishable(p, read),
        m == named(m, p),
        t.len() == p.interfaces.len(),
        forall|j: int|
            0 <= j < t.len() ==> (#[trigger] t[j]).interface == p.interfaces[j].interface,
        m.interfaces == by_name(t),
        k <= t.len(),
    ensures
        fed(m, host_net_samples(p, k, f), read) == (ParseModel {
            interfaces: by_name(family_read(t, p.interfaces, f, k, read)),
            ..m
        }),
    decreases k,
{
    let s = p.interfaces;
    if k == 0 {
        assert(family_read(t, s, f, 0, read) == t);
    } else {
        let j = (k - 1) as nat;
        later_family_read(m, p, t, f, j, read);
        let before = fed(m, host_net_samples(p, j, f), read);
        let now = family_read(t, s, f, j, read);
        fed_in_turn(m, host_net_samples(p, j, f), net_sample(p, s[j as int], f), read);
        assert(publishable(s[j as int], read));
        assert(distinct_names(now)) by {
            assert forall|a: int, b: int| 0 <= a < b < now.len() implies (
            #[trigger] now[a]).interface != (#[trigger] now[b]).interface by {
                assert(t[a].interface == s[a].interface);
                assert(t[b].interface == s[b].interface);
                assert(s[a].interface != s[b].interface);
            }
        }
        by_name_holds(now);
        assert(now[j as int] == t[j as int]);
        assert(now[j as int].interface == s[j as int].interface);
        one_interface(before, p, s[j as int], f, read);
        let x = refilled(t[j as int], s[j as int], f, read);
        by_name_updated(now, j as int, x);
        assert(family_read(t, s, f, k, read) == now.update(j as int, x));
    }
}

/// An interface as it is read back: counters to the precision of a reading,
/// rates to one decimal.
pub open spec fn link_back(l: NetSampleModel, read: spec_fn(Seq<char>) -> Reading) -> NetSampleModel {
    NetSampleModel {
        interface: l.interface,
        rx_bytes: Reading::of_natural(l.rx_bytes as nat).integer_part(u64::MAX as nat) as u64,
        tx_bytes: Reading::of_natural(l.tx_bytes as nat).integer_part(u64::MAX as nat) as u64,
        rx_bytes_per_sec: match l.rx_bytes_per_sec {
            Some(r) => Some(read(r.fixed(1))),
            None => None,
        },
        tx_bytes_per_sec: match l.tx_bytes_per_sec {
            Some(r) => Some(read(r.fixed(1))),
            None => None,
        },
    }
}

/// The interfaces of a host as they are read back.
pub open spec fn links_back(
    s: Seq<NetSampleModel>,
    read: spec_fn(Seq<char>) -> Reading,
) -> Seq<NetSampleModel> {
    s.map_values(|l: NetSampleModel| link_back(l, read))
}

proof fn family_fed(m: ParseModel, p: ProbesModel, f: NetFamily, read: spec_fn(Seq<char>) -> Reading)
    ensures
        fed(m, net_family(seq![p], f), read) == fed(
            m,
            host_net_samples(p, p.interfaces.len(), f),
            read,
        ),
{
    let hosts = seq![p];
    let help = ItemModel::Help { name: f.title(), text: f.purpose() };
    let kind = ItemModel::Kind { name: f.title(), kind: f.sort() };
    let samples = host_net_samples(p, p.interfaces.len(), f);
    assert(all_net_samples(hosts, 0, f) == Seq::<ItemModel>::empty());
    assert(all_net_samples(hosts, 1, f) == Seq::<ItemModel>::empty() + samples);
    assert(Seq::<ItemModel>::empty() + samples == samples);
    assert(net_family(hosts, f) == seq![help, kind] + samples);
    fed_in_turn(m, seq![help, kind], samples, read);
    assert(seq![help, kind] == seq![help] + seq![kind]);
    fed_in_turn(m, seq![help], seq![kind], read);
    fed_single(m, help, read);
    fed_single(m, kind, read);
}

/// The links of a host come back under their names.
proof fn links_come_back(m: ParseModel, p: ProbesModel, read: spec_fn(Seq<char>) -> Reading)
    requires
        reads_numbers(read),
        links_publishable(p, read),
        of_host(m, p),
        m.interfaces == Map::<Seq<char>, NetSampleModel>::empty(),
        m.interface_count == 0,
        p.interfaces.len() > 0,
    ensures
        fed(m, network_items(seq![p]), read) == named(
            ParseModel {
                interfaces: by_name(links_back(p.interfaces, read)),
                interface_count: p.interfaces.len(),
                ..m
            },
            p,
        ),
{
    let hosts = seq![p];
    let s = p.interfaces;
    let n = s.len();
    assert(hosts[0] == p);
    assert(any_links(hosts));
    let a = net_family(hosts, NetFamily::RxTotal);
    let b = net_family(hosts, NetFamily::TxTotal);
    let c = net_family(hosts, NetFamily::RxRate);
    let d = net_family(hosts, NetFamily::TxRate);
    fed_in_turn(m, a + b + c, d, read);
    fed_in_turn(m, a + b, c, read);
    fed_in_turn(m, a, b, read);
    family_fed(m, p, NetFamily::RxTotal, read);
    first_family_read(m, p, n, read);
    let t1 = first_family(s, n, read);
    let m1 = fed(m, a, read);
    family_fed(m1, p, NetFamily::TxTotal, read);
    later_family_read(m1, p, t1, NetFamily::TxTotal, n, read);
    let t2 = family_read(t1, s, NetFamily::TxTotal, n, read);
    let m2 = fed(m1, b, read);
    family_fed(m2, p, NetFamily::RxRate, read);
    later_family_read(m2, p, t2, NetFamily::RxRate, n, read);
    let t3 = family_read(t2, s, NetFamily::RxRate, n, read);
    let m3 = fed(m2, c, read);
    family_fed(m3, p, NetFamily::TxRate, read);
    later_family_read(m3, p, t3, NetFamily::TxRate, n, read);
    let t4 = family_read(t3, s, NetFamily::TxRate, n, read);
    assert(t4 == links_back(s, read)) by {
        assert forall|j: int| 0 <= j < n implies t4[j] == links_back(s, read)[j] by {
            assert(t1[j].interface == s[j].interface);
        }
    }
}

/// Whether the paths of locks differ.
pub open spec fn distinct_paths(s: Seq<LockModel>) -> bool {
    forall|i: int, j: int| 0 <= i < j < s.len() ==> (#[trigger] s[i]).path != (#[trigger] s[j]).path
}

/// Locks by path.
pub open spec fn by_path(s: Seq<LockModel>) -> Map<Seq<char>, LockModel>
    decreases s.len(),
{
    if s.len() == 0 {
        Map::empty()
    } else {
        by_path(s.drop_last()).insert(s.last().path, s.last())
    }
}

proof fn by_path_holds(s: Seq<LockModel>)
    requires
        distinct_paths(s),
    ensures
        forall|i: int|
            0 <= i < s.len() ==> by_path(s).contains_key((#[trigger] s[i]).path)
                && by_path(s)[s[i].path] == s[i],
        forall|k: Seq<char>| #[trigger]
            by_path(s).contains_key(k) ==> exists|i: int|
                0 <= i < s.len() && (#[trigger] s[i]).path == k,
    decreases s.len(),
{
    if s.len() > 0 {
        let head = s.drop_last();
        by_path_holds(head);
        assert forall|i: int| 0 <= i < s.len() implies by_path(s).contains_key(
            (#[trigger] s[i]).path,
        ) && by_path(s)[s[i].path] == s[i] by {
            if i < head.len() {
                assert(head[i] == s[i]);
                assert(s[i].path != s[s.len() - 1].path);
            }
        }
        assert forall|k: Seq<char>| #[trigger] by_path(s).contains_key(k) implies exists|i: int|
            0 <= i < s.len() && (#[trigger] s[i]).path == k by {
            if k == s.last().path {
                assert(s[s.len() - 1].path == k);
            } else {
                assert(by_path(head).contains_key(k));
                let i = choose|i: int| 0 <= i < head.len() && (#[trigger] head[i]).path == k;
                assert(s[i].path == k);
            }
        }
    }
}

proof fn by_path_updated(s: Seq<LockModel>, at: int, x: LockModel)
    requires
        distinct_paths(s),
        0 <= at < s.len(),
        x.path == s[at].path,
    ensures
        by_path(s.update(at, x)) == by_path(s).insert(x.path, x),
{
    let t = s.update(at, x);
    assert(distinct_paths(t)) by {
        assert forall|i: int, j: int| 0 <= i < j < t.len() implies (#[trigger] t[i]).path != (
        #[trigger] t[j]).path by {
            assert(s[i].path != s[j].path);
        }
    }
    by_path_holds(s);
    by_path_holds(t);
    let a = by_path(t);
    let b = by_path(s).insert(x.path, x);
    assert forall|k: Seq<char>| a.contains_key(k) == b.contains_key(k) by {
        if a.contains_key(k) {
            let i = choose|i: int| 0 <= i < t.len() && (#[trigger] t[i]).path == k;
            assert(s[i].path == k);
        }
        if b.contains_key(k) {
            if k == x.path {
                assert(t[at].path == k);
            } else {
                let i = choose|i: int| 0 <= i < s.len() && (#[trigger] s[i]).path == k;
                assert(t[i].path == k);
            }
        }
    }
    assert forall|k: Seq<char>| #[trigger] a.contains_key(k) implies a[k] == b[k] by {
        let i = choose|i: int| 0 <= i < t.len() && (#[trigger] t[i]).path == k;
        assert(t[i].path == k);
        assert(s[i].path == k);
        if i == at {
            assert(a[t[at].path] == t[at]);
        } else {
            assert(a[t[i].path] == t[i]);
            assert(b[s[i].path] == s[i]) by {
                if i < at {
                    assert(s[i].path != s[at].path);
                } else {
                    assert(s[at].path != s[i].path);
                }
            }
        }
    }
    assert(a =~= b);
}

/// Whether process ids ascend.
pub open spec fn ascending_pids(h: Seq<(u32, Seq<char>)>) -> bool {
    forall|i: int, j: int| 0 <= i < j < h.len() ==> (#[trigger] h[i]).0 < (#[trigger] h[j]).0
}

/// Whether the locks of a host can be published and read back.
pub open spec fn locks_publishable(p: ProbesModel) -> bool {
    &&& p.locks.len() <= MAX_LOCKS
    &&& distinct_paths(p.locks)
    &&& forall|i: int|
        0 <= i < p.locks.len() ==> (#[trigger] p.locks[i]).path.len() > 0
            && p.locks[i].holders.len() <= MAX_HOLDERS_PER_LOCK && ascending_pids(
            p.locks[i].holders,
        )
}

proof fn ascending_stays(h: Seq<(u32, Seq<char>)>)
    requires
        ascending_pids(h),
    ensures
        sorted(h, pid_before()) == h,
    decreases h.len(),
{
    if h.len() == 0 {
        assert(h == Seq::<(u32, Seq<char>)>::empty());
    } else {
        let head = h.drop_last();
        assert(ascending_pids(head));
        ascending_stays(head);
        if head.len() > 0 {
            assert(h[head.len() - 1].0 < h[h.len() - 1].0);
            assert(!pid_before()(h.last(), head.last()));
        }
        assert(head.push(h.last()) == h);
    }
}

proof fn lock_names()
    ensures
        begins(LOCK_HELD@, "all_smi_"@),
        begins(LOCK_HOLDER_INFO@, "all_smi_"@),
        begins(LOCK_HELD_SINCE@, "all_smi_"@),
        !begins(LOCK_HELD@.skip("all_smi_"@.len() as int), "network_"@),
        !begins(LOCK_HOLDER_INFO@.skip("all_smi_"@.len() as int), "network_"@),
        !begins(LOCK_HELD_SINCE@.skip("all_smi_"@.len() as int), "network_"@),
        begins(LOCK_HELD@.skip("all_smi_"@.len() as int), "lock_"@),
        begins(LOCK_HOLDER_INFO@.skip("all_smi_"@.len() as int), "lock_"@),
        begins(LOCK_HELD_SINCE@.skip("all_smi_"@.len() as int), "lock_"@),
        LOCK_HELD@.skip("all_smi_"@.len() as int).skip("lock_"@.len() as int) == "held"@,
        LOCK_HOLDER_INFO@.skip("all_smi_"@.len() as int).skip("lock_"@.len() as int)
            == "holder_info"@,
        LOCK_HELD_SINCE@.skip("all_smi_"@.len() as int).skip("lock_"@.len() as int)
            == "held_since_seconds"@,
        "held"@ != "holder_info"@,
        "held"@ != "held_since_seconds"@,
        "holder_info"@ != "held_since_seconds"@,
{
    reveal_strlit("all_smi_");
    reveal_strlit("network_");
    reveal_strlit("lock_");
    reveal_strlit("all_smi_lock_held");
    reveal_strlit("all_smi_lock_holder_info");
    reveal_strlit("all_smi_lock_held_since_seconds");
    reveal_strlit("held");
    reveal_strlit("holder_info");
    reveal_strlit("held_since_seconds");
    let a = LOCK_HELD@;
    let b = LOCK_HOLDER_INFO@;
    let c = LOCK_HELD_SINCE@;
    assert(a.take(8) =~= "all_smi_"@);
    assert(b.take(8) =~= "all_smi_"@);
    assert(c.take(8) =~= "all_smi_"@);
    assert(a.skip(8).take(8)[0] != "network_"@[0]);
    assert(b.skip(8).take(8)[0] != "network_"@[0]);
    assert(c.skip(8).take(8)[0] != "network_"@[0]);
    assert(a.skip(8).take(5) =~= "lock_"@);
    assert(b.skip(8).take(5) =~= "lock_"@);
    assert(c.skip(8).take(5) =~= "lock_"@);
    assert(a.skip(8).skip(5) =~= "held"@);
    assert(b.skip(8).skip(5) =~= "holder_info"@);
    assert(c.skip(8).skip(5) =~= "held_since_seconds"@);
    assert("held"@.len() != "holder_info"@.len());
    assert("held"@.len() != "held_since_seconds"@.len());
    assert("holder_info"@.len() != "held_since_seconds"@.len());
}

proof fn digits_readable(read: spec_fn(Seq<char>) -> Reading)
    requires
        reads_numbers(read),
    ensures
        readable_value(read("0"@)),
        readable_value(read("1"@)),
{
    reveal_strlit("0");
    reveal_strlit("1");
    assert("0"@ =~= decimal(0));
    assert("1"@ =~= decimal(1));
    naturals_are_finite(0);
    naturals_are_finite(1);
    assert(read(decimal(0)) == Reading::of_natural(0));
    assert(read(decimal(1)) == Reading::of_natural(1));
}

/// The first `k` locks of which only the paths are known.
pub open spec fn bare_locks(s: Seq<LockModel>, k: nat) -> Seq<LockModel> {
    Seq::new(k, |j: int| unread_lock(s[j].path))
}

proof fn held_read(m: ParseModel, p: ProbesModel, k: nat, read: spec_fn(Seq<char>) -> Reading)
    requires
        reads_numbers(read),
        locks_publishable(p),
        of_host(m, p),
        m.locks == Map::<Seq<char>, LockModel>::empty(),
        m.lock_count == 0,
        k <= p.locks.len(),
    ensures
        ({
            let r = fed(m, host_lock_samples(p, k, LockFamily::Held), read);
            let known = ParseModel { locks: by_path(bare_locks(p.locks, k)), lock_count: k, ..m };
            k > 0 ==> r == named(known, p)
        }),
        k == 0 ==> fed(m, host_lock_samples(p, k, LockFamily::Held), read) == m,
    decreases k,
{
    let s = p.locks;
    if k > 0 {
        let j = (k - 1) as nat;
        let l = s[j as int];
        held_read(m, p, j, read);
        let before = fed(m, host_lock_samples(p, j, LockFamily::Held), read);
        let t = bare_locks(s, j);
        assert(j == 0 ==> by_path(t) == Map::<Seq<char>, LockModel>::empty());
        let one = lock_samples_in(p, l, LockFamily::Held);
        fed_in_turn(m, host_lock_samples(p, j, LockFamily::Held), one, read);
        assert(l.path.len() > 0);
        assert(distinct_paths(t)) by {
            assert forall|a: int, b: int| 0 <= a < b < t.len() implies (#[trigger] t[a]).path != (
            #[trigger] t[b]).path by {
                assert(s[a].path != s[b].path);
            }
        }
        by_path_holds(t);
        assert(!before.locks.contains_key(l.path)) by {
            if before.locks.contains_key(l.path) {
                let i = choose|i: int| 0 <= i < t.len() && (#[trigger] t[i]).path == l.path;
                assert(t[i].path == s[i].path);
                assert(s[i].path != s[j as int].path);
            }
        }
        let item = ItemModel::Sample {
            name: LOCK_HELD@,
            labels: host_labels(p, "path"@, l.path),
            value: if l.holders.len() > 0 {
                "1"@
            } else {
                "0"@
            },
        };
        assert(one == seq![item]);
        fed_single(before, item, read);
        lock_names();
        digits_readable(read);
        host_label_values(p, "path"@, l.path);
        let next = bare_locks(s, k);
        assert(next.drop_last() == t);
        assert(next.last() == unread_lock(l.path));
    }
}

proof fn holder_label_values(p: ProbesModel, path: Seq<char>, h: (u32, Seq<char>))
    ensures
        label_of(holder_labels(p, path, h), "instance"@) == Some(p.instance),
        label_of(holder_labels(p, path, h), "hostname"@) == Some(p.hostname),
        label_of(holder_labels(p, path, h), "path"@) == Some(path),
        label_of(holder_labels(p, path, h), "pid"@) == Some(decimal(h.0 as nat)),
        label_of(holder_labels(p, path, h), "command"@) == Some(h.1),
{
    reveal_strlit("instance");
    reveal_strlit("hostname");
    reveal_strlit("path");
    reveal_strlit("pid");
    reveal_strlit("command");
    let l = holder_labels(p, path, h);
    let a = l.drop_first();
    let b = a.drop_first();
    let c = b.drop_first();
    let d = c.drop_first();
    assert("instance"@[0] != "hostname"@[0]);
    assert("instance"@.len() == 8 && "hostname"@.len() == 8);
    assert("path"@.len() == 4 && "pid"@.len() == 3 && "command"@.len() == 7);
    assert(a[0] == ("hostname"@, p.hostname));
    assert(b[0] == ("path"@, path));
    assert(c[0] == ("pid"@, decimal(h.0 as nat)));
    assert(d[0] == ("command"@, h.1));
    assert(label_of(d, "command"@) == Some(h.1));
    assert(label_of(c, "command"@) == label_of(d, "command"@));
    assert(label_of(b, "command"@) == label_of(c, "command"@));
    assert(label_of(a, "command"@) == label_of(b, "command"@));
    assert(label_of(c, "pid"@) == Some(decimal(h.0 as nat)));
    assert(label_of(b, "pid"@) == label_of(c, "pid"@));
    assert(label_of(a, "pid"@) == label_of(b, "pid"@));
    assert(label_of(b, "path"@) == Some(path));
    assert(label_of(a, "path"@) == label_of(b, "path"@));
    assert(label_of(a, "hostname"@) == Some(p.hostname));
    assert(label_of(l, "hostname"@) == label_of(a, "hostname"@));
}

/// The holders of one lock.
proof fn holders_read(
    m: ParseModel,
    p: ProbesModel,
    l: LockModel,
    k: nat,
    read: spec_fn(Seq<char>) -> Reading,
)
    requires
        reads_numbers(read),
        m == named(m, p),
        l.path.len() > 0,
        l.holders.len() <= MAX_HOLDERS_PER_LOCK,
        ascending_pids(l.holders),
        m.locks.contains_key(l.path),
        m.locks[l.path] == unread_lock(l.path),
        k <= l.holders.len(),
    ensures
        fed(m, holder_samples(p, l, k), read) == (ParseModel {
            locks: m.locks.insert(
                l.path,
                (LockModel { path: l.path, holders: l.holders.take(k as int), since_unix: None }),
            ),
            ..m
        }),
    decreases k,
{
    if k == 0 {
        assert(l.holders.take(0) == Seq::<(u32, Seq<char>)>::empty());
        assert(m.locks.insert(l.path, unread_lock(l.path)) == m.locks);
    } else {
        let j = (k - 1) as nat;
        let h = l.holders[j as int];
        holders_read(m, p, l, j, read);
        let before = fed(m, holder_samples(p, l, j), read);
        let item = ItemModel::Sample {
            name: LOCK_HOLDER_INFO@,
            labels: holder_labels(p, l.path, h),
            value: "1"@,
        };
        assert(holder_samples(p, l, k) == holder_samples(p, l, j) + seq![item]);
        fed_in_turn(m, holder_samples(p, l, j), seq![item], read);
        fed_single(before, item, read);
        lock_names();
        digits_readable(read);
        holder_label_values(p, l.path, h);
        unsigned_reads_decimal(h.0 as nat, u32::MAX as nat);
        let sofar = l.holders.take(j as int);
        assert(!lists_pid(sofar, h.0 as nat)) by {
            if lists_pid(sofar, h.0 as nat) {
                let i = choose|i: int| 0 <= i < sofar.len() && (#[trigger] sofar[i]).0 == h.0;
                assert(l.holders[i].0 < l.holders[j as int].0);
            }
        }
        assert(sofar.push(h) == l.holders.take(k as int));
        assert(ascending_pids(l.holders.take(k as int)));
        ascending_stays(l.holders.take(k as int));
        let stored = LockModel { path: l.path, holders: sofar, since_unix: None };
        let new = LockModel {
            path: l.path,
            holders: l.holders.take(k as int),
            since_unix: None,
        };
        assert(with_holder(stored, holder_labels(p, l.path, h)) == new);
        assert(before.locks[l.path] == stored);
        assert(before.locks.insert(l.path, new) == m.locks.insert(l.path, new));
    }
}

/// Locks after the holders of the first `k` of them were read.
pub open spec fn held_locks(s: Seq<LockModel>, k: nat) -> Seq<LockModel> {
    Seq::new(
        s.len(),
        |j: int|
            if j < k {
                LockModel { path: s[j].path, holders: s[j].holders, since_unix: None }
            } else {
                unread_lock(s[j].path)
            },
    )
}

proof fn all_holders_read(
    m: ParseModel,
    p: ProbesModel,
    k: nat,
    read: spec_fn(Seq<char>) -> Reading,
)
    requires
        reads_numbers(read),
        locks_publishable(p),
        m == named(m, p),
        m.locks == by_path(held_locks(p.locks, 0)),
        k <= p.locks.len(),
    ensures
        fed(m, host_lock_samples(p, k, LockFamily::Holder), read) == (ParseModel {
            locks: by_path(held_locks(p.locks, k)),
            ..m
        }),
    decreases k,
{
    let s = p.locks;
    if k > 0 {
        let j = (k - 1) as nat;
        let l = s[j as int];
        all_holders_read(m, p, j, read);
        let before = fed(m, host_lock_samples(p, j, LockFamily::Holder), read);
        let now = held_locks(s, j);
        fed_in_turn(
            m,
            host_lock_samples(p, j, LockFamily::Holder),
            holder_samples(p, l, l.holders.len()),
            read,
        );
        assert(l.path.len() > 0);
        assert(distinct_paths(now)) by {
            assert forall|a: int, b: int| 0 <= a < b < now.len() implies (#[trigger] now[a]).path
                != (#[trigger] now[b]).path by {
                assert(s[a].path != s[b].path);
            }
        }
        by_path_holds(now);
        assert(now[j as int] == unread_lock(l.path));
        assert(now[j as int].path == l.path);
        holders_read(before, p, l, l.holders.len(), read);
        assert(l.holders.take(l.holders.len() as int) == l.holders);
        let x = LockModel { path: l.path, holders: l.holders, since_unix: None };
        by_path_updated(now, j as int, x);
        assert(held_locks(s, k) == now.update(j as int, x));
    }
}

/// A lock as it is read back: its time to the precision of a reading.
pub open spec fn lock_back(l: LockModel) -> LockModel {
    LockModel {
        path: l.path,
        holders: l.holders,
        since_unix: match l.since_unix {
            Some(t) => Some(
                Reading::of_natural(t as nat).integer_part(u64::MAX as nat) as u64,
            ),
            None => None,
        },
    }
}

/// The locks of a host as they are read back.
pub open spec fn locks_back(s: Seq<LockModel>) -> Seq<LockModel> {
    s.map_values(|l: LockModel| lock_back(l))
}

/// Locks after the times of the first `k` of them were read.
pub open spec fn timed_locks(s: Seq<LockModel>, k: nat) -> Seq<LockModel> {
    Seq::new(
        s.len(),
        |j: int|
            if j < k {
                lock_back(s[j])
            } else {
                LockModel { path: s[j].path, holders: s[j].holders, since_unix: None }
            },
    )
}

proof fn times_read(m: ParseModel, p: ProbesModel, k: nat, read: spec_fn(Seq<char>) -> Reading)
    requires
        reads_numbers(read),
        locks_publishable(p),
        m == named(m, p),
        m.locks == by_path(timed_locks(p.locks, 0)),
        k <= p.locks.len(),
    ensures
        fed(m, host_lock_samples(p, k, LockFamily::Since), read) == (ParseModel {
            locks: by_path(timed_locks(p.locks, k)),
            ..m
        }),
    decreases k,
{
    let s = p.locks;
    if k > 0 {
        let j = (k - 1) as nat;
        let l = s[j as int];
        times_read(m, p, j, read);
        let before = fed(m, host_lock_samples(p, j, LockFamily::Since), read);
        let now = timed_locks(s, j);
        let one = lock_samples_in(p, l, LockFamily::Since);
        fed_in_turn(m, host_lock_samples(p, j, LockFamily::Since), one, read);
        assert(l.path.len() > 0);
        assert(distinct_paths(now)) by {
            assert forall|a: int, b: int| 0 <= a < b < now.len() implies (#[trigger] now[a]).path
                != (#[trigger] now[b]).path by {
                assert(s[a].path != s[b].path);
            }
        }
        by_path_holds(now);
        assert(now[j as int].path == l.path);
        let x = lock_back(l);
        by_path_updated(now, j as int, x);
        assert(timed_locks(s, k) == now.update(j as int, x));
        lock_names();
        host_label_values(p, "path"@, l.path);
        match l.since_unix {
            Some(t) => {
                let item = ItemModel::Sample {
                    name: LOCK_HELD_SINCE@,
                    labels: host_labels(p, "path"@, l.path),
                    value: decimal(t as nat),
                };
                assert(one == seq![item]);
                fed_single(before, item, read);
                naturals_are_finite(t as nat);
                assert(read(decimal(t as nat)) == Reading::of_natural(t as nat));
            },
            None => {
                assert(x == now[j as int]);
                assert(now.update(j as int, x) == now);
            },
        }
    }
}

proof fn lock_family_fed(
    m: ParseModel,
    p: ProbesModel,
    f: LockFamily,
    read: spec_fn(Seq<char>) -> Reading,
)
    ensures
        fed(m, lock_family(seq![p], f), read) == fed(
            m,
            host_lock_samples(p, p.locks.len(), f),
            read,
        ),
{
    let hosts = seq![p];
    let help = ItemModel::Help { name: f.title(), text: f.purpose() };
    let kind = ItemModel::Kind { name: f.title(), kind: "gauge"@ };
    let samples = host_lock_samples(p, p.locks.len(), f);
    assert(all_lock_samples(hosts, 0, f) == Seq::<ItemModel>::empty());
    assert(all_lock_samples(hosts, 1, f) == Seq::<ItemModel>::empty() + samples);
    assert(Seq::<ItemModel>::empty() + samples == samples);
    assert(lock_family(hosts, f) == seq![help, kind] + samples);
    fed_in_turn(m, seq![help, kind], samples, read);
    assert(seq![help, kind] == seq![help] + seq![kind]);
    fed_in_turn(m, seq![help], seq![kind], read);
    fed_single(m, help, read);
    fed_single(m, kind, read);
}

/// The locks of a host come back under their paths.
proof fn locks_come_back(m: ParseModel, p: ProbesModel, read: spec_fn(Seq<char>) -> Reading)
    requires
        reads_numbers(read),
        locks_publishable(p),
        of_host(m, p),
        m.locks == Map::<Seq<char>, LockModel>::empty(),
        m.lock_count == 0,
        p.locks.len() > 0,
    ensures
        fed(m, lock_items(seq![p]), read) == named(
            ParseModel {
                locks: by_path(locks_back(p.locks)),
                lock_count: p.locks.len(),
                ..m
            },
            p,
        ),
{
    let hosts = seq![p];
    let s = p.locks;
    let n = s.len();
    assert(hosts[0] == p);
    assert(any_locks(hosts));
    let a = lock_family(hosts, LockFamily::Held);
    let b = lock_family(hosts, LockFamily::Holder);
    let c = lock_family(hosts, LockFamily::Since);
    fed_in_turn(m, a + b, c, read);
    fed_in_turn(m, a, b, read);
    lock_family_fed(m, p, LockFamily::Held, read);
    held_read(m, p, n, read);
    assert(bare_locks(s, n) == held_locks(s, 0));
    let m1 = fed(m, a, read);
    lock_family_fed(m1, p, LockFamily::Holder, read);
    all_holders_read(m1, p, n, read);
    assert(held_locks(s, n) == timed_locks(s, 0));
    let m2 = fed(m1, b, read);
    lock_family_fed(m2, p, LockFamily::Since, read);
    times_read(m2, p, n, read);
    assert(timed_locks(s, n) == locks_back(s));
}

/// What a host's exporter publishes, the viewer reads back: its names, every
/// link under its name and every lock under its path. Holders come back as they
/// were, counters and times to the precision of a reading, rates as their one
/// decimal reads.
pub proof fn probes_come_back(p: ProbesModel, read: spec_fn(Seq<char>) -> Reading)
    requires
        reads_numbers(read),
        links_publishable(p, read),
        locks_publishable(p),
        p.interfaces.len() > 0 || p.locks.len() > 0,
    ensures
        fed(nothing_read(), probe_items(seq![p]), read) == (ParseModel {
            hostname: Some(p.hostname),
            instance: Some(p.instance),
            interfaces: by_name(links_back(p.interfaces, read)),
            interface_count: p.interfaces.len(),
            locks: by_path(locks_back(p.locks)),
            lock_count: p.locks.len(),
        }),
{
    let m = nothing_read();
    let hosts = seq![p];
    fed_in_turn(m, network_items(hosts), lock_items(hosts), read);
    if p.interfaces.len() > 0 {
        links_come_back(m, p, read);
    } else {
        assert(!any_links(hosts));
        assert(by_name(links_back(p.interfaces, read)) == Map::<Seq<char>, NetSampleModel>::empty());
    }
    let m1 = fed(m, network_items(hosts), read);
    if p.locks.len() > 0 {
        locks_come_back(m1, p, read);
    } else {
        assert(!any_locks(hosts));
        assert(by_path(locks_back(p.locks)) == Map::<Seq<char>, LockModel>::empty());
    }
}

/// Counters and times below 2^53 come back exactly.
pub proof fn small_counters_come_back_exactly(
    l: NetSampleModel,
    k: LockModel,
    read: spec_fn(Seq<char>) -> Reading,
)
    ensures
        l.rx_bytes < 2 * STEP ==> link_back(l, read).rx_bytes == l.rx_bytes,
        l.tx_bytes < 2 * STEP ==> link_back(l, read).tx_bytes == l.tx_bytes,
        k.since_unix is None || k.since_unix->0 < 2 * STEP ==> lock_back(k) == k,
{
    if l.rx_bytes < 2 * STEP {
        small_naturals_read_back(l.rx_bytes as nat, u64::MAX as nat);
    }
    if l.tx_bytes < 2 * STEP {
        small_naturals_read_back(l.tx_bytes as nat, u64::MAX as nat);
    }
    if let Some(t) = k.since_unix {
        if t < 2 * STEP {
            small_naturals_read_back(t as nat, u64::MAX as nat);
        }
    }
}

/// How the value of a published line is read: as a decimal numeral.
pub open spec fn numerals() -> spec_fn(Seq<char>) -> Reading {
    |s: Seq<char>|
        match reading_in(s) {
            Some(r) => r,
            None => undefined(),
        }
}

proof fn numerals_read_numbers()
    ensures
        reads_numbers(numerals()),
{
    assert forall|n: nat| n <= u64::MAX implies #[trigger] numerals()(decimal(n))
        == Reading::of_natural(n) by {
        whole_numbers_read_as_themselves(n);
    }
}

/// Whether a rate comes back as it was: not below zero and with one decimal.
pub open spec fn plain_rate(r: Option<Reading>) -> bool {
    match r {
        Some(x) => one_decimal(x) && readable_value(x),
        None => true,
    }
}

/// Whether an interface comes back as it was.
pub open spec fn plain_link(l: NetSampleModel) -> bool {
    &&& l.interface.len() > 0
    &&& l.rx_bytes < 2 * STEP
    &&& l.tx_bytes < 2 * STEP
    &&& plain_rate(l.rx_bytes_per_sec)
    &&& plain_rate(l.tx_bytes_per_sec)
}

/// Whether a lock comes back as it was.
pub open spec fn plain_lock(l: LockModel) -> bool {
    &&& l.path.len() > 0
    &&& l.holders.len() <= MAX_HOLDERS_PER_LOCK
    &&& ascending_pids(l.holders)
    &&& l.since_unix is None || l.since_unix->0 < 2 * STEP
}

/// The names of interfaces.
pub open spec fn link_names(s: Seq<NetSampleModel>) -> Seq<Seq<char>> {
    s.map_values(|l: NetSampleModel| l.interface)
}

/// The paths of locks.
pub open spec fn lock_paths(s: Seq<LockModel>) -> Seq<Seq<char>> {
    s.map_values(|l: LockModel| l.path)
}

/// Whether the probes of a host come back as they were: no more of them than
/// are kept, interfaces and locks in the order of their names, and each of them
/// plain.
pub open spec fn plain_probes(p: ProbesModel) -> bool {
    &&& p.interfaces.len() <= MAX_INTERFACES
    &&& rising(link_names(p.interfaces))
    &&& forall|i: int| 0 <= i < p.interfaces.len() ==> plain_link(#[trigger] p.interfaces[i])
    &&& p.locks.len() <= MAX_LOCKS
    &&& rising(lock_paths(p.locks))
    &&& forall|i: int| 0 <= i < p.locks.len() ==> plain_lock(#[trigger] p.locks[i])
}

/// Texts in strictly rising order are fixed by what they are.
proof fn rising_texts_agree(a: Seq<Seq<char>>, b: Seq<Seq<char>>)
    requires
        rising(a),
        rising(b),
        forall|k: Seq<char>| a.contains(k) <==> b.contains(k),
    ensures
        a == b,
    decreases a.len(),
{
    if a.len() == 0 {
        if b.len() > 0 {
            assert(b.contains(b[0]));
        }
    } else {
        assert(a.contains(a[0]));
        assert(b.len() > 0);
        let (x, y) = (a.last(), b.last());
        assert(a.contains(x) && b.contains(y));
        let i = choose|i: int| 0 <= i < b.len() && b[i] == x;
        let j = choose|j: int| 0 <= j < a.len() && a[j] == y;
        precedes_is_strict(x, y);
        precedes_is_strict(y, x);
        if x != y {
            assert(i < b.len() - 1);
            assert(precedes(b[i], b[b.len() - 1]));
            assert(j < a.len() - 1);
            assert(precedes(a[j], a[a.len() - 1]));
            assert(false);
        }
        let (c, d) = (a.drop_last(), b.drop_last());
        assert forall|k: Seq<char>| c.contains(k) <==> d.contains(k) by {
            precedes_is_strict(x, x);
            if c.contains(k) {
                let at = choose|at: int| 0 <= at < c.len() && c[at] == k;
                assert(a[at] == k && precedes(a[at], a[a.len() - 1]));
                assert(a.contains(k));
                let to = choose|to: int| 0 <= to < b.len() && b[to] == k;
                assert(to < b.len() - 1);
                assert(d[to] == k);
            }
            if d.contains(k) {
                let at = choose|at: int| 0 <= at < d.len() && d[at] == k;
                assert(b[at] == k && precedes(b[at], b[b.len() - 1]));
                assert(b.contains(k));
                let to = choose|to: int| 0 <= to < a.len() && a[to] == k;
                assert(to < a.len() - 1);
                assert(c[to] == k);
            }
        }
        rising_texts_agree(c, d);
        assert(a == c.push(x) && b == d.push(y));
    }
}

/// A table whose entries are those of a list, by keys that rise in both, holds
/// them in the order of the list.
proof fn tables_stand_in_list_order<V>(entries: Seq<(String, V)>, keys: Seq<Seq<char>>)
    requires
        ascending(entries),
        rising(keys),
        forall|k: Seq<char>| find_entry(entries, k) is Some <==> #[trigger] keys.contains(k),
    ensures
        entries.len() == keys.len(),
        forall|i: int|
            0 <= i < entries.len() ==> (#[trigger] entries[i]).0@ == keys[i] && find_entry(
                entries,
                keys[i],
            ) == Some(entries[i].1),
{
    let own = entries.map_values(|e: (String, V)| e.0@);
    assert forall|i: int| 0 <= i < entries.len() implies find_entry(
        entries,
        (#[trigger] entries[i]).0@,
    ) == Some(entries[i].1) by {
        assert forall|j: int| 0 <= j < i implies (#[trigger] entries[j]).0@ != entries[i].0@ by {
            precedes_is_strict(entries[i].0@, entries[i].0@);
            assert(precedes(entries[j].0@, entries[i].0@));
        }
        lemma_find_at(entries, entries[i].0@, i);
    }
    assert forall|k: Seq<char>| own.contains(k) <==> keys.contains(k) by {
        if own.contains(k) {
            let i = choose|i: int| 0 <= i < own.len() && own[i] == k;
            assert(entries[i].0@ == k);
        }
        if keys.contains(k) {
            let i = lemma_found(entries, k);
            assert(own[i] == k);
        }
    }
    assert(rising(own)) by {
        assert forall|i: int, j: int| 0 <= i < j < own.len() implies precedes(
            #[trigger] own[i],
            #[trigger] own[j],
        ) by {
            assert(precedes(entries[i].0@, entries[j].0@));
        }
    }
    rising_texts_agree(own, keys);
    assert forall|i: int| 0 <= i < entries.len() implies (#[trigger] entries[i]).0@ == keys[i]
        && find_entry(entries, keys[i]) == Some(entries[i].1) by {
        assert(own[i] == entries[i].0@);
    }
}

proof fn plain_links_stay(p: ProbesModel)
    requires
        plain_probes(p),
    ensures
        links_publishable(p, numerals()),
        links_back(p.interfaces, numerals()) == p.interfaces,
{
    let s = p.interfaces;
    assert forall|i: int| 0 <= i < s.len() implies publishable(#[trigger] s[i], numerals())
        && link_back(s[i], numerals()) == s[i] by {
        assert(plain_link(s[i]));
        small_counters_come_back_exactly(s[i], unread_lock(seq![]), numerals());
        if let Some(r) = s[i].rx_bytes_per_sec {
            one_decimal_reads_back(r);
        }
        if let Some(r) = s[i].tx_bytes_per_sec {
            one_decimal_reads_back(r);
        }
    }
    assert(distinct_names(s)) by {
        assert forall|i: int, j: int| 0 <= i < j < s.len() implies (#[trigger] s[i]).interface != (
        #[trigger] s[j]).interface by {
            let names = link_names(s);
            precedes_is_strict(names[i], names[i]);
            assert(precedes(names[i], names[j]));
        }
    }
    assert(links_back(s, numerals()) =~= s);
}

proof fn plain_locks_stay(p: ProbesModel)
    requires
        plain_probes(p),
    ensures
        locks_publishable(p),
        locks_back(p.locks) == p.locks,
{
    let s = p.locks;
    assert forall|i: int| 0 <= i < s.len() implies lock_back(#[trigger] s[i]) == s[i] by {
        assert(plain_lock(s[i]));
        small_counters_come_back_exactly(unread_interface(seq![]), s[i], numerals());
    }
    assert forall|i: int| 0 <= i < s.len() implies (#[trigger] s[i]).path.len() > 0
        && s[i].holders.len() <= MAX_HOLDERS_PER_LOCK && ascending_pids(s[i].holders) by {
        assert(plain_lock(s[i]));
    }
    assert(distinct_paths(s)) by {
        assert forall|i: int, j: int| 0 <= i < j < s.len() implies (#[trigger] s[i]).path != (
        #[trigger] s[j]).path by {
            let paths = lock_paths(s);
            precedes_is_strict(paths[i], paths[i]);
            assert(precedes(paths[i], paths[j]));
        }
    }
    assert(locks_back(s) =~= s);
}

/// What a host's exporter publishes is what the viewer ends up with: fed every
/// published line, its value read as a numeral, the parser gives back the names,
/// the interfaces and the locks of the host as they were and in their order,
/// under the key that the host is scraped by; nothing where there is neither an
/// interface nor a lock.
pub proof fn plain_probes_come_back(p: ProbesModel, s: ProbeParseState, host: Seq<char>)
    requires
        plain_probes(p),
        s.well_formed(),
        s@ == fed(nothing_read(), probe_items(seq![p]), numerals()),
    ensures
        p.interfaces.len() == 0 && p.locks.len() == 0 ==> finished(s, host) is None,
        p.interfaces.len() > 0 || p.locks.len() > 0 ==> finished(s, host) == Some(
            ProbesModel {
                host_id: host,
                hostname: p.hostname,
                instance: p.instance,
                interfaces: p.interfaces,
                locks: p.locks,
                json: seq![],
                os: None,
            },
        ),
{
    let hosts = seq![p];
    if p.interfaces.len() == 0 && p.locks.len() == 0 {
        assert(!any_links(hosts));
        assert(!any_locks(hosts));
        assert(probe_items(hosts) == Seq::<ItemModel>::empty());
    } else {
        numerals_read_numbers();
        plain_links_stay(p);
        plain_locks_stay(p);
        probes_come_back(p, numerals());
        let links = p.interfaces;
        let names = link_names(links);
        by_name_holds(links);
        let e = s.interfaces.entries@;
        assert forall|k: Seq<char>| find_entry(e, k) is Some <==> #[trigger] names.contains(k) by {
            assert(s@.interfaces.contains_key(k) <==> find_entry(e, k) is Some);
            if names.contains(k) {
                let i = choose|i: int| 0 <= i < names.len() && names[i] == k;
                assert(links[i].interface == k);
            }
            if by_name(links).contains_key(k) {
                let i = choose|i: int| 0 <= i < links.len() && (#[trigger] links[i]).interface == k;
                assert(names[i] == k);
            }
        }
        tables_stand_in_list_order(e, names);
        assert forall|i: int| 0 <= i < e.len() implies (#[trigger] e[i]).1@ == links[i] by {
            assert(e[i].0@ == names[i]);
            assert(by_name(links).contains_key(links[i].interface));
            assert(s@.interfaces[names[i]] == e[i].1@);
        }
        assert(entry_models(e) =~= links);
        let locks = p.locks;
        let paths = lock_paths(locks);
        by_path_holds(locks);
        let f = s.locks.entries@;
        assert forall|k: Seq<char>| find_entry(f, k) is Some <==> #[trigger] paths.contains(k) by {
            assert(s@.locks.contains_key(k) <==> find_entry(f, k) is Some);
            if paths.contains(k) {
                let i = choose|i: int| 0 <= i < paths.len() && paths[i] == k;
                assert(locks[i].path == k);
            }
            if by_path(locks).contains_key(k) {
                let i = choose|i: int| 0 <= i < locks.len() && (#[trigger] locks[i]).path == k;
                assert(paths[i] == k);
            }
        }
        tables_stand_in_list_order(f, paths);
        assert forall|i: int| 0 <= i < f.len() implies (#[trigger] f[i]).1@ == locks[i] by {
            assert(f[i].0@ == paths[i]);
            assert(by_path(locks).contains_key(locks[i].path));
            assert(s@.locks[paths[i]] == f[i].1@);
        }
        assert(lock_entry_models(f) =~= locks);
    }
}

} // verus!
