//! What is published of the probes, and what is read back from it.
use vstd::prelude::*;
use vstd::string::*;

use crate::api::metrics::{items_text, label_texts, ItemModel, Label};
use crate::api::metrics::probes::{
    all_lock_samples, all_net_samples, holder_samples, host_lock_samples, host_net_samples,
    lock_family, lock_items, lock_samples_in, net_family, net_sample, network_items, LockFamily,
    NetFamily,
};
use crate::network::probe_parser::{
    filled_label, label_of, with_lock, with_network, with_sample, ParseModel,
};
use crate::probes::ProbesModel;
use crate::probes::lock::LockModel;
use crate::probes::net::NetSampleModel;
use crate::reading::Reading;
use crate::text::{begins, decimal, joined};

verus! {

/// The sample of an interface under a metric of that name.
pub open spec fn of_interface(
    name: Seq<char>,
    p: ProbesModel,
    l: NetSampleModel,
    value: Seq<char>,
) -> ItemModel {
    ItemModel::Sample {
        name,
        labels: seq![
            ("instance"@, p.instance),
            ("hostname"@, p.hostname),
            ("interface"@, l.interface),
        ],
        value,
    }
}

proof fn part_of_a_sum<T>(a: Seq<T>, b: Seq<T>, x: T)
    ensures
        a.contains(x) || b.contains(x) ==> (a + b).contains(x),
{
    if a.contains(x) {
        let i = choose|i: int| 0 <= i < a.len() && a[i] == x;
        assert((a + b)[i] == x);
    } else if b.contains(x) {
        let i = choose|i: int| 0 <= i < b.len() && b[i] == x;
        assert((a + b)[a.len() + i] == x);
    }
}

proof fn interfaces_are_sampled(p: ProbesModel, n: nat, f: NetFamily, k: int, x: ItemModel)
    requires
        0 <= k < n <= p.interfaces.len(),
        net_sample(p, p.interfaces[k], f).contains(x),
    ensures
        host_net_samples(p, n, f).contains(x),
    decreases n,
{
    let before = host_net_samples(p, (n - 1) as nat, f);
    if k < n - 1 {
        interfaces_are_sampled(p, (n - 1) as nat, f, k, x);
    }
    part_of_a_sum(before, net_sample(p, p.interfaces[n - 1], f), x);
}

proof fn hosts_are_sampled(hosts: Seq<ProbesModel>, n: nat, f: NetFamily, h: int, x: ItemModel)
    requires
        0 <= h < n <= hosts.len(),
        host_net_samples(hosts[h], hosts[h].interfaces.len(), f).contains(x),
    ensures
        all_net_samples(hosts, n, f).contains(x),
    decreases n,
{
    let before = all_net_samples(hosts, (n - 1) as nat, f);
    if h < n - 1 {
        hosts_are_sampled(hosts, (n - 1) as nat, f, h, x);
    }
    part_of_a_sum(
        before,
        host_net_samples(hosts[n - 1], hosts[n - 1].interfaces.len(), f),
        x,
    );
}

proof fn an_interface_is_published(
    hosts: Seq<ProbesModel>,
    f: NetFamily,
    h: int,
    k: int,
    x: ItemModel,
)
    requires
        0 <= h < hosts.len(),
        0 <= k < hosts[h].interfaces.len(),
        net_sample(hosts[h], hosts[h].interfaces[k], f).contains(x),
    ensures
        network_items(hosts).contains(x),
{
    interfaces_are_sampled(hosts[h], hosts[h].interfaces.len(), f, k, x);
    hosts_are_sampled(hosts, hosts.len(), f, h, x);
    assert(crate::probes::any_links(hosts));
    let (a, b, c, d) = (
        net_family(hosts, NetFamily::RxTotal),
        net_family(hosts, NetFamily::TxTotal),
        net_family(hosts, NetFamily::RxRate),
        net_family(hosts, NetFamily::TxRate),
    );
    let head = seq![
        ItemModel::Help { name: f.title(), text: f.purpose() },
        ItemModel::Kind { name: f.title(), kind: f.sort() },
    ];
    part_of_a_sum(head, all_net_samples(hosts, hosts.len(), f), x);
    part_of_a_sum(a, b, x);
    part_of_a_sum(a + b, c, x);
    part_of_a_sum(a + b + c, d, x);
}

/// Every interface of every host is published with its own counters: bytes
/// received and sent, and the rate of each where it is known, with one decimal.
pub proof fn interfaces_are_published_with_their_counters(
    hosts: Seq<ProbesModel>,
    h: int,
    k: int,
)
    requires
        0 <= h < hosts.len(),
        0 <= k < hosts[h].interfaces.len(),
    ensures
        ({
            let (p, l) = (hosts[h], hosts[h].interfaces[k]);
            let all = network_items(hosts);
            &&& all.contains(
                of_interface(
                    "all_smi_network_receive_bytes_total"@,
                    p,
                    l,
                    decimal(l.rx_bytes as nat),
                ),
            )
            &&& all.contains(
                of_interface(
                    "all_smi_network_transmit_bytes_total"@,
                    p,
                    l,
                    decimal(l.tx_bytes as nat),
                ),
            )
            &&& l.rx_bytes_per_sec matches Some(r) ==> all.contains(
                of_interface("all_smi_network_receive_bytes_per_second"@, p, l, r.fixed(1)),
            )
            &&& l.tx_bytes_per_sec matches Some(r) ==> all.contains(
                of_interface("all_smi_network_transmit_bytes_per_second"@, p, l, r.fixed(1)),
            )
        }),
{
    let (p, l) = (hosts[h], hosts[h].interfaces[k]);
    let a = of_interface("all_smi_network_receive_bytes_total"@, p, l, decimal(l.rx_bytes as nat));
    assert(net_sample(p, l, NetFamily::RxTotal)[0] == a);
    an_interface_is_published(hosts, NetFamily::RxTotal, h, k, a);
    let b = of_interface("all_smi_network_transmit_bytes_total"@, p, l, decimal(l.tx_bytes as nat));
    assert(net_sample(p, l, NetFamily::TxTotal)[0] == b);
    an_interface_is_published(hosts, NetFamily::TxTotal, h, k, b);
    if let Some(r) = l.rx_bytes_per_sec {
        let c = of_interface("all_smi_network_receive_bytes_per_second"@, p, l, r.fixed(1));
        assert(net_sample(p, l, NetFamily::RxRate)[0] == c);
        an_interface_is_published(hosts, NetFamily::RxRate, h, k, c);
    }
    if let Some(r) = l.tx_bytes_per_sec {
        let d = of_interface("all_smi_network_transmit_bytes_per_second"@, p, l, r.fixed(1));
        assert(net_sample(p, l, NetFamily::TxRate)[0] == d);
        an_interface_is_published(hosts, NetFamily::TxRate, h, k, d);
    }
}

proof fn locks_are_sampled(p: ProbesModel, n: nat, f: LockFamily, k: int, x: ItemModel)
    requires
        0 <= k < n <= p.locks.len(),
        lock_samples_in(p, p.locks[k], f).contains(x),
    ensures
        host_lock_samples(p, n, f).contains(x),
    decreases n,
{
    let before = host_lock_samples(p, (n - 1) as nat, f);
    if k < n - 1 {
        locks_are_sampled(p, (n - 1) as nat, f, k, x);
    }
    part_of_a_sum(before, lock_samples_in(p, p.locks[n - 1], f), x);
}

proof fn lock_hosts_are_sampled(
    hosts: Seq<ProbesModel>,
    n: nat,
    f: LockFamily,
    h: int,
    x: ItemModel,
)
    requires
        0 <= h < n <= hosts.len(),
        host_lock_samples(hosts[h], hosts[h].locks.len(), f).contains(x),
    ensures
        all_lock_samples(hosts, n, f).contains(x),
    decreases n,
{
    let before = all_lock_samples(hosts, (n - 1) as nat, f);
    if h < n - 1 {
        lock_hosts_are_sampled(hosts, (n - 1) as nat, f, h, x);
    }
    part_of_a_sum(before, host_lock_samples(hosts[n - 1], hosts[n - 1].locks.len(), f), x);
}

proof fn a_lock_is_published(
    hosts: Seq<ProbesModel>,
    f: LockFamily,
    h: int,
    k: int,
    x: ItemModel,
)
    requires
        0 <= h < hosts.len(),
        0 <= k < hosts[h].locks.len(),
        lock_samples_in(hosts[h], hosts[h].locks[k], f).contains(x),
    ensures
        lock_items(hosts).contains(x),
{
    locks_are_sampled(hosts[h], hosts[h].locks.len(), f, k, x);
    lock_hosts_are_sampled(hosts, hosts.len(), f, h, x);
    assert(crate::probes::any_locks(hosts));
    let (a, b, c) = (
        lock_family(hosts, LockFamily::Held),
        lock_family(hosts, LockFamily::Holder),
        lock_family(hosts, LockFamily::Since),
    );
    let head = seq![
        ItemModel::Help { name: f.title(), text: f.purpose() },
        ItemModel::Kind { name: f.title(), kind: "gauge"@ },
    ];
    part_of_a_sum(head, all_lock_samples(hosts, hosts.len(), f), x);
    part_of_a_sum(a, b, x);
    part_of_a_sum(a + b, c, x);
}

/// The sample of a lock under a metric of that name.
pub open spec fn of_lock(
    name: Seq<char>,
    p: ProbesModel,
    l: LockModel,
    value: Seq<char>,
) -> ItemModel {
    ItemModel::Sample {
        name,
        labels: seq![("instance"@, p.instance), ("hostname"@, p.hostname), ("path"@, l.path)],
        value,
    }
}

/// Every lock of every host is published as one or zero, as it is held or free,
/// with the time since when it is held and with each of its holders.
pub proof fn locks_are_published_with_their_holders(
    hosts: Seq<ProbesModel>,
    h: int,
    k: int,
    j: int,
)
    requires
        0 <= h < hosts.len(),
        0 <= k < hosts[h].locks.len(),
    ensures
        ({
            let (p, l) = (hosts[h], hosts[h].locks[k]);
            let all = lock_items(hosts);
            &&& l.holders.len() > 0 ==> all.contains(of_lock("all_smi_lock_held"@, p, l, "1"@))
            &&& l.holders.len() == 0 ==> all.contains(of_lock("all_smi_lock_held"@, p, l, "0"@))
            &&& l.since_unix matches Some(t) ==> all.contains(
                of_lock("all_smi_lock_held_since_seconds"@, p, l, decimal(t as nat)),
            )
            &&& 0 <= j < l.holders.len() ==> all.contains(
                ItemModel::Sample {
                    name: "all_smi_lock_holder_info"@,
                    labels: seq![
                        ("instance"@, p.instance),
                        ("hostname"@, p.hostname),
                        ("path"@, l.path),
                        ("pid"@, decimal(l.holders[j].0 as nat)),
                        ("command"@, l.holders[j].1),
                    ],
                    value: "1"@,
                },
            )
        }),
{
    let (p, l) = (hosts[h], hosts[h].locks[k]);
    let held = of_lock(
        "all_smi_lock_held"@,
        p,
        l,
        if l.holders.len() > 0 {
            "1"@
        } else {
            "0"@
        },
    );
    assert(lock_samples_in(p, l, LockFamily::Held)[0] == held);
    a_lock_is_published(hosts, LockFamily::Held, h, k, held);
    if let Some(t) = l.since_unix {
        let x = of_lock("all_smi_lock_held_since_seconds"@, p, l, decimal(t as nat));
        assert(lock_samples_in(p, l, LockFamily::Since)[0] == x);
        a_lock_is_published(hosts, LockFamily::Since, h, k, x);
    }
    if 0 <= j < l.holders.len() {
        holders_are_sampled(p, l, l.holders.len(), j);
        let x = holder_samples(p, l, l.holders.len())[j];
        assert(lock_samples_in(p, l, LockFamily::Holder)[j] == x);
        a_lock_is_published(hosts, LockFamily::Holder, h, k, x);
    }
}

proof fn holders_are_sampled(p: ProbesModel, l: LockModel, n: nat, j: int)
    requires
        0 <= j < n <= l.holders.len(),
    ensures
        holder_samples(p, l, n).len() == n,
        holder_samples(p, l, n)[j] == (ItemModel::Sample {
            name: "all_smi_lock_holder_info"@,
            labels: seq![
                ("instance"@, p.instance),
                ("hostname"@, p.hostname),
                ("path"@, l.path),
                ("pid"@, decimal(l.holders[j].0 as nat)),
                ("command"@, l.holders[j].1),
            ],
            value: "1"@,
        }),
    decreases n,
{
    assert(holder_samples(p, l, 0).len() == 0);
    if n > 1 {
        holders_are_sampled(p, l, (n - 1) as nat, if j < n - 1 {
            j
        } else {
            0
        });
    }
}

/// Whether labels name this interface.
pub open spec fn names_interface(labels: Seq<Label>, name: Seq<char>) -> bool {
    name.len() > 0 && label_of(labels, "interface"@) == Some(name)
}

proof fn network_names(field: Seq<char>)
    ensures
        begins("network_"@ + field, "network_"@),
        ("network_"@ + field).skip("network_"@.len() as int) == field,
        begins("lock_"@ + field, "lock_"@),
        ("lock_"@ + field).skip("lock_"@.len() as int) == field,
        !begins("lock_"@ + field, "network_"@),
{
    let (n, l) = ("network_"@ + field, "lock_"@ + field);
    assert(n.take("network_"@.len() as int) == "network_"@);
    assert(n.skip("network_"@.len() as int) == field);
    assert(l.take("lock_"@.len() as int) == "lock_"@);
    assert(l.skip("lock_"@.len() as int) == field);
    reveal_strlit("network_");
    reveal_strlit("lock_");
    if begins(l, "network_"@) {
        assert(l.take(8)[0] == l[0]);
        assert(l[0] == 'l' && "network_"@[0] == 'n');
    }
}

/// A sample that is read back goes into the field that its name says, of the
/// interface that its label says, and into no other.
pub proof fn samples_are_read_into_their_own_field(
    m: ParseModel,
    labels: Seq<Label>,
    name: Seq<char>,
    value: Reading,
)
    requires
        names_interface(labels, name),
        m.interfaces.contains_key(name),
        value.finite(),
        !(Reading { bits: 0 }).above(value),
    ensures
        ({
            let old = m.interfaces[name];
            let whole = value.integer_part(u64::MAX as nat) as u64;
            let rx = with_sample(m, "network_"@ + "receive_bytes_total"@, labels, value);
            let tx = with_sample(m, "network_"@ + "transmit_bytes_total"@, labels, value);
            let rx_rate = with_sample(
                m,
                "network_"@ + "receive_bytes_per_second"@,
                labels,
                value,
            );
            let tx_rate = with_sample(
                m,
                "network_"@ + "transmit_bytes_per_second"@,
                labels,
                value,
            );
            &&& rx.interfaces[name] == NetSampleModel { rx_bytes: whole, ..old }
            &&& tx.interfaces[name] == NetSampleModel { tx_bytes: whole, ..old }
            &&& rx_rate.interfaces[name] == NetSampleModel {
                rx_bytes_per_sec: Some(value),
                ..old
            }
            &&& tx_rate.interfaces[name] == NetSampleModel {
                tx_bytes_per_sec: Some(value),
                ..old
            }
            &&& rx.locks == m.locks && tx.locks == m.locks
            &&& rx.interface_count == m.interface_count
            &&& m.hostname is Some ==> rx.hostname == m.hostname
            &&& m.hostname is None ==> rx.hostname == label_of(labels, "hostname"@)
            &&& m.instance is None ==> rx.instance == label_of(labels, "instance"@)
        }),
{
    network_names("receive_bytes_total"@);
    network_names("transmit_bytes_total"@);
    network_names("receive_bytes_per_second"@);
    network_names("transmit_bytes_per_second"@);
    reveal_strlit("receive_bytes_total");
    reveal_strlit("transmit_bytes_total");
    reveal_strlit("receive_bytes_per_second");
    reveal_strlit("transmit_bytes_per_second");
    assert("receive_bytes_total"@.len() == 19);
    assert("transmit_bytes_total"@.len() == 20);
    assert("receive_bytes_per_second"@.len() == 24);
    assert("transmit_bytes_per_second"@.len() == 25);
}

/// A lock that is read back is dated by its own sample, and any sample of it that
/// can be read makes it known.
pub proof fn locks_are_read_back(
    m: ParseModel,
    labels: Seq<Label>,
    path: Seq<char>,
    value: Reading,
)
    requires
        path.len() > 0,
        label_of(labels, "path"@) == Some(path),
        m.locks.contains_key(path),
        value.finite(),
        !(Reading { bits: 0 }).above(value),
    ensures
        ({
            let old = m.locks[path];
            let since = with_sample(m, "lock_"@ + "held_since_seconds"@, labels, value);
            let held = with_sample(m, "lock_"@ + "held"@, labels, value);
            &&& since.locks[path].since_unix == Some(value.integer_part(u64::MAX as nat) as u64)
            &&& since.locks[path].holders == old.holders
            &&& held.locks[path] == old
            &&& since.interfaces == m.interfaces
        }),
{
    network_names("held_since_seconds"@);
    network_names("held"@);
    reveal_strlit("held_since_seconds");
    reveal_strlit("held");
    reveal_strlit("holder_info");
    assert("held_since_seconds"@[2] == 'l' && "holder_info"@[1] == 'o');
    assert("held"@.len() == 4);
    assert("held_since_seconds"@[1] == 'e');
}

/// What cannot be a count or a rate is not taken in.
pub proof fn unreadable_samples_change_nothing(
    m: ParseModel,
    name: Seq<char>,
    labels: Seq<Label>,
    value: Reading,
)
    requires
        !value.finite() || (Reading { bits: 0 }).above(value),
    ensures
        with_sample(m, name, labels, value) == m,
{
}

/// A sample is written as its name, its labels in braces, and its value, on a
/// line of its own; what comes later is written behind it.
pub proof fn samples_are_written_line_by_line(
    items: Seq<ItemModel>,
    name: Seq<char>,
    labels: Seq<Label>,
    value: Seq<char>,
)
    ensures
        items_text(items.push(ItemModel::Sample { name, labels, value })) == items_text(items) + (
        name + "{"@ + joined(label_texts(labels), ", "@) + "} "@ + value + "\n"@),
        forall|i: int|
            0 <= i < labels.len() ==> #[trigger] label_texts(labels)[i] == labels[i].0 + "=\""@
                + labels[i].1 + "\""@,
        items_text(Seq::empty()) == Seq::<char>::empty(),
{
    assert(items.push(ItemModel::Sample { name, labels, value }).drop_last() == items);
}

/// A new interface and a new lock are kept as long as fewer than 64 are; those
/// that are known go on being read.
pub proof fn only_so_many_are_kept(m: ParseModel, field: Seq<char>, labels: Seq<Label>, v: Reading)
    ensures
        filled_label(labels, "interface"@) matches Some(name) ==> !m.interfaces.contains_key(name)
            ==> {
            let r = with_network(m, field, labels, v);
            &&& m.interface_count >= 64 ==> r == m
            &&& m.interface_count < 64 ==> r.interfaces.contains_key(name) && r.interface_count
                == m.interface_count + 1
        },
        filled_label(labels, "path"@) matches Some(path) ==> !m.locks.contains_key(path) ==> {
            let r = with_lock(m, field, labels, v);
            &&& m.lock_count >= 64 ==> r == m
            &&& m.lock_count < 64 ==> r.locks.contains_key(path) && r.lock_count == m.lock_count
                + 1
        },
{
}

} // verus!
