//! What the clocks and active shares say of the residencies behind them.
use vstd::arithmetic::div_mod::*;
use vstd::arithmetic::mul::*;
use vstd::prelude::*;
use vstd::string::*;

use crate::device::macos_native::ioreport::{
    active_count, active_percent, active_residency, average_or_zero, clocks_of, cluster_average,
    cluster_data, cluster_of, cluster_table, cpu_channel_clock, gpu_channel_clock, gpu_clocks,
    gpu_data, idle, leading_digits, little32, named_clock, named_state_clock, scaled_ticks,
    signed_number, slowest_table, states_of, sum_of_clocks, sum_of_shares, table_clock, top_clock,
    total_residency, unwrapped, weighted_clocks, weighted_names, without_die, ChannelItem,
    ClockTable, CpuCluster,
};
use crate::reading::{
    nothing_is_zero, quotients_cut_to_integers, small_naturals_add_up, small_naturals_multiply,
    Reading, SIGN, STEP,
};
use crate::table::find_entry;
use crate::text::{all_digits, begins, is_digit, number, occurs};
use crate::total::{total, total_of_one_more, totals_are_not_negative};

verus! {

/// The clocks of a cluster's channels.
pub open spec fn clocks_in(data: Seq<(u32, Reading)>) -> Seq<int> {
    data.map_values(|c: (u32, Reading)| c.0 as int)
}

proof fn clocks_sum_up(data: Seq<(u32, Reading)>, n: nat)
    requires
        n <= data.len(),
        total(clocks_in(data)) < 2 * STEP,
    ensures
        n > 0 ==> sum_of_clocks(data, n) == Reading::of_natural(
            total(clocks_in(data.take(n as int))) as nat,
        ),
        n == 0 ==> sum_of_clocks(data, n) == (Reading { bits: SIGN }),
        0 <= total(clocks_in(data.take(n as int))) <= total(clocks_in(data)),
    decreases n,
{
    parts_do_not_exceed(clocks_in(data), n);
    assert(clocks_in(data.take(n as int)) == clocks_in(data).take(n as int));
    if n > 0 {
        let m = (n - 1) as nat;
        clocks_sum_up(data, m);
        let head = clocks_in(data.take(m as int));
        let x = data[m as int].0;
        total_of_one_more(head, x as int);
        assert(clocks_in(data.take(n as int)) == head.push(x as int));
        if m == 0 {
            assert(head == Seq::<int>::empty());
        }
        small_naturals_add_up(total(head) as nat, x as nat);
    }
}

proof fn parts_do_not_exceed(v: Seq<int>, n: nat)
    requires
        n <= v.len(),
        forall|i: int| 0 <= i < v.len() ==> #[trigger] v[i] >= 0,
    ensures
        0 <= total(v.take(n as int)) <= total(v),
    decreases v.len() - n,
{
    let head = v.take(n as int);
    totals_are_not_negative(head);
    if n == v.len() {
        assert(head == v);
    } else {
        parts_do_not_exceed(v, n + 1);
        total_of_one_more(head, v[n as int]);
        assert(v.take((n + 1) as int) == head.push(v[n as int]));
    }
}

/// The clock of a cluster is the mean of its channels' clocks, cut to a whole
/// number of MHz: every channel counts alike, in whatever order they stand.
pub proof fn a_cluster_runs_at_the_mean_of_its_channels(data: Seq<(u32, Reading)>)
    requires
        data.len() > 0,
        total(clocks_in(data)) + data.len() <= STEP,
    ensures
        cluster_average(data) matches Some((clock, share)) && clock == total(clocks_in(data))
            / data.len() as int,
        average_or_zero(data).0 == total(clocks_in(data)) / data.len() as int,
        ({
            let clock = average_or_zero(data).0 as int;
            let n = data.len() as int;
            clock * n <= total(clocks_in(data)) < clock * n + n
        }),
{
    let n = data.len();
    clocks_sum_up(data, n);
    assert(data.take(n as int) == data);
    let sum = total(clocks_in(data)) as nat;
    means_stay_below(clocks_in(data), u32::MAX as int);
    lemma_fundamental_div_mod(sum as int, n as int);
    let q = sum as int / n as int;
    assert(q <= u32::MAX) by {
        lemma_div_is_ordered(sum as int, u32::MAX as int * n as int, n as int);
        lemma_div_multiples_vanish(u32::MAX as int, n as int);
    }
    assert(q * n as int == n as int * q) by (nonlinear_arith);
    quotients_cut_to_integers(sum, n, u32::MAX as nat);
}

proof fn means_stay_below(v: Seq<int>, max: int)
    requires
        forall|i: int| 0 <= i < v.len() ==> #[trigger] v[i] <= max,
    ensures
        total(v) <= max * v.len(),
    decreases v.len(),
{
    if v.len() > 0 {
        let head = v.drop_last();
        assert forall|i: int| 0 <= i < head.len() implies #[trigger] head[i] <= max by {
            assert(head[i] == v[i]);
        }
        means_stay_below(head, max);
        assert(v.last() == v[v.len() - 1]);
        assert(max * v.len() == max * head.len() + max) by (nonlinear_arith)
            requires
                v.len() == head.len() + 1,
        ;
    }
}

proof fn shares_sum_up(data: Seq<(u32, Reading)>, percents: Seq<nat>, n: nat)
    requires
        n <= data.len() == percents.len(),
        forall|i: int|
            0 <= i < data.len() ==> (#[trigger] data[i]).1 == Reading::of_natural(percents[i]),
        total(percents.map_values(|p: nat| p as int)) < 2 * STEP,
    ensures
        n > 0 ==> sum_of_shares(data, n) == Reading::of_natural(
            total(percents.take(n as int).map_values(|p: nat| p as int)) as nat,
        ),
        n == 0 ==> sum_of_shares(data, n) == (Reading { bits: SIGN }),
    decreases n,
{
    let all = percents.map_values(|p: nat| p as int);
    parts_do_not_exceed(all, n);
    assert(percents.take(n as int).map_values(|p: nat| p as int) == all.take(n as int));
    if n > 0 {
        let m = (n - 1) as nat;
        shares_sum_up(data, percents, m);
        parts_do_not_exceed(all, m);
        let head = all.take(m as int);
        assert(percents.take(m as int).map_values(|p: nat| p as int) == head);
        total_of_one_more(head, all[m as int]);
        assert(all.take(n as int) == head.push(all[m as int]));
        if m == 0 {
            assert(head == Seq::<int>::empty());
        }
        small_naturals_add_up(total(head) as nat, percents[m as int]);
    }
}

/// The active share of a cluster is the mean of its channels' shares: for whole
/// percentages their sum over their number. A cluster without channels has none.
pub proof fn a_cluster_is_active_for_the_mean_share(
    data: Seq<(u32, Reading)>,
    percents: Seq<nat>,
)
    requires
        data.len() == percents.len(),
        forall|i: int|
            0 <= i < data.len() ==> (#[trigger] data[i]).1 == Reading::of_natural(percents[i]),
        total(percents.map_values(|p: nat| p as int)) < 2 * STEP,
    ensures
        data.len() > 0 ==> average_or_zero(data).1 == Reading::of_natural(
            total(percents.map_values(|p: nat| p as int)) as nat,
        ).quotient(Reading::of_natural(data.len())),
        data.len() == 0 ==> cluster_average(data) is None && average_or_zero(data) == (
            0u32,
            Reading { bits: 0 },
        ),
{
    shares_sum_up(data, percents, data.len());
    assert(percents.take(data.len() as int) == percents);
}

/// The residencies of all states.
pub open spec fn residencies(states: Seq<(Seq<char>, int)>) -> Seq<int> {
    states.map_values(|s: (Seq<char>, int)| s.1)
}

/// The residencies of the active states, nothing for idle ones.
pub open spec fn active_parts(states: Seq<(Seq<char>, int)>) -> Seq<int> {
    states.map_values(
        |s: (Seq<char>, int)|
            if idle(s.0) {
                0
            } else {
                s.1
            },
    )
}

/// One for every active state.
pub open spec fn active_ones(states: Seq<(Seq<char>, int)>) -> Seq<int> {
    states.map_values(
        |s: (Seq<char>, int)|
            if idle(s.0) {
                0
            } else {
                1int
            },
    )
}

/// The clock of every state times its residency: the `k`-th active state runs at
/// entry `k` of the table.
pub open spec fn weighted_parts(states: Seq<(Seq<char>, int)>, table: Seq<u32>) -> Seq<int> {
    Seq::new(
        states.len(),
        |i: int|
            {
                let k = total(active_ones(states.take(i)));
                if idle(states[i].0) || k >= table.len() {
                    0
                } else {
                    table[k] * states[i].1
                }
            },
    )
}

/// The named clock of every active state times its residency.
pub open spec fn named_parts(states: Seq<(Seq<char>, int)>) -> Seq<int> {
    states.map_values(
        |s: (Seq<char>, int)|
            if idle(s.0) || named_clock(s.0) is None {
                0
            } else {
                named_clock(s.0)->0 * s.1
            },
    )
}

/// The sums over the first `n` states are the sums of their parts.
pub proof fn residencies_add_up(states: Seq<(Seq<char>, int)>, n: nat)
    requires
        n <= states.len(),
    ensures
        total_residency(states, n) == total(residencies(states.take(n as int))),
        active_residency(states, n) == total(active_parts(states.take(n as int))),
        active_count(states, n) == total(active_ones(states.take(n as int))),
        weighted_names(states, n) == total(named_parts(states.take(n as int))),
    decreases n,
{
    let part = states.take(n as int);
    if n == 0 {
        assert(residencies(part) == Seq::<int>::empty());
        assert(active_parts(part) == Seq::<int>::empty());
        assert(active_ones(part) == Seq::<int>::empty());
        assert(named_parts(part) == Seq::<int>::empty());
    } else {
        let m = (n - 1) as nat;
        residencies_add_up(states, m);
        let head = states.take(m as int);
        assert(part == head.push(states[m as int]));
        assert(residencies(part).drop_last() == residencies(head));
        assert(active_parts(part).drop_last() == active_parts(head));
        assert(active_ones(part).drop_last() == active_ones(head));
        assert(named_parts(part).drop_last() == named_parts(head));
    }
}

proof fn clocks_are_weighted(states: Seq<(Seq<char>, int)>, table: Seq<u32>, n: nat)
    requires
        n <= states.len(),
        forall|i: int|
            0 <= i < states.len() ==> 0 <= (#[trigger] states[i]).1 < 2 * STEP,
        total(weighted_parts(states, table)) < 2 * STEP,
    ensures
        weighted_clocks(states, table, n) == Reading::of_natural(
            total(weighted_parts(states, table).take(n as int)) as nat,
        ),
        0 <= total(weighted_parts(states, table).take(n as int)) <= total(
            weighted_parts(states, table),
        ),
    decreases n,
{
    let all = weighted_parts(states, table);
    assert forall|i: int| 0 <= i < all.len() implies #[trigger] all[i] >= 0 by {
        let k = total(active_ones(states.take(i)));
        residencies_add_up(states, i as nat);
        if !(idle(states[i].0) || k >= table.len()) {
            assert(table[k] * states[i].1 >= 0) by (nonlinear_arith)
                requires
                    table[k] >= 0,
                    states[i].1 >= 0,
            ;
        }
    }
    parts_do_not_exceed(all, n);
    if n == 0 {
        nothing_is_zero();
        assert(all.take(0) == Seq::<int>::empty());
    } else {
        let m = (n - 1) as nat;
        clocks_are_weighted(states, table, m);
        residencies_add_up(states, m);
        parts_do_not_exceed(all, m);
        let head = all.take(m as int);
        total_of_one_more(head, all[m as int]);
        assert(all.take(n as int) == head.push(all[m as int]));
        let k = active_count(states, m);
        let r = states[m as int].1;
        if !idle(states[m as int].0) && k < table.len() {
            let f = table[k as int];
            assert(all[m as int] == f * r);
            assert(f as nat * r as nat == f * r);
            small_naturals_multiply(f as nat, r as nat);
            small_naturals_add_up(total(head) as nat, (f * r) as nat);
        }
    }
}

/// A block runs at the mean clock of its active states, weighted by how long it
/// was in each, and is active for that part of the time: the `k`-th active state
/// runs at entry `k` of the table. Where it was idle throughout it is parked at
/// the first entry.
pub proof fn a_block_runs_at_the_mean_of_its_states(
    states: Seq<(Seq<char>, int)>,
    table: Seq<u32>,
)
    requires
        forall|i: int|
            0 <= i < states.len() ==> 0 <= (#[trigger] states[i]).1 < 2 * STEP,
        total(weighted_parts(states, table)) + total(active_parts(states)) <= STEP,
    ensures
        ({
            let active = total(active_parts(states));
            let (clock, share) = table_clock(states, table);
            &&& total(residencies(states)) == 0 ==> clock == 0 && share == (Reading { bits: 0 })
            &&& total(residencies(states)) > 0 ==> {
                &&& share == Reading::of_natural(active as nat).quotient(
                    Reading::of_natural(total(residencies(states)) as nat),
                ).product(Reading::of_natural(100))
                &&& active > 0 && total(weighted_parts(states, table)) / active <= u32::MAX
                    ==> clock == total(weighted_parts(states, table)) / active
                &&& active == 0 && table.len() > 0 ==> clock == table[0]
            }
        }),
{
    let n = states.len();
    residencies_add_up(states, n);
    assert(states.take(n as int) == states);
    assert forall|i: int| 0 <= i < residencies(states).len() implies #[trigger] residencies(
        states,
    )[i] >= 0 by {
        assert(states[i].1 >= 0);
    }
    assert forall|i: int| 0 <= i < active_parts(states).len() implies #[trigger] active_parts(
        states,
    )[i] >= 0 by {
        assert(states[i].1 >= 0);
    }
    totals_are_not_negative(residencies(states));
    totals_are_not_negative(active_parts(states));
    let all = weighted_parts(states, table);
    assert(all.take(n as int) == all);
    let active = total(active_parts(states));
    clocks_are_weighted(states, table, n);
    if active > 0 && total(all) / active <= u32::MAX {
        quotients_cut_to_integers(total(all) as nat, active as nat, u32::MAX as nat);
    }
}

/// The same by the names of the states, where there is no table: a named clock
/// is weighted by the time at that state.
pub proof fn a_block_runs_at_the_mean_of_its_named_states(states: Seq<(Seq<char>, int)>)
    ensures
        ({
            let active = total(active_parts(states));
            let all = total(residencies(states));
            let (clock, share) = named_state_clock(states);
            &&& all == 0 ==> clock == 0 && share == (Reading { bits: 0 })
            &&& all != 0 ==> share == active_percent(active, all)
            &&& all != 0 && active > 0 && 0 <= total(named_parts(states)) && total(
                named_parts(states),
            ) / active <= u32::MAX ==> clock == total(named_parts(states)) / active
            &&& all != 0 && active <= 0 ==> forall|i: int|
                0 <= i < states.len() && !idle((#[trigger] states[i]).0) && named_clock(
                    states[i].0,
                ) is Some && 0 <= named_clock(states[i].0)->0 <= u32::MAX && (forall|j: int|
                    0 <= j < states.len() && !idle((#[trigger] states[j]).0) && named_clock(
                        states[j].0,
                    ) is Some ==> named_clock(states[j].0)->0 >= named_clock(states[i].0)->0)
                    ==> clock == named_clock(states[i].0)->0
        }),
{
    let n = states.len();
    residencies_add_up(states, n);
    assert(states.take(n as int) == states);
    let active = total(active_parts(states));
    let w = total(named_parts(states));
    if active > 0 && w >= 0 {
        lemma_div_pos_is_pos(w, active);
        if w / active <= u32::MAX {
            lemma_small_mod((w / active) as nat, 0x1_0000_0000);
        }
    }
    assert forall|i: int|
        0 <= i < states.len() && !idle((#[trigger] states[i]).0) && named_clock(
            states[i].0,
        ) is Some && 0 <= named_clock(states[i].0)->0 <= u32::MAX && (forall|j: int|
            0 <= j < states.len() && !idle((#[trigger] states[j]).0) && named_clock(
                states[j].0,
            ) is Some ==> named_clock(states[j].0)->0 >= named_clock(
                states[i].0,
            )->0) implies crate::device::macos_native::ioreport::lowest_name(states, n) == Some(
        named_clock(states[i].0)->0,
    ) by {
        the_lowest_is_found(states, n, i);
    }
}

proof fn the_lowest_is_found(states: Seq<(Seq<char>, int)>, n: nat, i: int)
    requires
        0 <= i < states.len(),
        n <= states.len(),
        !idle(states[i].0),
        named_clock(states[i].0) is Some,
        forall|j: int|
            0 <= j < states.len() && !idle((#[trigger] states[j]).0) && named_clock(
                states[j].0,
            ) is Some ==> named_clock(states[j].0)->0 >= named_clock(states[i].0)->0,
    ensures
        ({
            let low = crate::device::macos_native::ioreport::lowest_name(states, n);
            &&& i < n ==> low == Some(named_clock(states[i].0)->0)
            &&& low matches Some(f) ==> f >= named_clock(states[i].0)->0
        }),
    decreases n,
{
    if n > 0 {
        the_lowest_is_found(states, (n - 1) as nat, i);
        if !idle(states[n - 1].0) && named_clock(states[n - 1].0) is Some {
            assert(named_clock(states[n - 1].0)->0 >= named_clock(states[i].0)->0);
        }
    }
}

/// Time in an idle state changes no clock, only the share.
pub proof fn idle_time_changes_no_clock(
    states: Seq<(Seq<char>, int)>,
    table: Seq<u32>,
    name: Seq<char>,
    time: int,
)
    requires
        idle(name),
        active_residency(states, states.len()) > 0,
        total_residency(states, states.len()) > 0,
        time >= 0,
    ensures
        table_clock(states.push((name, time)), table).0 == table_clock(states, table).0,
        named_state_clock(states.push((name, time))).0 == named_state_clock(states).0,
{
    let more = states.push((name, time));
    prefixes_agree(states, more, table, states.len());
    assert(more[states.len() as int] == (name, time));
}

proof fn prefixes_agree(
    a: Seq<(Seq<char>, int)>,
    b: Seq<(Seq<char>, int)>,
    table: Seq<u32>,
    n: nat,
)
    requires
        n <= a.len() <= b.len(),
        forall|i: int| 0 <= i < a.len() ==> #[trigger] a[i] == b[i],
    ensures
        total_residency(a, n) == total_residency(b, n),
        active_residency(a, n) == active_residency(b, n),
        active_count(a, n) == active_count(b, n),
        weighted_clocks(a, table, n) == weighted_clocks(b, table, n),
        weighted_names(a, n) == weighted_names(b, n),
    decreases n,
{
    if n > 0 {
        prefixes_agree(a, b, table, (n - 1) as nat);
        assert(a[n - 1] == b[n - 1]);
    }
}

/// Every CPU channel with residencies counts once, in the cluster that its name
/// says, and in no other; a GPU channel counts for the GPU alone.
pub proof fn channels_count_where_they_belong(
    items: Seq<ChannelItem>,
    one: ChannelItem,
    cluster: CpuCluster,
    tables: Seq<ClockTable>,
)
    ensures
        ({
            let n = items.len();
            let more = items.push(one);
            let states = states_of(one.residencies@);
            let (before, after) = (
                cluster_data(items, n, cluster, tables),
                cluster_data(more, n + 1, cluster, tables),
            );
            let (gpu_before, gpu_after) = (
                gpu_data(items, n, tables),
                gpu_data(more, n + 1, tables),
            );
            let cpu = one.group@ == "CPU Stats"@ && one.subgroup@
                == "CPU Core Performance States"@;
            let gpu = one.group@ == "GPU Stats"@ && one.subgroup@ == "GPU Performance States"@
                && one.channel@ == "GPUPH"@;
            &&& after == if cpu && states.len() > 0 && cluster_of(one.channel@) == Some(cluster) {
                before.push(cpu_channel_clock(states, cluster, tables))
            } else {
                before
            }
            &&& gpu_after == if gpu && !cpu && states.len() > 0 {
                gpu_before.push(gpu_channel_clock(states, gpu_clocks(tables)))
            } else {
                gpu_before
            }
        }),
{
    let n = items.len();
    let more = items.push(one);
    items_agree(items, more, n, cluster, tables);
    assert(more[n as int] == one);
}

proof fn items_agree(
    a: Seq<ChannelItem>,
    b: Seq<ChannelItem>,
    n: nat,
    cluster: CpuCluster,
    tables: Seq<ClockTable>,
)
    requires
        n <= a.len() <= b.len(),
        forall|i: int| 0 <= i < a.len() ==> #[trigger] a[i] == b[i],
    ensures
        cluster_data(a, n, cluster, tables) == cluster_data(b, n, cluster, tables),
        gpu_data(a, n, tables) == gpu_data(b, n, tables),
    decreases n,
{
    if n > 0 {
        items_agree(a, b, (n - 1) as nat, cluster, tables);
        assert(a[n - 1] == b[n - 1]);
    }
}

proof fn tops_are_found(clocks: Seq<u32>, n: nat)
    requires
        0 < n <= clocks.len(),
    ensures
        forall|i: int| 0 <= i < n ==> #[trigger] clocks[i] <= top_clock(clocks, n),
        exists|i: int| 0 <= i < n && #[trigger] clocks[i] == top_clock(clocks, n),
    decreases n,
{
    if n > 1 {
        tops_are_found(clocks, (n - 1) as nat);
        let before = top_clock(clocks, (n - 1) as nat);
        let i = choose|i: int| 0 <= i < n - 1 && #[trigger] clocks[i] == before;
        if clocks[n - 1] > before {
            assert(clocks[n - 1] == top_clock(clocks, n));
        } else {
            assert(clocks[i] == top_clock(clocks, n));
        }
    } else {
        assert(clocks[0] == top_clock(clocks, n));
    }
}

proof fn the_slowest_is_found(tables: Seq<ClockTable>, n: nat)
    requires
        0 < n <= tables.len(),
    ensures
        ({
            let at = slowest_table(tables, n);
            let best = tables[at as int].1@;
            &&& at < n
            &&& forall|i: int|
                0 <= i < n ==> top_clock(best, best.len()) <= top_clock(
                    (#[trigger] tables[i]).1@,
                    tables[i].1@.len(),
                )
        }),
    decreases n,
{
    if n > 1 {
        the_slowest_is_found(tables, (n - 1) as nat);
    }
}

/// The clocks of the GPU are those under its documented name, the `-sram` ones
/// first; else those of a table that tops out no higher than any other.
pub proof fn the_gpu_has_the_slowest_table(tables: Seq<ClockTable>, i: int, c: int)
    requires
        0 <= i < tables.len(),
        0 <= c < gpu_clocks(tables).len(),
        forall|k: int| 0 <= k < tables.len() ==> (#[trigger] tables[k]).1@.len() > 0,
    ensures
        find_entry(tables, "voltage-states9-sram"@) matches Some(t) ==> gpu_clocks(tables) == t@,
        find_entry(tables, "voltage-states9-sram"@) is None ==> (find_entry(
            tables,
            "voltage-states9"@,
        ) matches Some(t) ==> gpu_clocks(tables) == t@),
        find_entry(tables, "voltage-states9-sram"@) is None && find_entry(
            tables,
            "voltage-states9"@,
        ) is None ==> exists|k: int|
            0 <= k < tables[i].1@.len() && gpu_clocks(tables)[c] <= #[trigger] tables[i].1@[k],
{
    the_slowest_is_found(tables, tables.len());
    let best = tables[slowest_table(tables, tables.len()) as int].1@;
    assert(tables[i].1@.len() > 0);
    tops_are_found(best, best.len());
    tops_are_found(tables[i].1@, tables[i].1@.len());
    let k = choose|k: int|
        0 <= k < tables[i].1@.len() && #[trigger] tables[i].1@[k] == top_clock(
            tables[i].1@,
            tables[i].1@.len(),
        );
    assert(tables[i].1@[k] >= top_clock(best, best.len()));
}

/// A cluster's own table is taken where it has one entry for every active state,
/// the `-sram` one first; and a cluster's own table is taken as a last resort.
pub proof fn clusters_prefer_their_own_table(tables: Seq<ClockTable>, count: nat)
    ensures
        find_entry(tables, "voltage-states1-sram"@) matches Some(t) ==> t@.len() == count
            ==> cluster_table(tables, CpuCluster::Efficiency, count) == Some(t),
        find_entry(tables, "voltage-states5-sram"@) matches Some(t) ==> t@.len() == count
            ==> cluster_table(tables, CpuCluster::Performance, count) == Some(t),
        find_entry(tables, "voltage-states1-sram"@) is None ==> (find_entry(
            tables,
            "voltage-states1"@,
        ) matches Some(t) ==> t@.len() == count ==> cluster_table(
            tables,
            CpuCluster::Efficiency,
            count,
        ) == Some(t)),
        find_entry(tables, "voltage-states5-sram"@) is None ==> (find_entry(
            tables,
            "voltage-states5"@,
        ) matches Some(t) ==> t@.len() == count ==> cluster_table(
            tables,
            CpuCluster::Performance,
            count,
        ) == Some(t)),
        count == 0 ==> cluster_table(tables, CpuCluster::Super, count) is None,
        count > 0 ==> (cluster_table(tables, CpuCluster::Super, count) matches Some(t) ==> t@.len()
            == count),
{
    sizes_agree(tables, count, true);
    sizes_agree(tables, count, false);
}

proof fn sizes_agree(tables: Seq<ClockTable>, count: nat, sram: bool)
    ensures
        crate::device::macos_native::ioreport::table_of_size(tables, count, sram) matches Some(t)
            ==> t@.len() == count,
    decreases tables.len(),
{
    if tables.len() > 0 {
        sizes_agree(tables.drop_first(), count, sram);
    }
}

/// Ticks are scaled by the timebase, cut to whole nanoseconds.
pub proof fn ticks_are_scaled(ticks: u64, numer: u32, denom: u32)
    requires
        denom > 0,
    ensures
        ({
            let ns = scaled_ticks(ticks as nat, numer as nat, denom as nat);
            if ns < u64::MAX {
                ns * denom <= ticks * numer < ns * denom + denom
            } else {
                u64::MAX * denom <= ticks * numer
            }
        }),
        scaled_ticks(ticks as nat, denom as nat, denom as nat) == ticks,
{
    let t = (ticks * numer) as int;
    assert(t >= 0) by (nonlinear_arith)
        requires
            t == ticks * numer,
    ;
    let d = denom as int;
    lemma_fundamental_div_mod(t, d);
    let q = t / d;
    assert(q * d == d * q) by (nonlinear_arith);
    if q > u64::MAX {
        assert(u64::MAX * d <= q * d) by (nonlinear_arith)
            requires
                q >= u64::MAX,
                d > 0,
        ;
    }
    lemma_div_multiples_vanish(ticks as int, d);
    assert(ticks * denom == denom * ticks) by (nonlinear_arith);
}

/// A table of ascending clocks that fit their field is read entry by entry, each
/// in MHz.
pub proof fn ascending_tables_are_read_entry_by_entry(bytes: Seq<u8>, n: nat)
    requires
        forall|i: int|
            0 <= i < n ==> 100_000_000 <= #[trigger] little32(bytes, i * 8) <= 6_000_000_000,
        forall|i: int, j: int|
            0 <= i < j < n ==> #[trigger] little32(bytes, i * 8) <= #[trigger] little32(
                bytes,
                j * 8,
            ),
    ensures
        clocks_of(bytes, n).0.len() == n,
        forall|i: int|
            0 <= i < n ==> #[trigger] clocks_of(bytes, n).0[i] == little32(bytes, i * 8)
                / 1_000_000,
        n > 0 ==> clocks_of(bytes, n).1 == little32(bytes, (n - 1) * 8),
    decreases n,
{
    if n > 0 {
        ascending_tables_are_read_entry_by_entry(bytes, (n - 1) as nat);
        let last = little32(bytes, (n - 1) * 8);
        assert(100_000_000 <= last <= 6_000_000_000);
        if n > 1 {
            assert(little32(bytes, (n - 2) * 8) <= little32(bytes, (n - 1) * 8));
        }
        assert forall|i: int| 0 <= i < n implies #[trigger] clocks_of(bytes, n).0[i] == little32(
            bytes,
            i * 8,
        ) / 1_000_000 by {
            let before = clocks_of(bytes, (n - 1) as nat).0;
            if i < n - 1 {
                assert(clocks_of(bytes, n).0[i] == before[i]);
            }
        }
    }
}

/// Clocks above what their field holds come out small behind one of 4 GHz or more,
/// and are put back.
pub proof fn wrapped_clocks_are_put_back(hz: nat, previous: nat)
    requires
        4_000_000_000 <= previous <= hz,
        previous < 0x1_0000_0000 <= hz,
        hz - 0x1_0000_0000 < previous,
    ensures
        unwrapped((hz - 0x1_0000_0000) as nat, previous) == hz,
{
}

/// A clock that does not fall stays as it is, and so does any behind a lower one
/// than 4 GHz.
pub proof fn other_clocks_stay(hz: nat, previous: nat)
    requires
        previous < 4_000_000_000 || hz >= previous,
    ensures
        unwrapped(hz, previous) == hz,
{
}

/// A channel of one die is named like the same channel of another.
pub proof fn dies_do_not_count(n: Seq<char>, name: Seq<char>)
    requires
        n.len() > 0,
        all_digits(n),
    ensures
        without_die("DIE_"@ + n + seq!['_'] + name) == name,
        cluster_of("DIE_"@ + n + seq!['_'] + name) == cluster_of("DIE_"@ + seq!['0'] + seq!['_']
            + name),
{
    digits_lead(n, name);
    let one = seq!['0'];
    assert(all_digits(one));
    digits_lead(one, name);
}

proof fn digits_lead(n: Seq<char>, name: Seq<char>)
    requires
        n.len() > 0,
        all_digits(n),
    ensures
        without_die("DIE_"@ + n + seq!['_'] + name) == name,
{
    reveal_strlit("DIE_");
    let whole = "DIE_"@ + n + seq!['_'] + name;
    let rest = n + seq!['_'] + name;
    assert(whole.take(4) == "DIE_"@);
    assert(whole.skip(4) == rest);
    digits_are_counted(n, seq!['_'] + name);
    assert(rest == n + (seq!['_'] + name));
    assert(rest[n.len() as int] == '_');
    assert(rest.skip(n.len() as int + 1) == name);
}

proof fn digits_are_counted(n: Seq<char>, rest: Seq<char>)
    requires
        all_digits(n),
        rest.len() > 0,
        !is_digit(rest[0]),
    ensures
        leading_digits(n + rest) == n.len(),
    decreases n.len(),
{
    let s = n + rest;
    if n.len() > 0 {
        assert(s[0] == n[0]);
        assert(s.drop_first() == n.drop_first() + rest);
        assert(all_digits(n.drop_first())) by {
            assert forall|i: int| 0 <= i < n.drop_first().len() implies is_digit(
                #[trigger] n.drop_first()[i],
            ) by {
                assert(n.drop_first()[i] == n[i + 1]);
            }
        }
        digits_are_counted(n.drop_first(), rest);
    } else {
        assert(s[0] == rest[0]);
    }
}

/// Numbers are read with their sign, as far as they fit 64 bits.
pub proof fn numbers_have_a_sign(d: Seq<char>)
    requires
        d.len() > 0,
        all_digits(d),
    ensures
        number(d) <= i64::MAX ==> signed_number(d) == Some(number(d) as int),
        number(d) <= 0x8000_0000_0000_0000 ==> signed_number(seq!['-'] + d) == Some(
            -(number(d) as int),
        ),
        number(d) > 0x8000_0000_0000_0000 ==> signed_number(seq!['-'] + d) is None,
        number(d) > i64::MAX ==> signed_number(d) is None,
{
    assert((seq!['-'] + d).drop_first() == d);
    assert(is_digit(d[0]));
}

/// Channels belong to a cluster by their name: `ECPU` or an `E` in front are
/// efficiency cores, `PCPU` or a `P` in front performance cores.
pub proof fn channels_belong_by_their_name(rest: Seq<char>, other: Seq<char>)
    requires
        other.len() > 0,
        other[0] != 'M' && other[0] != 'E' && other[0] != 'P' && other[0] != 'D',
    ensures
        cluster_of(seq!['E'] + rest) == Some(CpuCluster::Efficiency),
        !occurs(seq!['P'] + rest, "ECPU"@) ==> cluster_of(seq!['P'] + rest) == Some(
            CpuCluster::Performance,
        ),
        cluster_of("MCPU0"@ + rest) == Some(CpuCluster::Super),
        cluster_of("MCPU1"@ + rest) == Some(CpuCluster::Performance),
        occurs(other, "ECPU"@) ==> cluster_of(other) == Some(CpuCluster::Efficiency),
        !occurs(other, "ECPU"@) && occurs(other, "PCPU"@) ==> cluster_of(other) == Some(
            CpuCluster::Performance,
        ),
        !occurs(other, "ECPU"@) && !occurs(other, "PCPU"@) ==> cluster_of(other) is None,
{
    reveal_strlit("DIE_");
    reveal_strlit("MCPU0");
    reveal_strlit("MCPU1");
    reveal_strlit("E");
    reveal_strlit("P");
    let (e, p) = (seq!['E'] + rest, seq!['P'] + rest);
    assert(e[0] == 'E' && p[0] == 'P');
    assert(e.take(1) == "E"@);
    assert(p.take(1) == "P"@);
    let (m, n) = ("MCPU0"@ + rest, "MCPU1"@ + rest);
    assert(m.take(5) == "MCPU0"@);
    assert(n.take(5) == "MCPU1"@);
    assert(m[0] == 'M' && n[0] == 'M' && n[4] == '1');
    assert("DIE_"@[0] == 'D' && "MCPU0"@[0] == 'M' && "MCPU0"@[4] == '0');
    assert("MCPU1"@[0] == 'M' && "E"@[0] == 'E' && "P"@[0] == 'P');
    first_characters(e, "DIE_"@);
    first_characters(p, "DIE_"@);
    first_characters(m, "DIE_"@);
    first_characters(n, "DIE_"@);
    first_characters(other, "DIE_"@);
    first_characters(e, "MCPU0"@);
    first_characters(p, "MCPU0"@);
    first_characters(other, "MCPU0"@);
    first_characters(e, "MCPU1"@);
    first_characters(p, "MCPU1"@);
    first_characters(other, "MCPU1"@);
    first_characters(p, "E"@);
    first_characters(other, "E"@);
    first_characters(other, "P"@);
    assert(!begins(n, "MCPU0"@)) by {
        if begins(n, "MCPU0"@) {
            assert(n.take(5)[4] == '0');
        }
    }
}

proof fn first_characters(s: Seq<char>, front: Seq<char>)
    requires
        s.len() > 0,
        front.len() > 0,
        s[0] != front[0],
    ensures
        !begins(s, front),
{
    if begins(s, front) {
        assert(s.take(front.len() as int)[0] == s[0]);
    }
}

} // verus!
