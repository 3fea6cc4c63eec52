//! What a collection of the local host keeps.
use vstd::prelude::*;
use vstd::string::*;

use crate::device::types::{ChassisInfo, GpuInfo, ProcessInfo};
use crate::order::sorted;
use crate::reading::{nothing_is_zero, small_naturals_add_up, Reading, STEP};
use crate::text::occurs;
use crate::total::{total, total_of_one_more, totals_are_not_negative};
use crate::view::data_collection::local_collector::{
    busier, busiest, next_cycle, power_sum, powered, refreshed_devices,
    the_busiest_processes_are_kept, tpu_notice, warned_once, with_device, with_devices, NoticeModel,
};
use crate::view::data_collection::pipeline_poller::{described, succeeded, Failure};

verus! {

/// Whether devices draw whole watts, none standing for nothing.
pub open spec fn draws(gpus: Seq<GpuInfo>, watts: Seq<nat>) -> bool {
    &&& gpus.len() == watts.len()
    &&& forall|i: int|
        0 <= i < gpus.len() ==> match (#[trigger] gpus[i]).power_consumption {
            Some(w) => w == Reading::of_natural(watts[i]),
            None => watts[i] == 0,
        }
}

/// A list of naturals as integers.
pub open spec fn ints(v: Seq<nat>) -> Seq<int> {
    v.map_values(|n: nat| n as int)
}

proof fn part_of_a_total(v: Seq<nat>, n: nat)
    requires
        n < v.len(),
    ensures
        total(ints(v.take(n as int))) >= 0,
        total(ints(v.take((n + 1) as int))) == total(ints(v.take(n as int))) + v[n as int],
        total(ints(v.take((n + 1) as int))) <= total(ints(v)),
    decreases v.len() - n,
{
    let head = ints(v.take(n as int));
    total_of_one_more(head, v[n as int] as int);
    assert(ints(v.take((n + 1) as int)) == head.push(v[n as int] as int));
    totals_are_not_negative(head);
    if n + 1 < v.len() {
        part_of_a_total(v, n + 1);
    } else {
        assert(v.take((n + 1) as int) == v);
    }
}

/// The power of all devices is the sum of what each of them draws: exactly so for
/// whole watts.
pub proof fn power_adds_up_over_the_devices(gpus: Seq<GpuInfo>, watts: Seq<nat>, n: nat)
    requires
        n <= gpus.len(),
        draws(gpus, watts),
        total(ints(watts)) < 2 * STEP,
    ensures
        power_sum(gpus, n) == Reading::of_natural(total(ints(watts.take(n as int))) as nat),
    decreases n,
{
    if n == 0 {
        nothing_is_zero();
        assert(ints(watts.take(0)) == Seq::<int>::empty());
    } else {
        let k = (n - 1) as nat;
        power_adds_up_over_the_devices(gpus, watts, k);
        part_of_a_total(watts, k);
        small_naturals_add_up(total(ints(watts.take(k as int))) as nat, watts[k as int]);
        assert(gpus[k as int].power_consumption matches Some(w) ==> w == Reading::of_natural(
            watts[k as int],
        ));
    }
}

/// A chassis keeps the power that it states; one that states none has that of the
/// devices, where they draw any. Nothing else of it changes.
pub proof fn stated_power_is_kept(c: ChassisInfo, all: Reading)
    ensures
        c.total_power_watts is Some ==> powered(c, all) == c,
        c.total_power_watts is None && all.above(Reading { bits: 0 }) ==> powered(
            c,
            all,
        ).total_power_watts == Some(all),
        !all.above(Reading { bits: 0 }) ==> powered(c, all) == c,
        powered(c, all) == (ChassisInfo {
            total_power_watts: powered(c, all).total_power_watts,
            ..c
        }),
{
}

/// The processes that are kept stand from the busiest down, and none that is left
/// out is busier than one that is kept.
pub proof fn kept_processes_are_the_busiest(all: Seq<ProcessInfo>, i: int, j: int)
    requires
        forall|k: int| 0 <= k < all.len() ==> !(#[trigger] all[k]).cpu_percent.is_undefined(),
        0 <= i < j < all.len(),
    ensures
        ({
            let order = sorted(all, busier());
            &&& !order[j].cpu_percent.above(order[i].cpu_percent)
            &&& i < busiest(all).len() ==> busiest(all)[i] == order[i]
            &&& busiest(all).len() < all.len() ==> busiest(all).len() == 500
        }),
{
    the_busiest_processes_are_kept(all);
    let order = sorted(all, busier());
    assert(order.len() == all.len()) by {
        crate::order::sorting_keeps_elements(all, busier());
    }
    assert(!busier()(order[j], order[i]));
}

proof fn one_device_is_replaced(known: Seq<GpuInfo>, new: GpuInfo, i: int)
    requires
        0 <= i < known.len(),
        forall|j: int, k: int|
            0 <= j < k < known.len() ==> (#[trigger] known[j]).uuid@ != (#[trigger] known[k]).uuid@,
    ensures
        with_device(known, new).len() == known.len(),
        with_device(known, new)[i] == if known[i].uuid@ == new.uuid@ {
            new
        } else {
            known[i]
        },
    decreases known.len(),
{
    if known[0].uuid@ == new.uuid@ {
        if i > 0 {
            assert(known[0].uuid@ != known[i].uuid@);
        }
    } else if i > 0 {
        let rest = known.drop_first();
        assert forall|j: int, k: int| 0 <= j < k < rest.len() implies (#[trigger] rest[j]).uuid@
            != (#[trigger] rest[k]).uuid@ by {
            assert(rest[j] == known[j + 1] && rest[k] == known[k + 1]);
        }
        one_device_is_replaced(rest, new, i - 1);
    } else if known.len() > 1 {
        let rest = known.drop_first();
        assert forall|j: int, k: int| 0 <= j < k < rest.len() implies (#[trigger] rest[j]).uuid@
            != (#[trigger] rest[k]).uuid@ by {
            assert(rest[j] == known[j + 1] && rest[k] == known[k + 1]);
        }
        one_device_is_replaced(rest, new, 0);
    } else {
        assert(known.drop_first() == Seq::<GpuInfo>::empty());
        assert(with_device(known.drop_first(), new).len() == 0);
    }
}

/// A refresh replaces a known device by what was just read of it, and leaves any
/// other as it was; with no device known, all that were read are.
pub proof fn refreshed_devices_are_replaced(known: Seq<GpuInfo>, new: GpuInfo, i: int)
    requires
        0 <= i < known.len(),
        forall|j: int, k: int|
            0 <= j < k < known.len() ==> (#[trigger] known[j]).uuid@ != (#[trigger] known[k]).uuid@,
    ensures
        refreshed_devices(known, seq![new])[i] == if known[i].uuid@ == new.uuid@ {
            new
        } else {
            known[i]
        },
        refreshed_devices(Seq::empty(), known) == known,
{
    one_device_is_replaced(known, new, i);
    assert(seq![new].drop_first() == Seq::<GpuInfo>::empty());
    assert(with_devices(with_device(known, new), Seq::empty()) == with_device(known, new));
}

/// Cycles are counted one by one, and start again behind the last number.
pub proof fn cycles_are_counted(c: u32)
    ensures
        c < u32::MAX ==> next_cycle(c) == c + 1,
        next_cycle(u32::MAX) == 0,
{
}

/// A driver's message is told once as a warning. One of a TPU is a status while it
/// initializes, and an error where it says so, once.
pub proof fn messages_are_told_by_kind(m: String)
    ensures
        warned_once(Some(m), false) == seq![NoticeModel::Warning(m@)],
        warned_once(None, false).len() == 0,
        occurs(m@, "Initializing"@) ==> tpu_notice(Some(m), false) == seq![
            NoticeModel::Status(m@),
        ],
        !occurs(m@, "Initializing"@) && (occurs(m@, "failed"@) || occurs(m@, "error"@))
            ==> tpu_notice(Some(m), false) == seq![NoticeModel::Error(m@)],
        !occurs(m@, "Initializing"@) && !occurs(m@, "failed"@) && !occurs(m@, "error"@)
            ==> tpu_notice(Some(m), false).len() == 0,
{
}

/// A failed request is told as what went wrong: a timeout, no connection, or the
/// message itself, cut where it is long.
pub proof fn failures_are_told(f: Failure)
    ensures
        f.timed_out ==> described(f) == "timed out"@,
        !f.timed_out && f.not_connected ==> described(f) == "connection failed"@,
        !f.timed_out && !f.not_connected ==> described(f) == if f.message@.len() <= 80 {
            f.message@
        } else {
            f.message@.take(80)
        },
{
}

/// A reply succeeded where its code is one of the two hundreds.
pub proof fn replies_succeed_by_their_code(code: u16)
    ensures
        succeeded(code) <==> code / 100 == 2,
{
}

} // verus!
