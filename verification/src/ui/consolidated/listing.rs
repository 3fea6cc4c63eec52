//! What the sections of the model say of the sources that they are built from.
use vstd::prelude::*;
use vstd::string::*;

use crate::device::types::{detail_of, ConnectionStatus, CpuInfo, GpuInfo, MemoryInfo};
use crate::probes::HostProbes;
use crate::reading::{multiples_divide_evenly, Reading, STEP};
use crate::table::find_entry;
use crate::text::{decimal, ends, is_digit, joined, lowered_all, occurs, precedes, words};
use crate::total::{total, total_of_one_more};
use crate::ui::consolidated::model::{
    before_core_count, cpu_index, cpu_on, cpu_summary, detail_notes, device_before, devices_on,
    devices_stand_in_order, driver_note, gsp_note, host_rows, index_number, is_core_count,
    is_filler, memory_fraction, model_name, names_at, numa_note, nvlink_note, occurrences, os_on,
    pcie_note, power_fraction, ram_total_on, ram_used_on, row_of, section_label, section_of,
    short_cpu_model, threshold_note, MemoryKind,
};

verus! {

/// The rows of a host are its devices, each with what that device reports:
/// identifier, utilization, memory, power, temperature and threshold, clock.
/// A device shares its host's memory where it is one of Apple's; its Neural
/// Engine's milliwatts are then shown in watts.
pub proof fn rows_carry_what_devices_report(
    gpus: Seq<GpuInfo>,
    cpus: Seq<CpuInfo>,
    memory: Seq<MemoryInfo>,
    probes: Seq<HostProbes>,
    statuses: Seq<(String, ConnectionStatus)>,
    host: Seq<char>,
    k: int,
)
    requires
        0 <= k < devices_on(gpus, host, gpus.len()).len(),
    ensures
        ({
            let s = section_of(gpus, cpus, memory, probes, statuses, host);
            let g = gpus[devices_on(gpus, host, gpus.len())[k]];
            let d = s.devices[k];
            let apple = occurs(g.name@, "Apple"@) || detail_of(g, "architecture"@) == Some(
                "Apple Silicon"@,
            );
            &&& s.host_id == host
            &&& s.devices.len() == devices_on(gpus, host, gpus.len()).len()
            &&& d.uuid == g.uuid@
            &&& d.utilization == g.utilization
            &&& d.used_memory == g.used_memory
            &&& d.total_memory == g.total_memory
            &&& d.power_watts == g.power_consumption
            &&& d.temperature_c == g.temperature
            &&& d.frequency_mhz == g.frequency
            &&& d.slowdown_c == if g.temperature_threshold_slowdown == Some(0u32) {
                None
            } else {
                g.temperature_threshold_slowdown
            }
            &&& (d.memory_kind == MemoryKind::Unified) == apple
            &&& apple && g.ane_utilization is Some ==> d.ane_watts == Some(
                g.ane_utilization->0.quotient(Reading::of_natural(1000)),
            )
            &&& !apple || g.ane_utilization is None ==> d.ane_watts is None
            &&& g.gpu_core_count is Some || !apple ==> d.core_count == g.gpu_core_count
            &&& d.details == detail_notes(g)
        }),
{
}

/// A power limit is one that the device states, where it is above zero.
pub proof fn power_limits_are_stated(gpu: GpuInfo, name: Seq<char>, duplicate: bool)
    ensures
        detail_of(gpu, "power_limit_max"@) is None ==> row_of(
            gpu,
            name,
            duplicate,
        ).power_limit_watts is None,
        row_of(gpu, name, duplicate).power_limit_watts matches Some(l) ==> l.above(
            Reading { bits: 0 },
        ) && crate::numeral::reading_in(detail_of(gpu, "power_limit_max"@)->0) == Some(l),
{
}

/// Devices of one model on a host are told apart by their number; a model that
/// occurs once stands alone.
pub proof fn equal_boards_are_numbered(gpu: GpuInfo, name: Seq<char>)
    ensures
        row_of(gpu, name, false).name == name,
        detail_of(gpu, "index"@) matches Some(i) ==> row_of(gpu, name, true).name == name + " #"@
            + i,
        detail_of(gpu, "index"@) is None ==> row_of(gpu, name, true).name == name + " #"@ + "?"@,
{
}

proof fn names_are_counted(names: Seq<Seq<char>>, name: Seq<char>, n: nat, i: int, j: int)
    requires
        n <= names.len(),
        0 <= i < j < names.len(),
        names[i] == name,
        names[j] == name,
    ensures
        occurrences(names, name, n) >= (if i < n {
            1int
        } else {
            0
        }) + (if j < n {
            1int
        } else {
            0
        }),
    decreases n,
{
    if n > 0 {
        names_are_counted(names, name, (n - 1) as nat, i, j);
    }
}

/// Two devices of one model on one host both carry their number.
pub proof fn two_of_a_model_are_numbered(
    gpus: Seq<GpuInfo>,
    at: Seq<int>,
    cores: Option<u32>,
    i: int,
    j: int,
)
    requires
        0 <= i < j < at.len(),
        model_name(gpus[at[i]]) == model_name(gpus[at[j]]),
        detail_of(gpus[at[i]], "index"@) is Some,
        detail_of(gpus[at[j]], "index"@) is Some,
    ensures
        host_rows(gpus, at, cores)[i].name == model_name(gpus[at[i]]) + " #"@ + detail_of(
            gpus[at[i]],
            "index"@,
        )->0,
        host_rows(gpus, at, cores)[j].name == model_name(gpus[at[j]]) + " #"@ + detail_of(
            gpus[at[j]],
            "index"@,
        )->0,
{
    let names = names_at(gpus, at);
    assert(names[i] == model_name(gpus[at[i]]));
    assert(names[j] == model_name(gpus[at[j]]));
    names_are_counted(names, names[i], names.len(), i, j);
}

/// A host is called by its own name without `.local`, else by that of its first
/// device, else by its identifier.
pub proof fn hosts_are_called_by_their_own_name(
    status: ConnectionStatus,
    name: String,
    device: GpuInfo,
    host: Seq<char>,
)
    ensures
        status.actual_hostname == Some(name) && name@.len() > 0 ==> section_label(
            Some(status),
            Some(device),
            host,
        ) == if ends(name@, ".local"@) {
            name@.take(name@.len() - ".local"@.len())
        } else {
            name@
        },
        status.actual_hostname == Some(name) && name@.len() == 0 ==> section_label(
            Some(status),
            Some(device),
            host,
        ) == host,
        section_label(None, None, host) == host,
        device.instance@.len() > 0 && !ends(device.instance@, ".local"@) ==> section_label(
            None,
            Some(device),
            host,
        ) == device.instance@,
{
}

/// A section says of its host whether it answers, why not, its operating system
/// and its CPU, and counts the RAM that is reported for it.
pub proof fn sections_describe_their_host(
    gpus: Seq<GpuInfo>,
    cpus: Seq<CpuInfo>,
    memory: Seq<MemoryInfo>,
    probes: Seq<HostProbes>,
    statuses: Seq<(String, ConnectionStatus)>,
    host: Seq<char>,
)
    ensures
        ({
            let s = section_of(gpus, cpus, memory, probes, statuses, host);
            let status = find_entry(statuses, host);
            &&& status matches Some(t) ==> s.connected == t.is_connected && s.last_error is Some
                == t.last_error is Some
            &&& status is None ==> s.connected == (s.devices.len() > 0) && s.last_error is None
            &&& s.ram_used == total(
                memory.map_values(
                    |m: MemoryInfo|
                        if m.host_id@ == host {
                            m.used_bytes as int
                        } else {
                            0
                        },
                ),
            )
            &&& s.ram_total == total(
                memory.map_values(
                    |m: MemoryInfo|
                        if m.host_id@ == host {
                            m.total_bytes as int
                        } else {
                            0
                        },
                ),
            )
        }),
{
    ram_adds_up(memory, host, memory.len());
    assert(memory.take(memory.len() as int) == memory);
}

proof fn ram_adds_up(m: Seq<MemoryInfo>, host: Seq<char>, n: nat)
    requires
        n <= m.len(),
    ensures
        ram_used_on(m, host, n) == total(
            m.take(n as int).map_values(
                |x: MemoryInfo|
                    if x.host_id@ == host {
                        x.used_bytes as int
                    } else {
                        0
                    },
            ),
        ),
        ram_total_on(m, host, n) == total(
            m.take(n as int).map_values(
                |x: MemoryInfo|
                    if x.host_id@ == host {
                        x.total_bytes as int
                    } else {
                        0
                    },
            ),
        ),
    decreases n,
{
    let used = |x: MemoryInfo|
        if x.host_id@ == host {
            x.used_bytes as int
        } else {
            0
        };
    let all = |x: MemoryInfo|
        if x.host_id@ == host {
            x.total_bytes as int
        } else {
            0
        };
    if n == 0 {
        assert(m.take(0).map_values(used) == Seq::<int>::empty());
        assert(m.take(0).map_values(all) == Seq::<int>::empty());
    } else {
        let k = (n - 1) as nat;
        ram_adds_up(m, host, k);
        let (a, b) = (m.take(k as int).map_values(used), m.take(k as int).map_values(all));
        total_of_one_more(a, used(m[k as int]));
        total_of_one_more(b, all(m[k as int]));
        assert(m.take(n as int).map_values(used) == a.push(used(m[k as int])));
        assert(m.take(n as int).map_values(all) == b.push(all(m[k as int])));
    }
}

/// A host's CPU is the first that is listed for it.
pub proof fn the_first_cpu_of_a_host_counts(cpus: Seq<CpuInfo>, i: int)
    requires
        0 <= i < cpus.len(),
        forall|j: int| 0 <= j < i ==> (#[trigger] cpus[j]).host_id@ != cpus[i].host_id@,
    ensures
        cpu_on(cpus, cpus[i].host_id@) == Some(cpus[i]),
{
    cpu_is_found(cpus, i);
}

proof fn cpu_is_found(cpus: Seq<CpuInfo>, i: int)
    requires
        0 <= i < cpus.len(),
        forall|j: int| 0 <= j < i ==> (#[trigger] cpus[j]).host_id@ != cpus[i].host_id@,
    ensures
        cpu_index(cpus, cpus[i].host_id@) == i,
    decreases cpus.len(),
{
    if i > 0 {
        let rest = cpus.drop_first();
        assert(cpus[0].host_id@ != cpus[i].host_id@);
        assert(rest[i - 1] == cpus[i]);
        assert forall|j: int| 0 <= j < i - 1 implies (#[trigger] rest[j]).host_id@
            != rest[i - 1].host_id@ by {
            assert(rest[j] == cpus[j + 1]);
        }
        cpu_is_found(rest, i - 1);
    }
}

/// An Apple CPU has the cores of all its kinds together; any other those that it
/// states.
pub proof fn cores_of_all_kinds_count(c: CpuInfo)
    ensures
        cpu_summary(c).utilization == c.utilization,
        c.apple_silicon_info is None ==> cpu_summary(c).cores == c.total_cores,
        c.apple_silicon_info matches Some(a) ==> {
            let n = a.s_core_count + a.p_core_count + a.e_core_count;
            &&& 0 < n <= u32::MAX ==> cpu_summary(c).cores == n
            &&& n == 0 ==> cpu_summary(c).cores == c.total_cores
        },
{
}

/// The devices of a host stand by their number, those without one last.
pub proof fn devices_stand_by_number(gpus: Seq<GpuInfo>, host: Seq<char>, i: int, j: int)
    requires
        0 <= i < j < devices_on(gpus, host, gpus.len()).len(),
    ensures
        ({
            let at = devices_on(gpus, host, gpus.len());
            index_number(gpus[at[i]]) <= index_number(gpus[at[j]])
        }),
{
    devices_stand_in_order(gpus, host, gpus.len());
    let at = devices_on(gpus, host, gpus.len());
    assert(!device_before(gpus)(at[j], at[i]));
}

/// The share of memory in use is what is used over what there is, and nothing
/// where there is none; that of power is what is drawn over the limit.
pub proof fn shares_are_of_the_whole(used: u64, total: u64, p: Reading, l: Reading)
    ensures
        total > 0 ==> memory_fraction(used, total) == Reading::of_natural(used as nat).quotient(
            Reading::of_natural(total as nat),
        ),
        memory_fraction(used, 0) == (Reading { bits: 0 }),
        0 < used < 2 * STEP ==> memory_fraction(used, used) == Reading::of_natural(1),
        l.above(Reading { bits: 0 }) ==> power_fraction(Some(p), Some(l)) == Some(p.quotient(l)),
        !l.above(Reading { bits: 0 }) ==> power_fraction(Some(p), Some(l)) is None,
        power_fraction(None, Some(l)) is None,
        power_fraction(Some(p), None) is None,
{
    if 0 < used < 2 * STEP {
        assert(1 * used as nat == used as nat);
        multiples_divide_evenly(1, used as nat);
    }
}

/// Devices of one number stand by their identifier.
pub proof fn equal_numbers_stand_by_identifier(gpus: Seq<GpuInfo>, host: Seq<char>, i: int, j: int)
    requires
        0 <= i < j < devices_on(gpus, host, gpus.len()).len(),
    ensures
        ({
            let at = devices_on(gpus, host, gpus.len());
            index_number(gpus[at[i]]) == index_number(gpus[at[j]]) ==> !precedes(
                gpus[at[j]].uuid@,
                gpus[at[i]].uuid@,
            )
        }),
{
    devices_stand_in_order(gpus, host, gpus.len());
    let at = devices_on(gpus, host, gpus.len());
    assert(!device_before(gpus)(at[j], at[i]));
}

/// Systems are written the way their makers do, and others as they call
/// themselves.
pub proof fn systems_are_called_by_name(probes: Seq<HostProbes>, host: Seq<char>)
    requires
        probes.len() > 0,
        probes[0].host_id@ == host,
    ensures
        probes[0].os is None ==> os_on(probes, host) is None,
        probes[0].os matches Some(os) ==> {
            &&& os@ == "macos"@ ==> os_on(probes, host) == Some("macOS"@)
            &&& os@ == "linux"@ ==> os_on(probes, host) == Some("Linux"@)
            &&& os@ == "windows"@ ==> os_on(probes, host) == Some("Windows"@)
            &&& os@ != "macos"@ && os@ != "linux"@ && os@ != "windows"@ ==> os_on(probes, host)
                == Some(os@)
        },
{
    reveal_strlit("macos");
    reveal_strlit("linux");
    reveal_strlit("windows");
    assert("macos"@.len() == 5 && "linux"@.len() == 5 && "windows"@.len() == 7);
    assert("macos"@[0] == 'm' && "linux"@[0] == 'l');
}

/// Hosts that are asked about before another do not change what is found of it.
pub proof fn other_hosts_do_not_count(probes: Seq<HostProbes>, host: Seq<char>)
    requires
        probes.len() > 0,
        probes[0].host_id@ != host,
    ensures
        os_on(probes, host) == os_on(probes.drop_first(), host),
{
}

/// The name of a processor ends before its number of cores.
pub proof fn names_end_before_the_cores(w: Seq<Seq<char>>)
    ensures
        ({
            let r = before_core_count(w);
            &&& r.len() <= w.len() && r =~= w.take(r.len() as int)
            &&& forall|i: int|
                0 <= i < r.len() ==> !ends(lowered_all(#[trigger] r[i]), "-core"@)
            &&& r.len() < w.len() ==> ends(lowered_all(w[r.len() as int]), "-core"@)
        }),
    decreases w.len(),
{
    if w.len() > 0 && !is_core_count(w[0]) {
        names_end_before_the_cores(w.drop_first());
        let rest = before_core_count(w.drop_first());
        let r = before_core_count(w);
        assert(r == seq![w[0]] + rest);
        assert forall|i: int| 0 <= i < r.len() implies r[i] == w[i] by {
            if i > 0 {
                assert(rest[i - 1] == w.drop_first()[i - 1]);
            }
        }
        assert forall|i: int| 0 <= i < r.len() implies !ends(
            lowered_all(#[trigger] r[i]),
            "-core"@,
        ) by {
            if i > 0 {
                assert(r[i] == rest[i - 1]);
            }
        }
        if r.len() < w.len() {
            assert(w[r.len() as int] == w.drop_first()[rest.len() as int]);
        }
    }
}

/// The words that say nothing are left out of the name of a processor; a name
/// without them and without a number of cores keeps all its words.
pub proof fn processors_have_short_names(model: Seq<char>)
    requires
        forall|i: int|
            0 <= i < words(model).len() ==> {
                let w = #[trigger] words(model)[i];
                &&& w != "Processor"@ && w != "CPU"@ && w != "(R)"@ && w != "(TM)"@
                &&& !ends(lowered_all(w), "-core"@)
            },
    ensures
        short_cpu_model(model) == joined(words(model), " "@),
        is_filler("Processor"@) && is_filler("CPU"@) && is_filler("(R)"@) && is_filler("(TM)"@),
{
    let w = words(model);
    let keep = |x: Seq<char>| !is_filler(x);
    all_are_kept(w, keep);
    names_end_before_the_cores(w);
    let r = before_core_count(w);
    if r.len() < w.len() {
        assert(ends(lowered_all(w[r.len() as int]), "-core"@));
        assert(false);
    }
    assert(r == w);
}

proof fn all_are_kept(s: Seq<Seq<char>>, keep: spec_fn(Seq<char>) -> bool)
    requires
        forall|i: int| 0 <= i < s.len() ==> keep(#[trigger] s[i]),
    ensures
        s.filter(keep) == s,
    decreases s.len(),
{
    reveal(Seq::filter);
    if s.len() > 0 {
        assert forall|i: int| 0 <= i < s.drop_last().len() implies keep(
            #[trigger] s.drop_last()[i],
        ) by {
            assert(s.drop_last()[i] == s[i]);
        }
        all_are_kept(s.drop_last(), keep);
        assert(s == s.drop_last().push(s.last()));
    }
}

/// What a device tells of itself is written with what it is: its driver, its
/// firmware, its link, its memory checks and its node.
pub proof fn notes_say_what_they_are(v: Seq<char>, g: Seq<char>, w: Seq<char>, n: u32, node: i32)
    ensures
        driver_note(None) is None,
        v.len() > 0 && is_digit(v[0]) ==> driver_note(Some(v)) == Some("driver "@ + v),
        v.len() > 0 && !is_digit(v[0]) ==> driver_note(Some(v)) == Some(v),
        gsp_note(Some(0)) == Some("GSP off"@),
        gsp_note(Some(1)) == Some("GSP on"@),
        gsp_note(Some(2)) == Some("GSP default"@),
        pcie_note(Some(g), Some(w)) == Some("PCIe "@ + g + ".0 x"@ + w),
        pcie_note(None, Some(w)) is None,
        pcie_note(Some(g), None) is None,
        numa_note(Some(node)) is Some <==> node >= 0,
        node >= 0 ==> numa_note(Some(node)) == Some("NUMA "@ + decimal(node as nat)),
        nvlink_note(0) is None,
        n > 0 ==> nvlink_note(n as nat) == Some("NVLink ×"@ + decimal(n as nat)),
        threshold_note(v, Some(0)) is None,
        n > 0 ==> threshold_note(v, Some(n)) == Some(v + " "@ + decimal(n as nat) + "°C"@),
{
}

} // verus!
