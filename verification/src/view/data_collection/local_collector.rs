//! What the collector of the local host decides: which processes it refreshes
//! and keeps, what the startup screen says, and how a finished collection
//! enters the state.
use vstd::prelude::*;
use vstd::string::*;

use crate::app_state::AppState;
use crate::device::types::{
    ChassisInfo, ConnectionStatus, CpuInfo, DeviceSection, GpuInfo, MemoryInfo, ProcessInfo,
    StorageInfo,
};
use crate::order::{agreeing_orders_sort_alike, in_order, lemma_insert_at, orders, sorted, sorting_orders};
use crate::probes::HostProbes;
use crate::reading::Reading;
use crate::text::{
    comes_before, concat4, copied, holds_text, occurs, precedes, precedes_is_total,
    precedes_is_transitive, rising, same, texts,
};

verus! {

/// Maximum number of processes to keep after collection. Processes are sorted
/// by CPU usage (descending) and truncated to this limit.
pub const MAX_DISPLAY_PROCESSES: usize = 500;

/// Every so many cycles all processes are refreshed, to discover new ones that
/// are busy; otherwise only the ones being followed.
pub const FULL_REFRESH_INTERVAL: u32 = 5;

/// The power of the first `n` devices that report it, added up.
pub open spec fn power_sum(gpus: Seq<GpuInfo>, n: nat) -> Reading
    decreases n,
{
    if n == 0 {
        Reading { bits: 0 }
    } else {
        let rest = power_sum(gpus, (n - 1) as nat);
        match gpus[n - 1].power_consumption {
            Some(w) => rest.sum(w),
            None => rest,
        }
    }
}

/// The power of all devices that report it.
pub fn total_power_watts(gpu_info: &[GpuInfo]) -> (r: Reading)
    ensures
        r == power_sum(gpu_info@, gpu_info@.len()),
{
    let mut total: Reading = Reading { bits: 0 };
    let mut i: usize = 0;
    while i < gpu_info.len()
        invariant
            i <= gpu_info@.len(),
            total == power_sum(gpu_info@, i as nat),
        decreases gpu_info@.len() - i,
    {
        if let Some(w) = gpu_info[i].power_consumption {
            total = total.plus(w);
        }
        i = i + 1;
    }
    total
}

/// A chassis, its power filled in from the devices where it has none and they
/// report some.
pub open spec fn powered(c: ChassisInfo, total: Reading) -> ChassisInfo {
    if c.total_power_watts is None && total.above(Reading { bits: 0 }) {
        ChassisInfo { total_power_watts: Some(total), ..c }
    } else {
        c
    }
}

/// Inject aggregated GPU power into chassis info when not already set.
///
/// Sums only the devices that reported power: a multi-die board reports its
/// power on one die with the rest absent.
pub fn inject_gpu_power(chassis_info: Vec<ChassisInfo>, gpu_info: &[GpuInfo]) -> (r: Vec<
    ChassisInfo,
>)
    ensures
        r@ == chassis_info@.map_values(
            |c: ChassisInfo| powered(c, power_sum(gpu_info@, gpu_info@.len())),
        ),
{
    let total: Reading = total_power_watts(gpu_info);
    let fill: bool = total.gt(Reading { bits: 0 });
    let mut all: Vec<ChassisInfo> = chassis_info;
    let mut i: usize = 0;
    while i < all.len()
        invariant
            i <= all@.len(),
            all@.len() == chassis_info@.len(),
            total == power_sum(gpu_info@, gpu_info@.len()),
            fill == total.above(Reading { bits: 0 }),
            forall|j: int| 0 <= j < i ==> #[trigger] all@[j] == powered(chassis_info@[j], total),
            forall|j: int| i <= j < all@.len() ==> #[trigger] all@[j] == chassis_info@[j],
        decreases all@.len() - i,
    {
        if fill && all[i].total_power_watts.is_none() {
            all[i].total_power_watts = Some(total);
        }
        i = i + 1;
    }
    all
}

/// The order of the process list: busier processes first.
pub open spec fn busier() -> spec_fn(ProcessInfo, ProcessInfo) -> bool {
    |a: ProcessInfo, b: ProcessInfo| a.cpu_percent.above(b.cpu_percent)
}

/// The processes that are kept.
pub open spec fn busiest(all: Seq<ProcessInfo>) -> Seq<ProcessInfo> {
    let order = sorted(all, busier());
    if order.len() > MAX_DISPLAY_PROCESSES {
        order.take(MAX_DISPLAY_PROCESSES as int)
    } else {
        order
    }
}

/// The process ids of processes.
pub open spec fn pids_of(all: Seq<ProcessInfo>) -> Seq<u32> {
    all.map_values(|p: ProcessInfo| p.pid)
}

/// Sorts by CPU usage, descending, and keeps the first
/// [`MAX_DISPLAY_PROCESSES`]. Equally busy processes keep their order.
pub fn top_processes(all: &Vec<ProcessInfo>) -> (r: Vec<ProcessInfo>)
    ensures
        r@ == busiest(all@),
{
    let mut r: Vec<ProcessInfo> = Vec::new();
    let mut i: usize = 0;
    assert(all@.take(0) == Seq::<ProcessInfo>::empty());
    while i < all.len()
        invariant
            i <= all@.len(),
            r@.len() == i,
            r@ == sorted(all@.take(i as int), busier()),
        decreases all@.len() - i,
    {
        let x: ProcessInfo = all[i];
        let ghost before = r@;
        let mut at: usize = r.len();
        while at > 0 && x.cpu_percent.gt(r[at - 1].cpu_percent)
            invariant
                at <= r@.len(),
                forall|j: int| at <= j < r@.len() ==> busier()(x, #[trigger] r@[j]),
            decreases at,
        {
            at = at - 1;
        }
        proof {
            lemma_insert_at(before, x, busier(), at as int);
            let next = all@.take(i + 1);
            assert(next.drop_last() == all@.take(i as int));
            assert(next.last() == x);
        }
        r.insert(at, x);
        i = i + 1;
    }
    assert(all@.take(all@.len() as int) == all@);
    if r.len() > MAX_DISPLAY_PROCESSES {
        r.truncate(MAX_DISPLAY_PROCESSES);
    }
    r
}

/// No process that is left out is busier than one that is kept, and those that
/// are kept stand from the busiest down, wherever every usage is a number.
pub proof fn the_busiest_processes_are_kept(all: Seq<ProcessInfo>)
    requires
        forall|i: int| 0 <= i < all.len() ==> !(#[trigger] all[i]).cpu_percent.is_undefined(),
    ensures
        in_order(sorted(all, busier()), busier()),
        sorted(all, busier()).to_multiset() == all.to_multiset(),
        busiest(all).is_prefix_of(sorted(all, busier())),
        busiest(all).len() == if all.len() > MAX_DISPLAY_PROCESSES {
            MAX_DISPLAY_PROCESSES as nat
        } else {
            all.len()
        },
{
    broadcast use vstd::seq_lib::group_to_multiset_ensures;

    let ranked = |a: ProcessInfo, b: ProcessInfo| a.cpu_percent.rank() > b.cpu_percent.rank();
    assert(orders(ranked));
    assert forall|i: int, j: int| 0 <= i < all.len() && 0 <= j < all.len() implies busier()(
        #[trigger] all[i],
        #[trigger] all[j],
    ) == ranked(all[i], all[j]) by {}
    agreeing_orders_sort_alike(all, busier(), ranked);
    sorting_orders(all, ranked);
    let t = sorted(all, busier());
    assert forall|i: int, j: int| 0 <= i < j < t.len() implies !busier()(
        #[trigger] t[j],
        #[trigger] t[i],
    ) by {
        assert(!ranked(t[j], t[i]));
        assert(t.to_multiset().contains(t[i]) && t.to_multiset().contains(t[j]));
        assert(all.contains(t[i]) && all.contains(t[j]));
        let k = choose|k: int| 0 <= k < all.len() && all[k] == t[i];
        let l = choose|l: int| 0 <= l < all.len() && all[l] == t[j];
        assert(busier()(all[l], all[k]) == ranked(all[l], all[k]));
    }
}

/// How the processes of one cycle are refreshed.
#[derive(Clone, Debug, PartialEq, Eq)]
pub struct RefreshPlan {
    pub full: bool,
    /// Which processes a refresh that is not full reads.
    pub pids: Vec<u32>,
}

impl RefreshPlan {
    /// The first cycle reads every process.
    pub fn first() -> (r: RefreshPlan)
        ensures
            r.full,
            r.pids@.len() == 0,
    {
        RefreshPlan { full: true, pids: Vec::new() }
    }

    /// Whether every process is read: on a full refresh, and where none is
    /// followed yet.
    pub fn reads_all(&self) -> (r: bool)
        ensures
            r == (self.full || self.pids@.len() == 0),
    {
        self.full || self.pids.len() == 0
    }
}

/// What the GPU readers gave in one pass.
#[derive(Clone, Debug, PartialEq, Eq)]
pub struct GpuCollection {
    pub gpu_info: Vec<GpuInfo>,
    pub gpu_processes: Vec<ProcessInfo>,
    /// Processes that use a device, each once.
    pub gpu_pids: Vec<u32>,
    pub vgpu_info: Vec<DeviceSection>,
    pub mig_info: Vec<DeviceSection>,
}

impl Default for GpuCollection {
    fn default() -> (r: GpuCollection)
        ensures
            r.gpu_info@.len() == 0,
            r.gpu_processes@.len() == 0,
            r.gpu_pids@.len() == 0,
            r.vgpu_info@.len() == 0,
            r.mig_info@.len() == 0,
    {
        GpuCollection {
            gpu_info: Vec::new(),
            gpu_processes: Vec::new(),
            gpu_pids: Vec::new(),
            vgpu_info: Vec::new(),
            mig_info: Vec::new(),
        }
    }
}

/// `known` and those of the first `n` of `new` that are not among them, each
/// once.
pub open spec fn joined_pids(known: Seq<u32>, new: Seq<u32>, n: nat) -> Seq<u32>
    decreases n,
{
    if n == 0 {
        known
    } else {
        let before = joined_pids(known, new, (n - 1) as nat);
        if before.contains(new[n - 1]) {
            before
        } else {
            before.push(new[n - 1])
        }
    }
}

/// A process that uses several devices is listed once, and none is lost.
pub proof fn processes_are_listed_once(known: Seq<u32>, new: Seq<u32>, n: nat)
    requires
        known.no_duplicates(),
        n <= new.len(),
    ensures
        joined_pids(known, new, n).no_duplicates(),
        forall|p: u32| #[trigger]
            joined_pids(known, new, n).contains(p) <==> known.contains(p) || new.take(
                n as int,
            ).contains(p),
    decreases n,
{
    if n == 0 {
        assert(new.take(0) == Seq::<u32>::empty());
    } else {
        let k = (n - 1) as nat;
        processes_are_listed_once(known, new, k);
        let before = joined_pids(known, new, k);
        let after = joined_pids(known, new, n);
        let x = new[n - 1];
        assert(new.take(n as int) == new.take(k as int).push(x));
        assert forall|p: u32| #[trigger] after.contains(p) <==> known.contains(p) || new.take(
            n as int,
        ).contains(p) by {
            broadcast use vstd::seq_lib::group_seq_properties;

        }
    }
}

fn holds_pid(v: &Vec<u32>, pid: u32) -> (r: bool)
    ensures
        r == v@.contains(pid),
{
    let mut i: usize = 0;
    while i < v.len()
        invariant
            i <= v@.len(),
            forall|j: int| 0 <= j < i ==> v@[j] != pid,
        decreases v@.len() - i,
    {
        if v[i] == pid {
            return true;
        }
        i = i + 1;
    }
    false
}

impl GpuCollection {
    /// Adds the devices of one reader.
    pub fn add_devices(&mut self, found: Vec<GpuInfo>)
        ensures
            *final(self) == (GpuCollection { gpu_info: final(self).gpu_info, ..*old(self) }),
            final(self).gpu_info@ == old(self).gpu_info@ + found@,
    {
        let mut found = found;
        self.gpu_info.append(&mut found);
    }

    /// Adds the processes of one reader.
    pub fn add_processes(&mut self, found: Vec<ProcessInfo>, pids: &Vec<u32>)
        ensures
            *final(self) == (GpuCollection {
                gpu_processes: final(self).gpu_processes,
                gpu_pids: final(self).gpu_pids,
                ..*old(self)
            }),
            final(self).gpu_processes@ == old(self).gpu_processes@ + found@,
            final(self).gpu_pids@ == joined_pids(old(self).gpu_pids@, pids@, pids@.len()),
    {
        let mut all = found;
        self.gpu_processes.append(&mut all);
        let mut i: usize = 0;
        while i < pids.len()
            invariant
                i <= pids@.len(),
                *self == (GpuCollection {
                    gpu_processes: self.gpu_processes,
                    gpu_pids: self.gpu_pids,
                    ..*old(self)
                }),
                self.gpu_processes@ == old(self).gpu_processes@ + found@,
                self.gpu_pids@ == joined_pids(old(self).gpu_pids@, pids@, i as nat),
            decreases pids@.len() - i,
        {
            if !holds_pid(&self.gpu_pids, pids[i]) {
                self.gpu_pids.push(pids[i]);
            }
            i = i + 1;
        }
    }

    /// Adds the virtual devices of one reader.
    pub fn add_vgpus(&mut self, found: Vec<DeviceSection>)
        ensures
            *final(self) == (GpuCollection { vgpu_info: final(self).vgpu_info, ..*old(self) }),
            final(self).vgpu_info@ == old(self).vgpu_info@ + found@,
    {
        let mut found = found;
        self.vgpu_info.append(&mut found);
    }

    /// Adds the partitions of one reader.
    pub fn add_partitions(&mut self, found: Vec<DeviceSection>)
        ensures
            *final(self) == (GpuCollection { mig_info: final(self).mig_info, ..*old(self) }),
            final(self).mig_info@ == old(self).mig_info@ + found@,
    {
        let mut found = found;
        self.mig_info.append(&mut found);
    }
}

/// What the readers of one cycle gave.
#[derive(Clone, Debug, PartialEq, Eq)]
pub struct Readings {
    pub gpu: GpuCollection,
    pub cpu_info: Vec<CpuInfo>,
    pub memory_info: Vec<MemoryInfo>,
    pub chassis_info: Vec<ChassisInfo>,
    pub storage_info: Vec<StorageInfo>,
    /// All processes, those of the devices merged in.
    pub processes: Vec<ProcessInfo>,
}

/// A finished collection.
#[derive(Clone, Debug, PartialEq, Eq)]
pub struct CollectionData {
    pub gpu_info: Vec<GpuInfo>,
    pub cpu_info: Vec<CpuInfo>,
    pub memory_info: Vec<MemoryInfo>,
    pub process_info: Vec<ProcessInfo>,
    pub storage_info: Vec<StorageInfo>,
    pub chassis_info: Vec<ChassisInfo>,
    pub vgpu_info: Vec<DeviceSection>,
    pub mig_info: Vec<DeviceSection>,
    pub connection_statuses: Vec<(String, ConnectionStatus)>,
    /// Processes of other hosts: none in local mode.
    pub remote_process_info: Vec<ProcessInfo>,
    pub host_probes: Vec<HostProbes>,
}

/// Why a collection did not run.
#[derive(Clone, Debug, PartialEq, Eq)]
pub enum CollectionError {
    Other(String),
}

/// How a collection is run.
#[derive(Clone, Copy, Debug, PartialEq, Eq, Structural)]
pub struct CollectionConfig {
    pub first_iteration: bool,
}

/// What the collector of the local host keeps between cycles.
#[derive(Clone, Debug, PartialEq, Eq)]
pub struct LocalCollector {
    /// Whether the readers are in place.
    pub initialized: bool,
    /// The processes that the last cycle kept.
    pub tracked_pids: Vec<u32>,
    /// Counts the cycles, from nought again after the last number.
    pub refresh_cycle: u32,
}

impl Default for LocalCollector {
    fn default() -> (r: LocalCollector)
        ensures
            !r.initialized,
            r.tracked_pids@.len() == 0,
            r.refresh_cycle == 0,
    {
        LocalCollector::new()
    }
}

impl LocalCollector {
    pub fn new() -> (r: LocalCollector)
        ensures
            !r.initialized,
            r.tracked_pids@.len() == 0,
            r.refresh_cycle == 0,
    {
        LocalCollector { initialized: false, tracked_pids: Vec::new(), refresh_cycle: 0 }
    }

    /// Whether a collection can run without the startup screen: not the first.
    pub fn collect(&self, config: &CollectionConfig) -> (r: Result<(), CollectionError>)
        ensures
            match r {
                Ok(_) => !config.first_iteration,
                Err(CollectionError::Other(m)) => config.first_iteration && m@
                    == "First iteration requires app_state initialization"@,
            },
    {
        if config.first_iteration {
            Err(
                CollectionError::Other(
                    copied("First iteration requires app_state initialization"),
                ),
            )
        } else {
            Ok(())
        }
    }

    /// The name of this way to collect.
    pub fn strategy_type(&self) -> (r: &'static str)
        ensures
            r@ == "local"@,
    {
        "local"
    }

    /// Whether the readers are in place.
    pub fn is_ready(&self) -> (r: bool)
        ensures
            r == self.initialized,
    {
        self.initialized
    }

    /// The readers are in place from now on.
    pub fn mark_ready(&mut self)
        ensures
            *final(self) == (LocalCollector { initialized: true, ..*old(self) }),
    {
        self.initialized = true;
    }

    /// How a cycle after the first refreshes processes. Every
    /// [`FULL_REFRESH_INTERVAL`] cycles all of them; otherwise the ones that the last cycle kept.
    pub fn plan_refresh(&mut self) -> (r: RefreshPlan)
        ensures
            r.full == (old(self).refresh_cycle % FULL_REFRESH_INTERVAL == 0),
            r.pids@ == if r.full {
                Seq::<u32>::empty()
            } else {
                old(self).tracked_pids@
            },
            *final(self) == (LocalCollector {
                refresh_cycle: next_cycle(old(self).refresh_cycle),
                ..*old(self)
            }),
    {
        let cycle: u32 = self.refresh_cycle;
        self.refresh_cycle = if cycle == u32::MAX {
            0
        } else {
            cycle + 1
        };
        let full: bool = cycle % FULL_REFRESH_INTERVAL == 0;
        let pids: Vec<u32> = if full {
            Vec::new()
        } else {
            copy_pids(&self.tracked_pids)
        };
        RefreshPlan { full, pids }
    }

    /// Puts a collection together from what the readers gave. The processes
    /// that are kept are the ones to follow, and the first cycle counts as
    /// cycle nought.
    pub fn finish(&mut self, readings: Readings, first: bool) -> (r: CollectionData)
        ensures
            final(self).initialized == old(self).initialized,
            final(self).refresh_cycle == if first {
                1
            } else {
                old(self).refresh_cycle
            },
            final(self).tracked_pids@ == pids_of(busiest(readings.processes@)),
            r.gpu_info == readings.gpu.gpu_info,
            r.cpu_info == readings.cpu_info,
            r.memory_info == readings.memory_info,
            r.process_info@ == busiest(readings.processes@),
            r.storage_info == readings.storage_info,
            r.chassis_info@ == readings.chassis_info@.map_values(
                |c: ChassisInfo|
                    powered(
                        c,
                        power_sum(readings.gpu.gpu_info@, readings.gpu.gpu_info@.len()),
                    ),
            ),
            r.vgpu_info == readings.gpu.vgpu_info,
            r.mig_info == readings.gpu.mig_info,
            r.connection_statuses@.len() == 0,
            r.remote_process_info@.len() == 0,
            r.host_probes@.len() == 0,
    {
        let process_info: Vec<ProcessInfo> = top_processes(&readings.processes);
        self.tracked_pids = process_ids(&process_info);
        if first {
            self.refresh_cycle = 1;
        }
        let chassis_info: Vec<ChassisInfo> = inject_gpu_power(
            readings.chassis_info,
            readings.gpu.gpu_info.as_slice(),
        );
        CollectionData {
            gpu_info: readings.gpu.gpu_info,
            cpu_info: readings.cpu_info,
            memory_info: readings.memory_info,
            process_info,
            storage_info: readings.storage_info,
            chassis_info,
            vgpu_info: readings.gpu.vgpu_info,
            mig_info: readings.gpu.mig_info,
            connection_statuses: Vec::new(),
            remote_process_info: Vec::new(),
            host_probes: Vec::new(),
        }
    }
}

/// The number of the cycle after `c`.
pub open spec fn next_cycle(c: u32) -> u32 {
    if c == u32::MAX {
        0
    } else {
        (c + 1) as u32
    }
}

/// The number of the cycle `k` cycles after `c`.
pub open spec fn cycle_after(c: u32, k: nat) -> u32
    decreases k,
{
    if k == 0 {
        c
    } else {
        cycle_after(next_cycle(c), (k - 1) as nat)
    }
}

/// Among any [`FULL_REFRESH_INTERVAL`] cycles in a row one refreshes every
/// process, also where the counter starts again.
pub proof fn a_full_refresh_comes_round(c: u32)
    ensures
        exists|k: nat|
            k < FULL_REFRESH_INTERVAL && #[trigger] cycle_after(c, k) % FULL_REFRESH_INTERVAL
                == 0,
{
    reveal_with_fuel(cycle_after, 6);
    let k: nat = ((5 - c % 5) % 5) as nat;
    assert(u32::MAX % 5 == 0);
    assert(c + k <= u32::MAX);
    assert(cycle_after(c, k) == c + k);
    assert((c + k) % 5 == 0);
    assert(cycle_after(c, k) % FULL_REFRESH_INTERVAL == 0);
}

fn copy_pids(v: &Vec<u32>) -> (r: Vec<u32>)
    ensures
        r@ == v@,
{
    let mut r: Vec<u32> = Vec::new();
    let mut i: usize = 0;
    while i < v.len()
        invariant
            i <= v@.len(),
            r@ == v@.take(i as int),
        decreases v@.len() - i,
    {
        r.push(v[i]);
        assert(v@.take(i + 1) == v@.take(i as int).push(v@[i as int]));
        i = i + 1;
    }
    assert(v@.take(v@.len() as int) == v@);
    r
}

fn process_ids(v: &Vec<ProcessInfo>) -> (r: Vec<u32>)
    ensures
        r@ == pids_of(v@),
{
    let mut r: Vec<u32> = Vec::new();
    let mut i: usize = 0;
    while i < v.len()
        invariant
            i <= v@.len(),
            r@ == pids_of(v@).take(i as int),
        decreases v@.len() - i,
    {
        r.push(v[i].pid);
        assert(pids_of(v@).take(i + 1) == pids_of(v@).take(i as int).push(v@[i as int].pid));
        i = i + 1;
    }
    assert(pids_of(v@).take(v@.len() as int) == pids_of(v@));
    r
}

/// What is logged of a group whose reading failed. The cycle goes on with
/// nothing read of it.
pub fn group_failure(group: &str, error: &str) -> (r: String)
    ensures
        r@ == "Warning: "@ + group@ + " collection task failed: "@ + error@,
{
    concat4("Warning: ", group, " collection task failed: ", error)
}

/// How many lines stand before those of the groups on the startup screen.
pub const PREAMBLE_LINES: usize = 3;

/// The readers that are set up before the first collection.
#[derive(Clone, Copy, Debug, PartialEq, Eq, Structural)]
pub enum ReaderKind {
    Cpu,
    Gpu,
    Memory,
}

impl ReaderKind {
    /// What the startup screen says while these readers are set up.
    pub open spec fn notice(self) -> Seq<char> {
        match self {
            ReaderKind::Cpu => "✓ Initializing CPU readers..."@,
            ReaderKind::Gpu => "✓ Initializing GPU readers..."@,
            ReaderKind::Memory => "✓ Initializing memory readers..."@,
        }
    }

    /// The line on the startup screen.
    pub fn line(self) -> (r: &'static str)
        ensures
            r@ == self.notice(),
    {
        match self {
            ReaderKind::Cpu => "✓ Initializing CPU readers...",
            ReaderKind::Gpu => "✓ Initializing GPU readers...",
            ReaderKind::Memory => "✓ Initializing memory readers...",
        }
    }
}

/// The groups that the first collection reads, each on its own.
#[derive(Clone, Copy, Debug, PartialEq, Eq, Structural)]
pub enum ReaderGroup {
    Gpu,
    Cpu,
    Memory,
    Processes,
    Storage,
}

impl ReaderGroup {
    /// What is said of a group that is being read.
    pub open spec fn pending(self) -> Seq<char> {
        match self {
            ReaderGroup::Gpu => "○ Collecting GPU information..."@,
            ReaderGroup::Cpu => "○ Collecting CPU information..."@,
            ReaderGroup::Memory => "○ Collecting memory information..."@,
            ReaderGroup::Processes => "○ Collecting process information..."@,
            ReaderGroup::Storage => "○ Collecting storage information..."@,
        }
    }

    /// What is said of a group that was read.
    pub open spec fn done(self) -> Seq<char> {
        match self {
            ReaderGroup::Gpu => "✓ GPU information collected"@,
            ReaderGroup::Cpu => "✓ CPU information collected"@,
            ReaderGroup::Memory => "✓ Memory information collected"@,
            ReaderGroup::Processes => "✓ Process information collected"@,
            ReaderGroup::Storage => "✓ Storage information collected"@,
        }
    }

    /// Its place among the groups.
    pub open spec fn place(self) -> int {
        match self {
            ReaderGroup::Gpu => 0,
            ReaderGroup::Cpu => 1,
            ReaderGroup::Memory => 2,
            ReaderGroup::Processes => 3,
            ReaderGroup::Storage => 4,
        }
    }

    /// Its place among the groups.
    pub fn index(self) -> (r: usize)
        ensures
            r == self.place(),
    {
        match self {
            ReaderGroup::Gpu => 0,
            ReaderGroup::Cpu => 1,
            ReaderGroup::Memory => 2,
            ReaderGroup::Processes => 3,
            ReaderGroup::Storage => 4,
        }
    }

    /// What is said of a group that was read.
    pub fn collected(self) -> (r: &'static str)
        ensures
            r@ == self.done(),
    {
        match self {
            ReaderGroup::Gpu => "✓ GPU information collected",
            ReaderGroup::Cpu => "✓ CPU information collected",
            ReaderGroup::Memory => "✓ Memory information collected",
            ReaderGroup::Processes => "✓ Process information collected",
            ReaderGroup::Storage => "✓ Storage information collected",
        }
    }
}

/// The lines of the groups before any was read.
pub open spec fn pending_lines() -> Seq<Seq<char>> {
    seq![
        ReaderGroup::Gpu.pending(),
        ReaderGroup::Cpu.pending(),
        ReaderGroup::Memory.pending(),
        ReaderGroup::Processes.pending(),
        ReaderGroup::Storage.pending(),
    ]
}

/// The lines of the readers being set up.
pub open spec fn preamble() -> Seq<Seq<char>> {
    seq![ReaderKind::Cpu.notice(), ReaderKind::Gpu.notice(), ReaderKind::Memory.notice()]
}

/// The startup screen after the status of the group at `index` changed.
pub open spec fn status_changed(
    lines: Seq<Seq<char>>,
    index: int,
    message: Seq<char>,
) -> Seq<Seq<char>> {
    if PREAMBLE_LINES + index < lines.len() {
        lines.update(PREAMBLE_LINES + index, message)
    } else {
        lines
    }
}

/// Says on the startup screen that these readers are being set up.
pub fn announce_readers(lines: &mut Vec<String>, kind: ReaderKind)
    ensures
        texts(final(lines)@) == texts(old(lines)@).push(kind.notice()),
{
    lines.push(copied(kind.line()));
    assert(texts(lines@) == texts(old(lines)@).push(kind.notice()));
}

/// Says on the startup screen that every group is being read.
pub fn announce_groups(lines: &mut Vec<String>)
    ensures
        texts(final(lines)@) == texts(old(lines)@) + pending_lines(),
{
    lines.push(copied("○ Collecting GPU information..."));
    lines.push(copied("○ Collecting CPU information..."));
    lines.push(copied("○ Collecting memory information..."));
    lines.push(copied("○ Collecting process information..."));
    lines.push(copied("○ Collecting storage information..."));
    assert(texts(lines@) == texts(old(lines)@) + pending_lines());
}

/// Puts the status of the group at `index` on its line. On a screen with fewer
/// lines nothing changes.
pub fn set_status(lines: &mut Vec<String>, index: usize, message: String)
    requires
        PREAMBLE_LINES + index <= usize::MAX,
    ensures
        texts(final(lines)@) == status_changed(texts(old(lines)@), index as int, message@),
{
    let slot: usize = PREAMBLE_LINES + index;
    if slot < lines.len() {
        lines.set(slot, message);
    }
    assert(texts(lines@) == status_changed(texts(old(lines)@), index as int, message@));
}

/// On the screen that the start puts up, the status of a group replaces the
/// line that announced it, and no other.
pub proof fn a_status_lands_on_its_line(group: ReaderGroup)
    ensures
        ({
            let screen = preamble() + pending_lines();
            let after = status_changed(screen, group.place(), group.done());
            &&& screen[PREAMBLE_LINES + group.place()] == group.pending()
            &&& after == screen.update(PREAMBLE_LINES + group.place(), group.done())
        }),
{
}

/// Devices with one of them brought up to date: the first of the same UUID.
pub open spec fn with_device(known: Seq<GpuInfo>, new: GpuInfo) -> Seq<GpuInfo>
    decreases known.len(),
{
    if known.len() == 0 {
        known
    } else if known[0].uuid@ == new.uuid@ {
        known.update(0, new)
    } else {
        seq![known[0]] + with_device(known.drop_first(), new)
    }
}

/// Devices brought up to date one by one.
pub open spec fn with_devices(known: Seq<GpuInfo>, new: Seq<GpuInfo>) -> Seq<GpuInfo>
    decreases new.len(),
{
    if new.len() == 0 {
        known
    } else {
        with_devices(with_device(known, new[0]), new.drop_first())
    }
}

/// The devices after a collection. Those of the first are all taken; later
/// ones only bring up to date those that are known.
pub open spec fn refreshed_devices(known: Seq<GpuInfo>, new: Seq<GpuInfo>) -> Seq<GpuInfo> {
    if known.len() == 0 {
        new
    } else {
        with_devices(known, new)
    }
}

proof fn device_found(known: Seq<GpuInfo>, new: GpuInfo, at: int)
    requires
        0 <= at <= known.len(),
        forall|j: int| 0 <= j < at ==> (#[trigger] known[j]).uuid@ != new.uuid@,
        at < known.len() ==> known[at].uuid@ == new.uuid@,
    ensures
        with_device(known, new) == if at < known.len() {
            known.update(at, new)
        } else {
            known
        },
    decreases known.len(),
{
    if known.len() > 0 && known[0].uuid@ != new.uuid@ {
        let rest = known.drop_first();
        assert forall|j: int| 0 <= j < at - 1 implies (#[trigger] rest[j]).uuid@ != new.uuid@ by {
            assert(rest[j] == known[j + 1]);
        }
        if at < known.len() {
            assert(rest[at - 1] == known[at]);
        }
        device_found(rest, new, at - 1);
        let r = with_device(known, new);
        assert(r == if at < known.len() {
            known.update(at, new)
        } else {
            known
        });
    }
}

/// Brings devices up to date.
pub fn refresh_devices(known: Vec<GpuInfo>, new: Vec<GpuInfo>) -> (r: Vec<GpuInfo>)
    ensures
        r@ == refreshed_devices(known@, new@),
{
    if known.len() == 0 {
        return new;
    }
    let mut r: Vec<GpuInfo> = known;
    let mut left: Vec<GpuInfo> = new;
    while left.len() > 0
        invariant
            with_devices(r@, left@) == with_devices(known@, new@),
        decreases left@.len(),
    {
        let ghost before = r@;
        let ghost rest = left@.drop_first();
        let x: GpuInfo = left.remove(0);
        assert(left@ == rest);
        let mut at: usize = 0;
        while at < r.len() && !same(r[at].uuid.as_str(), x.uuid.as_str())
            invariant
                at <= r@.len(),
                forall|j: int| 0 <= j < at ==> (#[trigger] r@[j]).uuid@ != x.uuid@,
            decreases r@.len() - at,
        {
            at = at + 1;
        }
        proof {
            device_found(before, x, at as int);
        }
        if at < r.len() {
            r.set(at, x);
        }
    }
    r
}

/// After a collection the same devices stand in the same places.
pub proof fn known_devices_keep_their_places(known: Seq<GpuInfo>, new: Seq<GpuInfo>)
    requires
        known.len() > 0,
    ensures
        refreshed_devices(known, new).len() == known.len(),
        forall|i: int|
            0 <= i < known.len() ==> (#[trigger] refreshed_devices(known, new)[i]).uuid@
                == known[i].uuid@,
    decreases new.len(),
{
    if new.len() > 0 {
        let next = with_device(known, new[0]);
        one_device_keeps_places(known, new[0]);
        known_devices_keep_their_places(next, new.drop_first());
    }
}

proof fn one_device_keeps_places(known: Seq<GpuInfo>, new: GpuInfo)
    ensures
        with_device(known, new).len() == known.len(),
        forall|i: int|
            0 <= i < known.len() ==> (#[trigger] with_device(known, new)[i]).uuid@
                == known[i].uuid@,
    decreases known.len(),
{
    if known.len() > 0 && known[0].uuid@ != new.uuid@ {
        let rest = known.drop_first();
        one_device_keeps_places(rest, new);
        let r = with_device(known, new);
        assert forall|i: int| 0 <= i < known.len() implies (#[trigger] r[i]).uuid@
            == known[i].uuid@ by {
            if i > 0 {
                assert(r[i] == with_device(rest, new)[i - 1]);
                assert(rest[i - 1] == known[i]);
            }
        }
    }
}

/// What the drivers of the local devices say of themselves, where they say
/// something and such devices are present.
#[derive(Clone, Debug, PartialEq, Eq)]
pub struct DriverMessages {
    pub nvml: Option<String>,
    pub tenstorrent: Option<String>,
    pub tpu: Option<String>,
}

/// Something to tell the user.
#[derive(Clone, Debug, PartialEq, Eq)]
pub enum Notice {
    Status(String),
    Warning(String),
    Error(String),
}

/// What is told, by its text.
pub enum NoticeModel {
    Status(Seq<char>),
    Warning(Seq<char>),
    Error(Seq<char>),
}

impl View for Notice {
    type V = NoticeModel;

    open spec fn view(&self) -> NoticeModel {
        match self {
            Notice::Status(m) => NoticeModel::Status(m@),
            Notice::Warning(m) => NoticeModel::Warning(m@),
            Notice::Error(m) => NoticeModel::Error(m@),
        }
    }
}

/// What is told of a list of notices.
pub open spec fn notices_of(v: Seq<Notice>) -> Seq<NoticeModel> {
    v.map_values(|n: Notice| n@)
}

/// Whether a message of the TPU driver says that it failed.
pub open spec fn says_failed(m: Seq<char>) -> bool {
    occurs(m, "failed"@) || occurs(m, "error"@)
}

/// A warning that is given once.
pub open spec fn warned_once(message: Option<String>, shown: bool) -> Seq<NoticeModel> {
    match message {
        Some(m) => if shown {
            seq![]
        } else {
            seq![NoticeModel::Warning(m@)]
        },
        None => seq![],
    }
}

/// What is told of the TPU driver: that it initializes, as often as it says so;
/// that it failed, once.
pub open spec fn tpu_notice(message: Option<String>, shown: bool) -> Seq<NoticeModel> {
    match message {
        Some(m) => if occurs(m@, "Initializing"@) {
            seq![NoticeModel::Status(m@)]
        } else if says_failed(m@) && !shown {
            seq![NoticeModel::Error(m@)]
        } else {
            seq![]
        },
        None => seq![],
    }
}

/// Whether the failure of the TPU driver counts as told from now on.
pub open spec fn tpu_told(message: Option<String>, shown: bool) -> bool {
    match message {
        Some(m) => shown || (!occurs(m@, "Initializing"@) && says_failed(m@)),
        None => shown,
    }
}

/// Decides what to tell the user of the drivers, and remembers what was told.
pub fn update_notifications(state: &mut AppState, drivers: DriverMessages) -> (r: Vec<Notice>)
    ensures
        notices_of(r@) == warned_once(drivers.nvml, old(state).nvml_notification_shown)
            + warned_once(drivers.tenstorrent, old(state).tenstorrent_notification_shown)
            + tpu_notice(drivers.tpu, old(state).tpu_notification_shown),
        *final(state) == (AppState {
            nvml_notification_shown: old(state).nvml_notification_shown || drivers.nvml is Some,
            tenstorrent_notification_shown: old(state).tenstorrent_notification_shown
                || drivers.tenstorrent is Some,
            tpu_notification_shown: tpu_told(drivers.tpu, old(state).tpu_notification_shown),
            ..*old(state)
        }),
{
    let mut r: Vec<Notice> = Vec::new();
    let ghost nvml = warned_once(drivers.nvml, old(state).nvml_notification_shown);
    let ghost tenstorrent = warned_once(
        drivers.tenstorrent,
        old(state).tenstorrent_notification_shown,
    );
    if let Some(m) = drivers.nvml {
        if !state.nvml_notification_shown {
            r.push(Notice::Warning(m));
            state.nvml_notification_shown = true;
        }
    }
    assert(notices_of(r@) == nvml);
    if let Some(m) = drivers.tenstorrent {
        if !state.tenstorrent_notification_shown {
            r.push(Notice::Warning(m));
            state.tenstorrent_notification_shown = true;
        }
    }
    assert(notices_of(r@) == nvml + tenstorrent);
    if let Some(m) = drivers.tpu {
        proof {
            reveal_strlit("Initializing");
            reveal_strlit("failed");
            reveal_strlit("error");
        }
        if holds_text(m.as_str(), "Initializing") {
            r.push(Notice::Status(m));
        } else if (holds_text(m.as_str(), "failed") || holds_text(m.as_str(), "error"))
            && !state.tpu_notification_shown {
            r.push(Notice::Error(m));
            state.tpu_notification_shown = true;
        }
    }
    assert(notices_of(r@) == nvml + tenstorrent + tpu_notice(
        drivers.tpu,
        old(state).tpu_notification_shown,
    ));
    r
}

/// A warning and a failure are told once: of what was told, nothing more.
pub proof fn what_was_told_is_not_repeated(message: Option<String>, shown: bool)
    ensures
        message is Some ==> warned_once(message, shown || message is Some).len() == 0,
        message is Some && !occurs(message->0@, "Initializing"@) ==> tpu_notice(
            message,
            tpu_told(message, shown),
        ).len() == 0,
{
}

/// Whether some device is on this host.
pub open spec fn runs_device(gpus: Seq<GpuInfo>, host: Seq<char>) -> bool {
    exists|i: int| 0 <= i < gpus.len() && (#[trigger] gpus[i]).host_id@ == host
}

/// Whether `tabs` are those of these devices: "All", and each host once, in the
/// order of their names; this host where there are no devices.
pub open spec fn tabs_of(tabs: Seq<Seq<char>>, gpus: Seq<GpuInfo>, hostname: Seq<char>) -> bool {
    let hosts = tabs.skip(1);
    &&& tabs.len() > 0
    &&& tabs[0] == "All"@
    &&& rising(hosts)
    &&& forall|h: Seq<char>|
        hosts.contains(h) <==> #[trigger] runs_device(gpus, h) || (gpus.len() == 0 && h
            == hostname)
}

/// Adds a name in its place, where it is not there yet.
fn add_name(names: &mut Vec<String>, name: &str)
    requires
        rising(texts(old(names)@)),
    ensures
        rising(texts(final(names)@)),
        forall|h: Seq<char>| #[trigger]
            texts(final(names)@).contains(h) <==> texts(old(names)@).contains(h) || h == name@,
{
    let ghost before = texts(names@);
    let mut at: usize = 0;
    while at < names.len() && comes_before(names[at].as_str(), name)
        invariant
            at <= names@.len(),
            before == texts(names@),
            forall|j: int| 0 <= j < at ==> precedes(#[trigger] before[j], name@),
        decreases names@.len() - at,
    {
        at = at + 1;
    }
    if at < names.len() && same(names[at].as_str(), name) {
        assert(before[at as int] == name@);
        return ;
    }
    names.insert(at, copied(name));
    proof {
        let after = texts(names@);
        assert(after == before.insert(at as int, name@));
        if at < before.len() {
            precedes_is_total(before[at as int], name@);
            assert(precedes(name@, before[at as int]));
        }
        assert forall|i: int, j: int| 0 <= i < j < after.len() implies precedes(
            #[trigger] after[i],
            #[trigger] after[j],
        ) by {
            if j < at {
                assert(after[i] == before[i] && after[j] == before[j]);
            } else if j == at {
                assert(after[i] == before[i]);
            } else if i < at {
                assert(after[i] == before[i] && after[j] == before[j - 1]);
            } else if i == at {
                assert(after[j] == before[j - 1]);
                if j - 1 > at {
                    precedes_is_transitive(name@, before[at as int], before[j - 1]);
                }
            } else {
                assert(after[i] == before[i - 1] && after[j] == before[j - 1]);
            }
        }
        assert forall|h: Seq<char>| #[trigger] after.contains(h) <==> before.contains(h) || h
            == name@ by {
            if after.contains(h) {
                let i = choose|i: int| 0 <= i < after.len() && after[i] == h;
                if i < at {
                    assert(before[i] == h);
                } else if i > at {
                    assert(before[i - 1] == h);
                }
            }
            if before.contains(h) {
                let i = choose|i: int| 0 <= i < before.len() && before[i] == h;
                if i < at {
                    assert(after[i] == h);
                } else {
                    assert(after[i + 1] == h);
                }
            }
            assert(after[at as int] == name@);
        }
    }
}

/// The tabs of the local view.
pub fn local_tabs(gpu_info: &[GpuInfo], hostname: &str) -> (r: Vec<String>)
    ensures
        tabs_of(texts(r@), gpu_info@, hostname@),
{
    let mut names: Vec<String> = Vec::new();
    let mut i: usize = 0;
    while i < gpu_info.len()
        invariant
            i <= gpu_info@.len(),
            rising(texts(names@)),
            forall|h: Seq<char>| #[trigger]
                texts(names@).contains(h) <==> runs_device(gpu_info@.take(i as int), h),
        decreases gpu_info@.len() - i,
    {
        let ghost before = texts(names@);
        add_name(&mut names, gpu_info[i].host_id.as_str());
        proof {
            let now = gpu_info@.take(i + 1);
            let then = gpu_info@.take(i as int);
            assert forall|h: Seq<char>| #[trigger]
                texts(names@).contains(h) <==> runs_device(now, h) by {
                if texts(names@).contains(h) {
                    if before.contains(h) {
                        assert(runs_device(then, h));
                        let k = choose|k: int|
                            0 <= k < then.len() && (#[trigger] then[k]).host_id@ == h;
                        assert(now[k] == then[k]);
                    } else {
                        assert(now[i as int].host_id@ == h);
                    }
                }
                if runs_device(now, h) {
                    let k = choose|k: int| 0 <= k < now.len() && (#[trigger] now[k]).host_id@ == h;
                    if k < i {
                        assert(then[k] == now[k]);
                        assert(before.contains(h));
                    }
                }
            }
        }
        i = i + 1;
    }
    assert(gpu_info@.take(gpu_info@.len() as int) == gpu_info@);
    if gpu_info.len() == 0 {
        add_name(&mut names, hostname);
    }
    let mut r: Vec<String> = Vec::new();
    r.push(copied("All"));
    let ghost hosts = texts(names@);
    r.append(&mut names);
    proof {
        assert(texts(r@).skip(1) == hosts);
        assert forall|h: Seq<char>|
            hosts.contains(h) <==> #[trigger] runs_device(gpu_info@, h) || (gpu_info@.len() == 0
                && h == hostname@) by {
            if gpu_info@.len() == 0 {
                assert(!runs_device(gpu_info@, h));
            }
        }
    }
    r
}

/// Takes a finished collection into the state of the local view, and says what
/// to tell the user. The processes of the collection stand in the order in
/// which they are shown.
pub fn update_state(
    state: &mut AppState,
    data: CollectionData,
    drivers: DriverMessages,
    hostname: &str,
) -> (r: Vec<Notice>)
    ensures
        final(state).gpu_info@ == refreshed_devices(old(state).gpu_info@, data.gpu_info@),
        tabs_of(texts(final(state).tabs@), final(state).gpu_info@, hostname@),
        *final(state) == (AppState {
            gpu_info: final(state).gpu_info,
            cpu_info: data.cpu_info,
            memory_info: data.memory_info,
            process_info: data.process_info,
            storage_info: data.storage_info,
            chassis_info: data.chassis_info,
            vgpu_info: data.vgpu_info,
            mig_info: data.mig_info,
            tabs: final(state).tabs,
            loading: false,
            nvml_notification_shown: old(state).nvml_notification_shown || drivers.nvml is Some,
            tenstorrent_notification_shown: old(state).tenstorrent_notification_shown
                || drivers.tenstorrent is Some,
            tpu_notification_shown: tpu_told(drivers.tpu, old(state).tpu_notification_shown),
            ..*old(state)
        }),
        notices_of(r@) == warned_once(drivers.nvml, old(state).nvml_notification_shown)
            + warned_once(drivers.tenstorrent, old(state).tenstorrent_notification_shown)
            + tpu_notice(drivers.tpu, old(state).tpu_notification_shown),
{
    let mut known: Vec<GpuInfo> = Vec::new();
    std::mem::swap(&mut known, &mut state.gpu_info);
    state.gpu_info = refresh_devices(known, data.gpu_info);
    state.cpu_info = data.cpu_info;
    state.memory_info = data.memory_info;
    state.process_info = data.process_info;
    state.storage_info = data.storage_info;
    state.chassis_info = data.chassis_info;
    state.vgpu_info = data.vgpu_info;
    state.mig_info = data.mig_info;
    let notices: Vec<Notice> = update_notifications(state, drivers);
    state.tabs = local_tabs(state.gpu_info.as_slice(), hostname);
    state.loading = false;
    notices
}

} // verus!
