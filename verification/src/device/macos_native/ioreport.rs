//! Performance metrics of Apple Silicon: which cluster a channel belongs to,
//! the clock tables that its states are joined with, and the averages over them.
//!
//! Performance-state channels report residency per state name (`IDLE`, `V0P14`,
//! `P3`, ...), never a clock. The `voltage-states*` properties of the power
//! manager are the only place the matching megahertz values live, so a
//! residency histogram is joined against one of these tables.
use vstd::prelude::*;
use vstd::string::*;

use crate::device::macos_native::energy::{
    classify_energy_channel, rail_of, EnergyObservation, EnergyReadings,
};
use crate::order::{
    in_order, insert_sorted, insertion_keeps_order, lemma_insert_at, orders,
};
use crate::reading::{Reading, SIGN};
use crate::table::{entry_of, find_entry};
use crate::text::{
    all_digits, begins, begins_with, chars_of, comes_before, copied, digit, ends, ends_with,
    holds_text, is_digit, number, occurs, parse_unsigned, precedes, precedes_is_strict,
    precedes_is_total, precedes_is_transitive, same, text_between, trim_range,
    trimmed, unsigned,
};

verus! {

/// Minimum plausible clock in Hz (100 MHz).
pub const MIN_FREQ_HZ: u64 = 100_000_000;

/// Maximum plausible clock in Hz (6 GHz).
pub const MAX_FREQ_HZ: u64 = 6_000_000_000;

/// Range of the 32-bit hertz field, used to undo wraparound.
pub const U32_SPAN_HZ: u64 = 0x1_0000_0000;

/// A wrapped entry can only follow one already near the 32-bit ceiling, so wrap
/// correction is applied only from here on.
pub const WRAP_GUARD_HZ: u64 = 4_000_000_000;

/// Maximum number of frequency entries to parse.
pub const MAX_FREQ_ENTRIES: usize = 64;

/// Bytes of one table entry: hertz, then the voltage.
pub const ENTRY_BYTES: usize = 8;

/// Offset of the publication timestamp inside a raw element.
pub const RAW_ELEMENT_TIMESTAMP_OFFSET: usize = 24;

/// Shortest interval that is turned into a delta, in nanoseconds. Residency
/// over a window this short is dominated by sampling jitter.
pub const MIN_DELTA_WINDOW_NS: u64 = 50_000_000;

pub const ENERGY_MODEL: &'static str = "Energy Model";

pub const CPU_STATS: &'static str = "CPU Stats";

pub const CPU_PERF_STATES: &'static str = "CPU Core Performance States";

pub const GPU_STATS: &'static str = "GPU Stats";

pub const GPU_PERF_STATES: &'static str = "GPU Performance States";

pub const GPU_CHANNEL: &'static str = "GPUPH";

/// A table of the power manager: its property name and its clocks in MHz.
pub type ClockTable = (String, Vec<u32>);

/// The little-endian number in four bytes from `at` on.
pub open spec fn little32(bytes: Seq<u8>, at: int) -> nat {
    (bytes[at] + 0x100 * bytes[at + 1] + 0x1_0000 * bytes[at + 2] + 0x100_0000 * bytes[at
        + 3]) as nat
}

/// The clock of an entry that follows one of `previous` hertz. Clocks above
/// 4.295 GHz do not fit the 32-bit field and wrap to a small value; tables
/// ascend, so a value that drops right after an entry near the ceiling is a
/// wrap.
pub open spec fn unwrapped(raw: nat, previous: nat) -> nat {
    if previous >= WRAP_GUARD_HZ && raw < previous {
        raw + U32_SPAN_HZ as nat
    } else {
        raw
    }
}

/// The clocks of the first `n` entries in MHz, and the last accepted one in
/// hertz. Entries outside a plausible range are dropped, which keeps payloads
/// of clock periods or state indices from being mistaken for clocks.
pub open spec fn clocks_of(bytes: Seq<u8>, n: nat) -> (Seq<u32>, nat)
    decreases n,
{
    if n == 0 {
        (seq![], 0)
    } else {
        let (before, previous) = clocks_of(bytes, (n - 1) as nat);
        let hz = unwrapped(little32(bytes, (n - 1) * ENTRY_BYTES), previous);
        if MIN_FREQ_HZ <= hz <= MAX_FREQ_HZ {
            (before.push((hz / 1_000_000) as u32), hz)
        } else {
            (before, previous)
        }
    }
}

/// How many entries are read.
pub open spec fn entry_count(len: nat) -> nat {
    if len / ENTRY_BYTES as nat > MAX_FREQ_ENTRIES {
        MAX_FREQ_ENTRIES as nat
    } else {
        len / ENTRY_BYTES as nat
    }
}

/// Parse a `voltage-states*` payload into MHz values. Each entry is 8 bytes; the
/// first 4 are the frequency in hertz as a little-endian number, the rest is the
/// matching voltage.
pub fn parse_voltage_states_bytes(bytes: &[u8]) -> (r: Vec<u32>)
    ensures
        r@ == clocks_of(bytes@, entry_count(bytes@.len())).0,
{
    let whole: usize = bytes.len() / ENTRY_BYTES;
    let count: usize = if whole > MAX_FREQ_ENTRIES {
        MAX_FREQ_ENTRIES
    } else {
        whole
    };
    let mut clocks: Vec<u32> = Vec::new();
    // Rejected entries do not advance this, so a table of other data never arms
    // the wrap correction.
    let mut previous: u64 = 0;
    let mut i: usize = 0;
    while i < count
        invariant
            i <= count <= MAX_FREQ_ENTRIES,
            count * ENTRY_BYTES <= bytes@.len(),
            previous <= MAX_FREQ_HZ,
            (clocks@, previous as nat) == clocks_of(bytes@, i as nat),
        decreases count - i,
    {
        let at: usize = i * ENTRY_BYTES;
        let raw: u64 = bytes[at] as u64 + 0x100 * bytes[at + 1] as u64 + 0x1_0000
            * bytes[at + 2] as u64 + 0x100_0000 * bytes[at + 3] as u64;
        let hz: u64 = if previous >= WRAP_GUARD_HZ && raw < previous {
            raw + U32_SPAN_HZ
        } else {
            raw
        };
        assert(hz == unwrapped(little32(bytes@, i * ENTRY_BYTES), previous as nat));
        if MIN_FREQ_HZ <= hz && hz <= MAX_FREQ_HZ {
            previous = hz;
            clocks.push((hz / 1_000_000) as u32);
        }
        i = i + 1;
    }
    clocks
}

/// Whether a node of the device tree carries the clock tables.
pub fn is_clock_node(name: &str) -> (r: bool)
    ensures
        r == (name@ == "pmgr"@ || name@ == "clpc"@),
{
    same(name, "pmgr") || same(name, "clpc")
}

/// What a list of tables holds.
pub open spec fn tables_of(v: Seq<ClockTable>) -> Seq<(Seq<char>, Seq<u32>)> {
    v.map_values(|t: ClockTable| (t.0@, t.1@))
}

/// Whether the name of `a` comes before that of `b`.
pub open spec fn named_before() -> spec_fn((Seq<char>, Seq<u32>), (Seq<char>, Seq<u32>)) -> bool {
    |a: (Seq<char>, Seq<u32>), b: (Seq<char>, Seq<u32>)| precedes(a.0, b.0)
}

/// The tables among the first `n` properties: those by the right name that hold
/// any clock, in the order of their names.
pub open spec fn tables_in(properties: Seq<(String, Vec<u8>)>, n: nat) -> Seq<
    (Seq<char>, Seq<u32>),
>
    decreases n,
{
    if n == 0 {
        seq![]
    } else {
        let before = tables_in(properties, (n - 1) as nat);
        let (name, bytes) = properties[n - 1];
        let clocks = clocks_of(bytes@, entry_count(bytes@.len())).0;
        if begins(name@, "voltage-states"@) && clocks.len() > 0 {
            insert_sorted(before, (name@, clocks), named_before())
        } else {
            before
        }
    }
}

fn insert_table(out: &mut Vec<ClockTable>, name: &str, clocks: Vec<u32>)
    ensures
        tables_of(final(out)@) == insert_sorted(
            tables_of(old(out)@),
            (name@, clocks@),
            named_before(),
        ),
{
    let ghost before = tables_of(out@);
    let ghost new = (name@, clocks@);
    let mut at: usize = out.len();
    while at > 0
        invariant_except_break
            at <= out@.len(),
            out@ == old(out)@,
            before == tables_of(out@),
            new == (name@, clocks@),
            forall|j: int| at <= j < before.len() ==> #[trigger] named_before()(new, before[j]),
        ensures
            at <= out@.len(),
            out@ == old(out)@,
            before == tables_of(out@),
            forall|j: int| at <= j < before.len() ==> #[trigger] named_before()(new, before[j]),
            at > 0 ==> !named_before()(new, before[at - 1]),
        decreases at,
    {
        assert(before[at - 1].0 == out@[at - 1].0@);
        if !comes_before(name, out[at - 1].0.as_str()) {
            break ;
        }
        at = at - 1;
    }
    proof {
        lemma_insert_at(before, new, named_before(), at as int);
    }
    out.insert(at, (copied(name), clocks));
    assert(tables_of(out@) == before.insert(at as int, new));
}

/// Collect every `voltage-states*` property of a node that parses to clocks,
/// sorted by name so that selection does not depend on the order in which the
/// properties come.
pub fn extract_voltage_state_tables(properties: &[(String, Vec<u8>)]) -> (r: Vec<ClockTable>)
    ensures
        tables_of(r@) == tables_in(properties@, properties@.len()),
{
    let mut out: Vec<ClockTable> = Vec::new();
    let mut i: usize = 0;
    assert(tables_of(out@) == Seq::<(Seq<char>, Seq<u32>)>::empty());
    while i < properties.len()
        invariant
            i <= properties@.len(),
            tables_of(out@) == tables_in(properties@, i as nat),
        decreases properties@.len() - i,
    {
        let name: &str = properties[i].0.as_str();
        let c: Vec<char> = chars_of(name);
        if begins_with(c.as_slice(), "voltage-states") {
            let clocks: Vec<u32> = parse_voltage_states_bytes(properties[i].1.as_slice());
            if clocks.len() > 0 {
                insert_table(&mut out, name, clocks);
            }
        }
        i = i + 1;
    }
    out
}

/// Which CPU cluster a performance-state channel belongs to.
#[derive(Debug, Clone, Copy, PartialEq, Eq, Structural)]
pub enum CpuCluster {
    /// M5 Pro/Max "Super" cores.
    Super,
    Efficiency,
    Performance,
}

/// How many digits `s` begins with.
pub open spec fn leading_digits(s: Seq<char>) -> nat
    decreases s.len(),
{
    if s.len() > 0 && is_digit(s[0]) {
        1 + leading_digits(s.drop_first())
    } else {
        0
    }
}

/// A channel name without `DIE_<n>_` in front.
pub open spec fn without_die(channel: Seq<char>) -> Seq<char> {
    if begins(channel, "DIE_"@) {
        let rest = channel.skip(4);
        let n = leading_digits(rest);
        if n > 0 && n < rest.len() && rest[n as int] == '_' {
            rest.skip(n as int + 1)
        } else {
            channel
        }
    } else {
        channel
    }
}

/// Strip the `DIE_<n>_` prefix that multi-die packages put on every channel, so
/// that one set of rules covers them and single-die parts.
pub fn strip_die_prefix(channel: &str) -> (r: String)
    ensures
        r@ == without_die(channel@),
{
    let c: Vec<char> = chars_of(channel);
    let len: usize = c.len();
    if !begins_with(c.as_slice(), "DIE_") {
        return copied(channel);
    }
    proof {
        reveal_strlit("DIE_");
    }
    let ghost rest = c@.skip(4);
    let mut i: usize = 4;
    assert(rest.skip(0) == rest);
    while i < len && digit(c[i])
        invariant
            4 <= i <= len,
            len == c@.len(),
            rest == c@.skip(4),
            leading_digits(rest) == (i - 4) + leading_digits(rest.skip(i - 4)),
        decreases len - i,
    {
        assert(rest.skip(i - 4)[0] == c@[i as int]);
        assert(rest.skip(i - 4).drop_first() == rest.skip(i - 4 + 1));
        i = i + 1;
    }
    assert(i < len ==> rest.skip(i - 4)[0] == c@[i as int]);
    if i > 4 && i < len && c[i] == '_' {
        assert(rest[i - 4] == c@[i as int]);
        assert(c@.subrange(i + 1, len as int) == rest.skip(i - 4 + 1));
        text_between(c.as_slice(), i + 1, len)
    } else {
        copied(channel)
    }
}

/// The cluster of a channel. M5 Pro/Max uses `MCPU0` for Super cores, `MCPU1`
/// for performance cluster 1, and `PCPU` for performance cluster 2; M1-M4 uses
/// `ECPU` for efficiency cores and `PCPU` for performance cores.
pub open spec fn cluster_of(channel: Seq<char>) -> Option<CpuCluster> {
    let name = without_die(channel);
    if begins(name, "MCPU0"@) {
        Some(CpuCluster::Super)
    } else if begins(name, "MCPU1"@) {
        Some(CpuCluster::Performance)
    } else if occurs(name, "ECPU"@) || begins(name, "E"@) {
        Some(CpuCluster::Efficiency)
    } else if occurs(name, "PCPU"@) || begins(name, "P"@) {
        Some(CpuCluster::Performance)
    } else {
        None
    }
}

/// Classify a performance-state channel into its cluster. `None` for channels
/// that do not name one, so that they are ignored rather than folded into the
/// wrong average.
pub fn classify_cpu_channel(channel: &str) -> (r: Option<CpuCluster>)
    ensures
        r == cluster_of(channel@),
{
    let name: String = strip_die_prefix(channel);
    let c: Vec<char> = chars_of(name.as_str());
    proof {
        reveal_strlit("ECPU");
        reveal_strlit("PCPU");
    }
    if begins_with(c.as_slice(), "MCPU0") {
        Some(CpuCluster::Super)
    } else if begins_with(c.as_slice(), "MCPU1") {
        Some(CpuCluster::Performance)
    } else if holds_text(name.as_str(), "ECPU") || begins_with(c.as_slice(), "E") {
        Some(CpuCluster::Efficiency)
    } else if holds_text(name.as_str(), "PCPU") || begins_with(c.as_slice(), "P") {
        Some(CpuCluster::Performance)
    } else {
        None
    }
}

/// Whether a state is one in which the block is not running.
pub open spec fn idle(name: Seq<char>) -> bool {
    occurs(name, "IDLE"@) || occurs(name, "OFF"@) || occurs(name, "DOWN"@)
}

/// Names of performance states in which the block is not running.
pub fn is_idle_state(name: &str) -> (r: bool)
    ensures
        r == idle(name@),
{
    proof {
        reveal_strlit("IDLE");
        reveal_strlit("OFF");
        reveal_strlit("DOWN");
    }
    holds_text(name, "IDLE") || holds_text(name, "OFF") || holds_text(name, "DOWN")
}

/// The highest of the first `n` clocks; the largest number there is of none.
pub open spec fn top_clock(clocks: Seq<u32>, n: nat) -> u32
    decreases n,
{
    if n == 0 {
        u32::MAX
    } else if n == 1 {
        clocks[0]
    } else {
        let before = top_clock(clocks, (n - 1) as nat);
        if clocks[n - 1] > before {
            clocks[n - 1]
        } else {
            before
        }
    }
}

/// The place of the table with the lowest highest clock among the first `n`,
/// the first of several.
pub open spec fn slowest_table(tables: Seq<ClockTable>, n: nat) -> nat
    decreases n,
{
    if n <= 1 {
        0
    } else {
        let before = slowest_table(tables, (n - 1) as nat);
        let a = tables[before as int].1@;
        let b = tables[n - 1].1@;
        if top_clock(b, b.len()) < top_clock(a, a.len()) {
            (n - 1) as nat
        } else {
            before
        }
    }
}

/// The clocks of the GPU: under the documented names, most specific first, else
/// the slowest table, because GPU clocks are the lowest that are published.
pub open spec fn gpu_clocks(tables: Seq<ClockTable>) -> Seq<u32> {
    match find_entry(tables, "voltage-states9-sram"@) {
        Some(t) => t@,
        None => match find_entry(tables, "voltage-states9"@) {
            Some(t) => t@,
            None => if tables.len() == 0 {
                seq![]
            } else {
                tables[slowest_table(tables, tables.len()) as int].1@
            },
        },
    }
}

fn copy_clocks(v: &Vec<u32>) -> (r: Vec<u32>)
    ensures
        r@ == v@,
{
    let mut r: Vec<u32> = Vec::new();
    let mut i: usize = 0;
    while i < v.len()
        invariant
            i <= v@.len(),
            r@ == v@.take(i as int),
        decreases v@.len() - i,
    {
        r.push(v[i]);
        assert(v@.take(i + 1) == v@.take(i as int).push(v@[i as int]));
        i = i + 1;
    }
    assert(v@.take(v@.len() as int) == v@);
    r
}

fn highest_clock(v: &Vec<u32>) -> (r: u32)
    ensures
        r == top_clock(v@, v@.len()),
{
    if v.len() == 0 {
        return u32::MAX;
    }
    let mut best: u32 = v[0];
    let mut i: usize = 1;
    while i < v.len()
        invariant
            1 <= i <= v@.len(),
            best == top_clock(v@, i as nat),
        decreases v@.len() - i,
    {
        if v[i] > best {
            best = v[i];
        }
        i = i + 1;
    }
    best
}

/// Pick the GPU performance-state table out of the tables.
pub fn select_gpu_frequency_table(tables: &[ClockTable]) -> (r: Vec<u32>)
    ensures
        r@ == gpu_clocks(tables@),
{
    if let Some(t) = entry_of(tables, "voltage-states9-sram") {
        return copy_clocks(t);
    }
    if let Some(t) = entry_of(tables, "voltage-states9") {
        return copy_clocks(t);
    }
    if tables.len() == 0 {
        return Vec::new();
    }
    let mut best: usize = 0;
    let mut i: usize = 1;
    while i < tables.len()
        invariant
            1 <= i <= tables@.len(),
            best < i,
            best == slowest_table(tables@, i as nat),
        decreases tables@.len() - i,
    {
        if highest_clock(&tables[i].1) < highest_clock(&tables[best].1) {
            best = i;
        }
        i = i + 1;
    }
    copy_clocks(&tables[best].1)
}

/// The documented names of a cluster's table, most specific first; none for the
/// Super cluster.
pub open spec fn table_names(cluster: CpuCluster) -> Option<(Seq<char>, Seq<char>)> {
    match cluster {
        CpuCluster::Efficiency => Some(("voltage-states1-sram"@, "voltage-states1"@)),
        CpuCluster::Performance => Some(("voltage-states5-sram"@, "voltage-states5"@)),
        CpuCluster::Super => None,
    }
}

/// The table by this name, where it has `count` entries.
pub open spec fn sized_entry(tables: Seq<ClockTable>, name: Seq<char>, count: nat) -> Option<
    Vec<u32>,
> {
    match find_entry(tables, name) {
        Some(t) => if t@.len() == count {
            Some(t)
        } else {
            None
        },
        None => None,
    }
}

/// The first table with `count` entries, of those whose name ends in `-sram` or
/// of all.
pub open spec fn table_of_size(tables: Seq<ClockTable>, count: nat, sram: bool) -> Option<Vec<u32>>
    decreases tables.len(),
{
    if tables.len() == 0 {
        None
    } else if tables[0].1@.len() == count && (!sram || ends(tables[0].0@, "-sram"@)) {
        Some(tables[0].1)
    } else {
        table_of_size(tables.drop_first(), count, sram)
    }
}

/// The first that there is.
pub open spec fn either<T>(a: Option<T>, b: Option<T>) -> Option<T> {
    if a is Some {
        a
    } else {
        b
    }
}

/// The table of a cluster whose histogram has `count` active states. A table is
/// only trustworthy when it has exactly one entry per active state; that count
/// also identifies the right table on chips that number their tables otherwise.
/// As a last resort the documented table is taken though its length disagrees.
pub open spec fn cluster_table(tables: Seq<ClockTable>, cluster: CpuCluster, count: nat) -> Option<
    Vec<u32>,
> {
    let by_size = if count > 0 {
        either(table_of_size(tables, count, true), table_of_size(tables, count, false))
    } else {
        None
    };
    match table_names(cluster) {
        Some((first, second)) => either(
            either(sized_entry(tables, first, count), sized_entry(tables, second, count)),
            either(by_size, either(find_entry(tables, first), find_entry(tables, second))),
        ),
        None => by_size,
    }
}

fn find_sized<'a>(tables: &'a [ClockTable], count: usize, sram: bool) -> (r: Option<&'a Vec<u32>>)
    ensures
        match r {
            Some(t) => table_of_size(tables@, count as nat, sram) == Some(*t),
            None => table_of_size(tables@, count as nat, sram) is None,
        },
{
    let mut i: usize = 0;
    assert(tables@.skip(0) == tables@);
    while i < tables.len()
        invariant
            i <= tables@.len(),
            table_of_size(tables@, count as nat, sram) == table_of_size(
                tables@.skip(i as int),
                count as nat,
                sram,
            ),
        decreases tables@.len() - i,
    {
        assert(tables@.skip(i as int)[0] == tables@[i as int]);
        let c: Vec<char> = chars_of(tables[i].0.as_str());
        if tables[i].1.len() == count && (!sram || ends_with(c.as_slice(), "-sram")) {
            return Some(&tables[i].1);
        }
        assert(tables@.skip(i as int).drop_first() == tables@.skip(i + 1));
        i = i + 1;
    }
    None
}

/// Pick the frequency table for a CPU cluster out of the tables.
pub fn select_cpu_frequency_table<'a>(
    tables: &'a [ClockTable],
    cluster: CpuCluster,
    active_states: usize,
) -> (r: Option<&'a Vec<u32>>)
    ensures
        match r {
            Some(t) => cluster_table(tables@, cluster, active_states as nat) == Some(*t),
            None => cluster_table(tables@, cluster, active_states as nat) is None,
        },
{
    let names: Option<(&str, &str)> = match cluster {
        CpuCluster::Efficiency => Some(("voltage-states1-sram", "voltage-states1")),
        CpuCluster::Performance => Some(("voltage-states5-sram", "voltage-states5")),
        CpuCluster::Super => None,
    };
    if let Some((first, second)) = names {
        if let Some(t) = entry_of(tables, first) {
            if t.len() == active_states {
                return Some(t);
            }
        }
        if let Some(t) = entry_of(tables, second) {
            if t.len() == active_states {
                return Some(t);
            }
        }
    }
    if active_states > 0 {
        if let Some(t) = find_sized(tables, active_states, true) {
            return Some(t);
        }
        if let Some(t) = find_sized(tables, active_states, false) {
            return Some(t);
        }
    }
    if let Some((first, second)) = names {
        if let Some(t) = entry_of(tables, first) {
            return Some(t);
        }
        return entry_of(tables, second);
    }
    None
}

/// What a residency histogram holds.
pub open spec fn states_of(v: Seq<(String, i64)>) -> Seq<(Seq<char>, int)> {
    v.map_values(|s: (String, i64)| (s.0@, s.1 as int))
}

/// Residency of the first `n` states.
pub open spec fn total_residency(states: Seq<(Seq<char>, int)>, n: nat) -> int
    decreases n,
{
    if n == 0 {
        0
    } else {
        total_residency(states, (n - 1) as nat) + states[n - 1].1
    }
}

/// Residency of the active ones among the first `n` states.
pub open spec fn active_residency(states: Seq<(Seq<char>, int)>, n: nat) -> int
    decreases n,
{
    if n == 0 {
        0
    } else if idle(states[n - 1].0) {
        active_residency(states, (n - 1) as nat)
    } else {
        active_residency(states, (n - 1) as nat) + states[n - 1].1
    }
}

/// How many of the first `n` states are active.
pub open spec fn active_count(states: Seq<(Seq<char>, int)>, n: nat) -> nat
    decreases n,
{
    if n == 0 {
        0
    } else if idle(states[n - 1].0) {
        active_count(states, (n - 1) as nat)
    } else {
        active_count(states, (n - 1) as nat) + 1
    }
}

/// Whether a number is one of 64 bits.
pub open spec fn fits64(n: int) -> bool {
    i64::MIN <= n <= i64::MAX
}

/// Whether the residencies of a histogram can be summed up.
pub open spec fn residency_fits(states: Seq<(Seq<char>, int)>) -> bool {
    forall|n: nat|
        n <= states.len() ==> fits64(#[trigger] total_residency(states, n)) && fits64(
            active_residency(states, n),
        )
}

/// The clocks of the active states weighted by their residency: active state `k`
/// runs at entry `k` of the table.
pub open spec fn weighted_clocks(states: Seq<(Seq<char>, int)>, table: Seq<u32>, n: nat) -> Reading
    decreases n,
{
    if n == 0 {
        Reading { bits: 0 }
    } else {
        let before = weighted_clocks(states, table, (n - 1) as nat);
        let k = active_count(states, (n - 1) as nat);
        if idle(states[n - 1].0) || k >= table.len() {
            before
        } else {
            before.sum(
                Reading::of_natural(table[k as int] as nat).product(
                    Reading::of_integer(states[n - 1].1),
                ),
            )
        }
    }
}

/// The active share of a histogram in percent.
pub open spec fn active_percent(active: int, total: int) -> Reading {
    Reading::of_integer(active).quotient(Reading::of_integer(total)).product(
        Reading::of_natural(100),
    )
}

/// The clock in MHz and the active share of a block by its table. A block that
/// was present but idle throughout is parked at its lowest clock, the first
/// entry of the table.
pub open spec fn table_clock(states: Seq<(Seq<char>, int)>, table: Seq<u32>) -> (u32, Reading) {
    let total = total_residency(states, states.len());
    let active = active_residency(states, states.len());
    if total == 0 {
        (0, Reading { bits: 0 })
    } else {
        let clock = if active > 0 {
            weighted_clocks(states, table, states.len()).quotient(
                Reading::of_integer(active),
            ).integer_part(u32::MAX as nat) as u32
        } else if table.len() > 0 {
            table[0]
        } else {
            0
        };
        (clock, active_percent(active, total))
    }
}

fn percent_of(active: i64, total: i64) -> (r: Reading)
    ensures
        r == active_percent(active as int, total as int),
{
    Reading::from_i64(active).over(Reading::from_i64(total)).times(Reading::from_u64(100))
}

/// The number that a text denotes in 64 bits: digits, perhaps behind a sign.
pub open spec fn signed_number(s: Seq<char>) -> Option<int> {
    if s.len() > 0 && s[0] == '-' {
        let d = s.drop_first();
        if d.len() > 0 && all_digits(d) && number(d) <= 0x8000_0000_0000_0000 {
            Some(-(number(d) as int))
        } else {
            None
        }
    } else {
        match unsigned(s, i64::MAX as nat) {
            Some(n) => Some(n as int),
            None => None,
        }
    }
}

fn parse_signed(c: &[char], from: usize, to: usize) -> (r: Option<i64>)
    requires
        from <= to <= c@.len(),
    ensures
        match r {
            Some(n) => signed_number(c@.subrange(from as int, to as int)) == Some(n as int),
            None => signed_number(c@.subrange(from as int, to as int)) is None,
        },
{
    let ghost s = c@.subrange(from as int, to as int);
    if from < to && c[from] == '-' {
        let ghost d = s.drop_first();
        assert(s[0] == '-');
        assert(c@.subrange(from + 1, to as int) == d);
        if from + 1 < to && c[from + 1] == '+' {
            assert(d[0] == '+');
            assert(!is_digit(d[0]));
            return None;
        }
        match parse_unsigned(c, from + 1, to, 0x8000_0000_0000_0000) {
            Some(n) => {
                let wide: i128 = -(n as i128);
                Some(wide as i64)
            },
            None => None,
        }
    } else {
        match parse_unsigned(c, from, to, i64::MAX as u64) {
            Some(n) => Some(n as i64),
            None => None,
        }
    }
}

/// The clock that the name of a state denotes.
pub open spec fn named_clock(name: Seq<char>) -> Option<int> {
    signed_number(trimmed(name))
}

fn clock_in(name: &str) -> (r: Option<i64>)
    ensures
        match r {
            Some(n) => named_clock(name@) == Some(n as int),
            None => named_clock(name@) is None,
        },
{
    let c: Vec<char> = chars_of(name);
    let (from, to): (usize, usize) = trim_range(c.as_slice(), 0, c.len());
    assert(c@.subrange(0, c@.len() as int) == c@);
    parse_signed(c.as_slice(), from, to)
}

/// The named clocks of the active ones among the first `n` states, weighted by
/// their residency.
pub open spec fn weighted_names(states: Seq<(Seq<char>, int)>, n: nat) -> int
    decreases n,
{
    if n == 0 {
        0
    } else {
        let before = weighted_names(states, (n - 1) as nat);
        match named_clock(states[n - 1].0) {
            Some(f) => if idle(states[n - 1].0) {
                before
            } else {
                before + f * states[n - 1].1
            },
            None => before,
        }
    }
}

/// The lowest named clock of the active ones among the first `n` states.
pub open spec fn lowest_name(states: Seq<(Seq<char>, int)>, n: nat) -> Option<int>
    decreases n,
{
    if n == 0 {
        None
    } else {
        let before = lowest_name(states, (n - 1) as nat);
        match named_clock(states[n - 1].0) {
            Some(f) => if idle(states[n - 1].0) {
                before
            } else {
                match before {
                    Some(m) => if m < f {
                        Some(m)
                    } else {
                        Some(f)
                    },
                    None => Some(f),
                }
            },
            None => before,
        }
    }
}

/// Whether the named clocks of a histogram can be weighted.
pub open spec fn weights_fit(states: Seq<(Seq<char>, int)>) -> bool {
    &&& residency_fits(states)
    &&& forall|n: nat| n <= states.len() ==> fits64(#[trigger] weighted_names(states, n))
    &&& forall|i: int|
        0 <= i < states.len() && named_clock((#[trigger] states[i]).0) is Some && !idle(
            states[i].0,
        ) ==> fits64(named_clock(states[i].0)->0 * states[i].1)
}

/// A quotient by a positive number, rounded towards zero.
pub open spec fn towards_zero(n: int, d: int) -> int {
    if n >= 0 {
        n / d
    } else {
        -((-n) / d)
    }
}

/// The lowest 32 bits of a number.
pub open spec fn low_bits(n: int) -> u32 {
    (n % 0x1_0000_0000) as u32
}

/// The clock in MHz and the active share of a block by the names of its states.
pub open spec fn named_state_clock(states: Seq<(Seq<char>, int)>) -> (u32, Reading) {
    let total = total_residency(states, states.len());
    let active = active_residency(states, states.len());
    if total == 0 {
        (0, Reading { bits: 0 })
    } else {
        let clock = if active > 0 {
            low_bits(towards_zero(weighted_names(states, states.len()), active))
        } else {
            match lowest_name(states, states.len()) {
                Some(f) => low_bits(f),
                None => 0,
            }
        };
        (clock, active_percent(active, total))
    }
}

fn keep_low_bits(n: i64) -> (r: u32)
    ensures
        r == low_bits(n as int),
{
    if n >= 0 {
        (n as u64 % 0x1_0000_0000) as u32
    } else {
        let magnitude: u64 = (-(n as i128)) as u64;
        let rest: u64 = magnitude % 0x1_0000_0000;
        proof {
            let q = magnitude as int / 0x1_0000_0000;
            assert(n as int == -(0x1_0000_0000 * q + rest as int));
            if rest == 0 {
                assert(n as int == 0x1_0000_0000 * (-q));
            } else {
                assert(n as int == 0x1_0000_0000 * (-q - 1) + (0x1_0000_0000 - rest as int));
            }
        }
        if rest == 0 {
            0
        } else {
            (0x1_0000_0000 - rest) as u32
        }
    }
}

fn divide_towards_zero(n: i64, d: i64) -> (r: i64)
    requires
        d > 0,
    ensures
        r == towards_zero(n as int, d as int),
{
    if n >= 0 {
        proof {
            lemma_quotient_bounds(n as int, d as int);
        }
        (n as u64 / d as u64) as i64
    } else {
        let magnitude: u64 = (-(n as i128)) as u64;
        proof {
            lemma_quotient_bounds(magnitude as int, d as int);
        }
        let q: u64 = magnitude / d as u64;
        let wide: i128 = -(q as i128);
        wide as i64
    }
}

proof fn lemma_quotient_bounds(n: int, d: int)
    requires
        n >= 0,
        d > 0,
    ensures
        0 <= n / d <= n,
{
    assert(0 <= n / d <= n) by (nonlinear_arith)
        requires
            n >= 0,
            d > 0,
    ;
}

/// The average of a cluster: clocks and active shares of its channels.
pub open spec fn sum_of_clocks(data: Seq<(u32, Reading)>, n: nat) -> Reading
    decreases n,
{
    if n == 0 {
        Reading { bits: SIGN }
    } else {
        sum_of_clocks(data, (n - 1) as nat).sum(Reading::of_natural(data[n - 1].0 as nat))
    }
}

pub open spec fn sum_of_shares(data: Seq<(u32, Reading)>, n: nat) -> Reading
    decreases n,
{
    if n == 0 {
        Reading { bits: SIGN }
    } else {
        sum_of_shares(data, (n - 1) as nat).sum(data[n - 1].1)
    }
}

pub open spec fn cluster_average(data: Seq<(u32, Reading)>) -> Option<(u32, Reading)> {
    let count = Reading::of_natural(data.len());
    if data.len() == 0 {
        None
    } else {
        Some(
            (
                sum_of_clocks(data, data.len()).quotient(count).integer_part(
                    u32::MAX as nat,
                ) as u32,
                sum_of_shares(data, data.len()).quotient(count),
            ),
        )
    }
}

/// One channel of a delta sample.
#[derive(Debug, Clone, PartialEq, Eq)]
pub struct ChannelItem {
    pub group: String,
    pub subgroup: String,
    pub channel: String,
    /// State residencies as (name, residency) pairs.
    pub residencies: Vec<(String, i64)>,
}

/// Collected metrics.
#[derive(Debug, Clone, PartialEq, Eq)]
pub struct IOReportMetrics {
    // Power metrics (in watts)
    pub cpu_power: Reading,
    pub gpu_power: Reading,
    pub ane_power: Reading,
    pub dram_power: Reading,
    pub package_power: Reading,
    // CPU frequency metrics (in MHz)
    pub s_cluster_freq: u32,
    pub e_cluster_freq: u32,
    pub p_cluster_freq: u32,
    pub s_cluster_residency: Reading,
    pub e_cluster_residency: Reading,
    pub p_cluster_residency: Reading,
    // GPU metrics
    pub gpu_freq: u32,
    pub gpu_residency: Reading,
    // Per-channel data, as (MHz, residency in percent)
    pub s_cluster_data: Vec<(u32, Reading)>,
    pub e_cluster_data: Vec<(u32, Reading)>,
    pub p_cluster_data: Vec<(u32, Reading)>,
}

/// Whether a channel is one of CPU performance states.
pub open spec fn cpu_states(i: ChannelItem) -> bool {
    i.group@ == CPU_STATS@ && i.subgroup@ == CPU_PERF_STATES@
}

/// Whether a channel is that of the GPU performance states.
pub open spec fn gpu_states(i: ChannelItem) -> bool {
    i.group@ == GPU_STATS@ && i.subgroup@ == GPU_PERF_STATES@ && i.channel@ == GPU_CHANNEL@
}

/// The clock and active share of a CPU channel: by the table of its cluster, or
/// by its state names where there is no usable one.
pub open spec fn cpu_channel_clock(
    states: Seq<(Seq<char>, int)>,
    cluster: CpuCluster,
    tables: Seq<ClockTable>,
) -> (u32, Reading) {
    match cluster_table(tables, cluster, active_count(states, states.len())) {
        Some(t) => if t@.len() > 0 {
            table_clock(states, t@)
        } else {
            named_state_clock(states)
        },
        None => named_state_clock(states),
    }
}

/// The same of a GPU channel.
pub open spec fn gpu_channel_clock(
    states: Seq<(Seq<char>, int)>,
    clocks: Seq<u32>,
) -> (u32, Reading) {
    if clocks.len() > 0 {
        table_clock(states, clocks)
    } else {
        named_state_clock(states)
    }
}

/// Whether the residencies of a CPU channel can be weighed: summed up, and its
/// named clocks weighted where no usable table stands in for them.
pub open spec fn cpu_channel_fits(
    states: Seq<(Seq<char>, int)>,
    cluster: CpuCluster,
    tables: Seq<ClockTable>,
) -> bool {
    match cluster_table(tables, cluster, active_count(states, states.len())) {
        Some(t) => if t@.len() > 0 {
            residency_fits(states)
        } else {
            weights_fit(states)
        },
        None => weights_fit(states),
    }
}

/// The same of a GPU channel.
pub open spec fn gpu_channel_fits(states: Seq<(Seq<char>, int)>, clocks: Seq<u32>) -> bool {
    if clocks.len() > 0 {
        residency_fits(states)
    } else {
        weights_fit(states)
    }
}

/// Whether a channel can be weighed, where it is one of performance states.
pub open spec fn channel_fits(i: ChannelItem, tables: Seq<ClockTable>) -> bool {
    let states = states_of(i.residencies@);
    if i.residencies@.len() == 0 {
        true
    } else if cpu_states(i) {
        match cluster_of(i.channel@) {
            Some(c) => cpu_channel_fits(states, c, tables),
            None => true,
        }
    } else if gpu_states(i) {
        gpu_channel_fits(states, gpu_clocks(tables))
    } else {
        true
    }
}

/// Whether every channel can be weighed.
pub open spec fn channels_fit(items: Seq<ChannelItem>, tables: Seq<ClockTable>) -> bool {
    forall|i: int| 0 <= i < items.len() ==> channel_fits(#[trigger] items[i], tables)
}

/// The channels of one cluster among the first `n`.
pub open spec fn cluster_data(
    items: Seq<ChannelItem>,
    n: nat,
    cluster: CpuCluster,
    tables: Seq<ClockTable>,
) -> Seq<(u32, Reading)>
    decreases n,
{
    if n == 0 {
        seq![]
    } else {
        let before = cluster_data(items, (n - 1) as nat, cluster, tables);
        let i = items[n - 1];
        if cpu_states(i) && i.residencies@.len() > 0 && cluster_of(i.channel@) == Some(cluster) {
            before.push(cpu_channel_clock(states_of(i.residencies@), cluster, tables))
        } else {
            before
        }
    }
}

/// The GPU channels among the first `n`.
pub open spec fn gpu_data(items: Seq<ChannelItem>, n: nat, tables: Seq<ClockTable>) -> Seq<
    (u32, Reading),
>
    decreases n,
{
    if n == 0 {
        seq![]
    } else {
        let before = gpu_data(items, (n - 1) as nat, tables);
        let i = items[n - 1];
        if !cpu_states(i) && gpu_states(i) && i.residencies@.len() > 0 {
            before.push(gpu_channel_clock(states_of(i.residencies@), gpu_clocks(tables)))
        } else {
            before
        }
    }
}

/// An average, or nothing but zeros.
pub open spec fn average_or_zero(data: Seq<(u32, Reading)>) -> (u32, Reading) {
    match cluster_average(data) {
        Some(a) => a,
        None => (0, Reading { bits: 0 }),
    }
}

fn average(data: &Vec<(u32, Reading)>) -> (r: (u32, Reading))
    ensures
        r == average_or_zero(data@),
{
    match IOReportMetrics::calculate_cluster_average(data) {
        Some(a) => a,
        None => (0, Reading { bits: 0 }),
    }
}

impl IOReportMetrics {
    /// Calculate a block's frequency from its residency histogram and a
    /// frequency table. Active states are mapped to frequencies in order.
    pub fn calc_freq_with_table(residencies: &[(String, i64)], freq_table: &[u32]) -> (r: (
        u32,
        Reading,
    ))
        requires
            residency_fits(states_of(residencies@)),
        ensures
            r == table_clock(states_of(residencies@), freq_table@),
    {
        let ghost states = states_of(residencies@);
        let mut total: i64 = 0;
        let mut active: i64 = 0;
        let mut weighted: Reading = Reading { bits: 0 };
        let mut k: usize = 0;
        let mut i: usize = 0;
        while i < residencies.len()
            invariant
                i <= residencies@.len(),
                k <= i,
                states == states_of(residencies@),
                residency_fits(states),
                total == total_residency(states, i as nat),
                active == active_residency(states, i as nat),
                k == active_count(states, i as nat),
                weighted == weighted_clocks(states, freq_table@, i as nat),
            decreases residencies@.len() - i,
        {
            let residency: i64 = residencies[i].1;
            assert(states[i as int] == (residencies@[i as int].0@, residency as int));
            assert(fits64(total_residency(states, (i + 1) as nat)));
            total = total + residency;
            if !is_idle_state(residencies[i].0.as_str()) {
                active = active + residency;
                if k < freq_table.len() {
                    weighted = weighted.plus(
                        Reading::from_u64(freq_table[k] as u64).times(Reading::from_i64(residency)),
                    );
                }
                k = k + 1;
            }
            i = i + 1;
        }
        if total == 0 {
            return (0, Reading { bits: 0 });
        }
        let clock: u32 = if active > 0 {
            weighted.over(Reading::from_i64(active)).truncated(u32::MAX as u64) as u32
        } else if freq_table.len() > 0 {
            freq_table[0]
        } else {
            0
        };
        (clock, percent_of(active, total))
    }

    /// Calculate frequency and residency from states whose names are themselves
    /// megahertz values: the last resort where no table is available.
    pub fn calc_freq_from_residencies(residencies: &[(String, i64)]) -> (r: (u32, Reading))
        requires
            weights_fit(states_of(residencies@)),
        ensures
            r == named_state_clock(states_of(residencies@)),
    {
        let ghost states = states_of(residencies@);
        let mut total: i64 = 0;
        let mut active: i64 = 0;
        let mut weighted: i64 = 0;
        let mut lowest: Option<i64> = None;
        let mut i: usize = 0;
        while i < residencies.len()
            invariant
                i <= residencies@.len(),
                states == states_of(residencies@),
                weights_fit(states),
                total == total_residency(states, i as nat),
                active == active_residency(states, i as nat),
                weighted == weighted_names(states, i as nat),
                match lowest {
                    Some(m) => lowest_name(states, i as nat) == Some(m as int),
                    None => lowest_name(states, i as nat) is None,
                },
            decreases residencies@.len() - i,
        {
            let residency: i64 = residencies[i].1;
            assert(states[i as int] == (residencies@[i as int].0@, residency as int));
            assert(fits64(total_residency(states, (i + 1) as nat)));
            assert(fits64(weighted_names(states, (i + 1) as nat)));
            total = total + residency;
            if !is_idle_state(residencies[i].0.as_str()) {
                active = active + residency;
                if let Some(f) = clock_in(residencies[i].0.as_str()) {
                    assert(fits64(f as int * residency as int));
                    weighted = weighted + f * residency;
                    lowest = match lowest {
                        Some(m) => if m < f {
                            Some(m)
                        } else {
                            Some(f)
                        },
                        None => Some(f),
                    };
                }
            }
            i = i + 1;
        }
        if total == 0 {
            return (0, Reading { bits: 0 });
        }
        let clock: u32 = if active > 0 {
            keep_low_bits(divide_towards_zero(weighted, active))
        } else {
            match lowest {
                Some(f) => keep_low_bits(f),
                None => 0,
            }
        };
        (clock, percent_of(active, total))
    }

    /// The average clock and active share of a cluster's channels.
    pub fn calculate_cluster_average(data: &[(u32, Reading)]) -> (r: Option<(u32, Reading)>)
        ensures
            r == cluster_average(data@),
    {
        if data.len() == 0 {
            return None;
        }
        let count: Reading = Reading::from_u64(data.len() as u64);
        let mut clocks: Reading = Reading { bits: SIGN };
        let mut shares: Reading = Reading { bits: SIGN };
        let mut i: usize = 0;
        while i < data.len()
            invariant
                i <= data@.len(),
                clocks == sum_of_clocks(data@, i as nat),
                shares == sum_of_shares(data@, i as nat),
            decreases data@.len() - i,
        {
            clocks = clocks.plus(Reading::from_u64(data[i].0 as u64));
            shares = shares.plus(data[i].1);
            i = i + 1;
        }
        Some((clocks.over(count).truncated(u32::MAX as u64) as u32, shares.over(count)))
    }

    /// The clock and active share of a CPU channel that belongs to `cluster`.
    pub fn process_cpu_channel(item: &ChannelItem, cluster: CpuCluster, tables: &[ClockTable]) -> (r:
        (u32, Reading))
        requires
            cpu_channel_fits(states_of(item.residencies@), cluster, tables@),
        ensures
            r == cpu_channel_clock(states_of(item.residencies@), cluster, tables@),
    {
        let count: usize = count_active(&item.residencies);
        match select_cpu_frequency_table(tables, cluster, count) {
            Some(t) => if t.len() > 0 {
                Self::calc_freq_with_table(item.residencies.as_slice(), t.as_slice())
            } else {
                Self::calc_freq_from_residencies(item.residencies.as_slice())
            },
            None => Self::calc_freq_from_residencies(item.residencies.as_slice()),
        }
    }

    /// The clock and active share of the GPU channel.
    pub fn process_gpu_channel(item: &ChannelItem, gpu_table: &Vec<u32>) -> (r: (u32, Reading))
        requires
            gpu_channel_fits(states_of(item.residencies@), gpu_table@),
        ensures
            r == gpu_channel_clock(states_of(item.residencies@), gpu_table@),
    {
        if gpu_table.len() > 0 {
            Self::calc_freq_with_table(item.residencies.as_slice(), gpu_table.as_slice())
        } else {
            Self::calc_freq_from_residencies(item.residencies.as_slice())
        }
    }

    /// Collect metrics from the channels of a delta sample, the clock tables and
    /// the current power readings. Power does not come from the delta, because
    /// the energy counters have to be timed by their own publication
    /// timestamps.
    pub fn from_sample(items: &[ChannelItem], tables: &[ClockTable], power: EnergyReadings) -> (r:
        IOReportMetrics)
        requires
            channels_fit(items@, tables@),
        ensures
            r.cpu_power == power.cpu,
            r.gpu_power == power.gpu,
            r.ane_power == power.ane,
            r.dram_power == power.dram,
            r.package_power == power.cpu.sum(power.gpu).sum(power.ane),
            r.s_cluster_data@ == cluster_data(
                items@,
                items@.len(),
                CpuCluster::Super,
                tables@,
            ),
            r.e_cluster_data@ == cluster_data(
                items@,
                items@.len(),
                CpuCluster::Efficiency,
                tables@,
            ),
            r.p_cluster_data@ == cluster_data(
                items@,
                items@.len(),
                CpuCluster::Performance,
                tables@,
            ),
            (r.s_cluster_freq, r.s_cluster_residency) == average_or_zero(r.s_cluster_data@),
            (r.e_cluster_freq, r.e_cluster_residency) == average_or_zero(r.e_cluster_data@),
            (r.p_cluster_freq, r.p_cluster_residency) == average_or_zero(r.p_cluster_data@),
            (r.gpu_freq, r.gpu_residency) == average_or_zero(
                gpu_data(items@, items@.len(), tables@),
            ),
    {
        let gpu_table: Vec<u32> = select_gpu_frequency_table(tables);
        let mut s_data: Vec<(u32, Reading)> = Vec::new();
        let mut e_data: Vec<(u32, Reading)> = Vec::new();
        let mut p_data: Vec<(u32, Reading)> = Vec::new();
        let mut g_data: Vec<(u32, Reading)> = Vec::new();
        let mut i: usize = 0;
        while i < items.len()
            invariant
                i <= items@.len(),
                channels_fit(items@, tables@),
                gpu_table@ == gpu_clocks(tables@),
                s_data@ == cluster_data(items@, i as nat, CpuCluster::Super, tables@),
                e_data@ == cluster_data(items@, i as nat, CpuCluster::Efficiency, tables@),
                p_data@ == cluster_data(items@, i as nat, CpuCluster::Performance, tables@),
                g_data@ == gpu_data(items@, i as nat, tables@),
            decreases items@.len() - i,
        {
            let item: &ChannelItem = &items[i];
            assert(channel_fits(items@[i as int], tables@));
            let is_cpu: bool = same(item.group.as_str(), CPU_STATS) && same(
                item.subgroup.as_str(),
                CPU_PERF_STATES,
            );
            let is_gpu: bool = !is_cpu && same(item.group.as_str(), GPU_STATS) && same(
                item.subgroup.as_str(),
                GPU_PERF_STATES,
            ) && same(item.channel.as_str(), GPU_CHANNEL);
            if is_cpu && item.residencies.len() > 0 {
                match classify_cpu_channel(item.channel.as_str()) {
                    Some(CpuCluster::Super) => s_data.push(
                        Self::process_cpu_channel(item, CpuCluster::Super, tables),
                    ),
                    Some(CpuCluster::Efficiency) => e_data.push(
                        Self::process_cpu_channel(item, CpuCluster::Efficiency, tables),
                    ),
                    Some(CpuCluster::Performance) => p_data.push(
                        Self::process_cpu_channel(item, CpuCluster::Performance, tables),
                    ),
                    None => {},
                }
            } else if is_gpu && item.residencies.len() > 0 {
                g_data.push(Self::process_gpu_channel(item, &gpu_table));
            }
            i = i + 1;
        }
        let (s_freq, s_share): (u32, Reading) = average(&s_data);
        let (e_freq, e_share): (u32, Reading) = average(&e_data);
        let (p_freq, p_share): (u32, Reading) = average(&p_data);
        let (g_freq, g_share): (u32, Reading) = average(&g_data);
        IOReportMetrics {
            cpu_power: power.cpu,
            gpu_power: power.gpu,
            ane_power: power.ane,
            dram_power: power.dram,
            package_power: power.package(),
            s_cluster_freq: s_freq,
            e_cluster_freq: e_freq,
            p_cluster_freq: p_freq,
            s_cluster_residency: s_share,
            e_cluster_residency: e_share,
            p_cluster_residency: p_share,
            gpu_freq: g_freq,
            gpu_residency: g_share,
            s_cluster_data: s_data,
            e_cluster_data: e_data,
            p_cluster_data: p_data,
        }
    }
}

fn in_range(n: i128) -> (r: bool)
    ensures
        r == fits64(n as int),
{
    -0x8000_0000_0000_0000 <= n && n <= 0x7fff_ffff_ffff_ffff
}

/// Whether the residencies of a histogram can be summed up.
fn summable(residencies: &Vec<(String, i64)>) -> (r: bool)
    ensures
        r == residency_fits(states_of(residencies@)),
{
    let ghost states = states_of(residencies@);
    let mut total: i128 = 0;
    let mut active: i128 = 0;
    let mut i: usize = 0;
    while i < residencies.len()
        invariant
            i <= residencies@.len(),
            states == states_of(residencies@),
            total == total_residency(states, i as nat),
            active == active_residency(states, i as nat),
            forall|n: nat|
                n <= i ==> fits64(#[trigger] total_residency(states, n)) && fits64(
                    active_residency(states, n),
                ),
        decreases residencies@.len() - i,
    {
        let residency: i64 = residencies[i].1;
        assert(states[i as int] == (residencies@[i as int].0@, residency as int));
        assert(fits64(total_residency(states, i as nat)));
        total = total + residency as i128;
        if !is_idle_state(residencies[i].0.as_str()) {
            active = active + residency as i128;
        }
        assert(total == total_residency(states, (i + 1) as nat));
        if !in_range(total) || !in_range(active) {
            return false;
        }
        i = i + 1;
    }
    true
}

/// Whether the named clocks of a histogram can be weighted.
fn weighable(residencies: &Vec<(String, i64)>) -> (r: bool)
    ensures
        r == weights_fit(states_of(residencies@)),
{
    if !summable(residencies) {
        return false;
    }
    let ghost states = states_of(residencies@);
    let mut weighted: i128 = 0;
    let mut i: usize = 0;
    while i < residencies.len()
        invariant
            i <= residencies@.len(),
            states == states_of(residencies@),
            residency_fits(states),
            weighted == weighted_names(states, i as nat),
            forall|n: nat| n <= i ==> fits64(#[trigger] weighted_names(states, n)),
            forall|j: int|
                0 <= j < i && named_clock((#[trigger] states[j]).0) is Some && !idle(states[j].0)
                    ==> fits64(named_clock(states[j].0)->0 * states[j].1),
        decreases residencies@.len() - i,
    {
        let residency: i64 = residencies[i].1;
        assert(states[i as int] == (residencies@[i as int].0@, residency as int));
        assert(fits64(weighted_names(states, i as nat)));
        if !is_idle_state(residencies[i].0.as_str()) {
            if let Some(f) = clock_in(residencies[i].0.as_str()) {
                proof {
                    lemma_wide_product(f as int, residency as int);
                }
                let part: i128 = f as i128 * residency as i128;
                if !in_range(part) {
                    assert(!weights_fit(states));
                    return false;
                }
                weighted = weighted + part;
            }
        }
        assert(weighted == weighted_names(states, (i + 1) as nat));
        if !in_range(weighted) {
            return false;
        }
        i = i + 1;
    }
    true
}

proof fn lemma_wide_product(a: int, b: int)
    requires
        fits64(a),
        fits64(b),
    ensures
        i128::MIN <= a * b <= i128::MAX,
{
    let most = 0x8000_0000_0000_0000int;
    assert(-most * most <= a * b <= most * most) by (nonlinear_arith)
        requires
            -most <= a <= most,
            -most <= b <= most,
    ;
    assert(most * most == 0x4000_0000_0000_0000_0000_0000_0000_0000int) by (nonlinear_arith)
        requires
            most == 0x8000_0000_0000_0000int,
    ;
    assert(-most * most == -(most * most)) by (nonlinear_arith);
}

/// Whether a table, or else the state names, can weigh a channel's residencies.
fn weighs(residencies: &Vec<(String, i64)>, has_table: bool) -> (r: bool)
    ensures
        r == if has_table {
            residency_fits(states_of(residencies@))
        } else {
            weights_fit(states_of(residencies@))
        },
{
    if has_table {
        summable(residencies)
    } else {
        weighable(residencies)
    }
}

/// Whether every channel of a sample can be weighed.
pub fn can_weigh(items: &[ChannelItem], tables: &[ClockTable]) -> (r: bool)
    ensures
        r == channels_fit(items@, tables@),
{
    let gpu_table: Vec<u32> = select_gpu_frequency_table(tables);
    let mut i: usize = 0;
    while i < items.len()
        invariant
            i <= items@.len(),
            gpu_table@ == gpu_clocks(tables@),
            forall|j: int| 0 <= j < i ==> channel_fits(#[trigger] items@[j], tables@),
        decreases items@.len() - i,
    {
        let item: &ChannelItem = &items[i];
        let mut fits: bool = true;
        if item.residencies.len() > 0 {
            if same(item.group.as_str(), CPU_STATS) && same(
                item.subgroup.as_str(),
                CPU_PERF_STATES,
            ) {
                if let Some(cluster) = classify_cpu_channel(item.channel.as_str()) {
                    let count: usize = count_active(&item.residencies);
                    let has_table: bool = match select_cpu_frequency_table(
                        tables,
                        cluster,
                        count,
                    ) {
                        Some(t) => t.len() > 0,
                        None => false,
                    };
                    fits = weighs(&item.residencies, has_table);
                }
            } else if same(item.group.as_str(), GPU_STATS) && same(
                item.subgroup.as_str(),
                GPU_PERF_STATES,
            ) && same(item.channel.as_str(), GPU_CHANNEL) {
                fits = weighs(&item.residencies, gpu_table.len() > 0);
            }
        }
        assert(fits == channel_fits(items@[i as int], tables@));
        if !fits {
            return false;
        }
        i = i + 1;
    }
    true
}

fn count_active(residencies: &Vec<(String, i64)>) -> (r: usize)
    ensures
        r == active_count(states_of(residencies@), residencies@.len()),
{
    let ghost states = states_of(residencies@);
    let mut n: usize = 0;
    let mut i: usize = 0;
    while i < residencies.len()
        invariant
            i <= residencies@.len(),
            n <= i,
            states == states_of(residencies@),
            n == active_count(states, i as nat),
        decreases residencies@.len() - i,
    {
        assert(states[i as int] == (residencies@[i as int].0@, residencies@[i as int].1 as int));
        if !is_idle_state(residencies[i].0.as_str()) {
            n = n + 1;
        }
        i = i + 1;
    }
    n
}

/// Ticks in nanoseconds by a timebase, the largest number there is where they
/// are more. A zero denominator is read as one.
pub open spec fn scaled_ticks(ticks: nat, numer: nat, denom: nat) -> nat {
    let d: nat = if denom == 0 {
        1
    } else {
        denom
    };
    let ns = ticks * numer / d;
    if ns > u64::MAX {
        u64::MAX as nat
    } else {
        ns
    }
}

/// Scale clock ticks to nanoseconds. Saturates instead of wrapping when the
/// result is out of range.
pub fn scale_mach_ticks(ticks: u64, numer: u32, denom: u32) -> (r: u64)
    ensures
        r == scaled_ticks(ticks as nat, numer as nat, denom as nat),
{
    let d: u128 = if denom == 0 {
        1
    } else {
        denom as u128
    };
    assert(ticks as u128 * numer as u128 <= u128::MAX) by (nonlinear_arith)
        requires
            ticks <= u64::MAX,
            numer <= u32::MAX,
    ;
    let ns: u128 = ticks as u128 * numer as u128 / d;
    assert(ns == (ticks as nat * numer as nat) / (d as nat));
    if ns > u64::MAX as u128 {
        u64::MAX
    } else {
        ns as u64
    }
}

/// The timebase that a query answered with; ticks of a nanosecond where it
/// failed.
pub fn usable_timebase(status: i32, numer: u32, denom: u32) -> (r: (u32, u32))
    ensures
        r == if status == 0 && numer != 0 && denom != 0 {
            (numer, denom)
        } else {
            (1u32, 1u32)
        },
{
    if status == 0 && numer != 0 && denom != 0 {
        (numer, denom)
    } else {
        (1, 1)
    }
}

/// The little-endian number in eight bytes from `at` on.
pub open spec fn little64(bytes: Seq<u8>, at: int) -> nat {
    little32(bytes, at) + 0x1_0000_0000 * little32(bytes, at + 4)
}

/// Read the publication timestamp out of a channel's raw element. `None` when
/// the data is too short to hold one.
pub fn parse_raw_element_timestamp(bytes: &[u8]) -> (r: Option<u64>)
    ensures
        match r {
            Some(t) => bytes@.len() >= RAW_ELEMENT_TIMESTAMP_OFFSET + 8 && t == little64(
                bytes@,
                RAW_ELEMENT_TIMESTAMP_OFFSET as int,
            ),
            None => bytes@.len() < RAW_ELEMENT_TIMESTAMP_OFFSET + 8,
        },
{
    let at: usize = RAW_ELEMENT_TIMESTAMP_OFFSET;
    if bytes.len() < at + 8 {
        return None;
    }
    let low: u64 = bytes[at] as u64 + 0x100 * bytes[at + 1] as u64 + 0x1_0000 * bytes[at
        + 2] as u64 + 0x100_0000 * bytes[at + 3] as u64;
    let high: u64 = bytes[at + 4] as u64 + 0x100 * bytes[at + 5] as u64 + 0x1_0000 * bytes[at
        + 6] as u64 + 0x100_0000 * bytes[at + 7] as u64;
    Some(low + 0x1_0000_0000 * high)
}

/// One channel of a raw sample.
#[derive(Debug, Clone, PartialEq, Eq)]
pub struct RawChannel {
    pub group: String,
    pub channel: Option<String>,
    pub unit: String,
    pub value: i64,
    /// The bytes of the raw element, where there are any.
    pub raw_element: Option<Vec<u8>>,
}

/// When the driver last published a raw element, in nanoseconds.
pub open spec fn published_ns(raw: Option<Vec<u8>>, numer: u32, denom: u32) -> Option<nat> {
    match raw {
        Some(b) => if b@.len() >= RAW_ELEMENT_TIMESTAMP_OFFSET + 8 {
            Some(
                scaled_ticks(
                    little64(b@, RAW_ELEMENT_TIMESTAMP_OFFSET as int),
                    numer as nat,
                    denom as nat,
                ),
            )
        } else {
            None
        },
        None => None,
    }
}

/// An observation, its texts by what they hold.
pub open spec fn observation_of(o: EnergyObservation) -> (Seq<char>, Seq<char>, i64, Option<nat>) {
    (
        o.channel@,
        o.unit@,
        o.value,
        match o.timestamp_ns {
            Some(t) => Some(t as nat),
            None => None,
        },
    )
}

/// The observations of a list.
pub open spec fn observations_of(v: Seq<EnergyObservation>) -> Seq<
    (Seq<char>, Seq<char>, i64, Option<nat>),
> {
    v.map_values(|o: EnergyObservation| observation_of(o))
}

/// The tracked energy channels among the first `n` of a raw sample.
pub open spec fn tracked_channels(
    channels: Seq<RawChannel>,
    n: nat,
    numer: u32,
    denom: u32,
) -> Seq<(Seq<char>, Seq<char>, i64, Option<nat>)>
    decreases n,
{
    if n == 0 {
        seq![]
    } else {
        let before = tracked_channels(channels, (n - 1) as nat, numer, denom);
        let c = channels[n - 1];
        match c.channel {
            Some(name) => if c.group@ == ENERGY_MODEL@ && rail_of(name@) is Some {
                before.push(
                    (name@, c.unit@, c.value, published_ns(c.raw_element, numer, denom)),
                )
            } else {
                before
            },
            None => before,
        }
    }
}

/// Read every tracked energy channel out of a raw (non-delta) sample, whose
/// timestamps are ticks of the given timebase.
pub fn energy_observations(channels: &[RawChannel], numer: u32, denom: u32) -> (r: Vec<
    EnergyObservation,
>)
    ensures
        observations_of(r@) == tracked_channels(channels@, channels@.len(), numer, denom),
{
    let mut out: Vec<EnergyObservation> = Vec::new();
    let mut i: usize = 0;
    assert(observations_of(out@) == Seq::<(Seq<char>, Seq<char>, i64, Option<nat>)>::empty());
    while i < channels.len()
        invariant
            i <= channels@.len(),
            observations_of(out@) == tracked_channels(channels@, i as nat, numer, denom),
        decreases channels@.len() - i,
    {
        let ghost before = observations_of(out@);
        let c: &RawChannel = &channels[i];
        if let Some(name) = &c.channel {
            if same(c.group.as_str(), ENERGY_MODEL) && classify_energy_channel(
                name.as_str(),
            ).is_some() {
                let stamp: Option<u64> = match &c.raw_element {
                    Some(b) => match parse_raw_element_timestamp(b.as_slice()) {
                        Some(t) => Some(scale_mach_ticks(t, numer, denom)),
                        None => None,
                    },
                    None => None,
                };
                let one: EnergyObservation = EnergyObservation {
                    channel: copied(name.as_str()),
                    unit: copied(c.unit.as_str()),
                    value: c.value,
                    timestamp_ns: stamp,
                };
                let ghost seen = observation_of(one);
                out.push(one);
                assert(observations_of(out@) == before.push(seen));
            }
        }
        i = i + 1;
    }
    out
}

/// What a new sample is used for.
#[derive(Debug, Clone, Copy, PartialEq, Eq, Structural)]
pub enum DeltaStep {
    /// Dropped: too soon after the previous one, which stays the baseline.
    TooSoon,
    /// Kept as the first baseline.
    First,
    /// Differenced against the previous one, whose place it takes.
    Delta,
}

/// Decides what the sample taken at `now_ns` is used for. Rates over a near-zero
/// window are meaningless, so a baseline is not consumed for one.
pub fn delta_step(previous_ns: Option<u64>, now_ns: u64) -> (r: DeltaStep)
    ensures
        r == match previous_ns {
            None => DeltaStep::First,
            Some(p) => if now_ns - p < MIN_DELTA_WINDOW_NS {
                DeltaStep::TooSoon
            } else {
                DeltaStep::Delta
            },
        },
{
    match previous_ns {
        None => DeltaStep::First,
        Some(p) => if now_ns.saturating_sub(p) < MIN_DELTA_WINDOW_NS {
            DeltaStep::TooSoon
        } else {
            DeltaStep::Delta
        },
    }
}

/// How the enumeration of a channel group ended.
#[derive(Debug, Clone, Copy, PartialEq, Eq, Structural)]
pub enum GroupOutcome {
    Found,
    /// The group does not exist on this host.
    Missing,
    Panicked,
}

/// Why nothing can be subscribed to: only the energy group is required.
pub fn enumeration_error(energy: GroupOutcome) -> (r: Option<&'static str>)
    ensures
        match r {
            None => energy == GroupOutcome::Found,
            Some(e) => match energy {
                GroupOutcome::Panicked => e@
                    == "IOReport Energy Model channel enumeration panicked"@,
                GroupOutcome::Missing => e@ == "Failed to get Energy Model channels"@,
                GroupOutcome::Found => false,
            },
        },
{
    match energy {
        GroupOutcome::Found => None,
        GroupOutcome::Missing => Some("Failed to get Energy Model channels"),
        GroupOutcome::Panicked => Some("IOReport Energy Model channel enumeration panicked"),
    }
}

/// A parsed table holds at most one clock per entry, each of them plausible.
pub proof fn clocks_are_plausible(bytes: Seq<u8>, n: nat)
    ensures
        clocks_of(bytes, n).0.len() <= n,
        clocks_of(bytes, n).1 <= MAX_FREQ_HZ,
        forall|i: int|
            0 <= i < clocks_of(bytes, n).0.len() ==> 100 <= #[trigger] clocks_of(bytes, n).0[i]
                <= 6000,
    decreases n,
{
    if n > 0 {
        clocks_are_plausible(bytes, (n - 1) as nat);
    }
}

/// A payload of numbers too small to be clocks (periods, state indices) is no
/// table at all.
pub proof fn periods_are_no_clocks(bytes: Seq<u8>, n: nat)
    requires
        forall|i: int|
            0 <= i < n ==> #[trigger] little32(bytes, i * ENTRY_BYTES as int) < MIN_FREQ_HZ,
    ensures
        clocks_of(bytes, n).0.len() == 0,
        clocks_of(bytes, n).1 == 0,
    decreases n,
{
    if n > 0 {
        periods_are_no_clocks(bytes, (n - 1) as nat);
        assert(little32(bytes, (n - 1) * ENTRY_BYTES as int) < MIN_FREQ_HZ);
    }
}

/// The tables stand in the order of their names, whatever order the properties
/// come in.
pub proof fn tables_stand_in_name_order(properties: Seq<(String, Vec<u8>)>, n: nat)
    ensures
        in_order(tables_in(properties, n), named_before()),
    decreases n,
{
    if n > 0 {
        tables_stand_in_name_order(properties, (n - 1) as nat);
        let before = named_before();
        assert forall|a: (Seq<char>, Seq<u32>), b: (Seq<char>, Seq<u32>)| #[trigger]
            before(a, b) implies !before(b, a) by {
            precedes_is_strict(a.0, b.0);
        }
        assert forall|
            a: (Seq<char>, Seq<u32>),
            b: (Seq<char>, Seq<u32>),
            c: (Seq<char>, Seq<u32>),
        |
            !(#[trigger] before(b, a)) && !(#[trigger] before(c, b)) implies !before(c, a) by {
            precedes_is_total(a.0, b.0);
            if precedes(c.0, a.0) && a.0 != b.0 {
                precedes_is_transitive(c.0, a.0, b.0);
            }
        }
        assert(orders(before));
        let (name, bytes) = properties[n - 1];
        let clocks = clocks_of(bytes@, entry_count(bytes@.len())).0;
        insertion_keeps_order(
            tables_in(properties, (n - 1) as nat),
            (name@, clocks),
            before,
        );
    }
}

} // verus!
