//! Energy Model channel classification and per-channel power: which channels
//! feed each rail, and how a channel's cumulative counter and its publication
//! timestamps become watts.
//!
//! Multi-die packages name their dies either by a `DIE_<n>_` prefix (CPU
//! channels) or by a suffix (`ANE0_0` and `ANE0_1`). On every rail only the
//! least specific family present in a sample counts, so that a per-die sum is
//! never added to a package total.
use vstd::prelude::*;
use vstd::string::*;

use crate::reading::Reading;
use crate::table::Table;
use crate::text::{
    all_digits, begins, begins_with, chars_of, copied, digit, ends, ends_with, first_of, is_digit,
    position_of, same,
};

verus! {

/// Shortest publication span turned into a reading, in nanoseconds. A
/// publication is sometimes followed a few milliseconds later by a small second
/// one; a span this short leaves the baseline in place, so that the tail's
/// energy and time fold into the next span.
pub const MIN_PUBLICATION_SPAN_NS: u64 = 50_000_000;

/// How long a channel may go without publishing before its held reading is
/// dropped, in nanoseconds, unless its own publications are further apart.
pub const STALE_PUBLICATION_NS: u64 = 10_000_000_000;

/// How many of a channel's own publication spans its reading is held for, when
/// that is longer.
pub const HOLD_SPANS: u64 = 2;

/// How far ahead of the observation time a driver timestamp may sit and still
/// be trusted, in nanoseconds.
pub const MAX_TIMESTAMP_LEAD_NS: u64 = 1_000_000_000;

/// Nanoseconds of a second.
pub const NS_PER_SECOND: u64 = 1_000_000_000;

/// Joules of a millijoule, a microjoule and a nanojoule, as bit patterns.
pub const MILLI: u64 = 0x3f50_624d_d2f1_a9fc;

pub const MICRO: u64 = 0x3eb0_c6f7_a0b5_ed8d;

pub const NANO: u64 = 0x3e11_2e0b_e826_d695;

/// The package CPU roll-up. A sample that has it takes the CPU rail from it
/// alone.
pub const PACKAGE_CPU_ENERGY: &'static str = "CPU Energy";

/// The power rail an `Energy Model` channel is summed into.
#[derive(Debug, Clone, Copy, PartialEq, Eq, Structural)]
pub enum EnergyRail {
    /// `CPU Energy`, or `DIE_<n>_CPU Energy` on multi-die packages. A sample
    /// with both counts only the package channel.
    Cpu,
    /// `GPU Energy`.
    Gpu,
    /// `GPU<n>` or `GPU<n>_<m>`, counted only when a sample has no `GPU Energy`
    /// channel, and `GPU<n>_<m>` only when it has no `GPU<n>` either.
    GpuFallback,
    /// `ANE`, `ANE<n>`, or `ANE<n>_<m>`. A sample with more than one of these
    /// shapes counts only the least specific one present.
    Ane,
    /// `DRAM`, `DRAM<n>`, or `DRAM<n>_<m>`, with the same precedence.
    Dram,
}

/// A non-empty run of digits.
pub open spec fn digits(s: Seq<char>) -> bool {
    s.len() > 0 && all_digits(s)
}

/// `prefix`, `prefix<n>`, or `prefix<n>_<m>`.
pub open spec fn top_level(name: Seq<char>, prefix: Seq<char>) -> bool {
    if begins(name, prefix) {
        let rest = name.skip(prefix.len() as int);
        let at = first_of(rest, '_');
        if rest.len() == 0 {
            true
        } else if at < rest.len() {
            digits(rest.take(at)) && digits(rest.skip(at + 1))
        } else {
            digits(rest)
        }
    } else {
        false
    }
}

/// The rail of a channel.
pub open spec fn rail_of(name: Seq<char>) -> Option<EnergyRail> {
    if name == "GPU Energy"@ {
        Some(EnergyRail::Gpu)
    } else if ends(name, PACKAGE_CPU_ENERGY@) {
        Some(EnergyRail::Cpu)
    } else if name != "GPU"@ && top_level(name, "GPU"@) {
        Some(EnergyRail::GpuFallback)
    } else if top_level(name, "ANE"@) {
        Some(EnergyRail::Ane)
    } else if top_level(name, "DRAM"@) {
        Some(EnergyRail::Dram)
    } else {
        None
    }
}

fn is_digits(c: &Vec<char>, from: usize, to: usize) -> (r: bool)
    requires
        from <= to <= c@.len(),
    ensures
        r == digits(c@.subrange(from as int, to as int)),
{
    let ghost s = c@.subrange(from as int, to as int);
    if from == to {
        return false;
    }
    let mut i: usize = from;
    while i < to
        invariant
            from <= i <= to <= c@.len(),
            s == c@.subrange(from as int, to as int),
            forall|j: int| 0 <= j < i - from ==> is_digit(#[trigger] s[j]),
        decreases to - i,
    {
        assert(s[i - from] == c@[i as int]);
        if !digit(c[i]) {
            return false;
        }
        i = i + 1;
    }
    true
}

/// `prefix`, `prefix<n>`, or `prefix<n>_<m>`: a block's own channel, as opposed
/// to a sub-channel such as `ANE0_SRAM`.
fn is_top_level_name(c: &Vec<char>, prefix: &str) -> (r: bool)
    ensures
        r == top_level(c@, prefix@),
{
    if !begins_with(c.as_slice(), prefix) {
        return false;
    }
    let p: Vec<char> = chars_of(prefix);
    let start: usize = p.len();
    let end: usize = c.len();
    let ghost rest = c@.skip(start as int);
    assert(c@.subrange(start as int, end as int) == rest);
    if start == end {
        return true;
    }
    let at: usize = position_of(c.as_slice(), start, end, '_');
    if at < end {
        assert(c@.subrange(start as int, at as int) == rest.take(at - start));
        assert(c@.subrange(at + 1, end as int) == rest.skip(at - start + 1));
        is_digits(c, start, at) && is_digits(c, at + 1, end)
    } else {
        is_digits(c, start, end)
    }
}

/// Classify an `Energy Model` channel by its exact name. Every channel that
/// names no rail (clusters, per-core channels, SRAM, telemetry) is never
/// summed.
pub fn classify_energy_channel(name: &str) -> (r: Option<EnergyRail>)
    ensures
        r == rail_of(name@),
{
    let c: Vec<char> = chars_of(name);
    if same(name, "GPU Energy") {
        Some(EnergyRail::Gpu)
    } else if ends_with(c.as_slice(), PACKAGE_CPU_ENERGY) {
        Some(EnergyRail::Cpu)
    } else if !same(name, "GPU") && is_top_level_name(&c, "GPU") {
        Some(EnergyRail::GpuFallback)
    } else if is_top_level_name(&c, "ANE") {
        Some(EnergyRail::Ane)
    } else if is_top_level_name(&c, "DRAM") {
        Some(EnergyRail::Dram)
    } else {
        None
    }
}

/// Joules of one count of a unit. Unknown units are read as nanojoules.
pub open spec fn joules_of(unit: Seq<char>) -> Reading {
    if unit == "mJ"@ {
        Reading { bits: MILLI }
    } else if unit == "uJ"@ {
        Reading { bits: MICRO }
    } else {
        Reading { bits: NANO }
    }
}

/// Joules per counter unit for an IOReport energy unit label. Unrecognized
/// labels are read as nanojoules, the finest unit the group uses.
pub fn joules_per_count(unit: &str) -> (r: Reading)
    ensures
        r == joules_of(unit@),
{
    if same(unit, "mJ") {
        Reading { bits: MILLI }
    } else if same(unit, "uJ") {
        Reading { bits: MICRO }
    } else {
        Reading { bits: NANO }
    }
}

/// Power per rail, in watts.
#[derive(Debug, Clone, Copy, PartialEq, Eq, Structural)]
pub struct EnergyReadings {
    pub cpu: Reading,
    pub gpu: Reading,
    pub ane: Reading,
    pub dram: Reading,
}

impl Default for EnergyReadings {
    fn default() -> (r: EnergyReadings)
        ensures
            r.cpu == (Reading { bits: 0 }),
            r.gpu == (Reading { bits: 0 }),
            r.ane == (Reading { bits: 0 }),
            r.dram == (Reading { bits: 0 }),
    {
        let zero: Reading = Reading { bits: 0 };
        EnergyReadings { cpu: zero, gpu: zero, ane: zero, dram: zero }
    }
}

impl EnergyReadings {
    /// SoC package power: CPU + GPU + ANE. DRAM sits outside the package.
    pub fn package(&self) -> (r: Reading)
        ensures
            r == self.cpu.sum(self.gpu).sum(self.ane),
    {
        self.cpu.plus(self.gpu).plus(self.ane)
    }
}

/// Watts of one rail's channels, kept apart by how specific their names are.
#[derive(Debug, Clone, Copy, PartialEq, Eq, Structural)]
pub struct Families {
    /// The package name (`CPU Energy`, `ANE`, `DRAM`).
    pub package: Option<Reading>,
    /// The numbered block (`GPU<n>`, `ANE<n>`, `DRAM<n>`; `DIE_<n>_CPU Energy`
    /// for the CPU).
    pub block: Option<Reading>,
    /// The per-die suffix (`GPU<n>_<m>`, `ANE<n>_<m>`, `DRAM<n>_<m>`).
    pub die: Option<Reading>,
}

/// How specific a name is.
#[derive(Debug, Clone, Copy, PartialEq, Eq, Structural)]
pub enum Family {
    Package,
    Block,
    Die,
}

/// A sum that starts with its first summand.
pub open spec fn grown(sum: Option<Reading>, watts: Reading) -> Option<Reading> {
    match sum {
        Some(s) => Some(s.sum(watts)),
        None => Some((Reading { bits: 0 }).sum(watts)),
    }
}

fn grow(sum: Option<Reading>, watts: Reading) -> (r: Option<Reading>)
    ensures
        r == grown(sum, watts),
{
    match sum {
        Some(s) => Some(s.plus(watts)),
        None => Some((Reading { bits: 0 }).plus(watts)),
    }
}

impl Families {
    pub open spec fn none() -> Families {
        Families { package: None, block: None, die: None }
    }

    /// With one more channel.
    pub open spec fn with(self, family: Family, watts: Reading) -> Families {
        match family {
            Family::Package => Families { package: grown(self.package, watts), ..self },
            Family::Block => Families { block: grown(self.block, watts), ..self },
            Family::Die => Families { die: grown(self.die, watts), ..self },
        }
    }

    /// The least specific family present, or 0 W when there is none.
    pub open spec fn rail(self) -> Reading {
        match self.package {
            Some(w) => w,
            None => match self.block {
                Some(w) => w,
                None => match self.die {
                    Some(w) => w,
                    None => Reading { bits: 0 },
                },
            },
        }
    }

    fn empty() -> (r: Families)
        ensures
            r == Families::none(),
    {
        Families { package: None, block: None, die: None }
    }

    fn insert(&mut self, family: Family, watts: Reading)
        ensures
            *final(self) == old(self).with(family, watts),
    {
        match family {
            Family::Package => {
                self.package = grow(self.package, watts);
            },
            Family::Block => {
                self.block = grow(self.block, watts);
            },
            Family::Die => {
                self.die = grow(self.die, watts);
            },
        }
    }

    fn total(&self) -> (r: Reading)
        ensures
            r == self.rail(),
    {
        match self.package {
            Some(w) => w,
            None => match self.block {
                Some(w) => w,
                None => match self.die {
                    Some(w) => w,
                    None => Reading { bits: 0 },
                },
            },
        }
    }
}

/// The family of a name that matched `prefix`, `prefix<n>`, or
/// `prefix<n>_<m>`.
pub open spec fn family_of(name: Seq<char>, prefix: Seq<char>) -> Family {
    let rest = name.skip(prefix.len() as int);
    if begins(name, prefix) && rest.len() == 0 {
        Family::Package
    } else if begins(name, prefix) && first_of(rest, '_') < rest.len() {
        Family::Die
    } else {
        Family::Block
    }
}

fn family(name: &str, prefix: &str) -> (r: Family)
    ensures
        r == family_of(name@, prefix@),
{
    let c: Vec<char> = chars_of(name);
    let p: Vec<char> = chars_of(prefix);
    if begins_with(c.as_slice(), prefix) {
        if c.len() == p.len() {
            return Family::Package;
        }
        let at: usize = position_of(c.as_slice(), p.len(), c.len(), '_');
        assert(c@.subrange(p@.len() as int, c@.len() as int) == c@.skip(p@.len() as int));
        if at < c.len() {
            return Family::Die;
        }
    }
    Family::Block
}

/// Watts of the channels seen so far, by rail.
#[derive(Debug, Clone, Copy, PartialEq, Eq, Structural)]
pub struct Rails {
    pub cpu: Families,
    pub gpu: Option<Reading>,
    pub gpu_fallback: Families,
    pub ane: Families,
    pub dram: Families,
}

/// What a list of channels with their watts holds.
pub open spec fn channels_of(v: Seq<(&str, Reading)>) -> Seq<(Seq<char>, Reading)> {
    v.map_values(|c: (&str, Reading)| (c.0@, c.1))
}

/// The rails after one more channel.
pub open spec fn with_channel(r: Rails, name: Seq<char>, watts: Reading) -> Rails {
    match rail_of(name) {
        Some(EnergyRail::Cpu) => Rails {
            cpu: r.cpu.with(
                if name == PACKAGE_CPU_ENERGY@ {
                    Family::Package
                } else {
                    Family::Block
                },
                watts,
            ),
            ..r
        },
        Some(EnergyRail::Gpu) => Rails { gpu: grown(r.gpu, watts), ..r },
        Some(EnergyRail::GpuFallback) => Rails {
            gpu_fallback: r.gpu_fallback.with(family_of(name, "GPU"@), watts),
            ..r
        },
        Some(EnergyRail::Ane) => Rails { ane: r.ane.with(family_of(name, "ANE"@), watts), ..r },
        Some(EnergyRail::Dram) => Rails {
            dram: r.dram.with(family_of(name, "DRAM"@), watts),
            ..r
        },
        None => r,
    }
}

/// The rails of a list of channels.
pub open spec fn rails_of(channels: Seq<(Seq<char>, Reading)>) -> Rails
    decreases channels.len(),
{
    if channels.len() == 0 {
        Rails {
            cpu: Families::none(),
            gpu: None,
            gpu_fallback: Families::none(),
            ane: Families::none(),
            dram: Families::none(),
        }
    } else {
        with_channel(rails_of(channels.drop_last()), channels.last().0, channels.last().1)
    }
}

/// What the rails read: `GPU Energy` where there is one, and of every other
/// rail the least specific family present.
pub open spec fn rails_read(r: Rails) -> EnergyReadings {
    EnergyReadings {
        cpu: r.cpu.rail(),
        gpu: match r.gpu {
            Some(w) => w,
            None => r.gpu_fallback.rail(),
        },
        ane: r.ane.rail(),
        dram: r.dram.rail(),
    }
}

/// Sum per-channel watts into rails. Channels that do not classify are ignored.
/// Where a package channel and per-die ones could both match, only one of them
/// feeds the rail, so a per-die sum is never added to a package total. Which
/// one depends on the whole set, so every rail is resolved after every channel
/// has been seen.
pub fn sum_rails(channels: &Vec<(&str, Reading)>) -> (r: EnergyReadings)
    ensures
        r == rails_read(rails_of(channels_of(channels@))),
{
    let ghost all = channels_of(channels@);
    let mut rails: Rails = Rails {
        cpu: Families::empty(),
        gpu: None,
        gpu_fallback: Families::empty(),
        ane: Families::empty(),
        dram: Families::empty(),
    };
    let mut i: usize = 0;
    assert(all.take(0) == Seq::<(Seq<char>, Reading)>::empty());
    while i < channels.len()
        invariant
            i <= channels@.len(),
            all == channels_of(channels@),
            rails == rails_of(all.take(i as int)),
        decreases channels@.len() - i,
    {
        let name: &str = channels[i].0;
        let watts: Reading = channels[i].1;
        assert(all[i as int] == (name@, watts));
        assert(all.take(i + 1).drop_last() == all.take(i as int));
        match classify_energy_channel(name) {
            Some(EnergyRail::Cpu) => {
                let f: Family = if same(name, PACKAGE_CPU_ENERGY) {
                    Family::Package
                } else {
                    Family::Block
                };
                rails.cpu.insert(f, watts);
            },
            Some(EnergyRail::Gpu) => {
                rails.gpu = grow(rails.gpu, watts);
            },
            Some(EnergyRail::GpuFallback) => rails.gpu_fallback.insert(family(name, "GPU"), watts),
            Some(EnergyRail::Ane) => rails.ane.insert(family(name, "ANE"), watts),
            Some(EnergyRail::Dram) => rails.dram.insert(family(name, "DRAM"), watts),
            None => {},
        }
        i = i + 1;
    }
    assert(all.take(all.len() as int) == all);
    EnergyReadings {
        cpu: rails.cpu.total(),
        gpu: match rails.gpu {
            Some(w) => w,
            None => rails.gpu_fallback.total(),
        },
        ane: rails.ane.total(),
        dram: rails.dram.total(),
    }
}

/// One energy channel as read from a raw (non-delta) sample.
#[derive(Debug, Clone, PartialEq, Eq)]
pub struct EnergyObservation {
    pub channel: String,
    pub unit: String,
    /// Cumulative counter value, in `unit`.
    pub value: i64,
    /// When the driver last published `value`, in nanoseconds. `None` when the
    /// channel carries no usable timestamp.
    pub timestamp_ns: Option<u64>,
}

/// Baseline and latest reading for one tracked channel.
#[derive(Debug, Clone, Copy, PartialEq, Eq, Structural)]
pub struct ChannelState {
    /// Counter value the next span is measured from.
    pub baseline_value: i64,
    /// Publication time the next span is measured from, in nanoseconds.
    pub baseline_ns: u64,
    /// The previous observation's value and time, to catch a counter that moves
    /// while its timestamp stands still.
    pub last_value: i64,
    pub last_ns: u64,
    /// When the previous observation of this channel was taken. Used to rebase
    /// the baseline when the channel switches from driver timestamps to the
    /// observation clock.
    pub last_observed_ns: u64,
    /// Watts over the most recent span. `None` until the first span closes,
    /// after a counter reset, and once the channel goes stale.
    pub watts: Option<Reading>,
    /// Length of the span `watts` was measured over, in nanoseconds.
    pub span_ns: Option<u64>,
    /// Timed by when samples were taken instead of by the driver's timestamps.
    /// Set once those timestamps prove unusable (missing, frozen while the
    /// value moves, or later than the observation), never cleared.
    pub observation_clock: bool,
    /// Sequence number of the last sample this channel appeared in.
    pub last_seen: u64,
}

/// Whether `ts` could be a publication timestamp on the observation clock,
/// given when the observation was taken.
pub open spec fn plausible(ts: u64, at: u64) -> bool {
    ts <= at + MAX_TIMESTAMP_LEAD_NS
}

/// The timestamp of an observation, where it is plausible.
pub open spec fn usable_timestamp(ts: Option<u64>, at: u64) -> Option<u64> {
    match ts {
        Some(t) => if plausible(t, at) {
            Some(t)
        } else {
            None
        },
        None => None,
    }
}

/// A channel that is seen for the first time.
pub open spec fn sighted(value: i64, ts: Option<u64>, at: u64, sample: u64) -> ChannelState {
    let published = match usable_timestamp(ts, at) {
        Some(t) => t,
        None => at,
    };
    ChannelState {
        baseline_value: value,
        baseline_ns: published,
        last_value: value,
        last_ns: published,
        last_observed_ns: at,
        watts: None,
        span_ns: None,
        observation_clock: usable_timestamp(ts, at) is None,
        last_seen: sample,
    }
}

/// The timestamp that times an observation: none once the channel is on the
/// observation clock, nor where the counter moved while its timestamp did not.
pub open spec fn stamp_of(s: ChannelState, value: i64, ts: Option<u64>, at: u64) -> Option<u64> {
    match usable_timestamp(ts, at) {
        Some(t) => if !s.observation_clock && (t != s.last_ns || value == s.last_value) {
            Some(t)
        } else {
            None
        },
        None => None,
    }
}

/// The channel on the clock that times this observation. The switch to the
/// observation clock restarts the span from the previous observation, so that
/// no span mixes the two clocks.
pub open spec fn clocked(s: ChannelState, value: i64, ts: Option<u64>, at: u64) -> ChannelState {
    let moved = if stamp_of(s, value, ts, at) is None && !s.observation_clock {
        ChannelState {
            baseline_value: s.last_value,
            baseline_ns: s.last_observed_ns,
            observation_clock: true,
            ..s
        }
    } else {
        s
    };
    ChannelState {
        last_value: value,
        last_ns: match stamp_of(s, value, ts, at) {
            Some(t) => t,
            None => at,
        },
        last_observed_ns: at,
        ..moved
    }
}

/// Watts of `counts` of a unit over `span` nanoseconds.
pub open spec fn span_watts(counts: nat, unit: Seq<char>, span: nat) -> Reading {
    let joules = Reading::of_natural(counts).product(joules_of(unit));
    joules.quotient(
        Reading::of_natural(span).quotient(Reading::of_natural(NS_PER_SECOND as nat)),
    )
}

/// How long a reading over `span` is held.
pub open spec fn hold_of(span: Option<u64>) -> nat {
    match span {
        Some(s) => if s * HOLD_SPANS > STALE_PUBLICATION_NS {
            (s * HOLD_SPANS) as nat
        } else {
            STALE_PUBLICATION_NS as nat
        },
        None => STALE_PUBLICATION_NS as nat,
    }
}

/// The channel once an observation has been taken into account: a reset clears
/// the reading, a span that is long enough makes a new one, and a reading that
/// has been held too long is dropped.
pub open spec fn spanned(s: ChannelState, unit: Seq<char>, at: u64) -> ChannelState {
    let value = s.last_value;
    let published = s.last_ns;
    if value < s.baseline_value || published < s.baseline_ns {
        ChannelState { baseline_value: value, baseline_ns: published, watts: None, ..s }
    } else {
        let span = (published - s.baseline_ns) as u64;
        let measured = if span >= MIN_PUBLICATION_SPAN_NS {
            ChannelState {
                watts: Some(
                    span_watts((value - s.baseline_value) as nat, unit, span as nat),
                ),
                span_ns: Some(span),
                baseline_value: value,
                baseline_ns: published,
                ..s
            }
        } else {
            s
        };
        if at - published > hold_of(measured.span_ns) {
            ChannelState { watts: None, ..measured }
        } else {
            measured
        }
    }
}

/// The channel after an observation.
pub open spec fn observed(
    s: ChannelState,
    unit: Seq<char>,
    value: i64,
    ts: Option<u64>,
    at: u64,
) -> ChannelState {
    spanned(clocked(s, value, ts, at), unit, at)
}

fn plausible_timestamp(ts: u64, observed_at_ns: u64) -> (r: bool)
    ensures
        r == plausible(ts, observed_at_ns),
{
    ts <= observed_at_ns.saturating_add(MAX_TIMESTAMP_LEAD_NS)
}

fn usable(ts: Option<u64>, at: u64) -> (r: Option<u64>)
    ensures
        r == usable_timestamp(ts, at),
{
    match ts {
        Some(t) => if plausible_timestamp(t, at) {
            Some(t)
        } else {
            None
        },
        None => None,
    }
}

impl ChannelState {
    pub fn first_sighting(obs: &EnergyObservation, observed_at_ns: u64, sample: u64) -> (r:
        ChannelState)
        ensures
            r == sighted(obs.value, obs.timestamp_ns, observed_at_ns, sample),
    {
        let stamp: Option<u64> = usable(obs.timestamp_ns, observed_at_ns);
        let published: u64 = match stamp {
            Some(t) => t,
            None => observed_at_ns,
        };
        ChannelState {
            baseline_value: obs.value,
            baseline_ns: published,
            last_value: obs.value,
            last_ns: published,
            last_observed_ns: observed_at_ns,
            watts: None,
            span_ns: None,
            observation_clock: stamp.is_none(),
            last_seen: sample,
        }
    }

    fn put_on_clock(&mut self, obs: &EnergyObservation, at: u64)
        ensures
            *final(self) == clocked(*old(self), obs.value, obs.timestamp_ns, at),
    {
        // A counter that moved while its timestamp did not is not being stamped
        // at publication, so its timestamps cannot time a span. A timestamp
        // further ahead of the observation than plausible is not on our clock
        // at all.
        let stamped: Option<u64> = match usable(obs.timestamp_ns, at) {
            Some(t) => if !self.observation_clock && (t != self.last_ns || obs.value
                == self.last_value) {
                Some(t)
            } else {
                None
            },
            None => None,
        };
        let published: u64 = match stamped {
            Some(t) => t,
            None => {
                if !self.observation_clock {
                    self.baseline_value = self.last_value;
                    self.baseline_ns = self.last_observed_ns;
                    self.observation_clock = true;
                }
                at
            },
        };
        self.last_value = obs.value;
        self.last_ns = published;
        self.last_observed_ns = at;
    }

    fn close_span(&mut self, unit: &str, at: u64)
        ensures
            *final(self) == spanned(*old(self), unit@, at),
    {
        let value: i64 = self.last_value;
        let published: u64 = self.last_ns;
        if value < self.baseline_value || published < self.baseline_ns {
            // Counter reset. There is no valid span to report until the next
            // publication closes one from here.
            self.baseline_value = value;
            self.baseline_ns = published;
            self.watts = None;
            return ;
        }
        let span: u64 = published - self.baseline_ns;
        if span >= MIN_PUBLICATION_SPAN_NS {
            let counts: u64 = (value as i128 - self.baseline_value as i128) as u64;
            let joules: Reading = Reading::from_u64(counts).times(joules_per_count(unit));
            let seconds: Reading = Reading::from_u64(span).over(Reading::from_u64(NS_PER_SECOND));
            self.watts = Some(joules.over(seconds));
            self.span_ns = Some(span);
            self.baseline_value = value;
            self.baseline_ns = published;
        }
        let hold: u64 = match self.span_ns {
            Some(s) => {
                let twice: u64 = if s > u64::MAX / HOLD_SPANS {
                    u64::MAX
                } else {
                    s * HOLD_SPANS
                };
                if twice > STALE_PUBLICATION_NS {
                    twice
                } else {
                    STALE_PUBLICATION_NS
                }
            },
            None => STALE_PUBLICATION_NS,
        };
        if at.saturating_sub(published) > hold {
            self.watts = None;
        }
    }

    pub fn observe(&mut self, obs: &EnergyObservation, observed_at_ns: u64)
        ensures
            *final(self) == observed(
                *old(self),
                obs.unit@,
                obs.value,
                obs.timestamp_ns,
                observed_at_ns,
            ),
    {
        self.put_on_clock(obs, observed_at_ns);
        self.close_span(obs.unit.as_str(), observed_at_ns);
    }
}

/// The channels after one observation of sample `sample`. Channels that do not
/// classify into a rail are ignored.
pub open spec fn with_observation(
    m: Map<Seq<char>, ChannelState>,
    o: EnergyObservation,
    at: u64,
    sample: u64,
) -> Map<Seq<char>, ChannelState> {
    if rail_of(o.channel@) is None {
        m
    } else if m.contains_key(o.channel@) {
        m.insert(
            o.channel@,
            ChannelState {
                last_seen: sample,
                ..observed(m[o.channel@], o.unit@, o.value, o.timestamp_ns, at)
            },
        )
    } else {
        m.insert(o.channel@, sighted(o.value, o.timestamp_ns, at, sample))
    }
}

/// The channels after the first `n` observations of a sample.
pub open spec fn with_observations(
    m: Map<Seq<char>, ChannelState>,
    obs: Seq<EnergyObservation>,
    n: nat,
    at: u64,
    sample: u64,
) -> Map<Seq<char>, ChannelState>
    decreases n,
{
    if n == 0 {
        m
    } else {
        with_observation(
            with_observations(m, obs, (n - 1) as nat, at, sample),
            obs[n - 1],
            at,
            sample,
        )
    }
}

/// The channels of the last sample and their watts, in the order of their
/// names; 0 W where there is no reading yet.
pub open spec fn live_channels(entries: Seq<(String, ChannelState)>, sample: u64) -> Seq<
    (Seq<char>, Reading),
>
    decreases entries.len(),
{
    if entries.len() == 0 {
        seq![]
    } else {
        let before = live_channels(entries.drop_last(), sample);
        let (name, state) = entries.last();
        if state.last_seen == sample {
            before.push(
                (
                    name@,
                    match state.watts {
                        Some(w) => w,
                        None => Reading { bits: 0 },
                    },
                ),
            )
        } else {
            before
        }
    }
}

/// Turns raw energy counters into watts, timing each channel by its own
/// publication timestamps.
///
/// Power for a channel is `(value - baseline value) / (timestamp - baseline
/// timestamp)`, evaluated when the channel publishes. Between publications the
/// previous reading is held rather than replaced by 0 W, and the poll interval
/// never enters the calculation. Feed it every raw sample, in order.
#[derive(Debug, Clone, PartialEq, Eq)]
pub struct EnergyTracker {
    pub channels: Table<ChannelState>,
    /// Number of samples observed so far.
    pub samples: u64,
}

impl Default for EnergyTracker {
    fn default() -> (r: EnergyTracker)
        ensures
            r.channels@ == Map::<Seq<char>, ChannelState>::empty(),
            r.channels.ordered(),
            r.samples == 0,
    {
        EnergyTracker { channels: Table::new(), samples: 0 }
    }
}

impl EnergyTracker {
    /// Feed one raw sample. `observed_at_ns` is when the sample was taken, on
    /// the same clock as the timestamps.
    pub fn observe_sample(&mut self, observed_at_ns: u64, observations: &[EnergyObservation])
        requires
            old(self).samples < u64::MAX,
        ensures
            final(self).samples == old(self).samples + 1,
            final(self).channels@ == with_observations(
                old(self).channels@,
                observations@,
                observations@.len(),
                observed_at_ns,
                final(self).samples,
            ),
            old(self).channels.ordered() ==> final(self).channels.ordered(),
    {
        self.samples = self.samples + 1;
        let ghost start = self.channels@;
        let mut i: usize = 0;
        while i < observations.len()
            invariant
                i <= observations@.len(),
                self.samples == old(self).samples + 1,
                old(self).channels.ordered() ==> self.channels.ordered(),
                self.channels@ == with_observations(
                    start,
                    observations@,
                    i as nat,
                    observed_at_ns,
                    self.samples,
                ),
            decreases observations@.len() - i,
        {
            let obs: &EnergyObservation = &observations[i];
            if classify_energy_channel(obs.channel.as_str()).is_some() {
                let state: ChannelState = match self.channels.get(obs.channel.as_str()) {
                    Some(known) => {
                        let mut s: ChannelState = *known;
                        s.observe(obs, observed_at_ns);
                        s.last_seen = self.samples;
                        s
                    },
                    None => ChannelState::first_sighting(obs, observed_at_ns, self.samples),
                };
                self.channels.insert(copied(obs.channel.as_str()), state);
            }
            i = i + 1;
        }
    }

    /// Power per rail as of the most recent sample. A channel with no reading
    /// yet counts as 0 W.
    pub fn readings(&self) -> (r: EnergyReadings)
        ensures
            r == rails_read(rails_of(live_channels(self.channels.entries@, self.samples))),
    {
        let ghost all = self.channels.entries@;
        let mut live: Vec<(&str, Reading)> = Vec::new();
        let mut i: usize = 0;
        assert(all.take(0) == Seq::<(String, ChannelState)>::empty());
        assert(channels_of(live@) == Seq::<(Seq<char>, Reading)>::empty());
        while i < self.channels.entries.len()
            invariant
                i <= self.channels.entries@.len(),
                all == self.channels.entries@,
                channels_of(live@) == live_channels(all.take(i as int), self.samples),
            decreases self.channels.entries@.len() - i,
        {
            let ghost before = channels_of(live@);
            assert(all.take(i + 1).drop_last() == all.take(i as int));
            let state: ChannelState = self.channels.entries[i].1;
            if state.last_seen == self.samples {
                let watts: Reading = match state.watts {
                    Some(w) => w,
                    None => Reading { bits: 0 },
                };
                let name: &str = self.channels.entries[i].0.as_str();
                live.push((name, watts));
                assert(channels_of(live@) == before.push((name@, watts)));
            }
            i = i + 1;
        }
        assert(all.take(all.len() as int) == all);
        sum_rails(&live)
    }
}

/// Whether a channel is the package CPU roll-up.
pub open spec fn is_package_cpu() -> spec_fn((Seq<char>, Reading)) -> bool {
    |c: (Seq<char>, Reading)| c.0 == PACKAGE_CPU_ENERGY@
}

/// Whether a channel is `GPU Energy`.
pub open spec fn is_gpu_energy() -> spec_fn((Seq<char>, Reading)) -> bool {
    |c: (Seq<char>, Reading)| c.0 == "GPU Energy"@
}

proof fn package_sums(cs: Seq<(Seq<char>, Reading)>)
    ensures
        rails_of(cs).cpu.package == rails_of(cs.filter(is_package_cpu())).cpu.package,
        rails_of(cs).gpu == rails_of(cs.filter(is_gpu_energy())).gpu,
        forall|i: int|
            0 <= i < cs.len() && (#[trigger] cs[i]).0 == PACKAGE_CPU_ENERGY@
                ==> rails_of(cs).cpu.package is Some,
        forall|i: int|
            0 <= i < cs.len() && (#[trigger] cs[i]).0 == "GPU Energy"@ ==> rails_of(cs).gpu is Some,
    decreases cs.len(),
{
    reveal(Seq::filter);
    if cs.len() > 0 {
        let head = cs.drop_last();
        let last = cs.last();
        package_sums(head);
        let packages = head.filter(is_package_cpu());
        let gpus = head.filter(is_gpu_energy());
        assert(packages.push(last).drop_last() == packages);
        assert(gpus.push(last).drop_last() == gpus);
        reveal_strlit("CPU Energy");
        reveal_strlit("GPU Energy");
        assert("CPU Energy"@[0] != "GPU Energy"@[0]);
        assert(PACKAGE_CPU_ENERGY@.skip(0) == PACKAGE_CPU_ENERGY@);
        assert(ends(PACKAGE_CPU_ENERGY@, PACKAGE_CPU_ENERGY@));
        assert forall|i: int|
            0 <= i < cs.len() && (#[trigger] cs[i]).0
                == PACKAGE_CPU_ENERGY@ implies rails_of(cs).cpu.package is Some by {
            if i < head.len() {
                assert(head[i] == cs[i]);
            }
        }
        assert forall|i: int|
            0 <= i < cs.len() && (#[trigger] cs[i]).0 == "GPU Energy"@ implies rails_of(
            cs,
        ).gpu is Some by {
            if i < head.len() {
                assert(head[i] == cs[i]);
            }
        }
    }
}

/// A per-die sum is never added to a package total: a set with the package CPU
/// channel reads the CPU rail from it alone, and one with `GPU Energy` the GPU
/// rail from that alone.
pub proof fn a_package_total_stands_alone(cs: Seq<(Seq<char>, Reading)>, i: int)
    requires
        0 <= i < cs.len(),
    ensures
        cs[i].0 == PACKAGE_CPU_ENERGY@ ==> rails_read(rails_of(cs)).cpu == rails_read(
            rails_of(cs.filter(is_package_cpu())),
        ).cpu,
        cs[i].0 == "GPU Energy"@ ==> rails_read(rails_of(cs)).gpu == rails_read(
            rails_of(cs.filter(is_gpu_energy())),
        ).gpu,
{
    package_sums(cs);
}

/// The rail that a channel feeds, and how specific its name is there.
pub open spec fn slot_of(name: Seq<char>) -> Option<(EnergyRail, Family)> {
    match rail_of(name) {
        Some(EnergyRail::Cpu) => Some(
            (
                EnergyRail::Cpu,
                if name == PACKAGE_CPU_ENERGY@ {
                    Family::Package
                } else {
                    Family::Block
                },
            ),
        ),
        Some(EnergyRail::Gpu) => Some((EnergyRail::Gpu, Family::Package)),
        Some(EnergyRail::GpuFallback) => Some(
            (EnergyRail::GpuFallback, family_of(name, "GPU"@)),
        ),
        Some(EnergyRail::Ane) => Some((EnergyRail::Ane, family_of(name, "ANE"@))),
        Some(EnergyRail::Dram) => Some((EnergyRail::Dram, family_of(name, "DRAM"@))),
        None => None,
    }
}

/// How specific a family is.
pub open spec fn depth(f: Family) -> int {
    match f {
        Family::Package => 0,
        Family::Block => 1,
        Family::Die => 2,
    }
}

/// Whether a channel named `a` stands in for one named `b`: `GPU Energy` for
/// every other GPU channel, and on any other rail a less specific name for a
/// more specific one.
pub open spec fn stands_for(a: Seq<char>, b: Seq<char>) -> bool {
    match (slot_of(a), slot_of(b)) {
        (Some((ra, fa)), Some((rb, fb))) => {
            ||| ra == EnergyRail::Gpu && rb == EnergyRail::GpuFallback
            ||| ra == rb && depth(fa) < depth(fb)
        },
        _ => false,
    }
}

spec fn in_family(f: Families, family: Family) -> Option<Reading> {
    match family {
        Family::Package => f.package,
        Family::Block => f.block,
        Family::Die => f.die,
    }
}

/// The sum in one slot.
spec fn slot_sum(r: Rails, rail: EnergyRail, family: Family) -> Option<Reading> {
    match rail {
        EnergyRail::Cpu => in_family(r.cpu, family),
        EnergyRail::Gpu => if family == Family::Package {
            r.gpu
        } else {
            None
        },
        EnergyRail::GpuFallback => in_family(r.gpu_fallback, family),
        EnergyRail::Ane => in_family(r.ane, family),
        EnergyRail::Dram => in_family(r.dram, family),
    }
}

proof fn channels_fill_their_slot(
    r: Rails,
    name: Seq<char>,
    watts: Reading,
    rail: EnergyRail,
    family: Family,
)
    ensures
        slot_sum(with_channel(r, name, watts), rail, family) == if slot_of(name) == Some(
            (rail, family),
        ) {
            grown(slot_sum(r, rail, family), watts)
        } else {
            slot_sum(r, rail, family)
        },
{
}

proof fn other_slots_stay(
    cs: Seq<(Seq<char>, Reading)>,
    i: int,
    rail: EnergyRail,
    family: Family,
)
    requires
        0 <= i < cs.len(),
        slot_of(cs[i].0) != Some((rail, family)),
    ensures
        slot_sum(rails_of(cs.remove(i)), rail, family) == slot_sum(rails_of(cs), rail, family),
    decreases cs.len(),
{
    let head = cs.drop_last();
    let last = cs.last();
    channels_fill_their_slot(rails_of(head), last.0, last.1, rail, family);
    if i == cs.len() - 1 {
        assert(cs.remove(i) == head);
    } else {
        let less = cs.remove(i);
        assert(less.drop_last() == head.remove(i));
        assert(less.last() == last);
        other_slots_stay(head, i, rail, family);
        channels_fill_their_slot(rails_of(head.remove(i)), last.0, last.1, rail, family);
    }
}

proof fn filled_slots_have_a_sum(
    cs: Seq<(Seq<char>, Reading)>,
    j: int,
    rail: EnergyRail,
    family: Family,
)
    requires
        0 <= j < cs.len(),
        slot_of(cs[j].0) == Some((rail, family)),
    ensures
        slot_sum(rails_of(cs), rail, family) is Some,
    decreases cs.len(),
{
    let head = cs.drop_last();
    let last = cs.last();
    channels_fill_their_slot(rails_of(head), last.0, last.1, rail, family);
    if j < cs.len() - 1 {
        assert(head[j] == cs[j]);
        filled_slots_have_a_sum(head, j, rail, family);
    }
}

/// What another channel stands in for counts for nothing: with or without it,
/// wherever it stands in the list, the rails read the same.
pub proof fn absorbed_channels_count_for_nothing(cs: Seq<(Seq<char>, Reading)>, i: int, j: int)
    requires
        0 <= i < cs.len(),
        0 <= j < cs.len(),
        i != j,
        stands_for(cs[j].0, cs[i].0),
    ensures
        rails_read(rails_of(cs.remove(i))) == rails_read(rails_of(cs)),
{
    let (rail, family) = slot_of(cs[j].0)->0;
    filled_slots_have_a_sum(cs, j, rail, family);
    assert forall|r: EnergyRail, f: Family|
        slot_of(cs[i].0) != Some((r, f)) implies #[trigger] slot_sum(
        rails_of(cs.remove(i)),
        r,
        f,
    ) == slot_sum(rails_of(cs), r, f) by {
        other_slots_stay(cs, i, r, f);
    }
    let (a, b) = (rails_of(cs.remove(i)), rails_of(cs));
    assert(slot_sum(a, EnergyRail::Cpu, Family::Package) == a.cpu.package);
    assert(slot_sum(a, EnergyRail::Cpu, Family::Block) == a.cpu.block);
    assert(slot_sum(a, EnergyRail::Cpu, Family::Die) == a.cpu.die);
    assert(slot_sum(a, EnergyRail::Gpu, Family::Package) == a.gpu);
    assert(slot_sum(a, EnergyRail::GpuFallback, Family::Package) == a.gpu_fallback.package);
    assert(slot_sum(a, EnergyRail::GpuFallback, Family::Block) == a.gpu_fallback.block);
    assert(slot_sum(a, EnergyRail::GpuFallback, Family::Die) == a.gpu_fallback.die);
    assert(slot_sum(a, EnergyRail::Ane, Family::Package) == a.ane.package);
    assert(slot_sum(a, EnergyRail::Ane, Family::Block) == a.ane.block);
    assert(slot_sum(a, EnergyRail::Ane, Family::Die) == a.ane.die);
    assert(slot_sum(a, EnergyRail::Dram, Family::Package) == a.dram.package);
    assert(slot_sum(a, EnergyRail::Dram, Family::Block) == a.dram.block);
    assert(slot_sum(a, EnergyRail::Dram, Family::Die) == a.dram.die);
}

/// A more specific family never changes a rail that a less specific one feeds,
/// whichever comes first.
pub proof fn the_least_specific_family_counts(f: Families, watts: Reading)
    ensures
        f.package is Some ==> f.with(Family::Block, watts).rail() == f.rail(),
        f.package is Some ==> f.with(Family::Die, watts).rail() == f.rail(),
        f.block is Some ==> f.with(Family::Die, watts).rail() == f.rail(),
        f.with(Family::Package, watts).rail() == grown(f.package, watts)->0,
{
}

/// Whether a channel stands between two publications: nothing was counted since
/// its baseline but a tail too short for a span.
pub open spec fn settled(s: ChannelState) -> bool {
    &&& s.baseline_value <= s.last_value
    &&& s.baseline_ns <= s.last_ns
    &&& s.last_ns - s.baseline_ns < MIN_PUBLICATION_SPAN_NS
}

/// Every tracked channel stands between two publications, and a channel that is
/// timed by the observation clock stays so.
pub proof fn channels_stay_settled(
    s: ChannelState,
    unit: Seq<char>,
    value: i64,
    ts: Option<u64>,
    at: u64,
    sample: u64,
)
    ensures
        settled(sighted(value, ts, at, sample)),
        settled(observed(s, unit, value, ts, at)),
        s.observation_clock ==> observed(s, unit, value, ts, at).observation_clock,
{
}

/// Between publications the reading is held rather than replaced by 0 W, until
/// it has been held too long.
pub proof fn readings_are_held_between_publications(
    s: ChannelState,
    unit: Seq<char>,
    at: u64,
)
    requires
        settled(s),
        !s.observation_clock,
        plausible(s.last_ns, at),
    ensures
        at - s.last_ns <= hold_of(s.span_ns) ==> observed(
            s,
            unit,
            s.last_value,
            Some(s.last_ns),
            at,
        ).watts == s.watts,
        at - s.last_ns > hold_of(s.span_ns) ==> observed(
            s,
            unit,
            s.last_value,
            Some(s.last_ns),
            at,
        ).watts is None,
{
}

/// The poll interval never enters the calculation: what a publication reads is
/// the same whenever it is observed, short of going stale.
pub proof fn readings_do_not_depend_on_the_poll(
    s: ChannelState,
    unit: Seq<char>,
    value: i64,
    ts: u64,
    first: u64,
    second: u64,
)
    requires
        !s.observation_clock,
        plausible(ts, first) && plausible(ts, second),
        first - ts <= STALE_PUBLICATION_NS && second - ts <= STALE_PUBLICATION_NS,
        ts != s.last_ns || value == s.last_value,
    ensures
        observed(s, unit, value, Some(ts), first).watts == observed(
            s,
            unit,
            value,
            Some(ts),
            second,
        ).watts,
{
}

/// After a counter reset there is no reading.
pub proof fn a_reset_has_no_reading(
    s: ChannelState,
    unit: Seq<char>,
    value: i64,
    ts: Option<u64>,
    at: u64,
)
    requires
        stamp_of(s, value, ts, at) is Some || s.observation_clock,
        value < s.baseline_value,
    ensures
        observed(s, unit, value, ts, at).watts is None,
{
}

/// What a publication reads is its own span: the counts since the baseline, in
/// joules, over the seconds since the baseline. Which reading the channel held
/// before is of no account, and the next span starts here.
pub proof fn a_publication_reads_its_own_span(
    s: ChannelState,
    held: Option<Reading>,
    unit: Seq<char>,
    value: i64,
    ts: u64,
    at: u64,
)
    requires
        !s.observation_clock,
        ts <= at + 1_000_000_000,
        ts != s.last_ns,
        value >= s.baseline_value,
        ts - s.baseline_ns >= 50_000_000,
        at - ts <= 10_000_000_000 || at - ts <= 2 * (ts - s.baseline_ns),
    ensures
        ({
            let after = observed(s, unit, value, Some(ts), at);
            let other = observed(ChannelState { watts: held, ..s }, unit, value, Some(ts), at);
            let joules = Reading::of_natural((value - s.baseline_value) as nat).product(
                joules_of(unit),
            );
            let seconds = Reading::of_natural((ts - s.baseline_ns) as nat).quotient(
                Reading::of_natural(1_000_000_000),
            );
            &&& after.watts == Some(joules.quotient(seconds))
            &&& after == other
            &&& after.baseline_value == value && after.baseline_ns == ts
            &&& after.last_value == value && after.last_ns == ts
            &&& after.last_observed_ns == at
            &&& after.span_ns == Some((ts - s.baseline_ns) as u64)
            &&& !after.observation_clock
        }),
{
}

/// The same of a channel without usable timestamps, which is timed by when it is
/// observed.
pub proof fn an_unstamped_observation_reads_its_own_span(
    s: ChannelState,
    held: Option<Reading>,
    unit: Seq<char>,
    value: i64,
    ts: Option<u64>,
    at: u64,
)
    requires
        s.observation_clock,
        value >= s.baseline_value,
        at - s.baseline_ns >= 50_000_000,
    ensures
        ({
            let after = observed(s, unit, value, ts, at);
            let other = observed(ChannelState { watts: held, ..s }, unit, value, ts, at);
            let joules = Reading::of_natural((value - s.baseline_value) as nat).product(
                joules_of(unit),
            );
            let seconds = Reading::of_natural((at - s.baseline_ns) as nat).quotient(
                Reading::of_natural(1_000_000_000),
            );
            &&& after.watts == Some(joules.quotient(seconds))
            &&& after == other
            &&& after.baseline_value == value && after.baseline_ns == at
            &&& after.observation_clock
        }),
{
}

/// A channel whose timestamp is missing, too far ahead of the observation, or
/// frozen while the counter moves is timed by its observations from then on, and
/// its span runs from the previous one.
pub proof fn unusable_timestamps_switch_the_clock(
    s: ChannelState,
    unit: Seq<char>,
    value: i64,
    ts: Option<u64>,
    at: u64,
)
    requires
        !s.observation_clock,
        ts is None || ts->0 > at + 1_000_000_000 || (ts->0 == s.last_ns && value != s.last_value),
        value >= s.last_value,
        at - s.last_observed_ns >= 50_000_000,
    ensures
        ({
            let after = observed(s, unit, value, ts, at);
            let joules = Reading::of_natural((value - s.last_value) as nat).product(
                joules_of(unit),
            );
            let seconds = Reading::of_natural((at - s.last_observed_ns) as nat).quotient(
                Reading::of_natural(1_000_000_000),
            );
            &&& after.observation_clock
            &&& after.watts == Some(joules.quotient(seconds))
            &&& after.baseline_value == value && after.baseline_ns == at
        }),
{
}

/// A publication right behind another is folded into the next span: the
/// baseline and the reading stay as they are, and the publication after it is
/// measured from that same baseline.
pub proof fn short_tails_fold_into_the_next_span(
    s: ChannelState,
    unit: Seq<char>,
    tail: i64,
    tail_ts: u64,
    tail_at: u64,
    value: i64,
    ts: u64,
    at: u64,
)
    requires
        !s.observation_clock,
        tail_ts <= tail_at + 1_000_000_000,
        tail_ts != s.last_ns,
        s.baseline_value <= tail <= value,
        0 <= tail_ts - s.baseline_ns < 50_000_000,
        tail_at - tail_ts <= 10_000_000_000,
        ts <= at + 1_000_000_000,
        ts > tail_ts,
        ts - s.baseline_ns >= 50_000_000,
        at - ts <= 10_000_000_000,
    ensures
        ({
            let between = observed(s, unit, tail, Some(tail_ts), tail_at);
            let after = observed(between, unit, value, Some(ts), at);
            let joules = Reading::of_natural((value - s.baseline_value) as nat).product(
                joules_of(unit),
            );
            let seconds = Reading::of_natural((ts - s.baseline_ns) as nat).quotient(
                Reading::of_natural(1_000_000_000),
            );
            &&& between.watts == s.watts
            &&& between.baseline_value == s.baseline_value
            &&& between.baseline_ns == s.baseline_ns
            &&& after.watts == Some(joules.quotient(seconds))
        }),
{
}

/// A reading is dropped once its channel has not published for ten seconds, or
/// for twice its own span where that is longer, and not before.
pub proof fn readings_go_stale(s: ChannelState, unit: Seq<char>, at: u64)
    requires
        settled(s),
        !s.observation_clock,
        s.last_ns <= at,
    ensures
        ({
            let after = observed(s, unit, s.last_value, Some(s.last_ns), at);
            let silent = at - s.last_ns;
            let twice = match s.span_ns {
                Some(n) => 2 * n,
                None => 0,
            };
            after.watts == if silent > 10_000_000_000 && silent > twice {
                None
            } else {
                s.watts
            }
        }),
{
}

/// A channel that is seen for the first time has no reading, and its first span
/// starts there.
pub proof fn a_first_sighting_is_a_baseline(value: i64, ts: Option<u64>, at: u64, sample: u64)
    ensures
        ({
            let s = sighted(value, ts, at, sample);
            &&& s.watts is None && s.span_ns is None
            &&& s.baseline_value == value && s.last_value == value
            &&& s.last_observed_ns == at && s.last_seen == sample
            &&& if ts is Some && ts->0 <= at + 1_000_000_000 {
                s.baseline_ns == ts->0 && s.last_ns == ts->0 && !s.observation_clock
            } else {
                s.baseline_ns == at && s.last_ns == at && s.observation_clock
            }
        }),
{
}

/// A counter that fell, or a timestamp that went back, is a reset: there is no
/// reading, and the next span starts here.
pub proof fn a_reset_starts_over(
    s: ChannelState,
    unit: Seq<char>,
    value: i64,
    ts: u64,
    at: u64,
)
    requires
        !s.observation_clock,
        ts <= at + 1_000_000_000,
        ts != s.last_ns,
        value < s.baseline_value || ts < s.baseline_ns,
    ensures
        observed(s, unit, value, Some(ts), at).watts is None,
        observed(s, unit, value, Some(ts), at).baseline_value == value,
        observed(s, unit, value, Some(ts), at).baseline_ns == ts,
{
}

} // verus!
