//! What the power rails say of the energy channels behind them.
use vstd::arithmetic::power2::*;
use vstd::prelude::*;
use vstd::string::*;

use crate::device::macos_native::energy::{
    digits, family_of, joules_of, live_channels, observed, rail_of, rails_of, rails_read, sighted,
    slot_of, top_level, with_observations, ChannelState, EnergyObservation, EnergyRail,
    EnergyReadings, Families, Family, Rails,
};
use crate::device::macos_native::ioreport::{
    published_ns, scaled_ticks, tracked_channels, RawChannel,
};
use crate::reading::{bits_of_a_fraction, nearest, Reading};
use crate::text::{all_digits, begins, ends, first_of, is_digit};

verus! {

/// A count is a thousandth, a millionth or a billionth of a joule, as its unit
/// says; a billionth where the unit is none of these.
pub proof fn units_are_decimal(unit: Seq<char>)
    ensures
        joules_of("mJ"@).magnitude() == nearest(pow2(1074), 1_000),
        joules_of("uJ"@).magnitude() == nearest(pow2(1074), 1_000_000),
        joules_of("nJ"@).magnitude() == nearest(pow2(1074), 1_000_000_000),
        !joules_of(unit).negative(),
        unit != "mJ"@ && unit != "uJ"@ ==> joules_of(unit) == joules_of("nJ"@),
{
    reveal_strlit("mJ");
    reveal_strlit("uJ");
    reveal_strlit("nJ");
    assert("mJ"@[0] == 'm' && "uJ"@[0] == 'u' && "nJ"@[0] == 'n');
    lemma2_to64();
    lemma2_to64_rest();
    let u = pow2(1074);
    assert(1 * u == u);
    lemma_pow2_adds(36, 36);
    lemma_pow2_adds(41, 41);
    assert(pow2(62) == 4_611_686_018_427_387_904);
    assert(1 * pow2(62) == 4_611_686_018_427_387_904);
    bits_of_a_fraction(1, 1_000, 62, 4_611_686_018_427_388);
    assert(pow2(72) == 4_722_366_482_869_645_213_696nat) by (nonlinear_arith)
        requires
            pow2(72) == pow2(36) * pow2(36),
            pow2(36) == 68_719_476_736,
    ;
    assert(1 * pow2(72) == pow2(72));
    bits_of_a_fraction(1, 1_000_000, 72, 4_722_366_482_869_645);
    assert(pow2(82) == 4_835_703_278_458_516_698_824_704nat) by (nonlinear_arith)
        requires
            pow2(82) == pow2(41) * pow2(41),
            pow2(41) == 2_199_023_255_552,
    ;
    assert(1 * pow2(82) == pow2(82));
    bits_of_a_fraction(1, 1_000_000_000, 82, 4_835_703_278_458_517);
}

/// The sum in one slot of the rails.
spec fn in_slot(r: Rails, rail: EnergyRail, family: Family) -> Option<Reading> {
    let f = match rail {
        EnergyRail::Cpu => r.cpu,
        EnergyRail::Gpu => Families { package: r.gpu, block: None, die: None },
        EnergyRail::GpuFallback => r.gpu_fallback,
        EnergyRail::Ane => r.ane,
        EnergyRail::Dram => r.dram,
    };
    match family {
        Family::Package => f.package,
        Family::Block => f.block,
        Family::Die => f.die,
    }
}

proof fn slots_fill(cs: Seq<(Seq<char>, Reading)>, rail: EnergyRail, family: Family)
    ensures
        in_slot(rails_of(cs), rail, family) is Some <==> exists|i: int|
            0 <= i < cs.len() && slot_of((#[trigger] cs[i]).0) == Some((rail, family)),
    decreases cs.len(),
{
    if cs.len() > 0 {
        let head = cs.drop_last();
        slots_fill(head, rail, family);
        let last = cs.last();
        assert(cs[cs.len() - 1] == last);
        if in_slot(rails_of(head), rail, family) is Some {
            let i = choose|i: int|
                0 <= i < head.len() && slot_of((#[trigger] head[i]).0) == Some((rail, family));
            assert(cs[i] == head[i]);
        }
        if exists|i: int| 0 <= i < cs.len() && slot_of((#[trigger] cs[i]).0) == Some(
            (rail, family),
        ) {
            let i = choose|i: int|
                0 <= i < cs.len() && slot_of((#[trigger] cs[i]).0) == Some((rail, family));
            if i < head.len() {
                assert(head[i] == cs[i]);
            }
        }
    }
}

/// The rail that a rail's reading stands under.
pub open spec fn read_under(r: EnergyReadings, rail: EnergyRail) -> Reading {
    match rail {
        EnergyRail::Cpu => r.cpu,
        EnergyRail::Gpu => r.gpu,
        EnergyRail::GpuFallback => r.gpu,
        EnergyRail::Ane => r.ane,
        EnergyRail::Dram => r.dram,
    }
}

/// Whether two rails are read as one.
pub open spec fn same_reading(a: EnergyRail, b: EnergyRail) -> bool {
    a == b || (a == EnergyRail::Gpu && b == EnergyRail::GpuFallback) || (a
        == EnergyRail::GpuFallback && b == EnergyRail::Gpu)
}

/// A channel adds its watts to the rail that its name says, and to no other. One
/// that names no rail adds nothing.
pub proof fn channels_add_to_their_own_rail(
    cs: Seq<(Seq<char>, Reading)>,
    name: Seq<char>,
    watts: Reading,
    other: EnergyRail,
)
    ensures
        ({
            let before = rails_read(rails_of(cs));
            let after = rails_read(rails_of(cs.push((name, watts))));
            &&& rail_of(name) is None ==> after == before
            &&& rail_of(name) matches Some(rail) ==> {
                &&& !same_reading(rail, other) ==> read_under(after, other) == read_under(
                    before,
                    other,
                )
                &&& (forall|i: int|
                    0 <= i < cs.len() && (rail_of((#[trigger] cs[i]).0) matches Some(x)
                        ==> same_reading(x, rail)) && rail_of(cs[i].0) is Some ==> slot_of(
                        cs[i].0,
                    ) == slot_of(name)) ==> read_under(after, rail) == read_under(
                    before,
                    rail,
                ).sum(watts)
            }
        }),
{
    let more = cs.push((name, watts));
    assert(more.drop_last() == cs);
    assert(more.last() == (name, watts));
    if let Some(rail) = rail_of(name) {
        let (r, family) = slot_of(name)->0;
        if forall|i: int|
            0 <= i < cs.len() && (rail_of((#[trigger] cs[i]).0) matches Some(x) ==> same_reading(
                x,
                rail,
            )) && rail_of(cs[i].0) is Some ==> slot_of(cs[i].0) == slot_of(name) {
            assert forall|q: EnergyRail, f: Family|
                same_reading(q, rail) && (q, f) != (r, family) implies #[trigger] in_slot(
                rails_of(cs),
                q,
                f,
            ) is None by {
                slots_fill(cs, q, f);
                if in_slot(rails_of(cs), q, f) is Some {
                    let i = choose|i: int|
                        0 <= i < cs.len() && slot_of((#[trigger] cs[i]).0) == Some((q, f));
                    assert(rail_of(cs[i].0) == Some(q));
                }
            }
            let before = rails_of(cs);
            assert(in_slot(before, rail, Family::Package) is None || (rail, Family::Package) == (
                r,
                family,
            ));
            assert(in_slot(before, rail, Family::Block) is None || (rail, Family::Block) == (
                r,
                family,
            ));
            assert(in_slot(before, rail, Family::Die) is None || (rail, Family::Die) == (
                r,
                family,
            ));
            if rail == EnergyRail::Gpu {
                assert(in_slot(before, EnergyRail::GpuFallback, Family::Package) is None);
                assert(in_slot(before, EnergyRail::GpuFallback, Family::Block) is None);
                assert(in_slot(before, EnergyRail::GpuFallback, Family::Die) is None);
            }
            if rail == EnergyRail::GpuFallback {
                assert(in_slot(before, EnergyRail::Gpu, Family::Package) is None);
            }
        }
    }
}

proof fn digits_hold_no_underscore(s: Seq<char>)
    requires
        all_digits(s),
    ensures
        first_of(s, '_') == s.len(),
    decreases s.len(),
{
    if s.len() > 0 {
        assert(is_digit(s[0]));
        let rest = s.drop_first();
        assert forall|i: int| 0 <= i < rest.len() implies is_digit(#[trigger] rest[i]) by {
            assert(rest[i] == s[i + 1]);
        }
        digits_hold_no_underscore(rest);
    }
}

proof fn underscore_behind_digits(a: Seq<char>, b: Seq<char>)
    requires
        all_digits(a),
    ensures
        first_of(a + seq!['_'] + b, '_') == a.len(),
    decreases a.len(),
{
    let s = a + seq!['_'] + b;
    if a.len() > 0 {
        assert(is_digit(a[0]));
        assert(s[0] == a[0]);
        let rest = a.drop_first();
        assert forall|i: int| 0 <= i < rest.len() implies is_digit(#[trigger] rest[i]) by {
            assert(rest[i] == a[i + 1]);
        }
        underscore_behind_digits(rest, b);
        assert(s.drop_first() == rest + seq!['_'] + b);
    }
}

/// A block's own channels are its name alone, with a number, or with a number and
/// that of a die; each is more specific than the one before.
proof fn numbered_names(prefix: Seq<char>, n: Seq<char>, m: Seq<char>)
    requires
        digits(n),
        digits(m),
    ensures
        top_level(prefix, prefix) && family_of(prefix, prefix) == Family::Package,
        top_level(prefix + n, prefix) && family_of(prefix + n, prefix) == Family::Block,
        top_level(prefix + n + seq!['_'] + m, prefix) && family_of(
            prefix + n + seq!['_'] + m,
            prefix,
        ) == Family::Die,
{
    let (a, b, c) = (prefix, prefix + n, prefix + n + seq!['_'] + m);
    let k = prefix.len() as int;
    assert(a.take(k) == prefix && b.take(k) == prefix && c.take(k) == prefix);
    assert(a.skip(k) == Seq::<char>::empty());
    assert(b.skip(k) == n);
    assert(c.skip(k) == n + seq!['_'] + m);
    digits_hold_no_underscore(n);
    underscore_behind_digits(n, m);
    let rest = n + seq!['_'] + m;
    assert(rest.take(n.len() as int) == n);
    assert(rest.skip(n.len() as int + 1) == m);
}

/// What the names of energy channels stand for.
pub proof fn channels_are_named_by_rail(n: Seq<char>, m: Seq<char>, front: Seq<char>)
    requires
        digits(n),
        digits(m),
        front.len() > 0,
    ensures
        slot_of("CPU Energy"@) == Some((EnergyRail::Cpu, Family::Package)),
        slot_of(front + "CPU Energy"@) == Some((EnergyRail::Cpu, Family::Block)),
        slot_of("GPU Energy"@) == Some((EnergyRail::Gpu, Family::Package)),
        slot_of("GPU"@) is None,
        slot_of("GPU"@ + n) == Some((EnergyRail::GpuFallback, Family::Block)),
        slot_of("GPU"@ + n + seq!['_'] + m) == Some((EnergyRail::GpuFallback, Family::Die)),
        slot_of("ANE"@) == Some((EnergyRail::Ane, Family::Package)),
        slot_of("ANE"@ + n) == Some((EnergyRail::Ane, Family::Block)),
        slot_of("ANE"@ + n + seq!['_'] + m) == Some((EnergyRail::Ane, Family::Die)),
        slot_of("DRAM"@) == Some((EnergyRail::Dram, Family::Package)),
        slot_of("DRAM"@ + n) == Some((EnergyRail::Dram, Family::Block)),
        slot_of("DRAM"@ + n + seq!['_'] + m) == Some((EnergyRail::Dram, Family::Die)),
{
    reveal_strlit("CPU Energy");
    reveal_strlit("GPU Energy");
    reveal_strlit("GPU");
    reveal_strlit("ANE");
    reveal_strlit("DRAM");
    numbered_names("GPU"@, n, m);
    numbered_names("ANE"@, n, m);
    numbered_names("DRAM"@, n, m);
    let cpu = "CPU Energy"@;
    assert(cpu.skip(0) == cpu);
    assert("CPU Energy"@[0] == 'C' && "GPU Energy"@[0] == 'G');
    let die = front + cpu;
    assert(die.skip(front.len() as int) == cpu);
    assert(die.len() > 10);
    assert("GPU Energy"@.len() == 10);
    let g = "GPU Energy"@;
    assert(g != cpu);
    ends_differ("GPU"@, n, m);
    ends_differ("ANE"@, n, m);
    ends_differ("DRAM"@, n, m);
    assert("ANE"@[0] == 'A' && "DRAM"@[0] == 'D' && "GPU"@[0] == 'G');
    starts_differ("GPU"@, "ANE"@, n, m);
    starts_differ("GPU"@, "DRAM"@, n, m);
    starts_differ("ANE"@, "DRAM"@, n, m);
    assert("GPU"@ + n != "GPU"@) by {
        assert(("GPU"@ + n).len() > 3);
    }
    assert("GPU"@ + n + seq!['_'] + m != "GPU"@) by {
        assert(("GPU"@ + n + seq!['_'] + m).len() > 3);
    }
}

/// A name that ends in a digit, or is short, is no energy roll-up.
proof fn ends_differ(prefix: Seq<char>, n: Seq<char>, m: Seq<char>)
    requires
        digits(n),
        digits(m),
        prefix.len() < 10,
    ensures
        !ends(prefix, "CPU Energy"@) && prefix != "GPU Energy"@,
        !ends(prefix + n, "CPU Energy"@) && prefix + n != "GPU Energy"@,
        !ends(prefix + n + seq!['_'] + m, "CPU Energy"@) && prefix + n + seq!['_'] + m
            != "GPU Energy"@,
{
    reveal_strlit("CPU Energy");
    reveal_strlit("GPU Energy");
    let (b, c) = (prefix + n, prefix + n + seq!['_'] + m);
    assert(b.last() == n.last() && is_digit(n[n.len() - 1]));
    assert(c.last() == m.last() && is_digit(m[m.len() - 1]));
    assert("CPU Energy"@[9] == 'y' && "GPU Energy"@[9] == 'y');
    if ends(b, "CPU Energy"@) {
        assert(b.skip(b.len() - 10)[9] == b.last());
    }
    if ends(c, "CPU Energy"@) {
        assert(c.skip(c.len() - 10)[9] == c.last());
    }
    if b == "GPU Energy"@ {
        assert(b[9] == b.last());
    }
    if c == "GPU Energy"@ {
        assert(c[9] == c.last());
    }
}

proof fn starts_differ(a: Seq<char>, b: Seq<char>, n: Seq<char>, m: Seq<char>)
    requires
        a.len() > 0,
        b.len() > 0,
        a[0] != b[0],
    ensures
        !begins(a, b) && !begins(b, a),
        !begins(a + n, b) && !begins(b + n, a),
        !begins(a + n + seq!['_'] + m, b) && !begins(b + n + seq!['_'] + m, a),
{
    assert forall|x: Seq<char>, y: Seq<char>|
        x.len() > 0 && y.len() > 0 && x[0] != y[0] implies !#[trigger] begins(x, y) by {
        if begins(x, y) {
            assert(x.take(y.len() as int)[0] == x[0]);
        }
    }
    assert((a + n)[0] == a[0] && (b + n)[0] == b[0]);
    assert((a + n + seq!['_'] + m)[0] == a[0] && (b + n + seq!['_'] + m)[0] == b[0]);
}

proof fn other_channels_stay(
    m: Map<Seq<char>, ChannelState>,
    obs: Seq<EnergyObservation>,
    n: nat,
    at: u64,
    sample: u64,
    name: Seq<char>,
)
    requires
        n <= obs.len(),
        forall|j: int| 0 <= j < n ==> (#[trigger] obs[j]).channel@ != name,
    ensures
        ({
            let after = with_observations(m, obs, n, at, sample);
            &&& after.contains_key(name) == m.contains_key(name)
            &&& after.contains_key(name) ==> after[name] == m[name]
        }),
    decreases n,
{
    if n > 0 {
        assert(obs[n - 1].channel@ != name);
        other_channels_stay(m, obs, (n - 1) as nat, at, sample, name);
    }
}

/// Every channel of a sample that names a rail is tracked by its own
/// observation: from the state it had, or as a first sighting. Any other is
/// left alone.
pub proof fn channels_are_tracked_by_their_own_observations(
    m: Map<Seq<char>, ChannelState>,
    obs: Seq<EnergyObservation>,
    n: nat,
    at: u64,
    sample: u64,
    i: int,
)
    requires
        0 <= i < n <= obs.len(),
        forall|j: int| 0 <= j < n && j != i ==> (#[trigger] obs[j]).channel@ != obs[i].channel@,
    ensures
        ({
            let after = with_observations(m, obs, n, at, sample);
            let (o, name) = (obs[i], obs[i].channel@);
            if rail_of(name) is None {
                &&& after.contains_key(name) == m.contains_key(name)
                &&& after.contains_key(name) ==> after[name] == m[name]
            } else {
                let fresh = if m.contains_key(name) {
                    observed(m[name], o.unit@, o.value, o.timestamp_ns, at)
                } else {
                    sighted(o.value, o.timestamp_ns, at, sample)
                };
                &&& after.contains_key(name)
                &&& after[name].last_seen == sample
                &&& after[name].watts == fresh.watts
                &&& after[name].baseline_value == fresh.baseline_value
                &&& after[name].baseline_ns == fresh.baseline_ns
                &&& after[name].last_value == o.value
                &&& after[name] == ChannelState { last_seen: sample, ..fresh }
            }
        }),
    decreases n,
{
    if i < n - 1 {
        channels_are_tracked_by_their_own_observations(m, obs, (n - 1) as nat, at, sample, i);
        assert(obs[n - 1].channel@ != obs[i].channel@);
    } else {
        other_channels_stay(m, obs, (n - 1) as nat, at, sample, obs[i].channel@);
    }
}

/// Only the channels of the last sample are read; one without a reading counts
/// as 0 W.
pub proof fn only_the_last_sample_is_read(
    entries: Seq<(String, ChannelState)>,
    name: String,
    state: ChannelState,
    sample: u64,
)
    ensures
        live_channels(entries.push((name, state)), sample) == if state.last_seen == sample {
            live_channels(entries, sample).push(
                (
                    name@,
                    if state.watts is Some {
                        state.watts->0
                    } else {
                        Reading { bits: 0 }
                    },
                ),
            )
        } else {
            live_channels(entries, sample)
        },
{
    assert(entries.push((name, state)).drop_last() == entries);
}

/// When a channel was published: the eight bytes at 24 of its raw element, the
/// lowest first, as ticks of the host clock. A shorter element says nothing.
pub proof fn publications_are_dated_by_their_element(raw: Vec<u8>, numer: u32, denom: u32)
    ensures
        raw@.len() >= 32 ==> published_ns(Some(raw), numer, denom) == Some(
            scaled_ticks(
                (raw@[24] + 0x100 * raw@[25] + 0x1_0000 * raw@[26] + 0x100_0000 * raw@[27]
                    + 0x1_0000_0000 * raw@[28] + 0x100_0000_0000 * raw@[29] + 0x1_0000_0000_0000
                    * raw@[30] + 0x100_0000_0000_0000 * raw@[31]) as nat,
                numer as nat,
                denom as nat,
            ),
        ),
        raw@.len() < 32 ==> published_ns(Some(raw), numer, denom) is None,
        published_ns(None, numer, denom) is None,
{
}

/// Whether a channel of a sample is one of the energy rails.
pub open spec fn names_a_rail(c: RawChannel) -> bool {
    c.group@ == "Energy Model"@ && (c.channel matches Some(name) && rail_of(name@) is Some)
}

/// How many of the first `n` channels are energy rails.
pub open spec fn rails_among(channels: Seq<RawChannel>, n: nat) -> nat
    decreases n,
{
    if n == 0 {
        0
    } else if names_a_rail(channels[n - 1]) {
        rails_among(channels, (n - 1) as nat) + 1
    } else {
        rails_among(channels, (n - 1) as nat)
    }
}

/// Every energy rail of a sample is observed, in their order, with its own name,
/// unit, value and time, and no other channel is.
pub proof fn rails_are_observed_in_order(
    channels: Seq<RawChannel>,
    n: nat,
    numer: u32,
    denom: u32,
    i: int,
)
    requires
        0 <= i < n <= channels.len(),
        names_a_rail(channels[i]),
    ensures
        ({
            let obs = tracked_channels(channels, n, numer, denom);
            let c = channels[i];
            let (name, unit, value, at) = obs[rails_among(channels, i as nat) as int];
            &&& obs.len() == rails_among(channels, n)
            &&& rails_among(channels, i as nat) < obs.len()
            &&& name == c.channel->0@
            &&& unit == c.unit@
            &&& value == c.value
            &&& at == published_ns(c.raw_element, numer, denom)
        }),
    decreases n,
{
    observations_are_rails(channels, (n - 1) as nat, numer, denom);
    if i < n - 1 {
        rails_are_observed_in_order(channels, (n - 1) as nat, numer, denom, i);
    }
}

proof fn observations_are_rails(channels: Seq<RawChannel>, n: nat, numer: u32, denom: u32)
    requires
        n <= channels.len(),
    ensures
        tracked_channels(channels, n, numer, denom).len() == rails_among(channels, n),
    decreases n,
{
    if n > 0 {
        observations_are_rails(channels, (n - 1) as nat, numer, denom);
    }
}

} // verus!
