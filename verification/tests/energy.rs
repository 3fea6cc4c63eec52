use all_smi::device::macos_native::energy::{
    classify_energy_channel, joules_per_count, sum_rails, EnergyObservation, EnergyRail,
    EnergyReadings, EnergyTracker,
};
use all_smi::reading::Reading;

const MS: u64 = 1_000_000;

fn num(x: f64) -> Reading {
    Reading { bits: x.to_bits() }
}

fn val(r: Reading) -> f64 {
    f64::from_bits(r.bits)
}

fn ms(t: f64) -> u64 {
    (t * 1e6) as u64
}

fn obs(channel: &str, unit: &str, value: i64, timestamp_ns: Option<u64>) -> EnergyObservation {
    EnergyObservation {
        channel: channel.to_string(),
        unit: unit.to_string(),
        value,
        timestamp_ns,
    }
}

fn assert_watts(actual: Reading, expected: f64) {
    let actual = val(actual);
    assert!((actual - expected).abs() < 1e-9, "{actual} W, not {expected} W");
}

/// `AppleT6050PMGR` of an M5 Ultra publishes its mJ channels once every
/// half hour. A tracker that first samples in between has no CPU reading until
/// the next publication, then holds it until two spans have passed without
/// another.
#[test]
fn m5_ultra_half_hourly_publication_is_held_until_the_next_one_is_due() {
    const SPAN_MS: f64 = 1_799_949.0;
    const FROZEN: (i64, i64) = (149_863_636, 63_132_475);
    const PUBLISHED: (i64, i64) = (3_821_928, 2_661_801);
    let dies = |values: (i64, i64), ts: u64| {
        [
            obs("DIE_0_CPU Energy", "mJ", values.0, Some(ts)),
            obs("DIE_1_CPU Energy", "mJ", values.1, Some(ts)),
        ]
    };
    let poll = 3_000 * MS;
    let first = 1_000 * MS;
    let second = first + ms(SPAN_MS);
    let mut tracker = EnergyTracker::default();

    let mut now = first + ms(522_600.0);
    while now < second {
        tracker.observe_sample(now, &dies(FROZEN, first));
        assert_watts(tracker.readings().cpu, 0.0);
        now += poll;
    }

    let after = (FROZEN.0 + PUBLISHED.0, FROZEN.1 + PUBLISHED.1);
    let watts = (PUBLISHED.0 + PUBLISHED.1) as f64 * 1e-3 / (SPAN_MS / 1e3);
    assert!((watts - 3.602).abs() < 0.001, "{watts}");
    while now <= second + 2 * ms(SPAN_MS) {
        tracker.observe_sample(now, &dies(after, second));
        assert_watts(tracker.readings().cpu, watts);
        now += poll;
    }
    tracker.observe_sample(now, &dies(after, second));
    assert_watts(tracker.readings().cpu, 0.0);
}

#[test]
fn channels_are_classified_by_their_names() {
    for (name, rail) in [
        ("CPU Energy", Some(EnergyRail::Cpu)),
        ("DIE_0_CPU Energy", Some(EnergyRail::Cpu)),
        ("GPU Energy", Some(EnergyRail::Gpu)),
        ("GPU0", Some(EnergyRail::GpuFallback)),
        ("GPU0_0", Some(EnergyRail::GpuFallback)),
        ("ANE", Some(EnergyRail::Ane)),
        ("ANE0_1", Some(EnergyRail::Ane)),
        ("DRAM", Some(EnergyRail::Dram)),
        ("DRAM0", Some(EnergyRail::Dram)),
        ("GPU", None),
        ("PCPU0", None),
        ("ANE0_0_1", None),
        ("DIE_x_CPU Energy", Some(EnergyRail::Cpu)),
        ("", None),
    ] {
        assert_eq!(classify_energy_channel(name), rail, "{name}");
    }
}

#[test]
fn units_are_read_from_their_first_letter() {
    assert_eq!(val(joules_per_count("mJ")), 1e-3);
    assert_eq!(val(joules_per_count("uJ")), 1e-6);
    assert_eq!(val(joules_per_count("nJ")), 1e-9);
}

#[test]
fn the_least_specific_channels_are_summed() {
    let watts = |pairs: &[(&'static str, f64)]| -> EnergyReadings {
        sum_rails(&pairs.iter().map(|(n, w)| (*n, num(*w))).collect())
    };
    // Both dies where there is no package channel, the package where there is.
    let dies = watts(&[("DIE_0_CPU Energy", 3.0), ("DIE_1_CPU Energy", 1.5)]);
    assert_eq!(val(dies.cpu), 4.5);
    let package =
        watts(&[("DIE_0_CPU Energy", 3.0), ("CPU Energy", 5.0), ("DIE_1_CPU Energy", 1.5)]);
    assert_eq!(val(package.cpu), 5.0);
    // The fallback counts only without the GPU's own channel.
    assert_eq!(val(watts(&[("GPU0_0", 0.25), ("GPU Energy", 0.5)]).gpu), 0.5);
    assert_eq!(val(watts(&[("GPU0_0", 0.25), ("GPU0", 0.75)]).gpu), 0.75);
    assert_eq!(val(watts(&[("GPU0_0", 0.25), ("GPU0_1", 0.5)]).gpu), 0.75);
    // Per block, and per die.
    assert_eq!(val(watts(&[("ANE0", 1.0), ("ANE0_0", 8.0), ("ANE1", 2.0)]).ane), 3.0);
    assert_eq!(val(watts(&[("DRAM0_0", 1.0), ("DRAM0_1", 2.0)]).dram), 3.0);
    let all = watts(&[("CPU Energy", 1.0), ("GPU Energy", 2.0), ("ANE", 4.0), ("DRAM", 8.0)]);
    // Memory sits outside the package.
    assert_eq!(val(all.package()), 7.0);
}

#[test]
fn a_span_closes_when_the_driver_publishes() {
    let mut tracker = EnergyTracker::default();
    let t0 = 10_000 * MS;
    let t1 = t0 + 2_000 * MS;
    tracker.observe_sample(t0 + MS, &[obs("GPU Energy", "nJ", 0, Some(t0))]);
    assert_watts(tracker.readings().gpu, 0.0);
    tracker.observe_sample(t1 + MS, &[obs("GPU Energy", "nJ", 43_000_000, Some(t1))]);
    assert_watts(tracker.readings().gpu, 0.0215);
    // Polled again before the next publication: the reading is held.
    tracker.observe_sample(t1 + 500 * MS, &[obs("GPU Energy", "nJ", 43_000_000, Some(t1))]);
    assert_watts(tracker.readings().gpu, 0.0215);
    // The counter was reset: no reading.
    let t2 = t1 + 2_000 * MS;
    tracker.observe_sample(t2 + MS, &[obs("GPU Energy", "nJ", 5, Some(t2))]);
    assert_watts(tracker.readings().gpu, 0.0);
}

#[test]
fn a_channel_without_timestamps_goes_by_when_it_was_seen() {
    let mut tracker = EnergyTracker::default();
    tracker.observe_sample(1_000 * MS, &[obs("CPU Energy", "mJ", 0, None)]);
    tracker.observe_sample(3_000 * MS, &[obs("CPU Energy", "mJ", 4_000, None)]);
    assert_watts(tracker.readings().cpu, 2.0);
    // A channel that a sample does not show has no reading.
    tracker.observe_sample(4_000 * MS, &[]);
    assert_watts(tracker.readings().cpu, 0.0);
}

#[test]
fn absorbed_channels_leave_the_rails_alone() {
    let read = |names: &[&str]| {
        let channels = names.iter().map(|n| (*n, num(2.0))).collect();
        sum_rails(&channels)
    };
    assert_eq!(read(&["ANE0_1", "ANE", "ANE0"]), read(&["ANE"]));
    assert_eq!(read(&["DRAM0", "DRAM0_0", "DRAM1"]), read(&["DRAM0", "DRAM1"]));
    assert_eq!(read(&["GPU0", "GPU Energy", "GPU1_0"]), read(&["GPU Energy"]));
    assert_eq!(read(&["GPU0_0", "GPU0"]), read(&["GPU0"]));
}
