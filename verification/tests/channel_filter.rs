use all_smi::device::macos_native::channel_filter::{
    keep_cpu_channel, keep_energy_channel, keep_gpu_channel, retain_channels, ChannelGroup,
};
use all_smi::device::macos_native::ioreport::classify_cpu_channel;

/// The CPU filter is the cluster classifier.
#[test]
fn cpu_filter_follows_the_cluster_classifier() {
    for name in ["MCPU00", "MCPU15", "PCPU3", "ECPU1", "DIE_1_PCPU1_CPU3", "PCPU"] {
        assert!(keep_cpu_channel(name), "{name}");
        assert!(classify_cpu_channel(name).is_some(), "{name}");
    }
    for name in ["CPU Complex", "DIE_0_ACC", ""] {
        assert_eq!(keep_cpu_channel(name), classify_cpu_channel(name).is_some());
    }
}

#[test]
fn gpu_filter_keeps_only_gpuph() {
    assert!(keep_gpu_channel("GPUPH"));
    assert!(!keep_gpu_channel("GPU0"));
    assert!(!keep_gpu_channel("GPUPH0"));
}

#[test]
fn energy_filter_keeps_the_rails() {
    let kept = [
        "ANE0_0", "ANE0_1", "DIE_0_CPU Energy", "DIE_1_CPU Energy", "DRAM0_0", "DRAM0_1",
        "GPU Energy", "GPU0_0", "ANE0", "CPU Energy", "DRAM0", "GPU0",
    ];
    for name in kept {
        assert!(keep_energy_channel(name), "{name}");
    }
    for name in ["ISP0_0", "DIE_0_PCPU0", "DCS0", "GPU", "PACC_0", ""] {
        assert!(!keep_energy_channel(name), "{name}");
    }
}

#[test]
fn a_description_without_known_channels_is_left_alone() {
    let names = |v: &[Option<&str>]| -> Vec<Option<String>> {
        v.iter().map(|n| n.map(|s| s.to_string())).collect()
    };
    assert_eq!(
        retain_channels(&names(&[None, Some("GPU0"), Some("GPUPH")]), ChannelGroup::Gpu),
        Some(vec![2])
    );
    assert_eq!(
        retain_channels(&names(&[Some("ECPU0"), Some("PCPU1")]), ChannelGroup::Cpu),
        Some(vec![0, 1])
    );
    assert_eq!(retain_channels(&names(&[Some("GPU0"), None]), ChannelGroup::Gpu), None);
    assert_eq!(retain_channels(&Vec::new(), ChannelGroup::Energy), None);
}
