//! What the collectors know of accelerators, CPUs, memory and connections.
use vstd::prelude::*;
use vstd::string::*;

use crate::reading::Reading;
use crate::table::{entry_of, find_entry};

verus! {

/// One accelerator. A reading that the device does not report is absent.
#[derive(Clone, Debug, PartialEq, Eq)]
pub struct GpuInfo {
    pub uuid: String,
    pub name: String,
    pub host_id: String,
    pub instance: String,
    /// Percent.
    pub utilization: Option<Reading>,
    /// Apple devices carry the power of their neural engine in milliwatts here.
    pub ane_utilization: Option<Reading>,
    /// Degrees Celsius.
    pub temperature: Option<u32>,
    pub used_memory: u64,
    pub total_memory: u64,
    /// Megahertz.
    pub frequency: Option<u32>,
    /// Watts.
    pub power_consumption: Option<Reading>,
    pub gpu_core_count: Option<u32>,
    pub temperature_threshold_slowdown: Option<u32>,
    pub temperature_threshold_shutdown: Option<u32>,
    pub temperature_threshold_max_operating: Option<u32>,
    pub temperature_threshold_acoustic: Option<u32>,
    pub performance_state: Option<u32>,
    pub fan_speed_rpm: Option<u32>,
    pub numa_node_id: Option<i32>,
    pub gsp_firmware_mode: Option<u8>,
    /// How many devices are reached over direct links.
    pub nvlink_remote_devices: usize,
    /// Further facts by name.
    pub detail: Vec<(String, String)>,
}

/// The further fact `key` of a device.
pub open spec fn detail_of(gpu: GpuInfo, key: Seq<char>) -> Option<Seq<char>> {
    match find_entry(gpu.detail@, key) {
        Some(v) => Some(v@),
        None => None,
    }
}

impl GpuInfo {
    /// The further fact `key`.
    pub fn fact(&self, key: &str) -> (r: Option<&str>)
        ensures
            match r {
                Some(v) => detail_of(*self, key@) == Some(v@),
                None => detail_of(*self, key@) is None,
            },
    {
        match entry_of(self.detail.as_slice(), key) {
            Some(v) => Some(v.as_str()),
            None => None,
        }
    }
}

/// Core counts of an Apple SoC.
#[derive(Clone, Copy, Debug, PartialEq, Eq, Structural)]
pub struct AppleSiliconCpuInfo {
    pub s_core_count: u32,
    pub p_core_count: u32,
    pub e_core_count: u32,
    pub gpu_core_count: u32,
}

/// The CPU of one host.
#[derive(Clone, Debug, PartialEq, Eq)]
pub struct CpuInfo {
    pub host_id: String,
    pub cpu_model: String,
    pub total_cores: u32,
    /// Percent.
    pub utilization: Reading,
    /// Watts.
    pub power_consumption: Option<Reading>,
    pub apple_silicon_info: Option<AppleSiliconCpuInfo>,
}

/// The RAM of one host.
#[derive(Clone, Debug, PartialEq, Eq)]
pub struct MemoryInfo {
    pub host_id: String,
    pub used_bytes: u64,
    pub total_bytes: u64,
}

/// What nests beneath one accelerator (virtual devices, or the instances of a
/// partitioned one), and how many rows it is shown in.
#[derive(Clone, Debug, PartialEq, Eq)]
pub struct DeviceSection {
    pub gpu_uuid: String,
    pub rows: u16,
}

/// One process.
#[derive(Clone, Copy, Debug, PartialEq, Eq, Structural)]
pub struct ProcessInfo {
    pub pid: u32,
    /// Percent of one core.
    pub cpu_percent: Reading,
}

/// One mounted disk.
#[derive(Clone, Debug, PartialEq, Eq)]
pub struct StorageInfo {
    pub host_id: String,
    pub mount_point: String,
}

/// The enclosure of one host.
#[derive(Clone, Debug, PartialEq, Eq)]
pub struct ChassisInfo {
    pub host_id: String,
    /// Power of the whole node, in watts.
    pub total_power_watts: Option<Reading>,
}

impl Default for ChassisInfo {
    fn default() -> (r: ChassisInfo)
        ensures
            r.host_id@ == ""@,
            r.total_power_watts is None,
    {
        ChassisInfo { host_id: String::from_str(""), total_power_watts: None }
    }
}

/// How the connection to one host fares.
#[derive(Clone, Debug, PartialEq, Eq)]
pub struct ConnectionStatus {
    pub is_connected: bool,
    /// The name that the host gives itself.
    pub actual_hostname: Option<String>,
    pub last_error: Option<String>,
}

} // verus!
