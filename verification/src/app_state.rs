//! What the views are drawn from.
use vstd::prelude::*;

use crate::device::types::{
    ChassisInfo, ConnectionStatus, CpuInfo, DeviceSection, GpuInfo, MemoryInfo, ProcessInfo,
    StorageInfo,
};
use crate::probes::HostProbes;
use crate::text::texts;
use crate::ui::consolidated::model::{sections_from, sums_fit_in, SectionModel};

verus! {

/// By what the devices of a host are ordered.
#[derive(Clone, Copy, Debug, PartialEq, Eq, Structural)]
pub enum SortCriteria {
    /// As the host reports them.
    Default,
    Utilization,
    GpuMemory,
    Power,
    Temperature,
    /// A criterion that only processes have.
    Other,
}

/// How the view was started.
#[derive(Clone, Debug, PartialEq, Eq)]
pub struct ViewArgs {
    pub hosts: Option<Vec<String>>,
    pub hostfile: Option<String>,
}

/// The state of a view.
#[derive(Clone, Debug, PartialEq, Eq)]
pub struct AppState {
    pub is_local_mode: bool,
    pub gpu_info: Vec<GpuInfo>,
    pub cpu_info: Vec<CpuInfo>,
    pub memory_info: Vec<MemoryInfo>,
    pub process_info: Vec<ProcessInfo>,
    pub storage_info: Vec<StorageInfo>,
    pub chassis_info: Vec<ChassisInfo>,
    /// Virtual devices, by the accelerator that they run on.
    pub vgpu_info: Vec<DeviceSection>,
    /// Instances of partitioned accelerators.
    pub mig_info: Vec<DeviceSection>,
    pub host_probes: Vec<HostProbes>,
    pub connection_status: Vec<(String, ConnectionStatus)>,
    pub tabs: Vec<String>,
    pub current_tab: usize,
    pub gpu_scroll_offset: usize,
    /// What is shown while the first collection runs.
    pub startup_status_lines: Vec<String>,
    pub loading: bool,
    pub nvml_notification_shown: bool,
    pub tenstorrent_notification_shown: bool,
    pub tpu_notification_shown: bool,
}

impl Default for AppState {
    fn default() -> (r: AppState)
        ensures
            !r.is_local_mode,
            r.gpu_info@.len() == 0,
            r.cpu_info@.len() == 0,
            r.memory_info@.len() == 0,
            r.process_info@.len() == 0,
            r.storage_info@.len() == 0,
            r.chassis_info@.len() == 0,
            r.vgpu_info@.len() == 0,
            r.mig_info@.len() == 0,
            r.host_probes@.len() == 0,
            r.connection_status@.len() == 0,
            r.tabs@.len() == 0,
            r.current_tab == 0,
            r.gpu_scroll_offset == 0,
            r.startup_status_lines@.len() == 0,
            !r.loading,
            !r.nvml_notification_shown,
            !r.tenstorrent_notification_shown,
            !r.tpu_notification_shown,
    {
        AppState {
            is_local_mode: false,
            gpu_info: Vec::new(),
            cpu_info: Vec::new(),
            memory_info: Vec::new(),
            process_info: Vec::new(),
            storage_info: Vec::new(),
            chassis_info: Vec::new(),
            vgpu_info: Vec::new(),
            mig_info: Vec::new(),
            host_probes: Vec::new(),
            connection_status: Vec::new(),
            tabs: Vec::new(),
            current_tab: 0,
            gpu_scroll_offset: 0,
            startup_status_lines: Vec::new(),
            loading: false,
            nvml_notification_shown: false,
            tenstorrent_notification_shown: false,
            tpu_notification_shown: false,
        }
    }
}

impl AppState {
    /// The sections of all hosts.
    pub open spec fn sections(&self) -> Seq<SectionModel> {
        sections_from(
            self.gpu_info@,
            self.cpu_info@,
            self.memory_info@,
            self.host_probes@,
            texts(self.tabs@),
            self.connection_status@,
        )
    }

    /// Whether every sum over the hosts fits its type.
    pub open spec fn sums_fit(&self) -> bool {
        sums_fit_in(self.sections(), self.cpu_info@)
    }

    /// The name of the selected tab.
    pub open spec fn tab_name(&self) -> Option<Seq<char>> {
        if self.current_tab < self.tabs@.len() {
            Some(self.tabs@[self.current_tab as int]@)
        } else {
            None
        }
    }
}

} // verus!
