//! Layout of the views: what the header takes, what is left for the content,
//! and how many accelerators fit in it.
use vstd::prelude::*;
use vstd::string::*;

use crate::app_state::{AppState, ViewArgs};
use crate::device::types::{DeviceSection, GpuInfo, StorageInfo};
use crate::reading::{Reading, SIGN};
use crate::text::same;
use crate::ui::cluster::header::less;
use crate::ui::cluster::{countable, remote_header_rows, remote_rows};

verus! {

/// Below this width the metrics of the local header take two rows.
pub const NARROW: u16 = 40;

/// Rows that an accelerator always takes.
pub const BASE_ROWS: usize = 2;

pub struct LayoutCalculator;

/// Content area dimensions.
#[derive(Debug, Clone, Copy, PartialEq, Eq, Structural)]
pub struct ContentArea {
    pub x: u16,
    pub y: u16,
    pub width: u16,
    pub height: u16,
    pub available_rows: usize,
}

/// GPU display parameters.
#[derive(Debug, Clone, Copy, PartialEq, Eq, Structural)]
pub struct GpuDisplayParams {
    pub display_rows: usize,
    pub lines_per_gpu: usize,
    pub max_items: usize,
    pub start_index: usize,
    pub storage_rows: usize,
}

/// Progress bar layout configuration.
#[derive(Debug, Clone, Copy, PartialEq, Eq, Structural)]
pub struct ProgressBarLayout {
    pub bar_width: usize,
    pub left_padding: usize,
    pub right_padding: usize,
    pub separator_width: usize,
    pub total_bars: usize,
}

/// Rows of the header. In local mode: the title line, an identity row, and the
/// metrics.
pub open spec fn header_lines(state: AppState, cols: u16) -> nat {
    if state.is_local_mode {
        if cols < NARROW {
            4
        } else {
            3
        }
    } else {
        remote_rows(state.sections(), cols as nat)
    }
}

/// Rows of the activity panel: its halves stand side by side, and the right
/// one has a border where it has content.
pub open spec fn panel_rows(local: bool, cpu_lines: u16, gpu_content: u16) -> int {
    let gpu = if gpu_content > 0 {
        gpu_content + 2
    } else {
        0
    };
    if !local {
        0
    } else if cpu_lines > gpu {
        cpu_lines as int
    } else {
        gpu
    }
}

/// Whether the view shows remote hosts.
pub open spec fn remote(args: ViewArgs) -> bool {
    args.hosts is Some || args.hostfile is Some
}

/// Whether the All tab is selected.
pub open spec fn on_all_tab(state: AppState) -> bool {
    state.tab_name() == Some("All"@)
}

/// The disks of one host.
pub open spec fn disks_of(s: Seq<StorageInfo>, host: Seq<char>) -> Seq<StorageInfo> {
    s.filter(|i: StorageInfo| i.host_id@ == host)
}

/// How many disks are listed: those of the selected host, or all in local mode.
pub open spec fn storage_items(state: AppState, args: ViewArgs) -> nat {
    if remote(args) {
        match state.tab_name() {
            Some(host) => if host == "All"@ {
                0
            } else {
                disks_of(state.storage_info@, host).len()
            },
            None => 0,
        }
    } else {
        state.storage_info@.len()
    }
}

/// Rows of the disk list: one for each disk and two for its heading.
pub open spec fn storage_rows(state: AppState, args: ViewArgs) -> nat {
    if storage_items(state, args) > 0 {
        storage_items(state, args) + 2
    } else {
        0
    }
}

/// Rows for the accelerators.
pub open spec fn gpu_rows(state: AppState, args: ViewArgs, available: nat) -> nat {
    let rest = less(available, storage_rows(state, args));
    if remote(args) {
        if on_all_tab(state) {
            available
        } else {
            rest
        }
    } else if state.process_info@.len() == 0 {
        rest
    } else {
        rest / 2
    }
}

/// Rows of the section that nests beneath accelerator `uuid`.
pub open spec fn nested_rows(sections: Seq<DeviceSection>, uuid: Seq<char>) -> nat
    decreases sections.len(),
{
    if sections.len() == 0 {
        0
    } else if sections[0].gpu_uuid@ == uuid {
        sections[0].rows as nat
    } else {
        nested_rows(sections.drop_first(), uuid)
    }
}

/// Whether a device has anything for the row of thermal thresholds and
/// performance state.
pub open spec fn has_diagnostics(g: GpuInfo) -> bool {
    ||| g.temperature_threshold_slowdown is Some
    ||| g.temperature_threshold_shutdown is Some
    ||| g.temperature_threshold_max_operating is Some
    ||| g.temperature_threshold_acoustic is Some
    ||| g.performance_state is Some
}

/// Rows of one accelerator.
pub open spec fn gpu_line_count(
    g: GpuInfo,
    vgpu: Seq<DeviceSection>,
    mig: Seq<DeviceSection>,
) -> nat {
    BASE_ROWS as nat + (if has_diagnostics(g) {
        1nat
    } else {
        0
    }) + nested_rows(vgpu, g.uuid@) + nested_rows(mig, g.uuid@)
}

/// The most rows that any of `gpus` takes, two where there is none.
pub open spec fn most_lines(
    gpus: Seq<GpuInfo>,
    vgpu: Seq<DeviceSection>,
    mig: Seq<DeviceSection>,
) -> nat
    decreases gpus.len(),
{
    if gpus.len() == 0 {
        BASE_ROWS as nat
    } else {
        let before = most_lines(gpus.drop_last(), vgpu, mig);
        let one = gpu_line_count(gpus.last(), vgpu, mig);
        if one > before {
            one
        } else {
            before
        }
    }
}

/// The accelerators of one host.
pub open spec fn gpus_of(s: Seq<GpuInfo>, host: Seq<char>) -> Seq<GpuInfo> {
    s.filter(|g: GpuInfo| g.host_id@ == host)
}

/// The accelerators of the selected tab.
pub open spec fn visible_gpus(state: AppState) -> Seq<GpuInfo> {
    match state.tab_name() {
        Some(name) => if name == "All"@ {
            state.gpu_info@
        } else {
            gpus_of(state.gpu_info@, name)
        },
        None => state.gpu_info@,
    }
}

/// Rows that the tallest visible accelerator takes.
pub open spec fn tab_lines(state: AppState) -> nat {
    most_lines(visible_gpus(state), state.vgpu_info@, state.mig_info@)
}

/// Rows that are reserved for each accelerator. In local mode the live values
/// take one row less.
pub open spec fn lines_per_gpu(state: AppState, args: ViewArgs) -> nat {
    let full = tab_lines(state);
    if remote(args) {
        if full < 2 {
            2
        } else {
            full
        }
    } else if less(full, 1) < 1 {
        1
    } else {
        less(full, 1)
    }
}

fn rows_beneath(sections: &[DeviceSection], uuid: &str) -> (r: u16)
    ensures
        r == nested_rows(sections@, uuid@),
{
    let mut i: usize = 0;
    assert(sections@.skip(0) == sections@);
    while i < sections.len()
        invariant
            i <= sections@.len(),
            nested_rows(sections@, uuid@) == nested_rows(sections@.skip(i as int), uuid@),
        decreases sections@.len() - i,
    {
        assert(sections@.skip(i as int)[0] == sections@[i as int]);
        if same(sections[i].gpu_uuid.as_str(), uuid) {
            return sections[i].rows;
        }
        assert(sections@.skip(i as int).drop_first() == sections@.skip(i + 1));
        i = i + 1;
    }
    0
}

/// Rows that one accelerator is rendered in.
pub fn gpu_render_line_count(g: &GpuInfo, vgpu: &[DeviceSection], mig: &[DeviceSection]) -> (r:
    usize)
    ensures
        r == gpu_line_count(*g, vgpu@, mig@),
{
    let diagnostics: bool = g.temperature_threshold_slowdown.is_some()
        || g.temperature_threshold_shutdown.is_some()
        || g.temperature_threshold_max_operating.is_some()
        || g.temperature_threshold_acoustic.is_some() || g.performance_state.is_some();
    let own: usize = if diagnostics {
        BASE_ROWS + 1
    } else {
        BASE_ROWS
    };
    let virtual_rows: u16 = rows_beneath(vgpu, g.uuid.as_str());
    let instance_rows: u16 = rows_beneath(mig, g.uuid.as_str());
    own + virtual_rows as usize + instance_rows as usize
}

/// The largest number of rows that any of `gpus` takes, two for none.
pub fn max_gpu_lines_over(
    gpus: &[GpuInfo],
    vgpu_info: &[DeviceSection],
    mig_info: &[DeviceSection],
) -> (r: usize)
    ensures
        r == most_lines(gpus@, vgpu_info@, mig_info@),
{
    let mut best: usize = BASE_ROWS;
    let mut i: usize = 0;
    assert(gpus@.take(0) == Seq::<GpuInfo>::empty());
    while i < gpus.len()
        invariant
            i <= gpus@.len(),
            best == most_lines(gpus@.take(i as int), vgpu_info@, mig_info@),
        decreases gpus@.len() - i,
    {
        assert(gpus@.take(i + 1).drop_last() == gpus@.take(i as int));
        let one: usize = gpu_render_line_count(&gpus[i], vgpu_info, mig_info);
        if one > best {
            best = one;
        }
        i = i + 1;
    }
    assert(gpus@.take(gpus@.len() as int) == gpus@);
    best
}

/// The same over the accelerators of one host.
fn max_gpu_lines_on(
    gpus: &[GpuInfo],
    host: &str,
    vgpu_info: &[DeviceSection],
    mig_info: &[DeviceSection],
) -> (r: usize)
    ensures
        r == most_lines(gpus_of(gpus@, host@), vgpu_info@, mig_info@),
{
    let ghost here = |g: GpuInfo| g.host_id@ == host@;
    let mut best: usize = BASE_ROWS;
    let mut i: usize = 0;
    proof {
        reveal(Seq::filter);
        assert(gpus@.take(0) == Seq::<GpuInfo>::empty());
    }
    while i < gpus.len()
        invariant
            i <= gpus@.len(),
            here == (|g: GpuInfo| g.host_id@ == host@),
            best == most_lines(gpus@.take(i as int).filter(here), vgpu_info@, mig_info@),
        decreases gpus@.len() - i,
    {
        proof {
            reveal(Seq::filter);
            assert(gpus@.take(i + 1).drop_last() == gpus@.take(i as int));
        }
        if same(gpus[i].host_id.as_str(), host) {
            let ghost sofar = gpus@.take(i as int).filter(here);
            assert(sofar.push(gpus@[i as int]).drop_last() == sofar);
            let one: usize = gpu_render_line_count(&gpus[i], vgpu_info, mig_info);
            if one > best {
                best = one;
            }
        }
        i = i + 1;
    }
    assert(gpus@.take(gpus@.len() as int) == gpus@);
    best
}

fn count_disks(storage: &Vec<StorageInfo>, host: &str) -> (r: usize)
    ensures
        r == disks_of(storage@, host@).len(),
        r <= storage@.len(),
{
    let ghost here = |i: StorageInfo| i.host_id@ == host@;
    let mut n: usize = 0;
    let mut i: usize = 0;
    proof {
        reveal(Seq::filter);
        assert(storage@.take(0) == Seq::<StorageInfo>::empty());
    }
    while i < storage.len()
        invariant
            i <= storage@.len(),
            n <= i,
            here == (|i: StorageInfo| i.host_id@ == host@),
            n == storage@.take(i as int).filter(here).len(),
        decreases storage@.len() - i,
    {
        proof {
            reveal(Seq::filter);
            assert(storage@.take(i + 1).drop_last() == storage@.take(i as int));
        }
        if same(storage[i].host_id.as_str(), host) {
            n = n + 1;
        }
        i = i + 1;
    }
    assert(storage@.take(storage@.len() as int) == storage@);
    n
}

impl LayoutCalculator {
    /// The number of header lines. In local mode the cluster overview and the
    /// tabs row are not shown, so their lines are not counted.
    pub fn calculate_header_lines(state: &AppState, cols: u16) -> (r: u16)
        requires
            !state.is_local_mode ==> countable(*state),
        ensures
            r == header_lines(*state, cols),
            r <= 29,
    {
        if state.is_local_mode {
            if cols < NARROW {
                4
            } else {
                3
            }
        } else {
            remote_header_rows(state, cols)
        }
    }

    /// The content area. In local mode the activity panel stands above it: CPU
    /// graphs of `cpu_lines` rows on the left, `gpu_content` rows of GPU
    /// graphs on the right. One row is kept for the function keys.
    pub fn calculate_content_area(
        state: &AppState,
        cols: u16,
        rows: u16,
        cpu_lines: u16,
        gpu_content: u16,
    ) -> (r: ContentArea)
        requires
            !state.is_local_mode ==> countable(*state),
            header_lines(*state, cols) + panel_rows(state.is_local_mode, cpu_lines, gpu_content)
                <= u16::MAX,
        ensures
            r.x == 0,
            r.y == header_lines(*state, cols) + panel_rows(
                state.is_local_mode,
                cpu_lines,
                gpu_content,
            ),
            r.width == cols,
            r.height == less(rows as nat, (r.y + 1) as nat),
            r.available_rows == r.height,
    {
        let header: u16 = Self::calculate_header_lines(state, cols);
        let panel: u16 = if state.is_local_mode {
            let gpu_lines: u16 = if gpu_content > 0 {
                gpu_content + 2
            } else {
                0
            };
            if cpu_lines > gpu_lines {
                cpu_lines
            } else {
                gpu_lines
            }
        } else {
            0
        };
        let available: u16 = rows.saturating_sub(header).saturating_sub(panel).saturating_sub(1);
        ContentArea {
            x: 0,
            y: header + panel,
            width: cols,
            height: available,
            available_rows: available as usize,
        }
    }

    fn is_remote(args: &ViewArgs) -> (r: bool)
        ensures
            r == remote(*args),
    {
        args.hosts.is_some() || args.hostfile.is_some()
    }

    fn calculate_storage_items_count(state: &AppState, args: &ViewArgs) -> (r: usize)
        ensures
            r == storage_items(*state, *args),
            r <= state.storage_info@.len(),
    {
        if Self::is_remote(args) {
            if state.current_tab < state.tabs.len() && !same(
                state.tabs[state.current_tab].as_str(),
                "All",
            ) {
                count_disks(&state.storage_info, state.tabs[state.current_tab].as_str())
            } else {
                0
            }
        } else {
            state.storage_info.len()
        }
    }

    /// How many accelerators are shown, and in how many rows each.
    pub fn calculate_gpu_display_params(
        state: &AppState,
        args: &ViewArgs,
        content_area: &ContentArea,
    ) -> (r: GpuDisplayParams)
        requires
            state.storage_info@.len() + 2 <= usize::MAX,
        ensures
            r.display_rows == gpu_rows(*state, *args, content_area.available_rows as nat),
            r.lines_per_gpu == lines_per_gpu(*state, *args),
            r.max_items == r.display_rows / r.lines_per_gpu,
            r.start_index == state.gpu_scroll_offset,
            r.storage_rows == storage_rows(*state, *args),
    {
        let is_remote: bool = Self::is_remote(args);
        let items: usize = Self::calculate_storage_items_count(state, args);
        let storage_display_rows: usize = if items > 0 {
            items + 2
        } else {
            0
        };
        let rest: usize = content_area.available_rows.saturating_sub(storage_display_rows);
        let display_rows: usize = if is_remote {
            if state.current_tab < state.tabs.len() && same(
                state.tabs[state.current_tab].as_str(),
                "All",
            ) {
                content_area.available_rows
            } else {
                rest
            }
        } else if state.process_info.len() == 0 {
            rest
        } else {
            rest / 2
        };
        // The tallest visible accelerator sets the page size: a page of mixed
        // ones may be a row short, but none is clipped.
        let full: usize = Self::max_gpu_lines_for_tab(state);
        let each: usize = if is_remote {
            if full < 2 {
                2
            } else {
                full
            }
        } else if full.saturating_sub(1) < 1 {
            1
        } else {
            full - 1
        };
        GpuDisplayParams {
            display_rows,
            lines_per_gpu: each,
            max_items: display_rows / each,
            start_index: state.gpu_scroll_offset,
            storage_rows: storage_display_rows,
        }
    }

    /// Splits `width` columns over `num_bars` bars with two columns between
    /// them and `padding` on both sides.
    pub fn calculate_progress_bar_layout(width: usize, num_bars: usize, padding: usize) -> (r:
        ProgressBarLayout)
        requires
            2 * padding + 2 * less(num_bars as nat, 1) <= usize::MAX,
        ensures
            ({
                let gaps = 2 * less(num_bars as nat, 1);
                let room = less(width as nat, 2 * padding as nat + gaps);
                r.bar_width == if num_bars == 0 {
                    room
                } else {
                    room / num_bars as nat
                }
            }),
            r.left_padding == padding,
            r.right_padding == padding,
            r.separator_width == if num_bars > 1 {
                2int
            } else {
                0
            },
            r.total_bars == num_bars,
    {
        let separators: usize = if num_bars > 1 {
            (num_bars - 1) * 2
        } else {
            0
        };
        let available: usize = width.saturating_sub(padding * 2 + separators);
        let bar_width: usize = if num_bars == 0 {
            available
        } else {
            available / num_bars
        };
        ProgressBarLayout {
            bar_width,
            left_padding: padding,
            right_padding: padding,
            separator_width: if num_bars > 1 {
                2
            } else {
                0
            },
            total_bars: num_bars,
        }
    }

    /// The largest number of rows that any visible accelerator takes, so that
    /// page sizes stay in step with what is rendered.
    pub fn max_gpu_lines_for_tab(state: &AppState) -> (r: usize)
        ensures
            r == tab_lines(*state),
    {
        let vgpu: &[DeviceSection] = state.vgpu_info.as_slice();
        let mig: &[DeviceSection] = state.mig_info.as_slice();
        if state.current_tab < state.tabs.len() && !same(
            state.tabs[state.current_tab].as_str(),
            "All",
        ) {
            max_gpu_lines_on(
                state.gpu_info.as_slice(),
                state.tabs[state.current_tab].as_str(),
                vgpu,
                mig,
            )
        } else {
            max_gpu_lines_over(state.gpu_info.as_slice(), vgpu, mig)
        }
    }
}

/// No accelerator takes more rows than are reserved for it, so a page never
/// overshoots what is rendered.
pub proof fn pages_never_overshoot(
    gpus: Seq<GpuInfo>,
    vgpu: Seq<DeviceSection>,
    mig: Seq<DeviceSection>,
    i: int,
)
    requires
        0 <= i < gpus.len(),
    ensures
        gpu_line_count(gpus[i], vgpu, mig) <= most_lines(gpus, vgpu, mig),
        most_lines(gpus, vgpu, mig) >= BASE_ROWS,
    decreases gpus.len(),
{
    if i < gpus.len() - 1 {
        pages_never_overshoot(gpus.drop_last(), vgpu, mig, i);
    }
    at_least_the_base(gpus, vgpu, mig);
}

proof fn at_least_the_base(
    gpus: Seq<GpuInfo>,
    vgpu: Seq<DeviceSection>,
    mig: Seq<DeviceSection>,
)
    ensures
        most_lines(gpus, vgpu, mig) >= BASE_ROWS,
    decreases gpus.len(),
{
    if gpus.len() > 0 {
        at_least_the_base(gpus.drop_last(), vgpu, mig);
    }
}

/// One half, one, one and a half, two and three, as weights.
pub const HALF: u64 = 0x3fe0_0000_0000_0000;

pub const ONE: u64 = 0x3ff0_0000_0000_0000;

pub const ONE_AND_A_HALF: u64 = 0x3ff8_0000_0000_0000;

pub const TWO: u64 = 0x4000_0000_0000_0000;

pub const THREE: u64 = 0x4008_0000_0000_0000;

/// Column specification for table layouts.
#[derive(Debug, Clone, Copy)]
pub struct ColumnSpec {
    pub name: &'static str,
    pub min_width: usize,
    /// Relative weight for the distribution of extra space, in single
    /// precision.
    pub weight: Reading,
}

impl ColumnSpec {
    pub fn new(name: &'static str, min_width: usize, weight: Reading) -> (r: ColumnSpec)
        ensures
            r == (ColumnSpec { name, min_width, weight }),
    {
        ColumnSpec { name, min_width, weight }
    }
}

/// Names, least widths and weights of columns.
pub open spec fn specs_of(v: Seq<ColumnSpec>) -> Seq<(Seq<char>, usize, Reading)> {
    v.map_values(|c: ColumnSpec| (c.name@, c.min_width, c.weight))
}

/// The column sets of the tables.
pub struct StandardColumns;

impl StandardColumns {
    /// The columns of the process table.
    pub open spec fn process_columns() -> Seq<(Seq<char>, usize, Reading)> {
        seq![
            ("PID"@, 6usize, Reading { bits: HALF }),
            ("User"@, 12usize, Reading { bits: ONE }),
            ("Name"@, 8usize, Reading { bits: TWO }),
            ("CPU%"@, 6usize, Reading { bits: HALF }),
            ("Mem%"@, 8usize, Reading { bits: HALF }),
            ("GPU Mem"@, 8usize, Reading { bits: ONE }),
            ("State"@, 8usize, Reading { bits: HALF }),
            ("Command"@, 10usize, Reading { bits: THREE }),
        ]
    }

    /// The columns of the device table.
    pub open spec fn device_columns() -> Seq<(Seq<char>, usize, Reading)> {
        seq![
            ("Device"@, 15usize, Reading { bits: TWO }),
            ("Host"@, 12usize, Reading { bits: ONE }),
            ("Utilization"@, 12usize, Reading { bits: ONE }),
            ("Memory"@, 15usize, Reading { bits: ONE_AND_A_HALF }),
            ("Temperature"@, 12usize, Reading { bits: ONE }),
            ("Power"@, 10usize, Reading { bits: ONE }),
        ]
    }

    pub fn process_table() -> (r: Vec<ColumnSpec>)
        ensures
            specs_of(r@) == StandardColumns::process_columns(),
    {
        let r: Vec<ColumnSpec> = vec![
            ColumnSpec::new("PID", 6, Reading { bits: HALF }),
            ColumnSpec::new("User", 12, Reading { bits: ONE }),
            ColumnSpec::new("Name", 8, Reading { bits: TWO }),
            ColumnSpec::new("CPU%", 6, Reading { bits: HALF }),
            ColumnSpec::new("Mem%", 8, Reading { bits: HALF }),
            ColumnSpec::new("GPU Mem", 8, Reading { bits: ONE }),
            ColumnSpec::new("State", 8, Reading { bits: HALF }),
            ColumnSpec::new("Command", 10, Reading { bits: THREE }),
        ];
        assert(specs_of(r@) == StandardColumns::process_columns());
        r
    }

    pub fn device_table() -> (r: Vec<ColumnSpec>)
        ensures
            specs_of(r@) == StandardColumns::device_columns(),
    {
        let r: Vec<ColumnSpec> = vec![
            ColumnSpec::new("Device", 15, Reading { bits: TWO }),
            ColumnSpec::new("Host", 12, Reading { bits: ONE }),
            ColumnSpec::new("Utilization", 12, Reading { bits: ONE }),
            ColumnSpec::new("Memory", 15, Reading { bits: ONE_AND_A_HALF }),
            ColumnSpec::new("Temperature", 12, Reading { bits: ONE }),
            ColumnSpec::new("Power", 10, Reading { bits: ONE }),
        ];
        assert(specs_of(r@) == StandardColumns::device_columns());
        r
    }
}

/// What the first `n` columns take at least.
pub open spec fn least_widths(specs: Seq<ColumnSpec>, n: nat) -> nat
    decreases n,
{
    if n == 0 {
        0
    } else {
        least_widths(specs, (n - 1) as nat) + specs[n - 1].min_width as nat
    }
}

/// The weights of the first `n` columns, added up in single precision.
pub open spec fn weight_sum(specs: Seq<ColumnSpec>, n: nat) -> Reading
    decreases n,
{
    if n == 0 {
        Reading { bits: SIGN }
    } else {
        weight_sum(specs, (n - 1) as nat).sum(specs[n - 1].weight).narrowed()
    }
}

/// The columns and the gaps between them at their least.
pub open spec fn least_table(specs: Seq<ColumnSpec>) -> int {
    least_widths(specs, specs.len()) + specs.len() - 1
}

/// What a column gets of the space that the least widths leave.
pub open spec fn share(specs: Seq<ColumnSpec>, spare: nat, i: int) -> nat {
    Reading::single_of(spare).product(specs[i].weight).narrowed().quotient(
        weight_sum(specs, specs.len()),
    ).narrowed().integer_part(usize::MAX as nat)
}

/// The width of a column in a table of `width`.
pub open spec fn column_width(specs: Seq<ColumnSpec>, width: nat, i: int) -> int {
    if width <= least_table(specs) {
        specs[i].min_width as int
    } else {
        specs[i].min_width + share(specs, (width - least_table(specs)) as nat, i)
    }
}

proof fn least_widths_grow(specs: Seq<ColumnSpec>, n: nat)
    requires
        n <= specs.len(),
    ensures
        least_widths(specs, n) <= least_widths(specs, specs.len()),
    decreases specs.len() - n,
{
    if n < specs.len() {
        least_widths_grow(specs, n + 1);
    }
}

impl LayoutCalculator {
    /// Widths of the columns of a table, one space between them: each at its
    /// least, and what is left of the space shared out by weight.
    pub fn calculate_table_columns(available_width: usize, column_specs: &[ColumnSpec]) -> (r: Vec<
        usize,
    >)
        requires
            column_specs@.len() > 0,
            least_table(column_specs@) <= usize::MAX,
            forall|i: int|
                0 <= i < column_specs@.len() ==> #[trigger] column_width(
                    column_specs@,
                    available_width as nat,
                    i,
                ) <= usize::MAX,
        ensures
            r@.len() == column_specs@.len(),
            forall|i: int|
                0 <= i < r@.len() ==> #[trigger] r@[i] == column_width(
                    column_specs@,
                    available_width as nat,
                    i,
                ),
    {
        let ghost specs = column_specs@;
        let mut least: usize = 0;
        let mut weights: Reading = Reading { bits: SIGN };
        let mut i: usize = 0;
        while i < column_specs.len()
            invariant
                i <= column_specs@.len(),
                specs == column_specs@,
                specs.len() > 0,
                least_table(specs) <= usize::MAX,
                least == least_widths(specs, i as nat),
                weights == weight_sum(specs, i as nat),
            decreases column_specs@.len() - i,
        {
            proof {
                least_widths_grow(specs, (i + 1) as nat);
            }
            least = least + column_specs[i].min_width;
            weights = weights.plus(column_specs[i].weight).narrow();
            i = i + 1;
        }
        let taken: usize = least + (column_specs.len() - 1);
        let roomy: bool = available_width > taken;
        let spare: Reading = if roomy {
            Reading::single_from((available_width - taken) as u64)
        } else {
            Reading::single_from(0)
        };
        let mut r: Vec<usize> = Vec::new();
        let mut k: usize = 0;
        while k < column_specs.len()
            invariant
                k <= column_specs@.len(),
                specs == column_specs@,
                roomy == (available_width > least_table(specs)),
                roomy ==> spare == Reading::single_of(
                    (available_width - least_table(specs)) as nat,
                ),
                weights == weight_sum(specs, specs.len()),
                forall|i: int|
                    0 <= i < specs.len() ==> #[trigger] column_width(
                        specs,
                        available_width as nat,
                        i,
                    ) <= usize::MAX,
                r@.len() == k,
                forall|i: int|
                    0 <= i < k ==> #[trigger] r@[i] == column_width(
                        specs,
                        available_width as nat,
                        i,
                    ),
            decreases column_specs@.len() - k,
        {
            let c: &ColumnSpec = &column_specs[k];
            assert(column_width(specs, available_width as nat, k as int) <= usize::MAX);
            let width: usize = if roomy {
                let extra: u64 = spare.times(c.weight).narrow().over(weights).narrow().truncated(
                    usize::MAX as u64,
                );
                c.min_width + extra as usize
            } else {
                c.min_width
            };
            r.push(width);
            k = k + 1;
        }
        r
    }
}

/// Disks take a row each and two for their heading. What is left goes to the
/// devices; on the All tab of other hosts they have everything, and on this host
/// they share it in halves with the processes, where there are any.
pub proof fn rows_are_shared_out(state: AppState, args: ViewArgs, available: nat)
    ensures
        ({
            let disks = storage_items(state, args);
            let taken = if disks > 0 {
                disks + 2
            } else {
                0
            };
            let rest = if available >= taken {
                (available - taken) as nat
            } else {
                0
            };
            let elsewhere = args.hosts is Some || args.hostfile is Some;
            &&& storage_rows(state, args) == taken
            &&& elsewhere && state.tab_name() == Some("All"@) ==> disks == 0 && gpu_rows(
                state,
                args,
                available,
            ) == available
            &&& elsewhere && state.tab_name() != Some("All"@) ==> gpu_rows(state, args, available)
                == rest
            &&& !elsewhere && state.process_info@.len() == 0 ==> gpu_rows(state, args, available)
                == rest
            &&& !elsewhere && state.process_info@.len() > 0 ==> gpu_rows(state, args, available)
                == rest / 2
        }),
{
}

/// The rows that are reserved are those of the tallest device, and a device is as
/// tall as its parts: two rows, one for diagnostics where it has any, and those of
/// what is nested under it.
pub proof fn the_tallest_device_sets_the_rows(
    gpus: Seq<GpuInfo>,
    vgpu: Seq<DeviceSection>,
    mig: Seq<DeviceSection>,
    g: GpuInfo,
)
    ensures
        most_lines(gpus, vgpu, mig) == BASE_ROWS || exists|i: int|
            0 <= i < gpus.len() && gpu_line_count(#[trigger] gpus[i], vgpu, mig) == most_lines(
                gpus,
                vgpu,
                mig,
            ),
        gpu_line_count(g, vgpu, mig) == BASE_ROWS + nested_rows(vgpu, g.uuid@) + nested_rows(
            mig,
            g.uuid@,
        ) + (if g.temperature_threshold_slowdown is Some || g.temperature_threshold_shutdown is Some
            || g.temperature_threshold_max_operating is Some
            || g.temperature_threshold_acoustic is Some || g.performance_state is Some {
            1int
        } else {
            0
        }),
    decreases gpus.len(),
{
    if gpus.len() > 0 {
        let head = gpus.drop_last();
        the_tallest_device_sets_the_rows(head, vgpu, mig, g);
        let (before, after) = (most_lines(head, vgpu, mig), most_lines(gpus, vgpu, mig));
        if after != BASE_ROWS {
            if after == gpu_line_count(gpus.last(), vgpu, mig) {
                assert(gpus[gpus.len() - 1] == gpus.last());
            } else {
                let i = choose|i: int|
                    0 <= i < head.len() && gpu_line_count(#[trigger] head[i], vgpu, mig) == before;
                assert(gpus[i] == head[i]);
            }
        }
    }
}

/// What is nested under a device is the first section under its identifier.
pub proof fn nested_sections_belong_to_their_device(sections: Seq<DeviceSection>, i: int)
    requires
        0 <= i < sections.len(),
        forall|j: int|
            0 <= j < i ==> (#[trigger] sections[j]).gpu_uuid@ != sections[i].gpu_uuid@,
    ensures
        nested_rows(sections, sections[i].gpu_uuid@) == sections[i].rows,
    decreases sections.len(),
{
    if i > 0 {
        let rest = sections.drop_first();
        assert(sections[0].gpu_uuid@ != sections[i].gpu_uuid@);
        assert(rest[i - 1] == sections[i]);
        assert forall|j: int| 0 <= j < i - 1 implies (#[trigger] rest[j]).gpu_uuid@
            != rest[i - 1].gpu_uuid@ by {
            assert(rest[j] == sections[j + 1]);
        }
        nested_sections_belong_to_their_device(rest, i - 1);
    }
}

/// A column is never narrower than its least width, and exactly that wide where
/// the table has no room to spare.
pub proof fn columns_keep_their_least_width(specs: Seq<ColumnSpec>, width: nat, i: int)
    ensures
        column_width(specs, width, i) >= specs[i].min_width,
        width <= least_widths(specs, specs.len()) + specs.len() - 1 ==> column_width(
            specs,
            width,
            i,
        ) == specs[i].min_width,
{
}

/// The panel above the table is as high as the higher of its two halves, and
/// stands on local screens alone; the devices have a frame of two lines.
pub proof fn the_panel_holds_both_halves(local: bool, cpu_lines: u16, gpu_content: u16)
    ensures
        ({
            let rows = panel_rows(local, cpu_lines, gpu_content);
            &&& !local ==> rows == 0
            &&& local ==> rows >= cpu_lines
            &&& local && gpu_content > 0 ==> rows >= gpu_content + 2
            &&& local ==> rows == cpu_lines || (gpu_content > 0 && rows == gpu_content + 2)
        }),
{
}

/// The tab of a host shows its devices and no other; the first tab shows all.
pub proof fn tabs_show_their_own_devices(state: AppState, i: int)
    requires
        0 <= i < state.gpu_info@.len(),
    ensures
        state.tab_name() is None || state.tab_name() == Some("All"@) ==> visible_gpus(state)
            == state.gpu_info@,
        state.tab_name() matches Some(name) ==> name != "All"@ ==> {
            &&& visible_gpus(state).contains(state.gpu_info@[i]) <==> state.gpu_info@[i].host_id@
                == name
            &&& forall|k: int|
                0 <= k < visible_gpus(state).len() ==> (#[trigger] visible_gpus(state)[k]).host_id@
                    == name
        },
{
    broadcast use vstd::seq_lib::group_filter_ensures;

    if state.tab_name() is Some {
        let name = state.tab_name()->0;
        let keep = |g: GpuInfo| g.host_id@ == name;
        assert(state.gpu_info@.contains(state.gpu_info@[i]));
    }
}

/// A local header takes three lines, and four on a narrow screen.
pub proof fn local_headers_are_short(state: AppState, cols: u16)
    requires
        state.is_local_mode,
    ensures
        3 <= header_lines(state, cols) <= 4,
        header_lines(state, cols) == 3 <==> cols >= 40,
{
}

/// The table of processes has eight columns, of 66 cells at least; the command
/// takes the largest share of what is left.
pub proof fn processes_have_their_columns()
    ensures
        ({
            let c = StandardColumns::process_columns();
            &&& c.len() == 8
            &&& c[0].0 == "PID"@ && c[1].0 == "User"@ && c[2].0 == "Name"@ && c[3].0 == "CPU%"@
            &&& c[4].0 == "Mem%"@ && c[5].0 == "GPU Mem"@ && c[6].0 == "State"@ && c[7].0
                == "Command"@
            &&& c[0].1 + c[1].1 + c[2].1 + c[3].1 + c[4].1 + c[5].1 + c[6].1 + c[7].1 == 66
        }),
{
}

/// A device takes as many lines as the tallest in sight, one fewer on a local
/// screen; never fewer than two, or one there.
pub proof fn devices_take_their_lines(state: AppState, args: ViewArgs)
    ensures
        ({
            let full = most_lines(visible_gpus(state), state.vgpu_info@, state.mig_info@);
            let lines = lines_per_gpu(state, args);
            let away = args.hosts is Some || args.hostfile is Some;
            &&& away ==> lines >= 2 && lines >= full && (lines == 2 || lines == full)
            &&& !away ==> lines >= 1 && lines + 1 >= full && (lines == 1 || lines + 1 == full)
        }),
{
}

} // verus!
