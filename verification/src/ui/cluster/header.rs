//! Remote-mode header: a title line and the cluster overview, a row of stat
//! blocks (label, value, and a bar or a note under it).
//!
//! Memory is split by where it lives: an Apple Silicon host's RAM is its GPU's
//! unified pool and is shown once, as unified memory; discrete GPUs show their
//! VRAM; the RAM of the other hosts is shown as host RAM.
use vstd::arithmetic::div_mod::*;
use vstd::prelude::*;
use vstd::string::*;

use crate::reading::Reading;
use crate::text::{
    concat2, concat3, concat4, copied, decimal, decimal_text, display_width, join, joined,
    repeated, run_of, texts,
};
use crate::ui::cluster::line::{
    emitted, fmt_gib_value, fmt_watts, gib_text, line_width, plural, plural_text, watts_text,
    with_bar, with_cell, with_padding, with_text, Line, LineText, Screen, Writer,
};
use crate::ui::consolidated::model::{
    fraction_used, memory_fraction, sections_of, ConsolidatedModel, HostSection, SectionModel,
    Totals,
};
use crate::ui::theme::{
    level_of, margins_fit, mem_level, power_level, temp_level, temperature_level, util_level,
    Color, Level, ACCENT, CRIT, MEM_CRIT, MEM_WARN, MUTED, POWER_CRIT, POWER_WARN, SUBTLE, TEXT,
    UTIL_CRIT, UTIL_WARN,
};

verus! {

/// Narrowest stat block, gap counted in.
pub const MIN_BLOCK: usize = 17;

/// Widest stat block; wider terminals leave the rest of the row empty.
pub const MAX_BLOCK: usize = 30;

/// Left margin of the overview.
pub const MARGIN: usize = 1;

/// Most stat blocks there can be.
pub const MOST_BLOCKS: usize = 8;

/// Title-line facts that do not come from the model.
pub struct TitleInfo<'a> {
    pub time: &'a str,
    pub version: &'a str,
    /// Container / VM runtime the viewer runs in, if any.
    pub runtime: Option<&'a str>,
}

/// What stands under a value.
pub enum Under {
    Bar { ratio: Reading, fill: Color, note: String },
    Note(String, Color),
}

/// What an `Under` holds.
#[verifier::ext_equal]
pub enum UnderModel {
    Bar { ratio: Reading, fill: Color, note: Seq<char> },
    Note(Seq<char>, Color),
}

impl View for Under {
    type V = UnderModel;

    open spec fn view(&self) -> UnderModel {
        match *self {
            Under::Bar { ratio, fill, note } => UnderModel::Bar { ratio, fill, note: note@ },
            Under::Note(s, color) => UnderModel::Note(s@, color),
        }
    }
}

pub struct Block {
    pub label: &'static str,
    pub value: String,
    pub value_color: Color,
    pub under: Under,
}

/// What a block holds.
#[verifier::ext_equal]
pub struct BlockModel {
    pub label: Seq<char>,
    pub value: Seq<char>,
    pub value_color: Color,
    pub under: UnderModel,
}

impl View for Block {
    type V = BlockModel;

    open spec fn view(&self) -> BlockModel {
        BlockModel {
            label: self.label@,
            value: self.value@,
            value_color: self.value_color,
            under: self.under@,
        }
    }
}

/// The blocks of a list.
pub open spec fn blocks_of(v: Seq<Block>) -> Seq<BlockModel> {
    v.map_values(|b: Block| b@)
}

/// The labels of the hosts among the first `n` that are down.
pub open spec fn down_labels(s: Seq<SectionModel>, n: nat) -> Seq<Seq<char>>
    decreases n,
{
    if n == 0 {
        seq![]
    } else {
        let before = down_labels(s, (n - 1) as nat);
        if s[n - 1].connected {
            before
        } else {
            before.push(s[n - 1].label)
        }
    }
}

/// The block that names the hosts that are down, where any is.
pub open spec fn with_hosts_block(
    b: Seq<BlockModel>,
    t: Totals,
    down: Seq<Seq<char>>,
) -> Seq<BlockModel> {
    if down.len() > 0 {
        b.push(
            BlockModel {
                label: "HOSTS"@,
                value: decimal(t.hosts_up as nat) + " / "@ + decimal(t.hosts_total as nat)
                    + " up"@,
                value_color: CRIT,
                under: UnderModel::Note("down: "@ + joined(down, ", "@), CRIT),
            },
        )
    } else {
        b
    }
}

/// The mix of accelerators in words.
pub open spec fn device_mix(unified: nat, discrete: nat) -> Seq<char> {
    if unified == 0 {
        plural_text(discrete, "discrete GPU"@)
    } else if discrete == 0 {
        plural_text(unified, "SoC GPU"@)
    } else {
        decimal(unified) + " SoC · "@ + decimal(discrete) + " dGPU"@
    }
}

/// The accelerators block.
pub open spec fn devices_block(t: Totals) -> BlockModel {
    BlockModel {
        label: "ACCELERATORS"@,
        value: decimal(t.devices as nat),
        value_color: TEXT,
        under: UnderModel::Note(
            device_mix(t.unified_devices as nat, (t.devices - t.unified_devices) as nat),
            MUTED,
        ),
    }
}

/// The utilization block.
pub open spec fn util_block(avg: Option<Reading>) -> BlockModel {
    match avg {
        Some(u) => {
            let level = level_of(u, UTIL_WARN, UTIL_CRIT);
            BlockModel {
                label: "GPU UTIL"@,
                value: u.fixed(0) + "% avg"@,
                value_color: level.value_shade(),
                under: UnderModel::Bar {
                    ratio: u.quotient(Reading::of_natural(100)),
                    fill: level.shade(),
                    note: seq![],
                },
            }
        },
        None => BlockModel {
            label: "GPU UTIL"@,
            value: "n/a"@,
            value_color: MUTED,
            under: UnderModel::Note("no readings"@, MUTED),
        },
    }
}

/// The block of one memory pool, where there is such memory.
pub open spec fn with_pool_block(
    b: Seq<BlockModel>,
    label: Seq<char>,
    used: u64,
    total: u64,
) -> Seq<BlockModel> {
    if total == 0 {
        b
    } else {
        let ratio = memory_fraction(used, total);
        b.push(
            BlockModel {
                label,
                value: gib_text(used as nat) + " / "@ + gib_text(total as nat) + " GiB"@,
                value_color: TEXT,
                under: UnderModel::Bar {
                    ratio,
                    fill: level_of(ratio, MEM_WARN, MEM_CRIT).shade(),
                    note: ratio.product(Reading::of_natural(100)).fixed(0) + "%"@,
                },
            },
        )
    }
}

/// The power block.
pub open spec fn power_block(t: Totals) -> BlockModel {
    let limited = t.power_limit_watts.above(Reading { bits: 0 });
    BlockModel {
        label: "POWER"@,
        value: watts_text(t.unified_power_watts.sum(t.dedicated_power_watts)),
        value_color: if limited {
            level_of(
                t.dedicated_power_watts.quotient(t.power_limit_watts),
                POWER_WARN,
                POWER_CRIT,
            ).value_shade()
        } else {
            TEXT
        },
        under: UnderModel::Note(
            if limited {
                "limit "@ + watts_text(t.power_limit_watts)
            } else {
                "accelerators"@
            },
            MUTED,
        ),
    }
}

/// The temperature block, where a device reports one.
pub open spec fn with_temp_block(
    b: Seq<BlockModel>,
    hottest: Option<(u32, Option<u32>)>,
) -> Seq<BlockModel> {
    match hottest {
        Some((temp, slowdown)) => b.push(
            BlockModel {
                label: "TEMP MAX"@,
                value: decimal(temp as nat) + "°C"@,
                value_color: temperature_level(temp, slowdown).value_shade(),
                under: UnderModel::Note(
                    match slowdown {
                        Some(s) => "slowdown "@ + decimal(s as nat) + "°C"@,
                        None => "hottest device"@,
                    },
                    MUTED,
                ),
            },
        ),
        None => b,
    }
}

/// The stat blocks of the overview.
pub open spec fn overview(t: Totals, hosts: Seq<SectionModel>) -> Seq<BlockModel> {
    let a = with_hosts_block(seq![], t, down_labels(hosts, hosts.len()));
    let b = a.push(devices_block(t)).push(util_block(t.avg_utilization));
    let c = with_pool_block(b, "UNIFIED MEMORY"@, t.unified_used, t.unified_total);
    let d = with_pool_block(c, "VRAM"@, t.dedicated_used, t.dedicated_total);
    let e = with_pool_block(d, "HOST RAM"@, t.host_ram_used, t.host_ram_total);
    with_temp_block(e.push(power_block(t)), t.max_temperature)
}

/// Whether the hottest reading has a level.
pub open spec fn hottest_measurable(t: Option<(u32, Option<u32>)>) -> bool {
    match t {
        Some((x, slowdown)) => margins_fit(x, slowdown),
        None => true,
    }
}

/// Whether totals can be shown.
pub open spec fn showable(t: Totals) -> bool {
    t.unified_devices <= t.devices && hottest_measurable(t.max_temperature)
}

fn hosts_down(hosts: &Vec<HostSection>) -> (r: Vec<String>)
    ensures
        texts(r@) == down_labels(sections_of(hosts@), hosts@.len()),
{
    let ghost all = sections_of(hosts@);
    let mut out: Vec<String> = Vec::new();
    let mut i: usize = 0;
    assert(texts(out@) == Seq::<Seq<char>>::empty());
    while i < hosts.len()
        invariant
            i <= hosts@.len(),
            all == sections_of(hosts@),
            texts(out@) == down_labels(all, i as nat),
        decreases hosts@.len() - i,
    {
        assert(all[i as int] == hosts@[i as int]@);
        if !hosts[i].connected {
            let ghost before = texts(out@);
            let l: String = copied(hosts[i].label.as_str());
            out.push(l);
            assert(texts(out@) == before.push(l@));
        }
        i = i + 1;
    }
    out
}

fn push_block(out: &mut Vec<Block>, b: Block)
    ensures
        blocks_of(final(out)@) == blocks_of(old(out)@).push(b@),
{
    out.push(b);
    assert(blocks_of(out@) == blocks_of(old(out)@).push(b@));
}

fn put_pool(out: &mut Vec<Block>, label: &'static str, used: u64, total: u64)
    ensures
        blocks_of(final(out)@) == with_pool_block(blocks_of(old(out)@), label@, used, total),
{
    if total == 0 {
        return ;
    }
    let ratio: Reading = fraction_used(used, total);
    let a: String = fmt_gib_value(used);
    let b: String = fmt_gib_value(total);
    let share: String = ratio.times(Reading::from_u64(100)).fixed_text(0);
    push_block(
        out,
        Block {
            label,
            value: concat4(a.as_str(), " / ", b.as_str(), " GiB"),
            value_color: TEXT,
            under: Under::Bar {
                ratio,
                fill: mem_level(ratio).color(),
                note: concat2(share.as_str(), "%"),
            },
        },
    );
}

fn utilization_block(avg: Option<Reading>) -> (r: Block)
    ensures
        r@ == util_block(avg),
{
    match avg {
        Some(u) => {
            let level: Level = util_level(u);
            let n: String = u.fixed_text(0);
            Block {
                label: "GPU UTIL",
                value: concat2(n.as_str(), "% avg"),
                value_color: level.value_color(),
                under: Under::Bar {
                    ratio: u.over(Reading::from_u64(100)),
                    fill: level.color(),
                    note: String::new(),
                },
            }
        },
        None => Block {
            label: "GPU UTIL",
            value: copied("n/a"),
            value_color: MUTED,
            under: Under::Note(copied("no readings"), MUTED),
        },
    }
}

fn total_power_block(t: &Totals) -> (r: Block)
    ensures
        r@ == power_block(*t),
{
    let limited: bool = t.power_limit_watts.gt(Reading { bits: 0 });
    let value_color: Color = if limited {
        power_level(t.dedicated_power_watts.over(t.power_limit_watts)).value_color()
    } else {
        TEXT
    };
    let note: String = if limited {
        let limit: String = fmt_watts(t.power_limit_watts);
        concat2("limit ", limit.as_str())
    } else {
        copied("accelerators")
    };
    Block {
        label: "POWER",
        value: fmt_watts(t.power_watts()),
        value_color,
        under: Under::Note(note, MUTED),
    }
}

/// The stat blocks of the overview.
pub fn blocks(t: &Totals, model: &ConsolidatedModel) -> (r: Vec<Block>)
    requires
        showable(*t),
    ensures
        blocks_of(r@) == overview(*t, sections_of(model.hosts@)),
        3 <= r@.len() <= MOST_BLOCKS,
{
    let mut out: Vec<Block> = Vec::new();
    assert(blocks_of(out@) == Seq::<BlockModel>::empty());
    let down: Vec<String> = hosts_down(&model.hosts);
    assert(texts(down@).len() == down@.len());
    // The title counts the hosts; a block appears only to name the ones that
    // are down.
    if down.len() > 0 {
        let up: String = decimal_text(t.hosts_up as u128);
        let total: String = decimal_text(t.hosts_total as u128);
        let names: String = join(&down, ", ");
        push_block(
            &mut out,
            Block {
                label: "HOSTS",
                value: concat4(up.as_str(), " / ", total.as_str(), " up"),
                value_color: CRIT,
                under: Under::Note(concat2("down: ", names.as_str()), CRIT),
            },
        );
    }
    let discrete: usize = t.devices - t.unified_devices;
    let mix: String = if t.unified_devices == 0 {
        plural(discrete, "discrete GPU")
    } else if discrete == 0 {
        plural(t.unified_devices, "SoC GPU")
    } else {
        let u: String = decimal_text(t.unified_devices as u128);
        let d: String = decimal_text(discrete as u128);
        concat4(u.as_str(), " SoC · ", d.as_str(), " dGPU")
    };
    push_block(
        &mut out,
        Block {
            label: "ACCELERATORS",
            value: decimal_text(t.devices as u128),
            value_color: TEXT,
            under: Under::Note(mix, MUTED),
        },
    );
    push_block(&mut out, utilization_block(t.avg_utilization));
    put_pool(&mut out, "UNIFIED MEMORY", t.unified_used, t.unified_total);
    put_pool(&mut out, "VRAM", t.dedicated_used, t.dedicated_total);
    put_pool(&mut out, "HOST RAM", t.host_ram_used, t.host_ram_total);
    push_block(&mut out, total_power_block(t));
    if let Some((temp, slowdown)) = t.max_temperature {
        let level: Level = temp_level(temp, slowdown);
        let note: String = match slowdown {
            Some(s) => {
                let n: String = decimal_text(s as u128);
                concat3("slowdown ", n.as_str(), "°C")
            },
            None => copied("hottest device"),
        };
        let n: String = decimal_text(temp as u128);
        push_block(
            &mut out,
            Block {
                label: "TEMP MAX",
                value: concat2(n.as_str(), "°C"),
                value_color: level.value_color(),
                under: Under::Note(note, MUTED),
            },
        );
    }
    assert(blocks_of(out@).len() == out@.len());
    out
}

/// How many blocks stand in a row.
pub open spec fn blocks_per_row(n: nat, cols: nat) -> nat {
    let fit = (if cols > MARGIN {
        (cols - MARGIN) as nat
    } else {
        0
    }) / MIN_BLOCK as nat;
    let most = if n > 1 {
        n
    } else {
        1
    };
    if fit < 1 {
        1
    } else if fit > most {
        most
    } else {
        fit
    }
}

/// How many rows of blocks there are.
pub open spec fn block_row_count(n: nat, cols: nat) -> nat {
    let p = blocks_per_row(n, cols);
    let rows = ((n + p - 1) as nat) / p;
    if rows < 1 {
        1
    } else {
        rows
    }
}

fn per_row(n: usize, cols: usize) -> (r: usize)
    ensures
        r == blocks_per_row(n as nat, cols as nat),
        r >= 1,
        n >= 1 ==> r <= n,
{
    let fit: usize = cols.saturating_sub(MARGIN) / MIN_BLOCK;
    let most: usize = if n > 1 {
        n
    } else {
        1
    };
    if fit < 1 {
        1
    } else if fit > most {
        most
    } else {
        fit
    }
}

fn block_rows(n: usize, cols: usize) -> (r: usize)
    requires
        n <= MOST_BLOCKS,
    ensures
        r == block_row_count(n as nat, cols as nat),
        r <= MOST_BLOCKS,
{
    let p: usize = per_row(n, cols);
    let rows: usize = (n + p - 1) / p;
    proof {
        lemma_div_nonincreasing((n + p - 1) as int, p as int);
        if n >= 1 {
            assert((n + p - 1) / p as int <= n) by (nonlinear_arith)
                requires
                    n >= 1,
                    p >= 1,
            ;
        } else {
            lemma_basic_div((p - 1) as int, p as int);
        }
    }
    if rows < 1 {
        1
    } else {
        rows
    }
}

/// Rows the header occupies at this width: title, blank, three per row of stat
/// blocks, blank.
pub fn header_rows(model: &ConsolidatedModel, cols: u16) -> (r: u16)
    requires
        showable(model.totals),
    ensures
        r == 3 + 3 * block_row_count(
            overview(model.totals, sections_of(model.hosts@)).len(),
            cols as nat,
        ),
        r <= 27,
{
    let b: Vec<Block> = blocks(&model.totals, model);
    assert(blocks_of(b@).len() == b@.len());
    let n: usize = block_rows(b.len(), cols as usize);
    (3 + 3 * n) as u16
}

/// The left part of the title line.
pub open spec fn title_left(runtime: Option<Seq<char>>) -> LineText {
    let a = with_text(with_text(seq![], " all-smi"@, ACCENT), "  cluster"@, SUBTLE);
    match runtime {
        Some(rt) => with_text(a, "  ["@ + rt + "]"@, MUTED),
        None => a,
    }
}

/// The right part of the title line.
pub open spec fn title_right(t: Totals, time: Seq<char>, version: Seq<char>) -> LineText {
    let a = with_text(
        seq![],
        decimal(t.hosts_up as nat) + " of "@ + decimal(t.hosts_total as nat) + " hosts up"@,
        if t.hosts_up < t.hosts_total {
            CRIT
        } else {
            MUTED
        },
    );
    let b = with_text(a, "  ·  "@, MUTED);
    let c = with_text(b, time, SUBTLE);
    let d = with_text(c, "  ·  "@, MUTED);
    with_text(d, "v"@ + version + " "@, MUTED)
}

/// `a - b`, not below zero.
pub open spec fn less(a: nat, b: nat) -> nat {
    if a > b {
        (a - b) as nat
    } else {
        0
    }
}

/// The title line: both parts where they fit, else the left one and the clock.
pub open spec fn title_line(
    cols: nat,
    t: Totals,
    time: Seq<char>,
    version: Seq<char>,
    runtime: Option<Seq<char>>,
) -> LineText {
    let left = title_left(runtime);
    let right = title_right(t, time, version);
    let gap = less(cols, line_width(left) + line_width(right));
    if gap >= 2 {
        with_text(left, run_of(' ', gap), MUTED) + right
    } else {
        with_text(with_padding(left, less(cols, time.len() + 1)), time, SUBTLE)
    }
}

pub open spec fn optional_str(s: Option<&str>) -> Option<Seq<char>> {
    match s {
        Some(t) => Some(t@),
        None => None,
    }
}

fn render_title(w: &mut Writer, model: &ConsolidatedModel, info: &TitleInfo)
    ensures
        final(w)@ == emitted(
            old(w)@,
            title_line(
                old(w)@.cols,
                model.totals,
                info.time@,
                info.version@,
                optional_str(info.runtime),
            ),
        ),
        final(w).cols == old(w).cols,
{
    let t: &Totals = &model.totals;
    let mut left: Line = Line::default();
    left.text(" all-smi", ACCENT);
    left.text("  cluster", SUBTLE);
    if let Some(rt) = info.runtime {
        let tag: String = concat3("  [", rt, "]");
        left.text(tag.as_str(), MUTED);
    }
    let mut right: Line = Line::default();
    let up: String = decimal_text(t.hosts_up as u128);
    let total: String = decimal_text(t.hosts_total as u128);
    let hosts: String = concat4(up.as_str(), " of ", total.as_str(), " hosts up");
    right.text(
        hosts.as_str(),
        if t.hosts_up < t.hosts_total {
            CRIT
        } else {
            MUTED
        },
    );
    right.text("  ·  ", MUTED);
    right.text(info.time, SUBTLE);
    right.text("  ·  ", MUTED);
    let version: String = concat3("v", info.version, " ");
    right.text(version.as_str(), MUTED);
    let gap: usize = w.cols.saturating_sub(left.width().saturating_add(right.width()));
    if gap >= 2 {
        let spaces: String = repeated(' ', gap);
        left.text(spaces.as_str(), MUTED);
        left.extend(&right);
    } else {
        // Narrow: drop the version, keep the clock.
        let clock: usize = display_width(info.time).saturating_add(1);
        left.pad_to(w.cols.saturating_sub(clock));
        left.text(info.time, SUBTLE);
    }
    w.emit(&left);
}

/// The three lines of the first `n` blocks of a row that begins at `start`.
pub open spec fn label_cells(b: Seq<BlockModel>, start: nat, width: nat, n: nat) -> LineText
    decreases n,
{
    if n == 0 {
        seq![]
    } else {
        let l = with_padding(
            label_cells(b, start, width, (n - 1) as nat),
            MARGIN as nat + (n - 1) as nat * width,
        );
        with_cell(l, b[start + n - 1].label, width, MUTED)
    }
}

pub open spec fn value_cells(b: Seq<BlockModel>, start: nat, width: nat, n: nat) -> LineText
    decreases n,
{
    if n == 0 {
        seq![]
    } else {
        let l = with_padding(
            value_cells(b, start, width, (n - 1) as nat),
            MARGIN as nat + (n - 1) as nat * width,
        );
        with_cell(l, b[start + n - 1].value, width, b[start + n - 1].value_color)
    }
}

/// `l` with what stands under a value.
pub open spec fn with_under(l: LineText, u: UnderModel, width: nat) -> LineText {
    match u {
        UnderModel::Note(text, color) => with_cell(l, text, width, color),
        UnderModel::Bar { ratio, fill, note } => {
            let reserved = if note.len() == 0 {
                0
            } else {
                note.len() + 1
            };
            let a = with_bar(l, less(less(width, 3), reserved), ratio, fill);
            let b = with_text(
                a,
                if note.len() == 0 {
                    ""@
                } else {
                    " "@
                },
                MUTED,
            );
            with_text(b, note, SUBTLE)
        },
    }
}

pub open spec fn under_cells(b: Seq<BlockModel>, start: nat, width: nat, n: nat) -> LineText
    decreases n,
{
    if n == 0 {
        seq![]
    } else {
        let l = with_padding(
            under_cells(b, start, width, (n - 1) as nat),
            MARGIN as nat + (n - 1) as nat * width,
        );
        with_under(l, b[start + n - 1].under, width)
    }
}

/// The width of a block when `p` stand in a row.
pub open spec fn block_width(cols: nat, p: nat) -> nat {
    let w = less(cols, MARGIN as nat) / p;
    if w < 1 {
        1
    } else if w > MAX_BLOCK {
        MAX_BLOCK as nat
    } else {
        w
    }
}

pub open spec fn lesser(a: nat, b: nat) -> nat {
    if a < b {
        a
    } else {
        b
    }
}

/// The screen after the blocks from `start` on, `p` in a row.
pub open spec fn emitted_blocks(
    s: Screen,
    b: Seq<BlockModel>,
    p: nat,
    width: nat,
    start: nat,
) -> Screen
    decreases b.len() - start,
{
    if start >= b.len() || p == 0 {
        s
    } else {
        let n = lesser(p, (b.len() - start) as nat);
        let s = emitted(s, label_cells(b, start, width, n));
        let s = emitted(s, value_cells(b, start, width, n));
        let s = emitted(s, under_cells(b, start, width, n));
        emitted_blocks(s, b, p, width, start + n)
    }
}

fn put_under(line: &mut Line, u: &Under, width: usize)
    ensures
        final(line)@ == with_under(old(line)@, u@, width as nat),
{
    match u {
        Under::Note(text, color) => {
            line.cell(text.as_str(), width, *color);
        },
        Under::Bar { ratio, fill, note } => {
            let empty: bool = note.as_str().is_empty();
            let reserved: usize = if empty {
                0
            } else {
                display_width(note.as_str()).saturating_add(1)
            };
            line.bar(width.saturating_sub(3).saturating_sub(reserved), *ratio, *fill);
            line.text(
                if empty {
                    ""
                } else {
                    " "
                },
                MUTED,
            );
            line.text(note.as_str(), SUBTLE);
        },
    }
}

fn render_row(w: &mut Writer, blocks: &Vec<Block>, start: usize, n: usize, width: usize)
    requires
        start + n <= blocks@.len(),
        n <= MOST_BLOCKS,
        1 <= width <= MAX_BLOCK,
    ensures
        final(w).cols == old(w).cols,
        final(w)@ == emitted(
            emitted(
                emitted(
                    old(w)@,
                    label_cells(blocks_of(blocks@), start as nat, width as nat, n as nat),
                ),
                value_cells(blocks_of(blocks@), start as nat, width as nat, n as nat),
            ),
            under_cells(blocks_of(blocks@), start as nat, width as nat, n as nat),
        ),
{
    let ghost all = blocks_of(blocks@);
    let count: usize = blocks.len();
    let mut labels: Line = Line::default();
    let mut values: Line = Line::default();
    let mut unders: Line = Line::default();
    let mut i: usize = 0;
    while i < n
        invariant
            i <= n,
            start + n <= blocks@.len() == count,
            n <= MOST_BLOCKS,
            1 <= width <= MAX_BLOCK,
            all == blocks_of(blocks@),
            labels@ == label_cells(all, start as nat, width as nat, i as nat),
            values@ == value_cells(all, start as nat, width as nat, i as nat),
            unders@ == under_cells(all, start as nat, width as nat, i as nat),
        decreases n - i,
    {
        proof {
            assert(i * width <= 8 * 30) by (nonlinear_arith)
                requires
                    0 <= i <= 8,
                    0 <= width <= 30,
            ;
            assert(all[start + i] == blocks@[start + i]@);
        }
        let col: usize = MARGIN + i * width;
        let b: &Block = &blocks[start + i];
        labels.pad_to(col);
        labels.cell(b.label, width, MUTED);
        values.pad_to(col);
        values.cell(b.value.as_str(), width, b.value_color);
        unders.pad_to(col);
        put_under(&mut unders, &b.under, width);
        i = i + 1;
    }
    w.emit(&labels);
    w.emit(&values);
    w.emit(&unders);
}

fn render_blocks(w: &mut Writer, blocks: &Vec<Block>)
    requires
        blocks@.len() <= MOST_BLOCKS,
    ensures
        final(w).cols == old(w).cols,
        ({
            let p = blocks_per_row(blocks@.len(), old(w)@.cols);
            final(w)@ == emitted_blocks(
                old(w)@,
                blocks_of(blocks@),
                p,
                block_width(old(w)@.cols, p),
                0,
            )
        }),
{
    let p: usize = per_row(blocks.len(), w.cols);
    let share: usize = w.cols.saturating_sub(MARGIN) / p;
    let width: usize = if share < 1 {
        1
    } else if share > MAX_BLOCK {
        MAX_BLOCK
    } else {
        share
    };
    let ghost all = blocks_of(blocks@);
    let ghost first = w@;
    let mut start: usize = 0;
    while start < blocks.len()
        invariant
            start <= blocks@.len(),
            blocks@.len() <= MOST_BLOCKS,
            p >= 1,
            1 <= width <= MAX_BLOCK,
            all == blocks_of(blocks@),
            w.cols == old(w).cols,
            emitted_blocks(first, all, p as nat, width as nat, 0) == emitted_blocks(
                w@,
                all,
                p as nat,
                width as nat,
                start as nat,
            ),
        decreases blocks@.len() - start,
    {
        let rest: usize = blocks.len() - start;
        let n: usize = if p < rest {
            p
        } else {
            rest
        };
        render_row(w, blocks, start, n, width);
        start = start + n;
    }
}

/// The whole header.
pub open spec fn header_screen(
    cols: nat,
    t: Totals,
    hosts: Seq<SectionModel>,
    time: Seq<char>,
    version: Seq<char>,
    runtime: Option<Seq<char>>,
) -> Screen {
    let b = overview(t, hosts);
    let p = blocks_per_row(b.len(), cols);
    let s = Screen { cols, rows_left: usize::MAX as nat, lines: seq![] };
    let s = emitted(s, title_line(cols, t, time, version, runtime));
    let s = emitted(s, seq![]);
    let s = emitted_blocks(s, b, p, block_width(cols, p), 0);
    emitted(s, seq![])
}

/// The header's lines, clipped to the terminal.
pub fn render_header(model: &ConsolidatedModel, title: &TitleInfo, cols: u16) -> (r: Writer)
    requires
        showable(model.totals),
    ensures
        r@ == header_screen(
            cols as nat,
            model.totals,
            sections_of(model.hosts@),
            title.time@,
            title.version@,
            optional_str(title.runtime),
        ),
{
    let mut w: Writer = Writer::new(cols as usize, usize::MAX);
    render_title(&mut w, model, title);
    w.blank();
    let b: Vec<Block> = blocks(&model.totals, model);
    assert(blocks_of(b@).len() == b@.len());
    render_blocks(&mut w, &b);
    w.blank();
    w
}

proof fn overview_size(t: Totals, hosts: Seq<SectionModel>)
    ensures
        3 <= overview(t, hosts).len() <= MOST_BLOCKS,
{
}

proof fn block_lines_counted(s: Screen, b: Seq<BlockModel>, p: nat, width: nat, start: nat)
    requires
        p >= 1,
        start <= b.len() <= MOST_BLOCKS,
        s.rows_left >= 3 * (b.len() - start),
    ensures
        emitted_blocks(s, b, p, width, start).lines.len() == s.lines.len() + 3 * (((b.len() - start
            + p - 1) as nat) / p),
        emitted_blocks(s, b, p, width, start).rows_left >= s.rows_left - 3 * (b.len() - start),
    decreases b.len() - start,
{
    let m = (b.len() - start) as nat;
    if start >= b.len() {
        lemma_basic_div((p - 1) as int, p as int);
    } else {
        let n = lesser(p, m);
        let s1 = emitted(s, label_cells(b, start, width, n));
        let s2 = emitted(s1, value_cells(b, start, width, n));
        let s3 = emitted(s2, under_cells(b, start, width, n));
        block_lines_counted(s3, b, p, width, start + n);
        if m > p {
            assert(((m + p - 1) as nat) / p == 1 + ((m - p + p - 1) as nat) / p) by {
                lemma_div_plus_one((m - 1) as int, p as int);
            }
        } else {
            assert(((m + p - 1) as nat) / p == 1) by (nonlinear_arith)
                requires
                    1 <= m <= p,
            ;
            lemma_basic_div((p - 1) as int, p as int);
        }
    }
}

/// The header takes exactly the rows that `header_rows` announces, at every
/// width.
pub proof fn header_takes_the_rows_it_announces(
    cols: nat,
    t: Totals,
    hosts: Seq<SectionModel>,
    time: Seq<char>,
    version: Seq<char>,
    runtime: Option<Seq<char>>,
)
    ensures
        header_screen(cols, t, hosts, time, version, runtime).lines.len() == 3 + 3
            * block_row_count(overview(t, hosts).len(), cols),
{
    let b = overview(t, hosts);
    overview_size(t, hosts);
    let p = blocks_per_row(b.len(), cols);
    let s = Screen { cols, rows_left: usize::MAX as nat, lines: seq![] };
    let s1 = emitted(s, title_line(cols, t, time, version, runtime));
    let s2 = emitted(s1, seq![]);
    block_lines_counted(s2, b, p, block_width(cols, p), 0);
    assert(((b.len() + p - 1) as nat) / p >= 1) by (nonlinear_arith)
        requires
            b.len() >= 1,
            p >= 1,
    ;
}

} // verus!
