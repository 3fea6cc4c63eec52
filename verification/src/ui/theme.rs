//! Palette for the cluster views: neutral greys carry structure, one muted
//! teal accent marks headings, the selected tab and the active pipeline phase,
//! and green, amber and red appear only where a reading crosses a threshold.
use vstd::arithmetic::power2::*;
use vstd::prelude::*;

use crate::reading::{
    bits_of_a_fraction, bits_of_a_natural, naturals_are_finite, naturals_keep_their_order, nearest,
    nothing_times_a_reading, one_times_a_reading, products_keep_order, shift_of, significand_of,
    small_naturals_are_nearest, units_of, Reading, STEP,
};

verus! {

/// Colors of the views: shades of the 256-color palette by their index, and
/// the terminal's own colors by name.
#[derive(Clone, Copy, Debug, PartialEq, Eq, Structural)]
pub enum Color {
    Ansi254,
    Ansi248,
    Ansi243,
    Ansi238,
    Ansi73,
    Ansi71,
    Ansi179,
    Ansi167,
    Ansi233,
    White,
    Cyan,
    Green,
    Yellow,
    Red,
    Magenta,
    DarkGrey,
}

impl Color {
    /// The index in the 256-color palette, where the color is one of it.
    pub open spec fn index(self) -> Option<u8> {
        match self {
            Color::Ansi254 => Some(254),
            Color::Ansi248 => Some(248),
            Color::Ansi243 => Some(243),
            Color::Ansi238 => Some(238),
            Color::Ansi73 => Some(73),
            Color::Ansi71 => Some(71),
            Color::Ansi179 => Some(179),
            Color::Ansi167 => Some(167),
            Color::Ansi233 => Some(233),
            _ => None,
        }
    }

    pub fn ansi_value(self) -> (r: Option<u8>)
        ensures
            r == self.index(),
    {
        match self {
            Color::Ansi254 => Some(254),
            Color::Ansi248 => Some(248),
            Color::Ansi243 => Some(243),
            Color::Ansi238 => Some(238),
            Color::Ansi73 => Some(73),
            Color::Ansi71 => Some(71),
            Color::Ansi179 => Some(179),
            Color::Ansi167 => Some(167),
            Color::Ansi233 => Some(233),
            _ => None,
        }
    }
}

/// Values and names (zinc-200).
pub const TEXT: Color = Color::Ansi254;

/// Secondary values: units, detail rows, sub-lines (zinc-400).
pub const SUBTLE: Color = Color::Ansi248;

/// Labels and column headers (zinc-500).
pub const MUTED: Color = Color::Ansi243;

/// Rules, bar tracks, empty history (zinc-700).
pub const RULE: Color = Color::Ansi238;

/// The one accent: headings, the selected tab, the active pipeline phase.
pub const ACCENT: Color = Color::Ansi73;

/// Reading within its normal range.
pub const OK: Color = Color::Ansi71;

/// Reading approaching its limit.
pub const WARN: Color = Color::Ansi179;

/// Reading at or past its limit, or a host that is down.
pub const CRIT: Color = Color::Ansi167;

/// Text on an accent background (the selected tab).
pub const ON_ACCENT: Color = Color::Ansi233;

/// Utilization thresholds in percent, 70 and 90, as bit patterns.
pub const UTIL_WARN: u64 = 0x4051_8000_0000_0000;

pub const UTIL_CRIT: u64 = 0x4056_8000_0000_0000;

/// Memory thresholds as a fraction of capacity, 0.85 and 0.95, as bit
/// patterns. Inference servers keep memory nearly full by design, so memory
/// turns amber later than compute.
pub const MEM_WARN: u64 = 0x3feb_3333_3333_3333;

pub const MEM_CRIT: u64 = 0x3fee_6666_6666_6666;

/// Power thresholds as a fraction of the board limit, 0.7 and 0.9, as bit
/// patterns.
pub const POWER_WARN: u64 = 0x3fe6_6666_6666_6666;

pub const POWER_CRIT: u64 = 0x3fec_cccc_cccc_cccd;

/// The bit patterns of zero and one.
pub const ZERO: u64 = 0;

pub const ONE: u64 = 0x3ff0_0000_0000_0000;

/// Temperature margins below the device's slowdown threshold.
pub const TEMP_WARN_MARGIN: u32 = 15;

pub const TEMP_CRIT_MARGIN: u32 = 5;

/// Slowdown threshold assumed when a device reports none.
pub const TEMP_DEFAULT_SLOWDOWN: u32 = 100;

/// Three-state reading level; `color` maps it onto the palette.
#[derive(Clone, Copy, Debug, PartialEq, Eq, PartialOrd, Ord, Structural)]
pub enum Level {
    Normal,
    Warn,
    Crit,
}

/// The level of `value` against two thresholds.
pub open spec fn level_of(value: Reading, warn: u64, crit: u64) -> Level {
    if value.at_least(Reading { bits: crit }) {
        Level::Crit
    } else if value.at_least(Reading { bits: warn }) {
        Level::Warn
    } else {
        Level::Normal
    }
}

impl Level {
    pub open spec fn shade(self) -> Color {
        match self {
            Level::Normal => OK,
            Level::Warn => WARN,
            Level::Crit => CRIT,
        }
    }

    pub open spec fn value_shade(self) -> Color {
        if self == Level::Normal {
            TEXT
        } else {
            self.shade()
        }
    }

    pub fn color(self) -> (r: Color)
        ensures
            r == self.shade(),
    {
        match self {
            Level::Normal => OK,
            Level::Warn => WARN,
            Level::Crit => CRIT,
        }
    }

    /// Color for the number itself: plain text while the reading is normal,
    /// so green stays on the bars and the screen stays calm.
    pub fn value_color(self) -> (r: Color)
        ensures
            r == self.value_shade(),
    {
        match self {
            Level::Normal => TEXT,
            other => other.color(),
        }
    }

    /// The level of `value` against two thresholds given as bit patterns.
    fn from_thresholds(value: Reading, warn: u64, crit: u64) -> (r: Level)
        ensures
            r == level_of(value, warn, crit),
    {
        if value.ge(Reading { bits: crit }) {
            Level::Crit
        } else if value.ge(Reading { bits: warn }) {
            Level::Warn
        } else {
            Level::Normal
        }
    }
}

pub fn util_level(percent: Reading) -> (r: Level)
    ensures
        r == level_of(percent, UTIL_WARN, UTIL_CRIT),
{
    Level::from_thresholds(percent, UTIL_WARN, UTIL_CRIT)
}

pub fn mem_level(ratio: Reading) -> (r: Level)
    ensures
        r == level_of(ratio, MEM_WARN, MEM_CRIT),
{
    Level::from_thresholds(ratio, MEM_WARN, MEM_CRIT)
}

pub fn power_level(ratio: Reading) -> (r: Level)
    ensures
        r == level_of(ratio, POWER_WARN, POWER_CRIT),
{
    Level::from_thresholds(ratio, POWER_WARN, POWER_CRIT)
}

/// The slowdown threshold that counts: the reported one where it is above
/// zero, else the default.
pub open spec fn slowdown_limit(slowdown: Option<u32>) -> u32 {
    match slowdown {
        Some(s) => if s > 0 {
            s
        } else {
            TEMP_DEFAULT_SLOWDOWN
        },
        None => TEMP_DEFAULT_SLOWDOWN,
    }
}

/// The level of a temperature.
pub open spec fn temperature_level(celsius: u32, slowdown: Option<u32>) -> Level {
    let limit = slowdown_limit(slowdown);
    if celsius + TEMP_CRIT_MARGIN >= limit {
        Level::Crit
    } else if celsius + TEMP_WARN_MARGIN >= limit {
        Level::Warn
    } else {
        Level::Normal
    }
}

/// Whether the margins above a temperature fit, as far as they are looked at: the
/// wider one only where the narrower stays below the threshold.
pub open spec fn margins_fit(celsius: u32, slowdown: Option<u32>) -> bool {
    &&& celsius + TEMP_CRIT_MARGIN <= u32::MAX
    &&& celsius + TEMP_CRIT_MARGIN < slowdown_limit(slowdown) ==> celsius + TEMP_WARN_MARGIN
        <= u32::MAX
}

/// Whether a temperature has a level.
pub fn has_level(celsius: u32, slowdown: Option<u32>) -> (r: bool)
    ensures
        r == margins_fit(celsius, slowdown),
{
    let limit: u32 = match slowdown {
        Some(s) => if s > 0 {
            s
        } else {
            TEMP_DEFAULT_SLOWDOWN
        },
        None => TEMP_DEFAULT_SLOWDOWN,
    };
    celsius <= u32::MAX - TEMP_CRIT_MARGIN && (celsius + TEMP_CRIT_MARGIN >= limit || celsius
        <= u32::MAX - TEMP_WARN_MARGIN)
}

/// Temperature against the device's slowdown threshold (or the default when
/// it reports none).
pub fn temp_level(celsius: u32, slowdown: Option<u32>) -> (r: Level)
    requires
        margins_fit(celsius, slowdown),
    ensures
        r == temperature_level(celsius, slowdown),
{
    let limit: u32 = match slowdown {
        Some(s) => if s > 0 {
            s
        } else {
            TEMP_DEFAULT_SLOWDOWN
        },
        None => TEMP_DEFAULT_SLOWDOWN,
    };
    if celsius + TEMP_CRIT_MARGIN >= limit {
        Level::Crit
    } else if celsius + TEMP_WARN_MARGIN >= limit {
        Level::Warn
    } else {
        Level::Normal
    }
}

/// Color output is on unless `NO_COLOR` holds a non-empty value; `no_color`
/// is the length of that value, where the variable is set.
pub fn color_enabled(no_color: Option<usize>) -> (r: bool)
    ensures
        r == !(no_color matches Some(n) && n > 0),
{
    match no_color {
        Some(n) => n == 0,
        None => true,
    }
}

/// Filled and empty glyphs of the one bar style every cluster view uses.
pub const BAR_FILL: char = '━';

pub const BAR_TRACK: char = '─';

/// `ratio` held to `0..=1`; zero where it is not finite.
pub open spec fn bar_ratio(ratio: Reading) -> Reading {
    if !ratio.finite() || (Reading { bits: ZERO }).above(ratio) {
        Reading { bits: ZERO }
    } else if ratio.above(Reading { bits: ONE }) {
        Reading { bits: ONE }
    } else {
        ratio
    }
}

/// How many of `width` cells a bar at `ratio` fills.
pub open spec fn filled_cells(width: nat, ratio: Reading) -> nat {
    let held = bar_ratio(ratio);
    let n = held.product(Reading::of_natural(width)).nearest_natural(usize::MAX as nat);
    if held.above(Reading { bits: ZERO }) && n == 0 && width > 0 {
        1
    } else if n > width {
        width
    } else {
        n
    }
}

/// Split a bar of `width` cells at `ratio` (held to `0..=1`). A non-zero
/// reading always shows at least one filled cell.
pub fn bar_cells(width: usize, ratio: Reading) -> (r: (usize, usize))
    ensures
        r.0 == filled_cells(width as nat, ratio),
        r.0 + r.1 == width,
{
    let zero: Reading = Reading { bits: ZERO };
    let one: Reading = Reading { bits: ONE };
    let held: Reading = if !ratio.is_finite() || zero.gt(ratio) {
        zero
    } else if ratio.gt(one) {
        one
    } else {
        ratio
    };
    let n: u64 = held.times(Reading::from_u64(width as u64)).rounded(usize::MAX as u64);
    let mut filled: usize = n as usize;
    if held.gt(zero) && filled == 0 && width > 0 {
        filled = 1;
    }
    if filled > width {
        filled = width;
    }
    (filled, width - filled)
}

/// A bar is empty where there is nothing to show, shows at least one cell where
/// there is something, and is full from one on: at every width that a reading
/// counts without falling short of it, as it does all those below 2^53.
pub proof fn bars_show_what_there_is(width: nat, ratio: Reading)
    requires
        width <= usize::MAX,
    ensures
        filled_cells(width, ratio) <= width,
        !ratio.finite() || (Reading { bits: ZERO }).at_least(ratio) ==> filled_cells(width, ratio)
            == 0,
        ratio.finite() && ratio.above(Reading { bits: ZERO }) && width > 0 ==> filled_cells(
            width,
            ratio,
        ) >= 1,
        ratio.finite() && ratio.at_least(Reading { bits: ONE }) && Reading::of_natural(
            width,
        ).nearest_natural(usize::MAX as nat) >= width ==> filled_cells(width, ratio) == width,
        width < 2 * STEP ==> Reading::of_natural(width).nearest_natural(usize::MAX as nat)
            == width,
{
    let held = bar_ratio(ratio);
    naturals_are_finite(width);
    if !ratio.finite() || (Reading { bits: ZERO }).at_least(ratio) {
        nothing_times_a_reading(held, Reading::of_natural(width), usize::MAX as nat);
    }
    if ratio.finite() && ratio.at_least(Reading { bits: ONE }) {
        assert(held.bits == ONE);
        one_times_a_reading(held, Reading::of_natural(width));
    }
    if width < 2 * STEP {
        small_naturals_are_nearest(width, usize::MAX as nat);
    }
}

/// A larger ratio fills no fewer cells.
pub proof fn bars_grow_with_their_ratio(width: nat, lesser: Reading, greater: Reading)
    requires
        width <= usize::MAX,
        lesser.finite(),
        greater.finite(),
        greater.at_least(lesser),
    ensures
        filled_cells(width, lesser) <= filled_cells(width, greater),
{
    let (a, b) = (bar_ratio(lesser), bar_ratio(greater));
    let by = Reading::of_natural(width);
    naturals_are_finite(width);
    if !a.above(Reading { bits: ZERO }) {
        nothing_times_a_reading(a, by, usize::MAX as nat);
    } else {
        products_keep_order(a, b, by, usize::MAX as nat);
    }
}

/// A utilization warns from 70 percent on, and is critical from 90.
pub proof fn utilization_warns_at_seventy(percent: nat)
    requires
        percent < 2 * STEP,
    ensures
        level_of(Reading::of_natural(percent), UTIL_WARN, UTIL_CRIT) == if percent >= 90 {
            Level::Crit
        } else if percent >= 70 {
            Level::Warn
        } else {
            Level::Normal
        },
{
    let u = pow2(1074);
    lemma2_to64();
    lemma2_to64_rest();
    // 70 is 35 * 2, 90 is 45 * 2
    lemma_pow2_adds(46, 1028);
    let (w, c) = (UTIL_WARN as nat, UTIL_CRIT as nat);
    assert(w / STEP as nat == 1029 && c / STEP as nat == 1029);
    assert(shift_of(w) == 1028 && shift_of(c) == 1028);
    let p = pow2(1028);
    assert(significand_of(w) == 70 * pow2(46));
    assert(significand_of(c) == 90 * pow2(46));
    assert(units_of(w) == 70 * u) by (nonlinear_arith)
        requires
            units_of(w) == (70 * pow2(46)) * p,
            u == pow2(46) * p,
    ;
    assert(units_of(c) == 90 * u) by (nonlinear_arith)
        requires
            units_of(c) == (90 * pow2(46)) * p,
            u == pow2(46) * p,
    ;
    bits_of_a_natural(70, UTIL_WARN);
    bits_of_a_natural(90, UTIL_CRIT);
    naturals_keep_their_order(70, percent);
    naturals_keep_their_order(90, percent);
}

/// Memory warns from 85 percent of its capacity on and is critical from 95; power
/// warns from 70 percent of its limit on and is critical from 90.
pub proof fn shares_warn_near_their_limit(share: Reading)
    requires
        share.finite(),
        !share.negative(),
    ensures
        ({
            let (u, m) = (pow2(1074), share.magnitude());
            &&& level_of(share, MEM_WARN, MEM_CRIT) == if m >= nearest(95 * u, 100) {
                Level::Crit
            } else if m >= nearest(85 * u, 100) {
                Level::Warn
            } else {
                Level::Normal
            }
            &&& level_of(share, POWER_WARN, POWER_CRIT) == if m >= nearest(9 * u, 10) {
                Level::Crit
            } else if m >= nearest(7 * u, 10) {
                Level::Warn
            } else {
                Level::Normal
            }
        }),
{
    lemma2_to64();
    lemma2_to64_rest();
    assert(pow2(53) == 9_007_199_254_740_992);
    bits_of_a_fraction(95, 100, 53, 8_556_839_292_003_942);
    bits_of_a_fraction(85, 100, 53, 7_656_119_366_529_843);
    bits_of_a_fraction(9, 10, 53, 8_106_479_329_266_893);
    bits_of_a_fraction(7, 10, 53, 6_305_039_478_318_694);
}

/// A temperature is critical within 5 degrees of the device's slowdown threshold,
/// and warns within 15; a device that states none slows down at 100.
pub proof fn temperatures_warn_near_the_slowdown(celsius: u32, slowdown: u32)
    ensures
        slowdown > 0 ==> {
            let level = temperature_level(celsius, Some(slowdown));
            &&& (level == Level::Crit) == (slowdown - celsius <= 5)
            &&& (level == Level::Warn) == (5 < slowdown - celsius <= 15)
            &&& (level == Level::Normal) == (15 < slowdown - celsius)
        },
        temperature_level(celsius, None) == temperature_level(celsius, Some(100)),
        temperature_level(celsius, Some(0)) == temperature_level(celsius, Some(100)),
{
}

/// What is normal is green in bars and plain in figures; what warns is amber, and
/// what is critical red, in both.
pub proof fn levels_have_their_colors()
    ensures
        Level::Normal.shade().index() == Some(71u8),
        Level::Normal.value_shade().index() == Some(254u8),
        Level::Warn.shade().index() == Some(179u8),
        Level::Warn.value_shade() == Level::Warn.shade(),
        Level::Crit.shade().index() == Some(167u8),
        Level::Crit.value_shade() == Level::Crit.shade(),
{
}

} // verus!
