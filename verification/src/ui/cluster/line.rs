//! Line assembly and number formatting shared by the cluster views.
//!
//! A `Line` is a list of colored segments with cell helpers for aligned
//! columns; a `Writer` collects lines clipped to the terminal width and stops
//! at a row budget, so a view can never push the footer off screen.
use vstd::prelude::*;
use vstd::string::*;

use crate::reading::Reading;
use crate::text::{
    chars_of, clip, concat2, concat3, concat4, copied, decimal, decimal_text, display_width,
    last_occurrence, padded, padded_text, repeated, rfind, run_of, text_between, trim_end,
    truncate_to_width,
};
use crate::ui::theme::{bar_cells, filled_cells, Color, BAR_FILL, BAR_TRACK, RULE};

verus! {

/// 2^30 as a bit pattern.
pub const GIB: u64 = 0x41d0_0000_0000_0000;

/// What a line shows: its segments in order, each with its color.
pub type LineText = Seq<(Seq<char>, Color)>;

/// Display width of a line.
pub open spec fn line_width(l: LineText) -> nat
    decreases l.len(),
{
    if l.len() == 0 {
        0
    } else {
        line_width(l.drop_last()) + l.last().0.len()
    }
}

/// The text of a line, without colors.
pub open spec fn plain_text(l: LineText) -> Seq<char>
    decreases l.len(),
{
    if l.len() == 0 {
        seq![]
    } else {
        plain_text(l.drop_last()) + l.last().0
    }
}

/// `l` with `s` behind it; nothing is added for an empty text.
pub open spec fn with_text(l: LineText, s: Seq<char>, color: Color) -> LineText {
    if s.len() == 0 {
        l
    } else {
        l.push((s, color))
    }
}

/// `n - 1`, not below zero.
pub open spec fn body_of(width: nat) -> nat {
    if width == 0 {
        0
    } else {
        (width - 1) as nat
    }
}

/// The content of a left-aligned cell.
pub open spec fn cell_text(s: Seq<char>, width: nat) -> Seq<char> {
    let t = clip(s, body_of(width));
    t + run_of(' ', (width - t.len()) as nat)
}

/// The content of a right-aligned cell.
pub open spec fn rcell_text(s: Seq<char>, width: nat) -> Seq<char> {
    let t = clip(s, body_of(width));
    run_of(' ', (body_of(width) - t.len()) as nat) + t + " "@
}

pub open spec fn with_cell(l: LineText, s: Seq<char>, width: nat, color: Color) -> LineText {
    l.push((cell_text(s, width), color))
}

pub open spec fn with_rcell(l: LineText, s: Seq<char>, width: nat, color: Color) -> LineText {
    l.push((rcell_text(s, width), color))
}

/// `l` with spaces up to column `col`.
pub open spec fn with_padding(l: LineText, col: nat) -> LineText {
    if col > line_width(l) {
        l.push((run_of(' ', (col - line_width(l)) as nat), RULE))
    } else {
        l
    }
}

/// `l` with a bar of `width` cells filled to `ratio`.
pub open spec fn with_bar(l: LineText, width: nat, ratio: Reading, fill: Color) -> LineText {
    let filled = filled_cells(width, ratio);
    with_text(
        with_text(l, run_of(BAR_FILL, filled), fill),
        run_of(BAR_TRACK, (width - filled) as nat),
        RULE,
    )
}

/// The segments of `l` that fit in `cols` columns, the last one cut.
pub open spec fn clipped(l: LineText, cols: nat) -> LineText
    decreases l.len(),
{
    if l.len() == 0 || cols == 0 {
        seq![]
    } else {
        let t = clip(l[0].0, cols);
        seq![(t, l[0].1)] + clipped(l.drop_first(), (cols - t.len()) as nat)
    }
}

#[derive(Clone)]
pub struct Line {
    pub segs: Vec<(String, Color)>,
}

impl View for Line {
    type V = LineText;

    open spec fn view(&self) -> LineText {
        self.segs@.map_values(|s: (String, Color)| (s.0@, s.1))
    }
}

impl Default for Line {
    fn default() -> (r: Line)
        ensures
            r@ == LineText::empty(),
    {
        let r = Line { segs: Vec::new() };
        assert(r@ == LineText::empty());
        r
    }
}

impl Line {
    fn push(&mut self, text: String, color: Color)
        ensures
            final(self)@ == old(self)@.push((text@, color)),
    {
        self.segs.push((text, color));
        assert(self@ == old(self)@.push((text@, color)));
    }

    /// Display width of everything added so far.
    pub fn width(&self) -> (r: usize)
        ensures
            r == if line_width(self@) <= usize::MAX {
                line_width(self@)
            } else {
                usize::MAX as nat
            },
    {
        let mut i: usize = 0;
        let mut w: usize = 0;
        assert(self@.take(0) == LineText::empty());
        while i < self.segs.len()
            invariant
                i <= self.segs@.len(),
                w == if line_width(self@.take(i as int)) <= usize::MAX {
                    line_width(self@.take(i as int))
                } else {
                    usize::MAX as nat
                },
            decreases self.segs@.len() - i,
        {
            let n: usize = display_width(self.segs[i].0.as_str());
            w = w.saturating_add(n);
            proof {
                let next = self@.take(i + 1);
                assert(next.drop_last() == self@.take(i as int));
                assert(next.last() == self@[i as int]);
            }
            i = i + 1;
        }
        assert(self@.take(self@.len() as int) == self@);
        w
    }

    pub fn text(&mut self, s: &str, color: Color) -> (r: &mut Self)
        ensures
            r@ == with_text(old(self)@, s@, color),
            *final(self) == *final(r),
    {
        if !s.is_empty() {
            self.push(s.to_owned(), color);
        }
        self
    }

    /// Left-aligned cell of exactly `width` columns (one trailing space is
    /// reserved as the column gap).
    pub fn cell(&mut self, s: &str, width: usize, color: Color) -> (r: &mut Self)
        ensures
            r@ == with_cell(old(self)@, s@, width as nat, color),
            *final(self) == *final(r),
    {
        let body: usize = width.saturating_sub(1);
        let t: String = truncate_to_width(s, body);
        let pad: usize = width - display_width(t.as_str());
        let gap: String = repeated(' ', pad);
        self.push(concat2(t.as_str(), gap.as_str()), color);
        self
    }

    /// Right-aligned cell of exactly `width` columns, gap on the right.
    pub fn rcell(&mut self, s: &str, width: usize, color: Color) -> (r: &mut Self)
        ensures
            r@ == with_rcell(old(self)@, s@, width as nat, color),
            *final(self) == *final(r),
    {
        let body: usize = width.saturating_sub(1);
        let t: String = truncate_to_width(s, body);
        let pad: usize = body - display_width(t.as_str());
        let gap: String = repeated(' ', pad);
        self.push(concat3(gap.as_str(), t.as_str(), " "), color);
        self
    }

    /// Spaces up to column `col` (no change when already past it).
    pub fn pad_to(&mut self, col: usize) -> (r: &mut Self)
        ensures
            r@ == with_padding(old(self)@, col as nat),
            *final(self) == *final(r),
    {
        let w: usize = self.width();
        if col > w {
            self.push(repeated(' ', col - w), RULE);
        }
        self
    }

    /// A `width`-cell bar filled to `ratio` in `fill`, on a dim track.
    pub fn bar(&mut self, width: usize, ratio: Reading, fill: Color) -> (r: &mut Self)
        ensures
            r@ == with_bar(old(self)@, width as nat, ratio, fill),
            *final(self) == *final(r),
    {
        let (filled, empty) = bar_cells(width, ratio);
        if filled > 0 {
            self.push(repeated(BAR_FILL, filled), fill);
        }
        if empty > 0 {
            self.push(repeated(BAR_TRACK, empty), RULE);
        }
        self
    }

    /// Append another line's segments.
    pub fn extend(&mut self, other: &Line) -> (r: &mut Self)
        ensures
            r@ == old(self)@ + other@,
            *final(self) == *final(r),
    {
        let mut i: usize = 0;
        assert(old(self)@ + other@.take(0) == old(self)@);
        while i < other.segs.len()
            invariant
                i <= other.segs@.len(),
                self@ == old(self)@ + other@.take(i as int),
            decreases other.segs@.len() - i,
        {
            self.push(copied(other.segs[i].0.as_str()), other.segs[i].1);
            assert(other@.take(i + 1) == other@.take(i as int).push(other@[i as int]));
            assert(self@ == old(self)@ + other@.take(i + 1));
            i = i + 1;
        }
        assert(other@.take(other@.len() as int) == other@);
        self
    }

    /// Plain text of the line, without colors.
    pub fn plain(&self) -> (r: String)
        ensures
            r@ == plain_text(self@),
    {
        let mut i: usize = 0;
        let mut r: String = String::new();
        assert(self@.take(0) == LineText::empty());
        while i < self.segs.len()
            invariant
                i <= self.segs@.len(),
                r@ == plain_text(self@.take(i as int)),
            decreases self.segs@.len() - i,
        {
            r.append(self.segs[i].0.as_str());
            proof {
                let next = self@.take(i + 1);
                assert(next.drop_last() == self@.take(i as int));
                assert(next.last() == self@[i as int]);
            }
            i = i + 1;
        }
        assert(self@.take(self@.len() as int) == self@);
        r
    }

    /// The line cut to `cols` columns.
    fn clip_to(&self, cols: usize) -> (r: Line)
        ensures
            r@ == clipped(self@, cols as nat),
    {
        let mut r: Line = Line::default();
        let mut used: usize = 0;
        let mut i: usize = 0;
        assert(self@.skip(0) == self@);
        assert(r@ + clipped(self@, cols as nat) == clipped(self@, cols as nat));
        while i < self.segs.len() && used < cols
            invariant
                i <= self.segs@.len(),
                used <= cols,
                r@ + clipped(self@.skip(i as int), (cols - used) as nat) == clipped(
                    self@,
                    cols as nat,
                ),
            decreases self.segs@.len() - i,
        {
            let ghost rest = self@.skip(i as int);
            let t: String = truncate_to_width(self.segs[i].0.as_str(), cols - used);
            let n: usize = display_width(t.as_str());
            assert(rest[0] == self@[i as int]);
            assert(rest.drop_first() == self@.skip(i + 1));
            let ghost before = r@;
            r.push(t, self.segs[i].1);
            used = used + n;
            proof {
                let tail = clipped(self@.skip(i + 1), (cols - used) as nat);
                assert(before.push((t@, rest[0].1)) + tail == before + (seq![(t@, rest[0].1)]
                    + tail));
            }
            i = i + 1;
        }
        assert(clipped(self@.skip(i as int), (cols - used) as nat) == LineText::empty());
        assert(r@ == clipped(self@, cols as nat));
        r
    }
}

/// The lines of a list.
pub open spec fn line_texts(v: Seq<Line>) -> Seq<LineText> {
    v.map_values(|l: Line| l@)
}

/// What has been written: the clipped lines, and how many more fit.
#[verifier::ext_equal]
pub struct Screen {
    pub cols: nat,
    pub rows_left: nat,
    pub lines: Seq<LineText>,
}

/// The screen after one more line.
pub open spec fn emitted(s: Screen, l: LineText) -> Screen {
    if s.rows_left == 0 {
        s
    } else {
        Screen {
            cols: s.cols,
            rows_left: (s.rows_left - 1) as nat,
            lines: s.lines.push(clipped(l, s.cols)),
        }
    }
}

/// The screen after several more lines.
pub open spec fn emitted_all(s: Screen, ls: Seq<LineText>) -> Screen
    decreases ls.len(),
{
    if ls.len() == 0 {
        s
    } else {
        emitted(emitted_all(s, ls.drop_last()), ls.last())
    }
}

/// A full-width rule.
pub open spec fn rule_line(cols: nat) -> LineText {
    with_text(seq![], run_of('─', cols), RULE)
}

/// `title ────…── right`.
pub open spec fn heading_line(cols: nat, title: LineText, right: Option<LineText>) -> LineText {
    let line = with_text(with_text(seq![], " "@, RULE) + title, " "@, RULE);
    let reserved = match right {
        Some(r) => line_width(r) + 2,
        None => 0,
    };
    let used = line_width(line) + reserved;
    let fill = if cols > used {
        (cols - used) as nat
    } else {
        0
    };
    let line = with_text(line, run_of('─', fill), RULE);
    match right {
        Some(r) => with_text(with_text(line, " "@, RULE) + r, " "@, RULE),
        None => line,
    }
}

pub struct Writer {
    pub cols: usize,
    pub rows_left: usize,
    pub out: Vec<Line>,
}

impl View for Writer {
    type V = Screen;

    open spec fn view(&self) -> Screen {
        Screen {
            cols: self.cols as nat,
            rows_left: self.rows_left as nat,
            lines: line_texts(self.out@),
        }
    }
}

impl Writer {
    /// A writer for `cols` columns and at most `rows` lines.
    pub fn new(cols: usize, rows: usize) -> (r: Writer)
        ensures
            r@ == (Screen { cols: cols as nat, rows_left: rows as nat, lines: seq![] }),
    {
        let r = Writer { cols, rows_left: rows, out: Vec::new() };
        assert(r@.lines == Seq::<LineText>::empty());
        r
    }

    /// Write one line clipped to the terminal width. Lines past the row budget
    /// are dropped.
    pub fn emit(&mut self, line: &Line)
        ensures
            final(self)@ == emitted(old(self)@, line@),
            final(self).cols == old(self).cols,
    {
        if self.rows_left == 0 {
            return;
        }
        self.rows_left = self.rows_left - 1;
        let cut: Line = line.clip_to(self.cols);
        self.out.push(cut);
        assert(self@.lines == old(self)@.lines.push(cut@));
    }

    pub fn blank(&mut self)
        ensures
            final(self)@ == emitted(old(self)@, seq![]),
            final(self).cols == old(self).cols,
    {
        self.emit(&Line::default());
    }

    pub fn rule(&mut self)
        ensures
            final(self)@ == emitted(old(self)@, rule_line(old(self)@.cols)),
            final(self).cols == old(self).cols,
    {
        let mut line: Line = Line::default();
        let dashes: String = repeated('─', self.cols);
        line.text(dashes.as_str(), RULE);
        self.emit(&line);
    }

    /// `title ────…── right`: a section heading with an optional right-aligned
    /// note.
    pub fn heading(&mut self, title: &Line, right: Option<&Line>)
        ensures
            final(self)@ == emitted(
                old(self)@,
                heading_line(
                    old(self)@.cols,
                    title@,
                    match right {
                        Some(r) => Some(r@),
                        None => None,
                    },
                ),
            ),
            final(self).cols == old(self).cols,
    {
        let mut line: Line = Line::default();
        line.text(" ", RULE);
        line.extend(title);
        line.text(" ", RULE);
        let right_w: usize = match right {
            Some(r) => r.width().saturating_add(2),
            None => 0,
        };
        let used: usize = line.width().saturating_add(right_w);
        let fill: usize = self.cols.saturating_sub(used);
        let dashes: String = repeated('─', fill);
        line.text(dashes.as_str(), RULE);
        if let Some(r) = right {
            line.text(" ", RULE);
            line.extend(r);
            line.text(" ", RULE);
        }
        self.emit(&line);
    }
}

/// `1 noun`, `2 nouns`.
pub open spec fn plural_text(n: nat, noun: Seq<char>) -> Seq<char> {
    if n == 1 {
        "1 "@ + noun
    } else {
        decimal(n) + " "@ + noun + "s"@
    }
}

pub fn plural(n: usize, noun: &str) -> (r: String)
    ensures
        r@ == plural_text(n as nat, noun@),
{
    if n == 1 {
        concat2("1 ", noun)
    } else {
        let count: String = decimal_text(n as u128);
        concat4(count.as_str(), " ", noun, "s")
    }
}

/// Watts with precision that suits their size.
pub open spec fn watts_text(w: Reading) -> Seq<char> {
    let thousand = Reading::of_natural(1000);
    if w.at_least(thousand) {
        w.quotient(thousand).fixed(2) + " kW"@
    } else if w.at_least(Reading::of_natural(100)) {
        w.fixed(0) + " W"@
    } else if w.at_least(Reading::of_natural(1)) {
        w.fixed(1) + " W"@
    } else {
        w.fixed(2) + " W"@
    }
}

pub fn fmt_watts(w: Reading) -> (r: String)
    ensures
        r@ == watts_text(w),
{
    let thousand: Reading = Reading::from_u64(1000);
    if w.ge(thousand) {
        let n: String = w.over(thousand).fixed_text(2);
        concat2(n.as_str(), " kW")
    } else if w.ge(Reading::from_u64(100)) {
        let n: String = w.fixed_text(0);
        concat2(n.as_str(), " W")
    } else if w.ge(Reading::from_u64(1)) {
        let n: String = w.fixed_text(1);
        concat2(n.as_str(), " W")
    } else {
        let n: String = w.fixed_text(2);
        concat2(n.as_str(), " W")
    }
}

/// A GiB figure: no decimals from 100 on, else one.
pub open spec fn gib_text(bytes: nat) -> Seq<char> {
    let g = Reading::of_natural(bytes).quotient(Reading { bits: GIB });
    if g.at_least(Reading::of_natural(100)) {
        g.fixed(0)
    } else {
        g.fixed(1)
    }
}

/// A GiB figure with precision that suits its size: `88.1`, `154`.
pub fn fmt_gib_value(bytes: u64) -> (r: String)
    ensures
        r@ == gib_text(bytes as nat),
{
    let g: Reading = Reading::from_u64(bytes).over(Reading { bits: GIB });
    if g.ge(Reading::from_u64(100)) {
        g.fixed_text(0)
    } else {
        g.fixed_text(1)
    }
}

/// `used/total GiB`.
pub open spec fn gib_pair_text(used: nat, total: nat) -> Seq<char> {
    gib_text(used) + "/"@ + gib_text(total) + " GiB"@
}

/// `used/total GiB`, compact.
pub fn fmt_gib_pair(used: u64, total: u64) -> (r: String)
    ensures
        r@ == gib_pair_text(used as nat, total as nat),
{
    let a: String = fmt_gib_value(used);
    let b: String = fmt_gib_value(total);
    concat4(a.as_str(), "/", b.as_str(), " GiB")
}

/// Decimal network units, as link speeds are quoted.
pub open spec fn rate_text(rate: Option<Reading>) -> Seq<char> {
    match rate {
        None => "n/a"@,
        Some(b) => if b.at_least(Reading::of_natural(1_000_000_000)) {
            b.quotient(Reading::of_natural(1_000_000_000)).fixed(2) + " GB/s"@
        } else if b.at_least(Reading::of_natural(1_000_000)) {
            b.quotient(Reading::of_natural(1_000_000)).fixed(1) + " MB/s"@
        } else if b.at_least(Reading::of_natural(1000)) {
            b.quotient(Reading::of_natural(1000)).fixed(1) + " KB/s"@
        } else {
            b.fixed(0) + " B/s"@
        },
    }
}

pub fn fmt_rate(bytes_per_sec: Option<Reading>) -> (r: String)
    ensures
        r@ == rate_text(bytes_per_sec),
{
    match bytes_per_sec {
        None => copied("n/a"),
        Some(b) => {
            let giga: Reading = Reading::from_u64(1_000_000_000);
            let mega: Reading = Reading::from_u64(1_000_000);
            let kilo: Reading = Reading::from_u64(1000);
            if b.ge(giga) {
                let n: String = b.over(giga).fixed_text(2);
                concat2(n.as_str(), " GB/s")
            } else if b.ge(mega) {
                let n: String = b.over(mega).fixed_text(1);
                concat2(n.as_str(), " MB/s")
            } else if b.ge(kilo) {
                let n: String = b.over(kilo).fixed_text(1);
                concat2(n.as_str(), " KB/s")
            } else {
                let n: String = b.fixed_text(0);
                concat2(n.as_str(), " B/s")
            }
        },
    }
}

/// A duration in its two largest units.
pub open spec fn duration_text(secs: nat) -> Seq<char> {
    if secs < 60 {
        decimal(secs) + "s"@
    } else if secs < 3600 {
        decimal(secs / 60) + "m "@ + padded(secs % 60, 2) + "s"@
    } else if secs < 86400 {
        decimal(secs / 3600) + "h "@ + padded((secs % 3600) / 60, 2) + "m"@
    } else {
        decimal(secs / 86400) + "d "@ + padded((secs % 86400) / 3600, 2) + "h"@
    }
}

pub fn fmt_duration(secs: u64) -> (r: String)
    ensures
        r@ == duration_text(secs as nat),
{
    if secs < 60 {
        let n: String = decimal_text(secs as u128);
        concat2(n.as_str(), "s")
    } else if secs < 3600 {
        let a: String = decimal_text((secs / 60) as u128);
        let b: String = padded_text(secs % 60, 2);
        concat4(a.as_str(), "m ", b.as_str(), "s")
    } else if secs < 86400 {
        let a: String = decimal_text((secs / 3600) as u128);
        let b: String = padded_text((secs % 3600) / 60, 2);
        concat4(a.as_str(), "h ", b.as_str(), "m")
    } else {
        let a: String = decimal_text((secs / 86400) as u128);
        let b: String = padded_text((secs % 86400) / 3600, 2);
        concat4(a.as_str(), "d ", b.as_str(), "h")
    }
}

/// `name` cut to `width`, a trailing ` #<index>` kept where it leaves room
/// for something before it.
pub open spec fn fitted_name(name: Seq<char>, width: nat) -> Seq<char> {
    let at = rfind(name, " #"@);
    if name.len() <= width {
        name
    } else if at >= 0 && name.len() - at < width {
        let suffix = name.skip(at);
        trim_end(clip(name.take(at), (width - suffix.len()) as nat)) + suffix
    } else {
        clip(name, width)
    }
}

/// Truncate a device name to `width`, keeping a trailing ` #<index>` so
/// identical boards stay distinguishable on narrow terminals.
pub fn fit_keeping_index(name: &str, width: usize) -> (r: String)
    ensures
        r@ == fitted_name(name@, width as nat),
{
    let c: Vec<char> = chars_of(name);
    if c.len() <= width {
        return copied(name);
    }
    let mark: Vec<char> = chars_of(" #");
    match last_occurrence(c.as_slice(), mark.as_slice()) {
        Some(at) if c.len() - at < width => {
            let room: usize = width - (c.len() - at);
            let cut: usize = if at <= room {
                at
            } else {
                room
            };
            let end: usize = trimmed_end(c.as_slice(), cut);
            let head: String = text_between(c.as_slice(), 0, end);
            let suffix: String = text_between(c.as_slice(), at, c.len());
            proof {
                assert(c@.subrange(at as int, c@.len() as int) == name@.skip(at as int));
                assert(c@.take(cut as int) == clip(name@.take(at as int), room as nat));
            }
            concat2(head.as_str(), suffix.as_str())
        },
        _ => truncate_to_width(name, width),
    }
}

/// Where the first `end` characters of `c` end once trailing white space is
/// cut.
fn trimmed_end(c: &[char], end: usize) -> (r: usize)
    requires
        end <= c@.len(),
    ensures
        r <= end,
        c@.subrange(0, r as int) == trim_end(c@.take(end as int)),
{
    let mut j: usize = end;
    while j > 0 && crate::text::space(c[j - 1])
        invariant
            j <= end <= c@.len(),
            trim_end(c@.take(end as int)) == trim_end(c@.take(j as int)),
        decreases j,
    {
        assert(c@.take(j as int).drop_last() == c@.take(j - 1));
        j = j - 1;
    }
    assert(c@.subrange(0, j as int) == c@.take(j as int));
    j
}

/// What is written is never wider than the terminal: a clipped line has the
/// width of the line or that of the terminal, whichever is less.
pub proof fn clipped_lines_fit(l: LineText, cols: nat)
    ensures
        line_width(clipped(l, cols)) == if line_width(l) <= cols {
            line_width(l)
        } else {
            cols
        },
    decreases l.len(),
{
    if l.len() == 0 {
    } else if cols == 0 {
    } else {
        let t = clip(l[0].0, cols);
        let tail = clipped(l.drop_first(), (cols - t.len()) as nat);
        clipped_lines_fit(l.drop_first(), (cols - t.len()) as nat);
        width_of_concat(seq![(t, l[0].1)], tail);
        width_of_concat(seq![l[0]], l.drop_first());
        assert(seq![l[0]] + l.drop_first() == l);
        width_of_one(t, l[0].1);
        width_of_one(l[0].0, l[0].1);
    }
}

pub proof fn width_of_one(t: Seq<char>, color: Color)
    ensures
        line_width(seq![(t, color)]) == t.len(),
{
    let l: LineText = seq![(t, color)];
    assert(l.drop_last() == LineText::empty());
    assert(line_width(l.drop_last()) == 0);
}

/// Widths add up.
pub proof fn width_of_concat(a: LineText, b: LineText)
    ensures
        line_width(a + b) == line_width(a) + line_width(b),
    decreases b.len(),
{
    if b.len() == 0 {
        assert(a + b == a);
    } else {
        assert((a + b).drop_last() == a + b.drop_last());
        width_of_concat(a, b.drop_last());
    }
}

/// A writer never writes more lines than its budget, and what it has written
/// and what it may still write always add up to that budget.
pub proof fn budget_is_kept(s: Screen, ls: Seq<LineText>)
    ensures
        emitted_all(s, ls).lines.len() + emitted_all(s, ls).rows_left == s.lines.len()
            + s.rows_left,
        emitted_all(s, ls).cols == s.cols,
        emitted_all(s, ls).lines.len() == s.lines.len() + (if ls.len() <= s.rows_left {
            ls.len()
        } else {
            s.rows_left
        }),
    decreases ls.len(),
{
    if ls.len() > 0 {
        budget_is_kept(s, ls.drop_last());
    }
}

/// Whether `t` may follow `s`: same width, same budget in all, and nothing in
/// it wider than the terminal.
pub open spec fn continues(s: Screen, t: Screen) -> bool {
    &&& t.cols == s.cols
    &&& t.lines.len() + t.rows_left == s.lines.len() + s.rows_left
    &&& s.lines.len() <= t.lines.len()
    &&& forall|i: int|
        s.lines.len() <= i < t.lines.len() ==> line_width(#[trigger] t.lines[i]) <= s.cols
}

/// Writing a line keeps to the width and the budget.
pub proof fn a_line_continues(s: Screen, t: Screen, l: LineText)
    requires
        continues(s, t),
    ensures
        continues(s, emitted(t, l)),
{
    clipped_lines_fit(l, t.cols);
    let u = emitted(t, l);
    assert forall|i: int| s.lines.len() <= i < u.lines.len() implies line_width(
        #[trigger] u.lines[i],
    ) <= s.cols by {
        if i < t.lines.len() {
            assert(u.lines[i] == t.lines[i]);
        }
    }
}

/// Writing lines keeps to the width and the budget.
pub proof fn lines_continue(s: Screen, t: Screen, ls: Seq<LineText>)
    requires
        continues(s, t),
    ensures
        continues(s, emitted_all(t, ls)),
    decreases ls.len(),
{
    if ls.len() > 0 {
        lines_continue(s, t, ls.drop_last());
        a_line_continues(s, emitted_all(t, ls.drop_last()), ls.last());
    }
}

/// A cell is exactly as wide as asked, and so is a right-aligned one from one
/// column on.
pub proof fn cells_have_exact_widths(s: Seq<char>, width: nat)
    ensures
        cell_text(s, width).len() == width,
        width >= 1 ==> rcell_text(s, width).len() == width,
{
    reveal_strlit(" ");
}

} // verus!
