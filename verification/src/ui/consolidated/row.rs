//! Rows of the Consolidated tab, assembled from segments: texts, and sparklines
//! that are drawn once the row is known to fit.
use vstd::prelude::*;
use vstd::string::*;

use crate::reading::Reading;
use crate::text::{clip, copied, display_width, repeated, run_of, truncate_to_width};
use crate::ui::cluster::header::lesser;
use crate::ui::cluster::line::{cell_text, rcell_text};
use crate::ui::theme::Color;

verus! {

pub const LABEL: Color = Color::DarkGrey;

pub const VALUE: Color = Color::White;

pub const HEADING: Color = Color::Cyan;

/// How a text is colored: plainly, or by the theme's scale for a utilization in
/// percent or for the share of memory in use.
#[derive(Clone, Copy, Debug, PartialEq, Eq, Structural)]
pub enum Tone {
    Plain(Color),
    Utilization(Reading),
    Memory(Reading),
}

/// Keeps dark greys readable on the value columns: the theme maps idle readings
/// to dark grey, which would make a live number look disabled.
pub fn max_contrast(color: Color) -> (r: Color)
    ensures
        r == if color == Color::DarkGrey {
            VALUE
        } else {
            color
        },
{
    if color == Color::DarkGrey {
        VALUE
    } else {
        color
    }
}

/// One piece of a row. A sparkline spans `width` columns and the values from
/// zero to `ceiling`; where the terminal ends within it, its first `shown`
/// columns are drawn.
#[derive(Clone, Debug, PartialEq, Eq)]
pub enum Segment {
    Text(String, Tone),
    Spark { values: Vec<Reading>, width: usize, ceiling: Reading, shown: usize, color: Color },
}

/// What a segment holds.
#[verifier::ext_equal]
pub enum SegmentModel {
    Text(Seq<char>, Tone),
    Spark { values: Seq<Reading>, width: nat, ceiling: Reading, shown: nat, color: Color },
}

impl View for Segment {
    type V = SegmentModel;

    open spec fn view(&self) -> SegmentModel {
        match self {
            Segment::Text(s, tone) => SegmentModel::Text(s@, *tone),
            Segment::Spark { values, width, ceiling, shown, color } => SegmentModel::Spark {
                values: values@,
                width: *width as nat,
                ceiling: *ceiling,
                shown: *shown as nat,
                color: *color,
            },
        }
    }
}

/// What a row holds.
pub type RowText = Seq<SegmentModel>;

/// Columns of a segment.
pub open spec fn segment_width(s: SegmentModel) -> nat {
    match s {
        SegmentModel::Text(t, _) => t.len(),
        SegmentModel::Spark { shown, .. } => shown,
    }
}

/// Columns of a row.
pub open spec fn row_width(r: RowText) -> nat
    decreases r.len(),
{
    if r.len() == 0 {
        0
    } else {
        row_width(r.drop_last()) + segment_width(r.last())
    }
}

/// `r` with a text, which an empty one leaves as it is.
pub open spec fn row_text(r: RowText, s: Seq<char>, color: Color) -> RowText {
    if s.len() == 0 {
        r
    } else {
        r.push(SegmentModel::Text(s, Tone::Plain(color)))
    }
}

/// `r` with a left-aligned cell of exactly `width` columns.
pub open spec fn row_cell(r: RowText, s: Seq<char>, width: nat, tone: Tone) -> RowText {
    r.push(SegmentModel::Text(cell_text(s, width), tone))
}

/// `r` with a right-aligned cell of exactly `width` columns.
pub open spec fn row_rcell(r: RowText, s: Seq<char>, width: nat, tone: Tone) -> RowText {
    r.push(SegmentModel::Text(rcell_text(s, width), tone))
}

/// `r` with a sparkline.
pub open spec fn row_spark(
    r: RowText,
    values: Seq<Reading>,
    width: nat,
    ceiling: Reading,
    color: Color,
) -> RowText {
    r.push(SegmentModel::Spark { values, width, ceiling, shown: width, color })
}

/// The first `cols` columns of a segment.
pub open spec fn cut_segment(s: SegmentModel, cols: nat) -> SegmentModel {
    match s {
        SegmentModel::Text(t, tone) => SegmentModel::Text(clip(t, cols), tone),
        SegmentModel::Spark { values, width, ceiling, shown, color } => SegmentModel::Spark {
            values,
            width,
            ceiling,
            shown: lesser(shown, cols),
            color,
        },
    }
}

/// The segments of `r` that fit in `cols` columns, the last one cut.
pub open spec fn cut_row(r: RowText, cols: nat) -> RowText
    decreases r.len(),
{
    if r.len() == 0 || cols == 0 {
        seq![]
    } else {
        let s = cut_segment(r[0], cols);
        seq![s] + cut_row(r.drop_first(), (cols - segment_width(s)) as nat)
    }
}

#[derive(Clone, Debug, PartialEq, Eq)]
pub struct Row {
    pub segs: Vec<Segment>,
}

impl View for Row {
    type V = RowText;

    open spec fn view(&self) -> RowText {
        self.segs@.map_values(|s: Segment| s@)
    }
}

/// The rows of a list.
pub open spec fn row_texts(v: Seq<Row>) -> Seq<RowText> {
    v.map_values(|r: Row| r@)
}

impl Default for Row {
    fn default() -> (r: Row)
        ensures
            r@ == RowText::empty(),
    {
        let r = Row { segs: Vec::new() };
        assert(r@ == RowText::empty());
        r
    }
}

impl Row {
    fn push(&mut self, s: Segment)
        ensures
            final(self)@ == old(self)@.push(s@),
    {
        self.segs.push(s);
        assert(self@ == old(self)@.push(s@));
    }

    pub fn text(&mut self, s: &str, color: Color)
        ensures
            final(self)@ == row_text(old(self)@, s@, color),
    {
        if display_width(s) > 0 {
            self.push(Segment::Text(copied(s), Tone::Plain(color)));
        }
    }

    /// Left-aligned cell of exactly `width` columns (one trailing space is
    /// reserved as the column gap).
    pub fn toned_cell(&mut self, s: &str, width: usize, tone: Tone)
        ensures
            final(self)@ == row_cell(old(self)@, s@, width as nat, tone),
    {
        let body: usize = width.saturating_sub(1);
        let mut t: String = truncate_to_width(s, body);
        let pad: String = repeated(' ', width - display_width(t.as_str()));
        t.append(pad.as_str());
        self.push(Segment::Text(t, tone));
    }

    pub fn cell(&mut self, s: &str, width: usize, color: Color)
        ensures
            final(self)@ == row_cell(old(self)@, s@, width as nat, Tone::Plain(color)),
    {
        self.toned_cell(s, width, Tone::Plain(color));
    }

    /// Right-aligned cell of exactly `width` columns, gap on the right.
    pub fn toned_rcell(&mut self, s: &str, width: usize, tone: Tone)
        ensures
            final(self)@ == row_rcell(old(self)@, s@, width as nat, tone),
    {
        let body: usize = width.saturating_sub(1);
        let t: String = truncate_to_width(s, body);
        let mut out: String = repeated(' ', body - display_width(t.as_str()));
        out.append(t.as_str());
        out.append(" ");
        self.push(Segment::Text(out, tone));
    }

    pub fn rcell(&mut self, s: &str, width: usize, color: Color)
        ensures
            final(self)@ == row_rcell(old(self)@, s@, width as nat, Tone::Plain(color)),
    {
        self.toned_rcell(s, width, Tone::Plain(color));
    }

    /// A sparkline of `width` columns over the values from zero to `ceiling`.
    pub fn spark(&mut self, values: Vec<Reading>, width: usize, ceiling: Reading, color: Color)
        ensures
            final(self)@ == row_spark(old(self)@, values@, width as nat, ceiling, color),
    {
        self.push(Segment::Spark { values, width, ceiling, shown: width, color });
    }

    /// Display width of everything added so far, or the largest number there
    /// is if it is wider.
    pub fn width(&self) -> (r: usize)
        ensures
            r == lesser(row_width(self@), usize::MAX as nat),
    {
        let ghost all = self@;
        let mut sum: usize = 0;
        let mut i: usize = 0;
        assert(all.take(0) == RowText::empty());
        while i < self.segs.len()
            invariant
                i <= self.segs@.len(),
                all == self@,
                sum == lesser(row_width(all.take(i as int)), usize::MAX as nat),
            decreases self.segs@.len() - i,
        {
            assert(all[i as int] == self.segs@[i as int]@);
            assert(all.take(i + 1).drop_last() == all.take(i as int));
            let one: usize = match &self.segs[i] {
                Segment::Text(s, _) => display_width(s.as_str()),
                Segment::Spark { shown, .. } => *shown,
            };
            sum = sum.saturating_add(one);
            i = i + 1;
        }
        assert(all.take(all.len() as int) == all);
        sum
    }

    /// The row cut to `cols` columns.
    pub fn cut(&self, cols: usize) -> (r: Row)
        ensures
            r@ == cut_row(self@, cols as nat),
    {
        let ghost all = self@;
        let mut out: Row = Row::default();
        let mut left: usize = cols;
        let mut i: usize = 0;
        assert(all.skip(0) == all);
        while i < self.segs.len() && left > 0
            invariant
                i <= self.segs@.len(),
                all == self@,
                cut_row(all, cols as nat) == out@ + cut_row(all.skip(i as int), left as nat),
            decreases self.segs@.len() - i,
        {
            let ghost before = out@;
            assert(all.skip(i as int)[0] == self.segs@[i as int]@);
            assert(all.skip(i as int).drop_first() == all.skip(i + 1));
            let (s, used): (Segment, usize) = match &self.segs[i] {
                Segment::Text(t, tone) => {
                    let t: String = truncate_to_width(t.as_str(), left);
                    let used: usize = display_width(t.as_str());
                    (Segment::Text(t, *tone), used)
                },
                Segment::Spark { values, width, ceiling, shown, color } => {
                    let used: usize = if *shown < left {
                        *shown
                    } else {
                        left
                    };
                    (
                        Segment::Spark {
                            values: copy_values(values),
                            width: *width,
                            ceiling: *ceiling,
                            shown: used,
                            color: *color,
                        },
                        used,
                    )
                },
            };
            out.push(s);
            assert(before + (seq![s@] + cut_row(all.skip(i + 1), (left - used) as nat))
                == before.push(s@) + cut_row(all.skip(i + 1), (left - used) as nat));
            left = left - used;
            i = i + 1;
        }
        assert(out@ + RowText::empty() == out@);
        out
    }
}

fn copy_values(v: &Vec<Reading>) -> (r: Vec<Reading>)
    ensures
        r@ == v@,
{
    let mut r: Vec<Reading> = Vec::new();
    let mut i: usize = 0;
    while i < v.len()
        invariant
            i <= v@.len(),
            r@ == v@.take(i as int),
        decreases v@.len() - i,
    {
        r.push(v[i]);
        assert(v@.take(i + 1) == v@.take(i as int).push(v@[i as int]));
        i = i + 1;
    }
    assert(v@.take(v@.len() as int) == v@);
    r
}

/// A full-width rule.
pub open spec fn rule_row(cols: nat) -> RowText {
    row_text(seq![], run_of('─', cols), LABEL)
}

/// What is written of `rows`: at most `budget` of them, each cut to the width
/// of the terminal.
pub open spec fn page_of(rows: Seq<RowText>, cols: nat, budget: nat) -> Seq<RowText> {
    rows.take(lesser(rows.len(), budget) as int).map_values(|r: RowText| cut_row(r, cols))
}

/// Writes at most `budget` of the rows, cut to the width of the terminal.
pub fn page(rows: &Vec<Row>, cols: usize, budget: usize) -> (r: Vec<Row>)
    ensures
        row_texts(r@) == page_of(row_texts(rows@), cols as nat, budget as nat),
{
    let ghost all = row_texts(rows@);
    let count: usize = if rows.len() < budget {
        rows.len()
    } else {
        budget
    };
    let ghost wanted = page_of(all, cols as nat, budget as nat);
    let mut out: Vec<Row> = Vec::new();
    let mut i: usize = 0;
    while i < count
        invariant
            i <= count <= rows@.len(),
            all == row_texts(rows@),
            count == lesser(all.len(), budget as nat),
            wanted == page_of(all, cols as nat, budget as nat),
            row_texts(out@) == wanted.take(i as int),
        decreases count - i,
    {
        let ghost before = row_texts(out@);
        let one: Row = rows[i].cut(cols);
        assert(all[i as int] == rows@[i as int]@);
        assert(wanted[i as int] == one@);
        out.push(one);
        assert(row_texts(out@) == before.push(one@));
        assert(wanted.take(i + 1) == wanted.take(i as int).push(wanted[i as int]));
        i = i + 1;
    }
    assert(wanted.take(wanted.len() as int) == wanted);
    out
}

proof fn width_of_head(s: SegmentModel, r: RowText)
    ensures
        row_width(seq![s] + r) == segment_width(s) + row_width(r),
    decreases r.len(),
{
    if r.len() == 0 {
        assert(seq![s] + r == seq![s]);
        assert(seq![s].drop_last() == RowText::empty());
        assert(row_width(seq![s].drop_last()) == 0);
    } else {
        assert((seq![s] + r).drop_last() == seq![s] + r.drop_last());
        width_of_head(s, r.drop_last());
    }
}

proof fn cut_rows_fit(r: RowText, cols: nat)
    ensures
        row_width(cut_row(r, cols)) <= cols,
    decreases r.len(),
{
    if r.len() > 0 && cols > 0 {
        let s = cut_segment(r[0], cols);
        cut_rows_fit(r.drop_first(), (cols - segment_width(s)) as nat);
        width_of_head(s, cut_row(r.drop_first(), (cols - segment_width(s)) as nat));
    }
}

/// A page never has more rows than its budget, nor a row that is wider than the
/// terminal.
pub proof fn pages_keep_to_the_screen(rows: Seq<RowText>, cols: nat, budget: nat)
    ensures
        page_of(rows, cols, budget).len() == lesser(rows.len(), budget),
        forall|i: int|
            0 <= i < page_of(rows, cols, budget).len() ==> row_width(
                #[trigger] page_of(rows, cols, budget)[i],
            ) <= cols,
{
    assert forall|i: int| 0 <= i < page_of(rows, cols, budget).len() implies row_width(
        #[trigger] page_of(rows, cols, budget)[i],
    ) <= cols by {
        cut_rows_fit(rows[i], cols);
    }
}

} // verus!
