//! Engine and llama-swap rows of the pipeline panel. The lock and link rows
//! that follow them are the shared probe rows of the tab.
use vstd::prelude::*;
use vstd::string::*;

use crate::common::url_parts::{parse_url, parse_view, url_parse, UrlModel, UrlParts};
use crate::reading::Reading;
use crate::text::{
    concat2, concat3, concat4, concat5, copied, decimal, decimal_text, display_width, repeated,
    run_of, same,
};
use crate::ui::cluster::charts::{max_of, peak_from, peak_value};
use crate::ui::cluster::header::{less, lesser};
use crate::ui::cluster::line::{duration_text, fmt_duration};
use crate::ui::consolidated::history::{
    samples_of, SeriesHistory, SeriesModel, PIPE_BUSY_KEY, PIPE_QUEUE_KEY,
};
use crate::ui::consolidated::model::{
    sections_of, ConsolidatedModel, HostSection, SectionModel,
};
use crate::ui::consolidated::pipeline::{
    job_label, swap_entries, EngineCache, EngineHealth, Probe, SwapModel,
};
use crate::ui::consolidated::pipeline_view::{has_address, larger, reaches};
use crate::ui::consolidated::render::{
    gib1, gib_figure, plain_cell, push_row, Columns, SUBJECT,
};
use crate::ui::consolidated::row::{
    row_spark, row_text, row_texts, row_width, Row, RowText, SegmentModel, Tone, HEADING, LABEL,
    VALUE,
};
use crate::ui::theme::Color;

verus! {

/// The heading of the panel.
pub open spec fn pipeline_heading(cols: nat, title: Seq<char>) -> RowText {
    let words = "── "@ + title + " "@;
    row_text(
        row_text(seq![], words, HEADING),
        run_of('─', less(cols, words.len())),
        LABEL,
    )
}

pub fn render_pipeline_heading(cols: usize, title: &str) -> (r: Row)
    ensures
        r@ == pipeline_heading(cols as nat, title@),
{
    let words: String = concat3("── ", title, " ");
    let width: usize = display_width(words.as_str());
    let rule: String = repeated('─', cols.saturating_sub(width));
    let mut line: Row = Row::default();
    line.text(words.as_str(), HEADING);
    line.text(rule.as_str(), LABEL);
    line
}

/// A count that may be unknown.
pub open spec fn count_or_unknown(v: Option<u64>) -> Seq<char> {
    match v {
        Some(n) => decimal(n as nat),
        None => "?"@,
    }
}

fn opt(v: Option<u64>) -> (r: String)
    ensures
        r@ == count_or_unknown(v),
{
    match v {
        Some(n) => decimal_text(n as u128),
        None => copied("?"),
    }
}

/// A count with a unit that suits its size.
pub open spec fn compact_count(n: nat) -> Seq<char> {
    if n < 1_000 {
        decimal(n)
    } else if n < 1_000_000 {
        Reading::of_natural(n).quotient(Reading::of_natural(1_000)).fixed(1) + "K"@
    } else if n < 1_000_000_000 {
        Reading::of_natural(n).quotient(Reading::of_natural(1_000_000)).fixed(2) + "M"@
    } else {
        Reading::of_natural(n).quotient(Reading::of_natural(1_000_000_000)).fixed(2) + "B"@
    }
}

pub fn fmt_count(n: u64) -> (r: String)
    ensures
        r@ == compact_count(n as nat),
{
    let x: Reading = Reading::from_u64(n);
    if n < 1_000 {
        decimal_text(n as u128)
    } else if n < 1_000_000 {
        let t: String = x.over(Reading::from_u64(1_000)).fixed_text(1);
        concat2(t.as_str(), "K")
    } else if n < 1_000_000_000 {
        let t: String = x.over(Reading::from_u64(1_000_000)).fixed_text(2);
        concat2(t.as_str(), "M")
    } else {
        let t: String = x.over(Reading::from_u64(1_000_000_000)).fixed_text(2);
        concat2(t.as_str(), "B")
    }
}

/// The first section whose host is reached at `address`.
pub open spec fn section_at(v: Seq<SectionModel>, address: Seq<char>) -> Option<SectionModel>
    decreases v.len(),
{
    if v.len() == 0 {
        None
    } else if has_address(v[0].host_id, address) {
        Some(v[0])
    } else {
        section_at(v.drop_first(), address)
    }
}

/// The port of a parsed URL behind a colon.
pub open spec fn port_words(u: UrlModel) -> Seq<char> {
    match u.known_port {
        Some(p) => ":"@ + decimal(p as nat),
        None => ""@,
    }
}

/// The host of a parsed URL.
pub open spec fn url_host(u: UrlModel) -> Seq<char> {
    match u.host {
        Some(h) => h,
        None => ""@,
    }
}

/// How an endpoint is called: the name and the port where its host is one of
/// the scraped ones and has a name, otherwise the URL's own `host:port`, or the
/// text itself where it is no URL.
pub open spec fn endpoint_words(
    hosts: Seq<SectionModel>,
    url: Seq<char>,
    parsed: Result<UrlModel, Seq<char>>,
) -> Seq<char> {
    match parsed {
        Err(_) => url,
        Ok(u) => match section_at(hosts, url_host(u)) {
            Some(h) => if h.label != h.host_id {
                h.label + " "@ + port_words(u)
            } else {
                url_host(u) + port_words(u)
            },
            None => url_host(u) + port_words(u),
        },
    }
}

fn find_section_at<'a>(hosts: &'a Vec<HostSection>, address: &str) -> (r: Option<&'a HostSection>)
    ensures
        match r {
            Some(h) => section_at(sections_of(hosts@), address@) == Some(h@),
            None => section_at(sections_of(hosts@), address@) is None,
        },
{
    let ghost all = sections_of(hosts@);
    let mut i: usize = 0;
    assert(all.skip(0) == all);
    while i < hosts.len()
        invariant
            i <= hosts@.len(),
            all == sections_of(hosts@),
            section_at(all, address@) == section_at(all.skip(i as int), address@),
        decreases hosts@.len() - i,
    {
        assert(all.skip(i as int)[0] == hosts@[i as int]@);
        if reaches(hosts[i].host_id.as_str(), address) {
            return Some(&hosts[i]);
        }
        assert(all.skip(i as int).drop_first() == all.skip(i + 1));
        i = i + 1;
    }
    None
}

/// How the endpoint `url`, which parsed to `parsed`, is called.
pub fn endpoint_label_for(
    model: &ConsolidatedModel,
    url: &str,
    parsed: &Result<UrlParts, String>,
) -> (r: String)
    ensures
        r@ == endpoint_words(sections_of(model.hosts@), url@, parse_view(*parsed)),
{
    match parsed {
        Err(_) => copied(url),
        Ok(u) => {
            let host: &str = match &u.host {
                Some(h) => h.as_str(),
                None => "",
            };
            let port: String = match u.known_port {
                Some(p) => {
                    let n: String = decimal_text(p as u128);
                    concat2(":", n.as_str())
                },
                None => copied(""),
            };
            match find_section_at(&model.hosts, host) {
                // A host that never answered has no name yet, only its address.
                Some(h) => if !same(h.label.as_str(), h.host_id.as_str()) {
                    concat3(h.label.as_str(), " ", port.as_str())
                } else {
                    concat2(host, port.as_str())
                },
                None => concat2(host, port.as_str()),
            }
        },
    }
}

/// "vllm :10051" when the URL's host is one of the scraped hosts, otherwise the
/// URL's own `host:port`.
pub fn endpoint_label(model: &ConsolidatedModel, url: &str) -> (r: String)
    ensures
        r@ == endpoint_words(sections_of(model.hosts@), url@, url_parse(url@)),
{
    endpoint_label_for(model, url, &parse_url(url))
}

/// The start of an engine row.
pub open spec fn engine_start(c: Columns, label: Seq<char>) -> RowText {
    plain_cell(plain_cell(seq![], "ENGINE"@, c.host, HEADING), label, SUBJECT, VALUE)
}

/// `r` with a component that is not up.
pub open spec fn with_component(r: RowText, name: Seq<char>, state: Option<String>) -> RowText {
    match state {
        Some(s) => if s@ != "up"@ {
            row_text(r, " · "@ + name + " "@ + s@, Color::Red)
        } else {
            r
        },
        None => r,
    }
}

/// `r` with a text behind a dot, where there is one.
pub open spec fn with_note(r: RowText, s: Option<String>) -> RowText {
    match s {
        Some(t) => row_text(row_text(r, " · "@, LABEL), t@, VALUE),
        None => r,
    }
}

/// Whole seconds of an uptime, none of a negative one.
pub open spec fn whole_seconds(up: Reading) -> nat {
    larger(up, Reading { bits: 0 }).integer_part(u64::MAX as nat)
}

/// The head row of an engine that answers.
pub open spec fn engine_head(r: RowText, h: EngineHealth) -> RowText {
    let a = match h.ok {
        Some(true) => row_text(r, "ok"@, Color::Green),
        Some(false) => row_text(r, "NOT OK"@, Color::Red),
        None => row_text(r, "status ?"@, LABEL),
    };
    let b = with_component(with_component(a, "encoder"@, h.encoder), "step api"@, h.step_api);
    let c = with_note(with_note(b, h.version), h.numerics);
    let d = match h.uptime_s {
        Some(up) => row_text(c, " · up "@ + duration_text(whole_seconds(up)), LABEL),
        None => c,
    };
    if h.restart_pending == Some(true) {
        row_text(d, " · restart pending"@, Color::Yellow)
    } else {
        d
    }
}

/// The start of a row under the engine's.
pub open spec fn under_engine(c: Columns) -> RowText {
    plain_cell(plain_cell(seq![], ""@, c.host, LABEL), ""@, SUBJECT, LABEL)
}

/// Sessions, connections, the GPU job and the queue.
pub open spec fn activity_words(c: Columns, h: EngineHealth) -> RowText {
    let a = row_text(
        row_text(under_engine(c), "sessions "@, LABEL),
        count_or_unknown(h.sessions),
        VALUE,
    );
    let b = row_text(
        row_text(
            row_text(a, " · connections "@, LABEL),
            count_or_unknown(h.connections),
            VALUE,
        ),
        " · "@,
        LABEL,
    );
    let d = match job_label(h.gpu_job) {
        Some(job) => {
            let e = row_text(row_text(b, "gpu busy: "@, Color::Yellow), job, Color::Yellow);
            match h.gpu_job_s {
                Some(s) => row_text(e, " "@ + s.fixed(1) + "s"@, Color::Yellow),
                None => e,
            }
        },
        None => row_text(b, "gpu idle"@, LABEL),
    };
    let queued = match h.queued_jobs {
        Some(n) => n,
        None => 0,
    };
    row_text(
        row_text(d, " · queue "@, LABEL),
        count_or_unknown(h.queued_jobs),
        if queued > 0 {
            Color::Yellow
        } else {
            VALUE
        },
    )
}

/// The same with sparklines of the busy state and the queue, where the width
/// that is left gives each six columns or more.
pub open spec fn activity_row(
    cols: nat,
    c: Columns,
    h: EngineHealth,
    series: SeriesModel,
) -> RowText {
    let r = activity_words(c, h);
    let each = lesser(less(less(cols, row_width(r)), 15) / 2, 30);
    if each >= 6 {
        let busy = samples_of(series, PIPE_BUSY_KEY@);
        let queue = samples_of(series, PIPE_QUEUE_KEY@);
        let a = row_spark(
            row_text(r, "  busy "@, LABEL),
            busy,
            each,
            Reading::of_natural(1),
            Color::Yellow,
        );
        row_spark(
            row_text(a, "  queue "@, LABEL),
            queue,
            each,
            peak_from(Reading::of_natural(1), queue, queue.len()),
            Color::Magenta,
        )
    } else {
        r
    }
}

/// The prefix cache.
pub open spec fn cache_row(c: Columns, cache: EngineCache) -> RowText {
    let a = row_text(under_engine(c), "prefix cache "@, LABEL);
    let b = match cache.hit_fraction() {
        Some(r) => row_text(
            a,
            count_or_unknown(cache.hits) + "/"@ + count_or_unknown(cache.lookups) + " hits ("@
                + r.product(Reading::of_natural(100)).fixed(1) + "%)"@,
            VALUE,
        ),
        None => row_text(a, "no lookups yet"@, LABEL),
    };
    let d = match cache.entries {
        Some(e) => row_text(b, " · "@ + decimal(e as nat) + " entries"@, LABEL),
        None => b,
    };
    let e = match (cache.bytes, cache.budget) {
        (Some(x), Some(y)) => row_text(
            d,
            " · "@ + gib1(x as nat) + "/"@ + gib1(y as nat) + " GiB"@,
            LABEL,
        ),
        _ => d,
    };
    match cache.resumed_tokens {
        Some(t) => row_text(e, " · "@ + compact_count(t as nat) + " tokens resumed"@, LABEL),
        None => e,
    }
}

/// The rows of the engine.
pub open spec fn engine_rows(
    cols: nat,
    c: Columns,
    label: Seq<char>,
    engine: Probe<EngineHealth>,
    series: SeriesModel,
) -> Seq<RowText> {
    let start = engine_start(c, label);
    match engine {
        Probe::Pending => seq![row_text(start, "waiting for the first /health poll"@, LABEL)],
        Probe::Failed(e) => seq![row_text(start, "unreachable: "@ + e@, Color::Red)],
        Probe::Up(h) => {
            let both = seq![engine_head(start, h), activity_row(cols, c, h, series)];
            match h.cache {
                Some(cache) => both.push(cache_row(c, cache)),
                None => both,
            }
        },
    }
}

fn add_component(line: &mut Row, name: &str, state: &Option<String>)
    ensures
        final(line)@ == with_component(old(line)@, name@, *state),
{
    if let Some(s) = state {
        if !same(s.as_str(), "up") {
            let words: String = concat4(" · ", name, " ", s.as_str());
            line.text(words.as_str(), Color::Red);
        }
    }
}

fn add_note(line: &mut Row, s: &Option<String>)
    ensures
        final(line)@ == with_note(old(line)@, *s),
{
    if let Some(t) = s {
        line.text(" · ", LABEL);
        line.text(t.as_str(), VALUE);
    }
}

fn add_engine_head(head: &mut Row, h: &EngineHealth)
    ensures
        final(head)@ == engine_head(old(head)@, *h),
{
    match h.ok {
        Some(up) => if up {
            head.text("ok", Color::Green);
        } else {
            head.text("NOT OK", Color::Red);
        },
        None => head.text("status ?", LABEL),
    }
    add_component(head, "encoder", &h.encoder);
    add_component(head, "step api", &h.step_api);
    add_note(head, &h.version);
    add_note(head, &h.numerics);
    if let Some(up) = h.uptime_s {
        let seconds: u64 = max_of(up, Reading { bits: 0 }).truncated(u64::MAX);
        let length: String = fmt_duration(seconds);
        let words: String = concat2(" · up ", length.as_str());
        head.text(words.as_str(), LABEL);
    }
    if let Some(pending) = h.restart_pending {
        if pending {
            head.text(" · restart pending", Color::Yellow);
        }
    }
}

/// Sessions, connections, the GPU job, the queue, and their sparklines.
pub fn activity_line(cols: usize, c: &Columns, h: &EngineHealth, series: &SeriesHistory) -> (r: Row)
    ensures
        r@ == activity_row(cols as nat, *c, *h, series@),
{
    let mut line: Row = Row::default();
    line.cell("", c.host, LABEL);
    line.cell("", SUBJECT, LABEL);
    line.text("sessions ", LABEL);
    let sessions: String = opt(h.sessions);
    line.text(sessions.as_str(), VALUE);
    line.text(" · connections ", LABEL);
    let connections: String = opt(h.connections);
    line.text(connections.as_str(), VALUE);
    line.text(" · ", LABEL);
    match h.gpu_job_label() {
        Some(job) => {
            line.text("gpu busy: ", Color::Yellow);
            line.text(job.as_str(), Color::Yellow);
            if let Some(s) = h.gpu_job_s {
                let n: String = s.fixed_text(1);
                let words: String = concat3(" ", n.as_str(), "s");
                line.text(words.as_str(), Color::Yellow);
            }
        },
        None => line.text("gpu idle", LABEL),
    }
    let queued: u64 = match h.queued_jobs {
        Some(n) => n,
        None => 0,
    };
    line.text(" · queue ", LABEL);
    let waiting: String = opt(h.queued_jobs);
    line.text(
        waiting.as_str(),
        if queued > 0 {
            Color::Yellow
        } else {
            VALUE
        },
    );
    let spare: usize = cols.saturating_sub(line.width()).saturating_sub(15);
    let half: usize = spare / 2;
    let each: usize = if half < 30 {
        half
    } else {
        30
    };
    if each >= 6 {
        let busy: Vec<Reading> = series.values(PIPE_BUSY_KEY);
        let queue: Vec<Reading> = series.values(PIPE_QUEUE_KEY);
        let most: Reading = peak_value(Reading::from_u64(1), &queue);
        line.text("  busy ", LABEL);
        line.spark(busy, each, Reading::from_u64(1), Color::Yellow);
        line.text("  queue ", LABEL);
        line.spark(queue, each, most, Color::Magenta);
    }
    line
}

/// The prefix cache: hits, entries, size and the tokens it saved.
pub fn cache_line(c: &Columns, cache: &EngineCache) -> (r: Row)
    ensures
        r@ == cache_row(*c, *cache),
{
    let mut line: Row = Row::default();
    line.cell("", c.host, LABEL);
    line.cell("", SUBJECT, LABEL);
    line.text("prefix cache ", LABEL);
    match cache.hit_ratio() {
        Some(r) => {
            let hits: String = opt(cache.hits);
            let lookups: String = opt(cache.lookups);
            let pct: String = r.times(Reading::from_u64(100)).fixed_text(1);
            let words: String = concat5(
                hits.as_str(),
                "/",
                lookups.as_str(),
                " hits (",
                pct.as_str(),
            );
            let all: String = concat2(words.as_str(), "%)");
            line.text(all.as_str(), VALUE);
        },
        None => line.text("no lookups yet", LABEL),
    }
    if let Some(e) = cache.entries {
        let n: String = decimal_text(e as u128);
        let words: String = concat3(" · ", n.as_str(), " entries");
        line.text(words.as_str(), LABEL);
    }
    if let (Some(b), Some(budget)) = (cache.bytes, cache.budget) {
        let x: String = gib_figure(b);
        let y: String = gib_figure(budget);
        let words: String = concat5(" · ", x.as_str(), "/", y.as_str(), " GiB");
        line.text(words.as_str(), LABEL);
    }
    if let Some(t) = cache.resumed_tokens {
        let n: String = fmt_count(t);
        let words: String = concat3(" · ", n.as_str(), " tokens resumed");
        line.text(words.as_str(), LABEL);
    }
    line
}

/// Adds the rows of the engine, whose endpoint is called `label`.
pub fn render_engine(
    out: &mut Vec<Row>,
    cols: usize,
    c: &Columns,
    label: &str,
    engine: &Probe<EngineHealth>,
    series: &SeriesHistory,
)
    ensures
        row_texts(final(out)@) == row_texts(old(out)@) + engine_rows(
            cols as nat,
            *c,
            label@,
            *engine,
            series@,
        ),
{
    let ghost before = row_texts(out@);
    let mut head: Row = Row::default();
    head.cell("ENGINE", c.host, HEADING);
    head.cell(label, SUBJECT, VALUE);
    match engine {
        Probe::Pending => {
            head.text("waiting for the first /health poll", LABEL);
            let ghost one = head@;
            push_row(out, head);
            assert(before.push(one) == before + seq![one]);
        },
        Probe::Failed(e) => {
            let words: String = concat2("unreachable: ", e.as_str());
            head.text(words.as_str(), Color::Red);
            let ghost one = head@;
            push_row(out, head);
            assert(before.push(one) == before + seq![one]);
        },
        Probe::Up(h) => {
            add_engine_head(&mut head, h);
            let ghost one = head@;
            push_row(out, head);
            let activity: Row = activity_line(cols, c, h, series);
            let ghost two = activity@;
            push_row(out, activity);
            assert(before.push(one).push(two) == before + seq![one, two]);
            if let Some(cache) = &h.cache {
                let line: Row = cache_line(c, cache);
                let ghost three = line@;
                push_row(out, line);
                assert((before + seq![one, two]).push(three) == before + seq![one, two].push(
                    three,
                ));
            }
        },
    }
}

/// The color of a model's state.
pub open spec fn state_color(state: Seq<char>) -> Color {
    if state == "ready"@ {
        Color::Green
    } else if state == "starting"@ || state == "stopping"@ {
        Color::Yellow
    } else {
        Color::Red
    }
}

/// `r` with one model: its id and state, and its name where it is alone.
pub open spec fn with_model(
    r: RowText,
    m: (Seq<char>, Seq<char>, Seq<char>),
    with_name: bool,
) -> RowText {
    let a = row_text(
        row_text(row_text(r, m.0, VALUE), " "@, LABEL),
        m.1,
        state_color(m.1),
    );
    if with_name && m.2.len() > 0 {
        row_text(a, "  "@ + m.2, LABEL)
    } else {
        a
    }
}

/// `r` with the first `n` models, dots between them.
pub open spec fn with_models(
    r: RowText,
    models: Seq<(Seq<char>, Seq<char>, Seq<char>)>,
    n: nat,
) -> RowText
    decreases n,
{
    if n == 0 {
        r
    } else {
        let before = with_models(r, models, (n - 1) as nat);
        let gap = if n > 1 {
            row_text(before, " · "@, LABEL)
        } else {
            before
        };
        with_model(gap, models[n - 1], models.len() == 1)
    }
}

/// The row of llama-swap.
pub open spec fn swap_row(c: Columns, label: Seq<char>, swap: Probe<Vec<SwapModel>>) -> RowText {
    let r = plain_cell(plain_cell(seq![], "SWAP"@, c.host, HEADING), label, SUBJECT, VALUE);
    match swap {
        Probe::Pending => row_text(r, "waiting for the first /running poll"@, LABEL),
        Probe::Failed(e) => row_text(r, "unreachable: "@ + e@, Color::Red),
        Probe::Up(models) => if models@.len() == 0 {
            row_text(r, "no model loaded"@, Color::Yellow)
        } else {
            with_models(r, swap_entries(models@), models@.len())
        },
    }
}

fn swap_model(line: &mut Row, m: &SwapModel, with_name: bool)
    ensures
        final(line)@ == with_model(old(line)@, m@, with_name),
{
    let color: Color = if same(m.state.as_str(), "ready") {
        Color::Green
    } else if same(m.state.as_str(), "starting") || same(m.state.as_str(), "stopping") {
        Color::Yellow
    } else {
        Color::Red
    };
    line.text(m.model.as_str(), VALUE);
    line.text(" ", LABEL);
    line.text(m.state.as_str(), color);
    if with_name && display_width(m.name.as_str()) > 0 {
        let words: String = concat2("  ", m.name.as_str());
        line.text(words.as_str(), LABEL);
    }
}

/// The row of llama-swap, whose endpoint is called `label`.
pub fn render_swap(c: &Columns, label: &str, swap: &Probe<Vec<SwapModel>>) -> (r: Row)
    ensures
        r@ == swap_row(*c, label@, *swap),
{
    let mut line: Row = Row::default();
    line.cell("SWAP", c.host, HEADING);
    line.cell(label, SUBJECT, VALUE);
    let ghost start = line@;
    match swap {
        Probe::Pending => line.text("waiting for the first /running poll", LABEL),
        Probe::Failed(e) => {
            let words: String = concat2("unreachable: ", e.as_str());
            line.text(words.as_str(), Color::Red);
        },
        Probe::Up(models) => {
            let count: usize = models.len();
            if count == 0 {
                line.text("no model loaded", Color::Yellow);
            }
            let ghost all = swap_entries(models@);
            let mut i: usize = 0;
            while i < count
                invariant
                    i <= count,
                    count == models@.len(),
                    all == swap_entries(models@),
                    count > 0 ==> line@ == with_models(start, all, i as nat),
                    count == 0 ==> line@ == row_text(start, "no model loaded"@, Color::Yellow),
                decreases count - i,
            {
                if i > 0 {
                    line.text(" · ", LABEL);
                }
                assert(all[i as int] == models@[i as int]@);
                swap_model(&mut line, &models[i], count == 1);
                i = i + 1;
            }
        },
    }
    line
}

/// An endpoint that fails is shown with its reason, the engine's and
/// llama-swap's each in a row of its own.
pub proof fn failures_give_their_reason(
    cols: nat,
    c: Columns,
    label: Seq<char>,
    series: SeriesModel,
    e: String,
)
    ensures
        engine_rows(cols, c, label, Probe::Failed(e), series).len() == 1,
        engine_rows(cols, c, label, Probe::Failed(e), series)[0].last() == SegmentModel::Text(
            "unreachable: "@ + e@,
            Tone::Plain(Color::Red),
        ),
        swap_row(c, label, Probe::Failed(e)).last() == SegmentModel::Text(
            "unreachable: "@ + e@,
            Tone::Plain(Color::Red),
        ),
{
    reveal_strlit("unreachable: ");
}

} // verus!
