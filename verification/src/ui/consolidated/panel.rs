//! What the pipeline panel shows of the engine and its models.
use vstd::prelude::*;
use vstd::string::*;

use crate::common::url_parts::UrlModel;
use crate::reading::{multiples_divide_evenly, whole_numbers_are_written_plainly, Reading};
use crate::text::decimal;
use crate::ui::cluster::line::duration_text;
use crate::ui::consolidated::history::SeriesModel;
use crate::ui::consolidated::model::SectionModel;
use crate::ui::consolidated::pipeline::{
    job_label, without_slashes, EngineCache, EngineHealth, Probe, SwapModel,
};
use crate::ui::consolidated::pipeline_render::{
    activity_words, cache_row, compact_count, endpoint_words, engine_head, engine_rows,
    pipeline_heading, section_at, swap_row, whole_seconds, with_model, with_models,
};
use crate::ui::consolidated::pipeline_view::{
    has_address, host_at, host_of, phase_words, PhaseModel,
};
use crate::ui::consolidated::render::{gib1, Columns};
use crate::ui::consolidated::row::{RowText, SegmentModel, Tone};
use crate::ui::theme::Color;

verus! {

/// Whether a row holds this text as a piece of its own.
pub open spec fn tells(r: RowText, text: Seq<char>) -> bool {
    exists|k: int|
        0 <= k < r.len() && ((#[trigger] r[k]) matches SegmentModel::Text(t, _) && t == text)
}

/// A row keeps its pieces when it grows.
pub broadcast proof fn pieces_stay(r: RowText, x: SegmentModel, text: Seq<char>)
    ensures
        tells(r, text) || (x matches SegmentModel::Text(t, _) && t == text) ==> #[trigger] tells(
            r.push(x),
            text,
        ),
{
    let more = r.push(x);
    assert(more[r.len() as int] == x);
    if tells(r, text) {
        let k = choose|k: int|
            0 <= k < r.len() && ((#[trigger] r[k]) matches SegmentModel::Text(t, _) && t == text);
        assert(more[k] == r[k]);
    }
}

proof fn numbers_are_written(n: nat)
    ensures
        decimal(n).len() > 0,
{
}

/// The activity of an engine: its sessions, its connections, the job that holds
/// its GPU and for how long, and how many jobs wait.
pub proof fn the_activity_of_an_engine_is_told(c: Columns, h: EngineHealth)
    ensures
        ({
            let r = activity_words(c, h);
            &&& h.sessions matches Some(n) ==> tells(r, decimal(n as nat))
            &&& h.connections matches Some(n) ==> tells(r, decimal(n as nat))
            &&& h.queued_jobs matches Some(n) ==> tells(r, decimal(n as nat))
            &&& h.sessions is None ==> tells(r, "?"@)
            &&& job_label(h.gpu_job) matches Some(job) ==> (job.len() > 0 ==> tells(r, job))
                && tells(r, "gpu busy: "@)
            &&& job_label(h.gpu_job) is Some && h.gpu_job_s is Some ==> tells(
                r,
                " "@ + h.gpu_job_s->0.fixed(1) + "s"@,
            )
            &&& job_label(h.gpu_job) is None ==> tells(r, "gpu idle"@)
        }),
{
    broadcast use crate::ui::consolidated::panel::pieces_stay;

    reveal_strlit("?");
    reveal_strlit("gpu busy: ");
    reveal_strlit("gpu idle");
    reveal_strlit(" ");
    reveal_strlit("s");
    if h.sessions is Some {
        numbers_are_written(h.sessions->0 as nat);
    }
    if h.connections is Some {
        numbers_are_written(h.connections->0 as nat);
    }
    if h.queued_jobs is Some {
        numbers_are_written(h.queued_jobs->0 as nat);
    }
}

/// The head of an engine tells whether it is well, for how long it has been up,
/// and whether it is to restart.
pub proof fn the_health_of_an_engine_is_told(r: RowText, h: EngineHealth)
    ensures
        ({
            let l = engine_head(r, h);
            &&& h.ok == Some(true) ==> tells(l, "ok"@)
            &&& h.ok == Some(false) ==> tells(l, "NOT OK"@)
            &&& h.ok is None ==> tells(l, "status ?"@)
            &&& h.version matches Some(v) ==> v@.len() > 0 ==> tells(l, v@)
            &&& h.uptime_s matches Some(up) ==> tells(
                l,
                " · up "@ + duration_text(whole_seconds(up)),
            )
            &&& h.restart_pending == Some(true) ==> tells(l, " · restart pending"@)
            &&& h.encoder matches Some(s) ==> s@ != "up"@ ==> tells(
                l,
                " · "@ + "encoder"@ + " "@ + s@,
            )
        }),
{
    broadcast use crate::ui::consolidated::panel::pieces_stay;

    reveal_strlit("ok");
    reveal_strlit("NOT OK");
    reveal_strlit("status ?");
    reveal_strlit(" · up ");
    reveal_strlit(" · restart pending");
    reveal_strlit(" · ");
}

/// The prefix cache tells its hits of its lookups and their share, its entries,
/// its size of its budget, and the tokens that it saved.
pub proof fn the_cache_of_an_engine_is_told(c: Columns, cache: EngineCache)
    ensures
        ({
            let l = cache_row(c, cache);
            &&& cache.hits is Some && cache.lookups is Some && cache.lookups->0 > 0 ==> tells(
                l,
                decimal(cache.hits->0 as nat) + "/"@ + decimal(cache.lookups->0 as nat)
                    + " hits ("@ + Reading::of_natural(cache.hits->0 as nat).quotient(
                    Reading::of_natural(cache.lookups->0 as nat),
                ).product(Reading::of_natural(100)).fixed(1) + "%)"@,
            )
            &&& cache.lookups == Some(0u64) ==> tells(l, "no lookups yet"@)
            &&& cache.entries matches Some(e) ==> tells(
                l,
                " · "@ + decimal(e as nat) + " entries"@,
            )
            &&& cache.bytes is Some && cache.budget is Some ==> tells(
                l,
                " · "@ + gib1(cache.bytes->0 as nat) + "/"@ + gib1(cache.budget->0 as nat)
                    + " GiB"@,
            )
            &&& cache.resumed_tokens matches Some(t) ==> tells(
                l,
                " · "@ + compact_count(t as nat) + " tokens resumed"@,
            )
        }),
{
    broadcast use crate::ui::consolidated::panel::pieces_stay;

    reveal_strlit("/");
    reveal_strlit("no lookups yet");
    reveal_strlit(" · ");
    reveal_strlit("%)");
}

/// Counts are written in full below a thousand, then in thousands and millions.
pub proof fn counts_are_written_by_size(n: nat)
    ensures
        n < 1000 ==> compact_count(n) == decimal(n),
        1 <= n < 1000 ==> compact_count(n * 1000) == decimal(n) + "."@ + seq!['0'] + "K"@,
{
    if 1 <= n < 1000 {
        multiples_divide_evenly(n, 1000);
        whole_numbers_are_written_plainly(n);
    }
}

/// An engine that was not asked yet, or that failed, has one row that says so; one
/// that answers has two, and one more for its cache.
pub proof fn engines_have_their_rows(
    cols: nat,
    c: Columns,
    label: Seq<char>,
    engine: Probe<EngineHealth>,
    series: SeriesModel,
)
    ensures
        ({
            let rows = engine_rows(cols, c, label, engine, series);
            &&& engine is Pending ==> rows.len() == 1 && tells(
                rows[0],
                "waiting for the first /health poll"@,
            )
            &&& engine matches Probe::Failed(e) ==> rows.len() == 1 && tells(
                rows[0],
                "unreachable: "@ + e@,
            )
            &&& engine matches Probe::Up(h) ==> rows.len() == if h.cache is Some {
                3
            } else {
                2int
            }
        }),
{
    broadcast use crate::ui::consolidated::panel::pieces_stay;

    reveal_strlit("waiting for the first /health poll");
    reveal_strlit("unreachable: ");
}

/// Every loaded model is told with its state: green where it is ready, amber on
/// its way, red otherwise.
pub proof fn models_are_told_with_their_state(
    r: RowText,
    models: Seq<(Seq<char>, Seq<char>, Seq<char>)>,
    n: nat,
    i: int,
)
    requires
        0 <= i < n <= models.len(),
        models[i].0.len() > 0,
        models[i].1.len() > 0,
    ensures
        tells(with_models(r, models, n), models[i].0),
        tells(with_models(r, models, n), models[i].1),
    decreases n,
{
    broadcast use crate::ui::consolidated::panel::pieces_stay;

    reveal_strlit(" · ");
    reveal_strlit(" ");
    if i < n - 1 {
        models_are_told_with_their_state(r, models, (n - 1) as nat, i);
    }
}

/// The colors of a model's states.
pub proof fn states_have_their_colors(r: RowText, name: Seq<char>, state: Seq<char>)
    requires
        name.len() > 0,
        state.len() > 0,
    ensures
        ({
            let l = with_model(r, (name, state, seq![]), false);
            l.last() == SegmentModel::Text(
                state,
                Tone::Plain(
                    if state == "ready"@ {
                        Color::Green
                    } else if state == "starting"@ || state == "stopping"@ {
                        Color::Yellow
                    } else {
                        Color::Red
                    },
                ),
            )
        }),
{
    reveal_strlit(" ");
}

/// A swap proxy that failed, was not asked yet, or has nothing loaded says so.
pub proof fn swaps_without_models_say_so(
    c: Columns,
    label: Seq<char>,
    swap: Probe<Vec<SwapModel>>,
)
    ensures
        ({
            let r = swap_row(c, label, swap);
            &&& swap is Pending ==> tells(r, "waiting for the first /running poll"@)
            &&& swap matches Probe::Failed(e) ==> tells(r, "unreachable: "@ + e@)
            &&& swap matches Probe::Up(m) ==> m@.len() == 0 ==> tells(r, "no model loaded"@)
        }),
{
    broadcast use crate::ui::consolidated::panel::pieces_stay;

    reveal_strlit("waiting for the first /running poll");
    reveal_strlit("unreachable: ");
    reveal_strlit("no model loaded");
}

/// An endpoint is called by the label of the host at its address, with its port;
/// by its address where no such host is known.
pub proof fn endpoints_are_called_by_their_host(
    hosts: Seq<SectionModel>,
    url: Seq<char>,
    u: UrlModel,
    address: Seq<char>,
    port: u16,
)
    requires
        u.host == Some(address),
        u.known_port == Some(port),
    ensures
        section_at(hosts, address) is None ==> endpoint_words(hosts, url, Ok(u)) == address + (
        ":"@ + decimal(port as nat)),
        section_at(hosts, address) matches Some(h) ==> h.label != h.host_id ==> endpoint_words(
            hosts,
            url,
            Ok(u),
        ) == h.label + " "@ + (":"@ + decimal(port as nat)),
        section_at(hosts, address) matches Some(h) ==> has_address(h.host_id, address),
{
    the_section_has_the_address(hosts, address);
}

proof fn the_section_has_the_address(hosts: Seq<SectionModel>, address: Seq<char>)
    ensures
        section_at(hosts, address) matches Some(h) ==> has_address(h.host_id, address),
    decreases hosts.len(),
{
    if hosts.len() > 0 {
        the_section_has_the_address(hosts.drop_first(), address);
    }
}

/// A stage is told by a word and what it is at; the time of a prefill and of its
/// job stand with them.
pub proof fn stages_are_told(elapsed: Reading, job: Seq<char>, job_s: Reading, e: Seq<char>)
    ensures
        phase_words(PhaseModel::Down(e)) == ("DOWN"@, e),
        phase_words(PhaseModel::Unknown(e)) == (""@, e),
        phase_words(PhaseModel::Idle(e)) == ("idle"@, e),
        phase_words(PhaseModel::Waiting(e)) == ("waiting"@, e),
        phase_words(PhaseModel::Decode(e)) == ("DECODE"@, e),
        phase_words(PhaseModel::Busy(e)) == ("BUSY"@, e),
        phase_words(PhaseModel::Prefill { elapsed_s: None, job, job_s: None }) == (
            "PREFILL"@,
            job,
        ),
        phase_words(PhaseModel::Prefill { elapsed_s: None, job, job_s: Some(job_s) }) == (
            "PREFILL"@,
            job + " "@ + job_s.fixed(1) + "s"@,
        ),
        phase_words(PhaseModel::Prefill { elapsed_s: Some(elapsed), job, job_s: None }) == (
            "PREFILL"@,
            elapsed.fixed(0) + "s"@ + " · "@ + job,
        ),
{
}

/// The host of an address is the first that has it.
pub proof fn hosts_are_found_by_address(hosts: Seq<SectionModel>, u: UrlModel, i: int)
    requires
        u.host is Some,
        0 <= i < hosts.len(),
    ensures
        host_of(hosts, Ok(u)) is None ==> !has_address(hosts[i].host_id, u.host->0),
        host_of(hosts, Ok(u)) matches Some(h) ==> has_address(h, u.host->0),
        has_address(hosts[i].host_id, u.host->0) && (forall|j: int|
            0 <= j < i ==> !has_address((#[trigger] hosts[j]).host_id, u.host->0)) ==> host_of(
            hosts,
            Ok(u),
        ) == Some(hosts[i].host_id),
{
    let address = u.host->0;
    the_first_host_is_found(hosts, address, i);
}

proof fn the_first_host_is_found(hosts: Seq<SectionModel>, address: Seq<char>, i: int)
    requires
        0 <= i < hosts.len(),
    ensures
        host_at(hosts, address) is None ==> !has_address(hosts[i].host_id, address),
        host_at(hosts, address) matches Some(h) ==> has_address(h, address),
        has_address(hosts[i].host_id, address) && (forall|j: int|
            0 <= j < i ==> !has_address((#[trigger] hosts[j]).host_id, address)) ==> host_at(
            hosts,
            address,
        ) == Some(hosts[i].host_id),
    decreases hosts.len(),
{
    let rest = hosts.drop_first();
    if rest.len() > 0 {
        the_first_host_is_found(
            rest,
            address,
            if i > 0 {
                i - 1
            } else {
                0
            },
        );
        if i > 0 {
            assert(rest[i - 1] == hosts[i]);
            if forall|j: int| 0 <= j < i ==> !has_address((#[trigger] hosts[j]).host_id, address) {
                assert(!has_address(hosts[0].host_id, address));
                assert forall|j: int| 0 <= j < i - 1 implies !has_address(
                    (#[trigger] rest[j]).host_id,
                    address,
                ) by {
                    assert(rest[j] == hosts[j + 1]);
                }
            }
        }
    } else {
        assert(host_at(rest, address) is None);
    }
}

/// An address loses the slashes at its end, and nothing else.
pub proof fn addresses_lose_their_slashes(s: Seq<char>)
    ensures
        ({
            let r = without_slashes(s);
            &&& r.len() > 0 ==> r.last() != '/'
            &&& r.len() <= s.len() && r == s.take(r.len() as int)
            &&& forall|k: int| r.len() <= k < s.len() ==> #[trigger] s[k] == '/'
        }),
    decreases s.len(),
{
    if s.len() > 0 && s.last() == '/' {
        addresses_lose_their_slashes(s.drop_last());
        let r = without_slashes(s);
        assert(s.drop_last().take(r.len() as int) == s.take(r.len() as int));
        assert forall|k: int| r.len() <= k < s.len() implies #[trigger] s[k] == '/' by {
            if k < s.len() - 1 {
                assert(s.drop_last()[k] == s[k]);
            }
        }
    } else {
        assert(s.take(s.len() as int) == s);
    }
}

/// The heading of the panel shows its title and is drawn out over the screen.
pub proof fn the_panel_has_its_title(cols: nat, title: Seq<char>)
    requires
        cols > title.len() + 4,
    ensures
        ({
            let r = pipeline_heading(cols, title);
            &&& r.len() == 2
            &&& tells(r, "── "@ + title + " "@)
            &&& r[1] matches SegmentModel::Text(t, _) && t.len() == cols - title.len() - 4
        }),
{
    broadcast use crate::ui::consolidated::panel::pieces_stay;

    reveal_strlit("── ");
    reveal_strlit(" ");
}

} // verus!
