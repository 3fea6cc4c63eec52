//! Pipeline panel data: a model served across the machines, seen through two
//! read-only HTTP endpoints.
//!
//! * the box engine's `/health` JSON (sessions, connections, the GPU job in
//!   flight, queue depth, prefix-cache counters, build identity);
//! * llama-swap's `/running` on the Mac (which model is loaded, and its state).
//!
//! The lock holder and link throughput come from the exporters' host probes,
//! not from here. Every field is optional so an endpoint that grows or drops a
//! key degrades to a blank instead of a parse failure.
use vstd::prelude::*;
use vstd::string::*;

use crate::common::span::Span;
use crate::common::url_parts::optional_text;
use crate::reading::Reading;
use crate::table::{entry_of, find_entry};
use crate::text::{
    begins, begins_with, chars_of, clip, concat2, copied, text_between, visible_text,
    without_controls,
};

verus! {

/// Default endpoints: the box engine on the direct link and the Mac's
/// llama-swap.
pub const DEFAULT_HEALTH_URL: &'static str = "http://10.10.10.1:10051/health";

pub const DEFAULT_SWAP_URL: &'static str = "http://10.10.10.2:8080";

/// Longest text of an endpoint that reaches the screen.
pub const MAX_TEXT: usize = 160;

/// Most models of a `/running` answer that are kept.
pub const MAX_MODELS: usize = 16;

/// Where the pipeline panel reads from, and how its two halves are named.
#[derive(Clone, Debug, PartialEq, Eq)]
pub struct PipelineConfig {
    pub title: String,
    /// Model served, shown after the title.
    pub subtitle: String,
    pub health_url: String,
    /// llama-swap base URL; `/running` is appended.
    pub swap_url: String,
    /// The engine host (first half: prefill and the early layers of every
    /// decode step) and the host that finishes each step.
    pub front: Stage,
    pub back: Stage,
    /// Name of the link between them.
    pub link: String,
    /// JSON probe names the back host's exporter publishes: the serving
    /// supervisor's `/health`, the worker's split-pipeline counters, and its
    /// server status.
    pub probe_supervisor: String,
    pub probe_split: String,
    pub probe_server: String,
}

/// One half of the split.
#[derive(Clone, Debug, PartialEq, Eq)]
pub struct Stage {
    /// Short machine name ("RTX box").
    pub name: String,
    /// What it runs ("layers 0-19").
    pub role: String,
    /// The role in a few characters, for the one-line strip ("L0-19").
    pub short: String,
}

/// `s` without slashes at its end.
pub open spec fn without_slashes(s: Seq<char>) -> Seq<char>
    decreases s.len(),
{
    if s.len() > 0 && s.last() == '/' {
        without_slashes(s.drop_last())
    } else {
        s
    }
}

impl PipelineConfig {
    pub fn icculis(health_url: Option<String>, swap_url: Option<String>) -> (r: PipelineConfig)
        ensures
            r.title@ == "Icculis"@,
            r.subtitle@ == "DeepSeek-V4.1-Flash · original weights"@,
            r.health_url@ == (match health_url {
                Some(u) => u@,
                None => DEFAULT_HEALTH_URL@,
            }),
            r.swap_url@ == (match swap_url {
                Some(u) => u@,
                None => DEFAULT_SWAP_URL@,
            }),
            r.front.name@ == "RTX box"@,
            r.front.role@ == "layers 0-19 · prefill + verify"@,
            r.front.short@ == "L0-19"@,
            r.back.name@ == "M5 Ultra"@,
            r.back.role@ == "layers 20-39 · head · DSpark draft"@,
            r.back.short@ == "L20-39 + head + draft"@,
            r.link@ == "10GbE"@,
            r.probe_supervisor@ == "sup"@,
            r.probe_split@ == "og"@,
            r.probe_server@ == "omlx"@,
    {
        PipelineConfig {
            title: copied("Icculis"),
            subtitle: copied("DeepSeek-V4.1-Flash · original weights"),
            health_url: match health_url {
                Some(u) => u,
                None => copied(DEFAULT_HEALTH_URL),
            },
            swap_url: match swap_url {
                Some(u) => u,
                None => copied(DEFAULT_SWAP_URL),
            },
            front: Stage {
                name: copied("RTX box"),
                role: copied("layers 0-19 · prefill + verify"),
                short: copied("L0-19"),
            },
            back: Stage {
                name: copied("M5 Ultra"),
                role: copied("layers 20-39 · head · DSpark draft"),
                short: copied("L20-39 + head + draft"),
            },
            link: copied("10GbE"),
            probe_supervisor: copied("sup"),
            probe_split: copied("og"),
            probe_server: copied("omlx"),
        }
    }

    pub fn swap_running_url(&self) -> (r: String)
        ensures
            r@ == without_slashes(self.swap_url@) + "/running"@,
    {
        let c: Vec<char> = chars_of(self.swap_url.as_str());
        let mut end: usize = c.len();
        assert(c@.take(c@.len() as int) == c@);
        while end > 0 && c[end - 1] == '/'
            invariant
                end <= c@.len(),
                without_slashes(c@) == without_slashes(c@.take(end as int)),
            decreases end,
        {
            assert(c@.take(end as int).drop_last() == c@.take(end - 1));
            end = end - 1;
        }
        assert(c@.subrange(0, end as int) == c@.take(end as int));
        let base: String = text_between(c.as_slice(), 0, end);
        concat2(base.as_str(), "/running")
    }
}

/// A value inside a job structure: a text, or anything else by its JSON form.
#[derive(Clone, Debug, PartialEq, Eq)]
pub enum JobField {
    Text(String),
    Json(String),
}

/// What the engine reports for the job that holds the GPU: a text, a structure
/// with its fields and its JSON form, or anything else by its JSON form.
#[derive(Clone, Debug, PartialEq, Eq)]
pub enum GpuJob {
    Null,
    Text(String),
    Object { fields: Vec<(String, JobField)>, json: String },
    Other(String),
}

#[derive(Clone, Debug, PartialEq, Eq)]
pub struct EngineHealth {
    pub ok: Option<bool>,
    pub encoder: Option<String>,
    pub step_api: Option<String>,
    pub sessions: Option<u64>,
    pub connections: Option<u64>,
    /// Absent when idle; otherwise whatever the engine reports for the job
    /// holding the GPU.
    pub gpu_job: Option<GpuJob>,
    pub gpu_job_s: Option<Reading>,
    pub queued_jobs: Option<u64>,
    pub cache: Option<EngineCache>,
    pub uptime_s: Option<Reading>,
    pub version: Option<String>,
    pub numerics: Option<String>,
    pub restart_pending: Option<bool>,
}

impl Default for EngineHealth {
    fn default() -> (r: EngineHealth)
        ensures
            r.ok is None,
            r.encoder is None,
            r.step_api is None,
            r.sessions is None,
            r.connections is None,
            r.gpu_job is None,
            r.gpu_job_s is None,
            r.queued_jobs is None,
            r.cache is None,
            r.uptime_s is None,
            r.version is None,
            r.numerics is None,
            r.restart_pending is None,
    {
        EngineHealth {
            ok: None,
            encoder: None,
            step_api: None,
            sessions: None,
            connections: None,
            gpu_job: None,
            gpu_job_s: None,
            queued_jobs: None,
            cache: None,
            uptime_s: None,
            version: None,
            numerics: None,
            restart_pending: None,
        }
    }
}

#[derive(Clone, Copy, Debug, PartialEq, Eq, Structural)]
pub struct EngineCache {
    pub lookups: Option<u64>,
    pub hits: Option<u64>,
    pub resumed_tokens: Option<u64>,
    pub entries: Option<u64>,
    pub bytes: Option<u64>,
    pub budget: Option<u64>,
}

impl EngineCache {
    /// Hits as a fraction of the lookups, where there were any.
    pub open spec fn hit_fraction(self) -> Option<Reading> {
        match (self.hits, self.lookups) {
            (Some(h), Some(l)) => if l > 0 {
                Some(Reading::of_natural(h as nat).quotient(Reading::of_natural(l as nat)))
            } else {
                None
            },
            _ => None,
        }
    }

    /// Hit ratio in `[0, 1]`, `None` before the first lookup.
    pub fn hit_ratio(&self) -> (r: Option<Reading>)
        ensures
            r == self.hit_fraction(),
    {
        match (self.hits, self.lookups) {
            (Some(h), Some(l)) => if l > 0 {
                Some(Reading::from_u64(h).over(Reading::from_u64(l)))
            } else {
                None
            },
            _ => None,
        }
    }
}

/// A text of an endpoint as it reaches the screen.
pub open spec fn shown(s: Seq<char>) -> Seq<char> {
    clip(without_controls(s), MAX_TEXT as nat)
}

/// Drop control characters (terminal escapes) and cap the length of any string
/// an endpoint hands us before it reaches the screen.
pub fn sanitize(s: &str) -> (r: String)
    ensures
        r@ == shown(s@),
{
    visible_text(s, MAX_TEXT)
}

/// The text of a value inside a job structure.
pub open spec fn field_text(f: JobField) -> Seq<char> {
    match f {
        JobField::Text(s) => s@,
        JobField::Json(s) => s@,
    }
}

/// The value that names a job: the first present of the fields that people
/// read.
pub open spec fn naming_field(fields: Seq<(String, JobField)>) -> Option<JobField> {
    let a = find_entry(fields, "name"@);
    let b = find_entry(fields, "kind"@);
    let c = find_entry(fields, "type"@);
    let d = find_entry(fields, "job"@);
    if a is Some {
        a
    } else if b is Some {
        b
    } else if c is Some {
        c
    } else if d is Some {
        d
    } else {
        find_entry(fields, "session"@)
    }
}

/// Short description of a GPU job.
pub open spec fn job_label(job: Option<GpuJob>) -> Option<Seq<char>> {
    match job {
        None => None,
        Some(j) => match j {
            GpuJob::Null => None,
            GpuJob::Text(s) => Some(shown(s@)),
            GpuJob::Object { fields, json } => match naming_field(fields@) {
                Some(f) => Some(shown(field_text(f))),
                None => Some(shown(json@)),
            },
            GpuJob::Other(s) => Some(shown(s@)),
        },
    }
}

/// Whether a job is part of a prefill.
pub open spec fn prefill_job(label: Option<Seq<char>>) -> bool {
    match label {
        Some(s) => begins(s, "prefill"@) || begins(s, "vision"@) || begins(s, "restore"@)
            || begins(s, "snapshot"@),
        None => false,
    }
}

/// The first present of the fields that people read.
fn named_field(fields: &Vec<(String, JobField)>) -> (r: Option<&JobField>)
    ensures
        match r {
            Some(f) => naming_field(fields@) == Some(*f),
            None => naming_field(fields@) is None,
        },
{
    let all: &[(String, JobField)] = fields.as_slice();
    match entry_of(all, "name") {
        Some(f) => Some(f),
        None => match entry_of(all, "kind") {
            Some(f) => Some(f),
            None => match entry_of(all, "type") {
                Some(f) => Some(f),
                None => match entry_of(all, "job") {
                    Some(f) => Some(f),
                    None => entry_of(all, "session"),
                },
            },
        },
    }
}

impl EngineHealth {
    /// What a parsed `/health` body comes to, the parser's message explained.
    pub fn parse(parsed: Result<EngineHealth, String>) -> (r: Result<EngineHealth, String>)
        ensures
            match (parsed, r) {
                (Ok(h), Ok(g)) => g == h,
                (Err(e), Err(m)) => m@ == "bad /health JSON: "@ + e@,
                _ => false,
            },
    {
        match parsed {
            Ok(h) => Ok(h),
            Err(e) => Err(concat2("bad /health JSON: ", e.as_str())),
        }
    }

    /// Short description of the GPU job, `None` when idle.
    pub fn gpu_job_label(&self) -> (r: Option<String>)
        ensures
            optional_text(r) == job_label(self.gpu_job),
    {
        match &self.gpu_job {
            None => None,
            Some(job) => match job {
                GpuJob::Null => None,
                GpuJob::Text(s) => Some(sanitize(s.as_str())),
                GpuJob::Object { fields, json } => match named_field(fields) {
                    Some(f) => match f {
                        JobField::Text(s) => Some(sanitize(s.as_str())),
                        JobField::Json(s) => Some(sanitize(s.as_str())),
                    },
                    None => Some(sanitize(json.as_str())),
                },
                GpuJob::Other(s) => Some(sanitize(s.as_str())),
            },
        }
    }

    pub fn is_busy(&self) -> (r: bool)
        ensures
            r == (job_label(self.gpu_job) is Some),
    {
        self.gpu_job_label().is_some()
    }

    /// The GPU job is part of a prefill: chunks, the vision encoder, a
    /// prefix-cache restore or the snapshot that saves one.
    pub fn is_prefill(&self) -> (r: bool)
        ensures
            r == prefill_job(job_label(self.gpu_job)),
    {
        match self.gpu_job_label() {
            Some(job) => {
                let c: Vec<char> = chars_of(job.as_str());
                begins_with(c.as_slice(), "prefill") || begins_with(c.as_slice(), "vision")
                    || begins_with(c.as_slice(), "restore") || begins_with(
                    c.as_slice(),
                    "snapshot",
                )
            },
            None => false,
        }
    }
}

/// One llama-swap `/running` entry.
#[derive(Clone, Debug, PartialEq, Eq)]
pub struct SwapModel {
    pub model: String,
    pub state: String,
    pub name: String,
}

/// What an entry holds: model, state, name.
impl View for SwapModel {
    type V = (Seq<char>, Seq<char>, Seq<char>);

    open spec fn view(&self) -> (Seq<char>, Seq<char>, Seq<char>) {
        (self.model@, self.state@, self.name@)
    }
}

/// The entries of a list.
pub open spec fn swap_entries(v: Seq<SwapModel>) -> Seq<(Seq<char>, Seq<char>, Seq<char>)> {
    v.map_values(|m: SwapModel| m@)
}

/// The entries that are kept, as they reach the screen.
pub open spec fn shown_models(v: Seq<(Seq<char>, Seq<char>, Seq<char>)>) -> Seq<
    (Seq<char>, Seq<char>, Seq<char>),
> {
    let kept = if v.len() <= MAX_MODELS {
        v
    } else {
        v.take(MAX_MODELS as int)
    };
    kept.map_values(
        |m: (Seq<char>, Seq<char>, Seq<char>)| (shown(m.0), shown(m.1), shown(m.2)),
    )
}

/// What a parsed `/running` body comes to: its first entries made safe to
/// show, or the parser's message explained.
pub fn parse_swap_running(parsed: Result<Vec<SwapModel>, String>) -> (r: Result<
    Vec<SwapModel>,
    String,
>)
    ensures
        match (parsed, r) {
            (Ok(v), Ok(w)) => swap_entries(w@) == shown_models(swap_entries(v@)),
            (Err(e), Err(m)) => m@ == "bad /running JSON: "@ + e@,
            _ => false,
        },
{
    match parsed {
        Err(e) => Err(concat2("bad /running JSON: ", e.as_str())),
        Ok(v) => {
            let ghost wanted = shown_models(swap_entries(v@));
            let mut out: Vec<SwapModel> = Vec::new();
            let mut i: usize = 0;
            while i < v.len() && i < MAX_MODELS
                invariant
                    i <= v@.len(),
                    i <= MAX_MODELS,
                    wanted == shown_models(swap_entries(v@)),
                    swap_entries(out@) == wanted.take(i as int),
                decreases v@.len() - i,
            {
                let m = SwapModel {
                    model: sanitize(v[i].model.as_str()),
                    state: sanitize(v[i].state.as_str()),
                    name: sanitize(v[i].name.as_str()),
                };
                let ghost before = swap_entries(out@);
                out.push(m);
                assert(swap_entries(out@) == before.push(m@));
                assert(wanted[i as int] == m@);
                assert(wanted.take(i + 1) == wanted.take(i as int).push(m@));
                i = i + 1;
            }
            assert(wanted.take(wanted.len() as int) == wanted);
            Ok(out)
        },
    }
}

/// Result of the latest poll of one endpoint.
#[derive(Clone, Debug, PartialEq, Eq)]
pub enum Probe<T> {
    Pending,
    Up(T),
    Failed(String),
}

/// What the pipeline panel shows. Times are nanoseconds on the poller's clock.
#[derive(Clone, Debug, PartialEq, Eq)]
pub struct PipelineStatus {
    pub config: PipelineConfig,
    pub engine: Probe<EngineHealth>,
    pub swap: Probe<Vec<SwapModel>>,
    /// First poll of the prefill in progress, if one is.
    pub prefill_since: Option<u64>,
    /// How long the prefill in progress has run, as of the last poll.
    pub prefill_elapsed: Option<Span>,
    /// Duration of the last finished prefill (as seen by the poller).
    pub last_prefill: Option<Span>,
}

/// Whether the last poll found the engine at a prefill.
pub open spec fn in_prefill(engine: Probe<EngineHealth>) -> bool {
    match engine {
        Probe::Up(h) => prefill_job(job_label(h.gpu_job)),
        _ => false,
    }
}

/// What is known of prefills: since when one runs, for how long, and how long
/// the last one ran.
pub type PrefillTiming = (Option<u64>, Option<Span>, Option<Span>);

/// The timing after a poll at time `now`. A prefill is timed from the poll that
/// first saw it; once it is over, it is the last one.
pub open spec fn timed(t: PrefillTiming, prefill: bool, now: u64) -> PrefillTiming {
    let (since, elapsed, last) = t;
    if prefill {
        let start = match since {
            Some(at) => at,
            None => now,
        };
        (Some(start), Some(Span::spanning(start, now)), last)
    } else if since is Some {
        (None, None, elapsed)
    } else {
        (None, elapsed, last)
    }
}

impl PipelineStatus {
    /// What is known of prefills.
    pub open spec fn timing(self) -> PrefillTiming {
        (self.prefill_since, self.prefill_elapsed, self.last_prefill)
    }

    pub fn new(config: PipelineConfig) -> (r: PipelineStatus)
        ensures
            r.config == config,
            r.engine == Probe::<EngineHealth>::Pending,
            r.swap == Probe::<Vec<SwapModel>>::Pending,
            r.prefill_since is None,
            r.prefill_elapsed is None,
            r.last_prefill is None,
    {
        PipelineStatus {
            config,
            engine: Probe::Pending,
            swap: Probe::Pending,
            prefill_since: None,
            prefill_elapsed: None,
            last_prefill: None,
        }
    }

    /// Track the prefill phase across polls at time `now`.
    pub fn observe_phase(&mut self, now: u64)
        ensures
            final(self).config == old(self).config,
            final(self).engine == old(self).engine,
            final(self).swap == old(self).swap,
            final(self).timing() == timed(old(self).timing(), in_prefill(old(self).engine), now),
    {
        let prefill: bool = match &self.engine {
            Probe::Up(h) => h.is_prefill(),
            _ => false,
        };
        if prefill {
            let since: u64 = match self.prefill_since {
                Some(t) => t,
                None => now,
            };
            self.prefill_since = Some(since);
            self.prefill_elapsed = Some(Span::between(since, now));
        } else if self.prefill_since.is_some() {
            self.prefill_since = None;
            self.last_prefill = self.prefill_elapsed;
            self.prefill_elapsed = None;
        }
    }
}

} // verus!
