//! What each half of a split pipeline is doing right now.
//!
//! The front host (the engine) runs prefill and the early layers of every
//! decode step; the back host finishes each step (the late layers, the head,
//! the drafter). The phases come from what is measurable:
//!
//! * front: the engine's `/health` GPU job (a prefill chunk, a restore, a step)
//!   and how long the poller has seen a prefill running;
//! * back: the JSON probes its exporter publishes: the split worker's step
//!   counter rate, the supervisor's in-flight count, and the server's token
//!   counters;
//! * link: the interface rates both exporters publish, per direction.
//!
//! Decode tokens per second are estimated from the step rate and the worker's
//! lifetime tokens per step (completion tokens over steps), and are shown with
//! `≈`.
use vstd::prelude::*;
use vstd::string::*;

use crate::common::http_hosts::{host_identifier, identifier};
use crate::common::span::Span;
use crate::common::url_parts::{optional_text, parse_url, parse_view, url_parse, UrlModel, UrlParts};
use crate::probes::json::{value_under, JsonProbeSample, JsonSampleModel};
use crate::probes::lock::{holders_of, lock_samples, LockHolder, LockModel};
use crate::probes::{probe_index, probes_of, HostProbes, ProbesModel};
use crate::reading::Reading;
use crate::text::{
    chars_of, concat2, concat3, concat4, concat5, copied, decimal, decimal_text,
    last_occurrence, rfind, same, text_between,
};
use crate::ui::consolidated::model::{
    label_for, sections_of, ConsolidatedModel, DeviceModel, DeviceRow, HostSection, SectionModel,
};
use crate::ui::consolidated::pipeline::{
    job_label, prefill_job, EngineHealth, PipelineStatus, Probe,
};

verus! {

/// Step rate (per second) below which the back host counts as idle: 0.2, as a
/// bit pattern.
pub const DECODE_MIN_STEPS: u64 = 0x3fc9_9999_9999_999a;

/// GPU utilization (%) above which a back host that is not serving is shown as
/// busy with other work.
pub const BUSY_GPU_UTIL: u64 = 20;

/// Link traffic (bytes/s) that, with a session open, means steps are flowing
/// between polls.
pub const LINK_BUSY: u64 = 1_000_000;

#[derive(Clone, Debug, PartialEq, Eq)]
pub enum Phase {
    /// Endpoint or exporter unreachable.
    Down(String),
    /// No reading yet, or no probe configured.
    Unknown(String),
    Idle(String),
    /// Request in flight but this half has nothing to compute yet.
    Waiting(String),
    Prefill { elapsed_s: Option<Reading>, job: String, job_s: Option<Reading> },
    Decode(String),
    /// Some other GPU job (a close, a barrier).
    Busy(String),
}

/// What a phase says.
#[verifier::ext_equal]
pub enum PhaseModel {
    Down(Seq<char>),
    Unknown(Seq<char>),
    Idle(Seq<char>),
    Waiting(Seq<char>),
    Prefill { elapsed_s: Option<Reading>, job: Seq<char>, job_s: Option<Reading> },
    Decode(Seq<char>),
    Busy(Seq<char>),
}

impl View for Phase {
    type V = PhaseModel;

    open spec fn view(&self) -> PhaseModel {
        match *self {
            Phase::Down(s) => PhaseModel::Down(s@),
            Phase::Unknown(s) => PhaseModel::Unknown(s@),
            Phase::Idle(s) => PhaseModel::Idle(s@),
            Phase::Waiting(s) => PhaseModel::Waiting(s@),
            Phase::Prefill { elapsed_s, job, job_s } => PhaseModel::Prefill {
                elapsed_s,
                job: job@,
                job_s,
            },
            Phase::Decode(s) => PhaseModel::Decode(s@),
            Phase::Busy(s) => PhaseModel::Busy(s@),
        }
    }
}

/// Whether a phase is doing work.
pub open spec fn active(p: PhaseModel) -> bool {
    p is Prefill || p is Decode || p is Busy
}

/// A job and how long it has run, where that is known.
pub open spec fn job_text(job: Seq<char>, job_s: Option<Reading>) -> Seq<char> {
    match job_s {
        Some(s) => job + " "@ + s.fixed(1) + "s"@,
        None => job,
    }
}

/// The word and the detail of a phase.
pub open spec fn phase_words(p: PhaseModel) -> (Seq<char>, Seq<char>) {
    match p {
        PhaseModel::Down(e) => ("DOWN"@, e),
        PhaseModel::Unknown(e) => (""@, e),
        PhaseModel::Idle(d) => ("idle"@, d),
        PhaseModel::Waiting(d) => ("waiting"@, d),
        PhaseModel::Prefill { elapsed_s, job, job_s } => (
            "PREFILL"@,
            match elapsed_s {
                Some(s) => s.fixed(0) + "s"@ + " · "@ + job_text(job, job_s),
                None => job_text(job, job_s),
            },
        ),
        PhaseModel::Decode(d) => ("DECODE"@, d),
        PhaseModel::Busy(j) => ("BUSY"@, j),
    }
}

impl Phase {
    /// The phase is doing work: drawn in the accent color.
    pub fn is_active(&self) -> (r: bool)
        ensures
            r == active(self@),
    {
        match self {
            Phase::Prefill { .. } => true,
            Phase::Decode(_) => true,
            Phase::Busy(_) => true,
            _ => false,
        }
    }

    /// Upper-case phase word and detail text.
    pub fn words(&self) -> (r: (&'static str, String))
        ensures
            (r.0@, r.1@) == phase_words(self@),
    {
        match self {
            Phase::Down(e) => ("DOWN", copied(e.as_str())),
            Phase::Unknown(e) => ("", copied(e.as_str())),
            Phase::Idle(d) => ("idle", copied(d.as_str())),
            Phase::Waiting(d) => ("waiting", copied(d.as_str())),
            Phase::Prefill { elapsed_s, job, job_s } => {
                let chunk: String = match job_s {
                    Some(s) => {
                        let n: String = s.fixed_text(1);
                        concat4(job.as_str(), " ", n.as_str(), "s")
                    },
                    None => copied(job.as_str()),
                };
                let detail: String = match elapsed_s {
                    Some(s) => {
                        let n: String = s.fixed_text(0);
                        concat4(n.as_str(), "s", " · ", chunk.as_str())
                    },
                    None => chunk,
                };
                ("PREFILL", detail)
            },
            Phase::Decode(d) => ("DECODE", copied(d.as_str())),
            Phase::Busy(j) => ("BUSY", copied(j.as_str())),
        }
    }
}

#[derive(Clone, Copy, Debug, PartialEq, Eq, Structural)]
pub enum LinkUse {
    Idle,
    /// Front → back: the prefill state streaming over.
    PrefillState,
    /// Per-step activations both ways.
    Steps,
}

#[derive(Clone, Debug, PartialEq, Eq)]
pub struct PipelineView {
    pub front_host: String,
    pub back_host: String,
    pub front: Phase,
    pub back: Phase,
    /// Bytes per second front → back and back → front.
    pub to_back: Option<Reading>,
    pub to_front: Option<Reading>,
    pub link: LinkUse,
}

/// What a view shows.
#[verifier::ext_equal]
pub struct PipelineModel {
    pub front_host: Seq<char>,
    pub back_host: Seq<char>,
    pub front: PhaseModel,
    pub back: PhaseModel,
    pub to_back: Option<Reading>,
    pub to_front: Option<Reading>,
    pub link: LinkUse,
}

impl View for PipelineView {
    type V = PipelineModel;

    open spec fn view(&self) -> PipelineModel {
        PipelineModel {
            front_host: self.front_host@,
            back_host: self.back_host@,
            front: self.front@,
            back: self.back@,
            to_back: self.to_back,
            to_front: self.to_front,
            link: self.link,
        }
    }
}

/// The first probes of a host.
pub open spec fn probes_for(v: Seq<ProbesModel>, host: Seq<char>) -> Option<ProbesModel>
    decreases v.len(),
{
    if v.len() == 0 {
        None
    } else if v[0].host_id == host {
        Some(v[0])
    } else {
        probes_for(v.drop_first(), host)
    }
}

/// The first section of a host.
pub open spec fn section_for(v: Seq<SectionModel>, host: Seq<char>) -> Option<SectionModel>
    decreases v.len(),
{
    if v.len() == 0 {
        None
    } else if v[0].host_id == host {
        Some(v[0])
    } else {
        section_for(v.drop_first(), host)
    }
}

/// The JSON probe of that name.
pub open spec fn json_named(p: Option<ProbesModel>, name: Seq<char>) -> Option<JsonSampleModel> {
    match p {
        Some(m) => if probe_index(m.json, name) < m.json.len() {
            Some(m.json[probe_index(m.json, name)])
        } else {
            None
        },
        None => None,
    }
}

/// A value of a JSON probe.
pub open spec fn probe_value(p: Option<JsonSampleModel>, key: Seq<char>) -> Option<Reading> {
    match p {
        Some(s) => value_under(s.values, key),
        None => None,
    }
}

/// A rate of a JSON probe.
pub open spec fn probe_rate(p: Option<JsonSampleModel>, key: Seq<char>) -> Option<Reading> {
    match p {
        Some(s) => value_under(s.rates, key),
        None => None,
    }
}

pub open spec fn or_zero(r: Option<Reading>) -> Reading {
    match r {
        Some(x) => x,
        None => Reading { bits: 0 },
    }
}

pub open spec fn above_zero(r: Reading) -> bool {
    r.above(Reading { bits: 0 })
}

pub open spec fn is_up(p: Option<JsonSampleModel>) -> bool {
    match p {
        Some(s) => s.up,
        None => false,
    }
}

/// Steps per second of the split worker, where it answers.
pub open spec fn step_rate(split: Option<JsonSampleModel>) -> Reading {
    if is_up(split) {
        or_zero(probe_rate(split, "steps"@))
    } else {
        Reading { bits: 0 }
    }
}

/// Whether steps flow.
pub open spec fn is_decoding(steps: Reading) -> bool {
    steps.at_least(Reading { bits: DECODE_MIN_STEPS })
}

/// Whether a request is being served.
pub open spec fn is_in_flight(
    sup: Option<JsonSampleModel>,
    server: Option<JsonSampleModel>,
) -> bool {
    above_zero(or_zero(probe_value(sup, "inflight"@))) || above_zero(
        or_zero(probe_value(server, "active_requests"@)),
    )
}

/// Transmit (or receive) rate of a host's first probed interface.
pub open spec fn first_link_rate(p: Option<ProbesModel>, tx: bool) -> Option<Reading> {
    match p {
        Some(m) => if m.interfaces.len() > 0 {
            if tx {
                m.interfaces[0].tx_bytes_per_sec
            } else {
                m.interfaces[0].rx_bytes_per_sec
            }
        } else {
            None
        },
        None => None,
    }
}

pub open spec fn first_of_two(a: Option<Reading>, b: Option<Reading>) -> Option<Reading> {
    if a is Some {
        a
    } else {
        b
    }
}

/// Whether a link direction carries enough to mean steps.
pub open spec fn carries_steps(r: Option<Reading>) -> bool {
    match r {
        Some(x) => x.at_least(Reading::of_natural(LINK_BUSY as nat)),
        None => false,
    }
}

/// What an idle engine says of itself.
pub open spec fn idle_detail(sessions: nat, last_prefill: Option<Span>) -> Seq<char> {
    if sessions > 0 {
        decimal(sessions) + " session"@ + (if sessions == 1 {
            ""@
        } else {
            "s"@
        }) + " open"@
    } else {
        match last_prefill {
            Some(d) => "last prefill "@ + d.in_seconds().fixed(1) + "s"@,
            None => ""@,
        }
    }
}

pub open spec fn session_count(h: EngineHealth) -> nat {
    match h.sessions {
        Some(n) => n as nat,
        None => 0,
    }
}

/// What the front half is doing.
pub open spec fn front_phase(
    p: PipelineStatus,
    decoding: bool,
    rows: Reading,
    link_busy: bool,
) -> PhaseModel {
    match p.engine {
        Probe::Pending => PhaseModel::Unknown("waiting for /health"@),
        Probe::Failed(e) => PhaseModel::Down(e@),
        Probe::Up(h) => {
            let label = job_label(h.gpu_job);
            if prefill_job(label) {
                PhaseModel::Prefill {
                    elapsed_s: match p.prefill_elapsed {
                        Some(d) => Some(d.in_seconds()),
                        None => None,
                    },
                    job: label->0,
                    job_s: h.gpu_job_s,
                }
            } else if decoding {
                PhaseModel::Decode("verify "@ + rows.fixed(0) + " rows/s"@)
            } else {
                match label {
                    Some(job) => if job == "step"@ {
                        PhaseModel::Decode("verify step"@)
                    } else {
                        PhaseModel::Busy(job)
                    },
                    None => if session_count(h) > 0 && link_busy {
                        PhaseModel::Decode("steps on the link"@)
                    } else {
                        PhaseModel::Idle(idle_detail(session_count(h), p.last_prefill))
                    },
                }
            }
        },
    }
}

/// The larger of two readings; the other one where one is undefined.
pub open spec fn larger(a: Reading, b: Reading) -> Reading {
    if a.is_undefined() || b.above(a) {
        b
    } else {
        a
    }
}

/// The highest utilization among the first `n` devices.
pub open spec fn peak_utilization(d: Seq<DeviceModel>, n: nat) -> Option<Reading>
    decreases n,
{
    if n == 0 {
        None
    } else {
        let before = peak_utilization(d, (n - 1) as nat);
        match (before, d[n - 1].utilization) {
            (Some(a), Some(b)) => Some(larger(a, b)),
            (None, b) => b,
            (a, None) => a,
        }
    }
}

/// The first holder of the first lock that is held.
pub open spec fn first_holder(locks: Seq<LockModel>) -> Option<(u32, Seq<char>)>
    decreases locks.len(),
{
    if locks.len() == 0 {
        None
    } else if locks[0].holders.len() > 0 {
        Some(locks[0].holders[0])
    } else {
        first_holder(locks.drop_first())
    }
}

/// A lock holder in words, where there is one.
pub open spec fn holder_note(h: Option<(u32, Seq<char>)>) -> Seq<char> {
    match h {
        Some((pid, command)) => " · lock: "@ + command + " (pid "@ + decimal(pid as nat) + ")"@,
        None => ""@,
    }
}

/// What a back half that does not serve is doing.
pub open spec fn not_serving(peak: Option<Reading>, holder: Seq<char>) -> PhaseModel {
    match peak {
        Some(u) => if u.at_least(Reading::of_natural(BUSY_GPU_UTIL as nat)) {
            PhaseModel::Busy("not serving · GPU "@ + u.fixed(0) + "%"@ + holder)
        } else {
            PhaseModel::Idle("not serving"@ + holder)
        },
        None => PhaseModel::Idle("not serving"@ + holder),
    }
}

/// Completion tokens per step over the worker's lifetime.
pub open spec fn tokens_per_step(
    server: Option<JsonSampleModel>,
    split: Option<JsonSampleModel>,
) -> Option<Reading> {
    match (probe_value(server, "total_completion_tokens"@), probe_value(split, "steps"@)) {
        (Some(tokens), Some(total)) => if above_zero(total) && above_zero(tokens) {
            Some(tokens.quotient(total))
        } else {
            None
        },
        _ => None,
    }
}

/// A step rate in words, with the tokens that it is estimated to yield.
pub open spec fn decode_detail(steps: Reading, per_step: Option<Reading>) -> Seq<char> {
    match per_step {
        Some(k) => "≈"@ + steps.product(k).fixed(0) + " tok/s · "@ + steps.fixed(0)
            + " steps/s"@,
        None => steps.fixed(0) + " steps/s"@,
    }
}

/// What an idle back half says of itself.
pub open spec fn back_idle_detail(server: Option<JsonSampleModel>) -> Seq<char> {
    match probe_value(server, "avg_generation_tps"@) {
        Some(v) => if above_zero(v) {
            "avg "@ + v.fixed(0) + " tok/s"@
        } else {
            ""@
        },
        None => ""@,
    }
}

/// What the back half is doing.
pub open spec fn back_phase(
    section: Option<SectionModel>,
    probes: Option<ProbesModel>,
    split: Option<JsonSampleModel>,
    sup: Option<JsonSampleModel>,
    server: Option<JsonSampleModel>,
    front: PhaseModel,
) -> PhaseModel {
    let steps = step_rate(split);
    if section is Some && !section->0.connected {
        PhaseModel::Down("exporter unreachable"@)
    } else if split is None && sup is None {
        PhaseModel::Unknown("no phase probe (api --json-probe)"@)
    } else if !is_up(split) && !is_up(sup) {
        not_serving(
            match section {
                Some(s) => peak_utilization(s.devices, s.devices.len()),
                None => None,
            },
            holder_note(
                match probes {
                    Some(m) => first_holder(m.locks),
                    None => None,
                },
            ),
        )
    } else if is_decoding(steps) {
        PhaseModel::Decode(decode_detail(steps, tokens_per_step(server, split)))
    } else if is_in_flight(sup, server) {
        if front is Prefill {
            PhaseModel::Waiting("for the prefill state"@)
        } else {
            PhaseModel::Busy("request in flight"@)
        }
    } else {
        PhaseModel::Idle(back_idle_detail(server))
    }
}

/// What the link carries.
pub open spec fn link_use(front: PhaseModel, back: PhaseModel) -> LinkUse {
    if front is Prefill {
        LinkUse::PrefillState
    } else if front is Decode || back is Decode {
        LinkUse::Steps
    } else {
        LinkUse::Idle
    }
}

/// What a host is called; unknown where none was found.
pub open spec fn host_name(s: Seq<SectionModel>, id: Option<Seq<char>>) -> Seq<char> {
    match id {
        Some(h) => label_for(s, h),
        None => "?"@,
    }
}

pub open spec fn optional_probes(v: Seq<ProbesModel>, id: Option<Seq<char>>) -> Option<ProbesModel> {
    match id {
        Some(h) => probes_for(v, h),
        None => None,
    }
}

pub open spec fn optional_section(v: Seq<SectionModel>, id: Option<Seq<char>>) -> Option<
    SectionModel,
> {
    match id {
        Some(h) => section_for(v, h),
        None => None,
    }
}

/// The view of a pipeline whose halves run on the given hosts.
pub open spec fn pipeline_view(
    sections: Seq<SectionModel>,
    p: PipelineStatus,
    probes: Seq<ProbesModel>,
    front_id: Option<Seq<char>>,
    back_id: Option<Seq<char>>,
) -> PipelineModel {
    let front_probes = optional_probes(probes, front_id);
    let back_probes = optional_probes(probes, back_id);
    let split = json_named(back_probes, p.config.probe_split@);
    let sup = json_named(back_probes, p.config.probe_supervisor@);
    let server = json_named(back_probes, p.config.probe_server@);
    let steps = step_rate(split);
    let rows = or_zero(probe_rate(split, "rows"@));
    let to_back = first_of_two(
        first_link_rate(front_probes, true),
        first_link_rate(back_probes, false),
    );
    let to_front = first_of_two(
        first_link_rate(back_probes, true),
        first_link_rate(front_probes, false),
    );
    let front = front_phase(
        p,
        is_decoding(steps),
        rows,
        carries_steps(to_back) || carries_steps(to_front),
    );
    let back = back_phase(
        optional_section(sections, back_id),
        back_probes,
        split,
        sup,
        server,
        front,
    );
    PipelineModel {
        front_host: host_name(sections, front_id),
        back_host: host_name(sections, back_id),
        front,
        back,
        to_back,
        to_front,
        link: link_use(front, back),
    }
}

fn find_probes<'a>(v: &'a [HostProbes], host: &str) -> (r: Option<&'a HostProbes>)
    ensures
        match r {
            Some(p) => probes_for(probes_of(v@), host@) == Some(p@),
            None => probes_for(probes_of(v@), host@) is None,
        },
{
    let ghost all = probes_of(v@);
    let mut i: usize = 0;
    assert(all.skip(0) == all);
    while i < v.len()
        invariant
            i <= v@.len(),
            all == probes_of(v@),
            probes_for(all, host@) == probes_for(all.skip(i as int), host@),
        decreases v@.len() - i,
    {
        assert(all.skip(i as int)[0] == v@[i as int]@);
        if same(v[i].host_id.as_str(), host) {
            return Some(&v[i]);
        }
        assert(all.skip(i as int).drop_first() == all.skip(i + 1));
        i = i + 1;
    }
    None
}

fn find_section<'a>(v: &'a Vec<HostSection>, host: &str) -> (r: Option<&'a HostSection>)
    ensures
        match r {
            Some(s) => section_for(sections_of(v@), host@) == Some(s@),
            None => section_for(sections_of(v@), host@) is None,
        },
{
    let ghost all = sections_of(v@);
    let mut i: usize = 0;
    assert(all.skip(0) == all);
    while i < v.len()
        invariant
            i <= v@.len(),
            all == sections_of(v@),
            section_for(all, host@) == section_for(all.skip(i as int), host@),
        decreases v@.len() - i,
    {
        assert(all.skip(i as int)[0] == v@[i as int]@);
        if same(v[i].host_id.as_str(), host) {
            return Some(&v[i]);
        }
        assert(all.skip(i as int).drop_first() == all.skip(i + 1));
        i = i + 1;
    }
    None
}

pub open spec fn optional_view(p: Option<&HostProbes>) -> Option<ProbesModel> {
    match p {
        Some(x) => Some(x@),
        None => None,
    }
}

pub open spec fn sample_view(p: Option<&JsonProbeSample>) -> Option<JsonSampleModel> {
    match p {
        Some(x) => Some(x@),
        None => None,
    }
}

pub open spec fn section_view(s: Option<&HostSection>) -> Option<SectionModel> {
    match s {
        Some(x) => Some(x@),
        None => None,
    }
}

fn find_json<'a>(p: Option<&'a HostProbes>, name: &str) -> (r: Option<&'a JsonProbeSample>)
    ensures
        sample_view(r) == json_named(optional_view(p), name@),
{
    match p {
        Some(h) => h.json_probe(name),
        None => None,
    }
}

fn value_of(p: Option<&JsonProbeSample>, key: &str) -> (r: Option<Reading>)
    ensures
        r == probe_value(sample_view(p), key@),
{
    match p {
        Some(s) => s.value(key),
        None => None,
    }
}

fn rate_of(p: Option<&JsonProbeSample>, key: &str) -> (r: Option<Reading>)
    ensures
        r == probe_rate(sample_view(p), key@),
{
    match p {
        Some(s) => s.rate(key),
        None => None,
    }
}

fn default_zero(r: Option<Reading>) -> (x: Reading)
    ensures
        x == or_zero(r),
{
    match r {
        Some(v) => v,
        None => Reading { bits: 0 },
    }
}

fn answers(p: Option<&JsonProbeSample>) -> (r: bool)
    ensures
        r == is_up(sample_view(p)),
{
    match p {
        Some(s) => s.up,
        None => false,
    }
}

/// Transmit (or receive) rate of a host's first probed interface.
fn link_rate(probes: Option<&HostProbes>, tx: bool) -> (r: Option<Reading>)
    ensures
        r == first_link_rate(optional_view(probes), tx),
{
    match probes {
        Some(p) => {
            if p.interfaces.len() > 0 {
                assert(p@.interfaces[0] == p.interfaces@[0]@);
                if tx {
                    p.interfaces[0].tx_bytes_per_sec
                } else {
                    p.interfaces[0].rx_bytes_per_sec
                }
            } else {
                None
            }
        },
        None => None,
    }
}

fn busy_link(r: Option<Reading>) -> (b: bool)
    ensures
        b == carries_steps(r),
{
    match r {
        Some(x) => x.ge(Reading::from_u64(LINK_BUSY)),
        None => false,
    }
}

fn phase_of_front(p: &PipelineStatus, decoding: bool, rows: Reading, link_busy: bool) -> (r: Phase)
    ensures
        r@ == front_phase(*p, decoding, rows, link_busy),
{
    match &p.engine {
        Probe::Pending => Phase::Unknown(copied("waiting for /health")),
        Probe::Failed(e) => Phase::Down(copied(e.as_str())),
        Probe::Up(h) => {
            let label: Option<String> = h.gpu_job_label();
            if h.is_prefill() {
                let elapsed: Option<Reading> = match p.prefill_elapsed {
                    Some(d) => Some(d.seconds()),
                    None => None,
                };
                let job: String = match label {
                    Some(j) => j,
                    None => String::new(),
                };
                return Phase::Prefill { elapsed_s: elapsed, job, job_s: h.gpu_job_s };
            }
            if decoding {
                let n: String = rows.fixed_text(0);
                return Phase::Decode(concat3("verify ", n.as_str(), " rows/s"));
            }
            match label {
                Some(job) => if same(job.as_str(), "step") {
                    Phase::Decode(copied("verify step"))
                } else {
                    Phase::Busy(job)
                },
                None => {
                    let sessions: u64 = match h.sessions {
                        Some(n) => n,
                        None => 0,
                    };
                    // Steps last milliseconds and fall between polls; an open
                    // session with traffic on the link is decoding.
                    if sessions > 0 && link_busy {
                        Phase::Decode(copied("steps on the link"))
                    } else {
                        Phase::Idle(idle_text(sessions, p.last_prefill))
                    }
                },
            }
        },
    }
}

fn idle_text(sessions: u64, last_prefill: Option<Span>) -> (r: String)
    ensures
        r@ == idle_detail(sessions as nat, last_prefill),
{
    if sessions > 0 {
        let n: String = decimal_text(sessions as u128);
        let plural: &str = if sessions == 1 {
            ""
        } else {
            "s"
        };
        concat4(n.as_str(), " session", plural, " open")
    } else {
        match last_prefill {
            Some(d) => {
                let n: String = d.seconds().fixed_text(1);
                concat3("last prefill ", n.as_str(), "s")
            },
            None => copied(""),
        }
    }
}

fn peak_of(v: &Vec<DeviceRow>) -> (r: Option<Reading>)
    ensures
        r == peak_utilization(crate::ui::consolidated::model::device_rows(v@), v@.len()),
{
    let ghost rows = crate::ui::consolidated::model::device_rows(v@);
    let mut peak: Option<Reading> = None;
    let mut i: usize = 0;
    while i < v.len()
        invariant
            i <= v@.len(),
            rows == crate::ui::consolidated::model::device_rows(v@),
            peak == peak_utilization(rows, i as nat),
        decreases v@.len() - i,
    {
        assert(rows[i as int] == v@[i as int]@);
        if let Some(b) = v[i].utilization {
            peak = match peak {
                Some(a) => if a.is_nan() || b.gt(a) {
                    Some(b)
                } else {
                    Some(a)
                },
                None => Some(b),
            };
        }
        i = i + 1;
    }
    peak
}

fn holder_text(p: &HostProbes) -> (r: String)
    ensures
        r@ == holder_note(first_holder(p@.locks)),
{
    let ghost all = p@.locks;
    let mut i: usize = 0;
    assert(all.skip(0) == all);
    while i < p.locks.len()
        invariant
            i <= p.locks@.len(),
            all == lock_samples(p.locks@),
            first_holder(all) == first_holder(all.skip(i as int)),
        decreases p.locks@.len() - i,
    {
        assert(all.skip(i as int)[0] == p.locks@[i as int]@);
        if p.locks[i].holders.len() > 0 {
            let h: &LockHolder = &p.locks[i].holders[0];
            assert(holders_of(p.locks@[i as int].holders@)[0] == h@);
            let pid: String = decimal_text(h.pid as u128);
            return concat5(" · lock: ", h.command.as_str(), " (pid ", pid.as_str(), ")");
        }
        assert(all.skip(i as int).drop_first() == all.skip(i + 1));
        i = i + 1;
    }
    copied("")
}

fn phase_of_back(
    section: Option<&HostSection>,
    probes: Option<&HostProbes>,
    split: Option<&JsonProbeSample>,
    sup: Option<&JsonProbeSample>,
    server: Option<&JsonProbeSample>,
    front: &Phase,
) -> (r: Phase)
    ensures
        r@ == back_phase(
            section_view(section),
            optional_view(probes),
            sample_view(split),
            sample_view(sup),
            sample_view(server),
            front@,
        ),
{
    let zero: Reading = Reading { bits: 0 };
    let reachable: bool = match section {
        Some(s) => s.connected,
        None => true,
    };
    if !reachable {
        return Phase::Down(copied("exporter unreachable"));
    }
    if split.is_none() && sup.is_none() {
        return Phase::Unknown(copied("no phase probe (api --json-probe)"));
    }
    if !answers(split) && !answers(sup) {
        // The exporter answers but the serving process does not. The GPU may
        // still be busy with work outside the serving stack (a benchmark
        // holding the lock): say so rather than "idle".
        let peak: Option<Reading> = match section {
            Some(s) => peak_of(&s.devices),
            None => None,
        };
        let holder: String = match probes {
            Some(p) => holder_text(p),
            None => copied(""),
        };
        return match peak {
            Some(u) => if u.ge(Reading::from_u64(BUSY_GPU_UTIL)) {
                let n: String = u.fixed_text(0);
                Phase::Busy(concat4("not serving · GPU ", n.as_str(), "%", holder.as_str()))
            } else {
                Phase::Idle(concat2("not serving", holder.as_str()))
            },
            None => Phase::Idle(concat2("not serving", holder.as_str())),
        };
    }
    let steps: Reading = worker_steps(split);
    if steps.ge(Reading { bits: DECODE_MIN_STEPS }) {
        let n: String = steps.fixed_text(0);
        let tokens: Option<Reading> = value_of(server, "total_completion_tokens");
        let total: Option<Reading> = value_of(split, "steps");
        let per_step: Option<Reading> = match (tokens, total) {
            (Some(a), Some(b)) => if b.gt(zero) && a.gt(zero) {
                Some(a.over(b))
            } else {
                None
            },
            _ => None,
        };
        return match per_step {
            Some(k) => {
                let t: String = steps.times(k).fixed_text(0);
                Phase::Decode(concat5("≈", t.as_str(), " tok/s · ", n.as_str(), " steps/s"))
            },
            None => Phase::Decode(concat2(n.as_str(), " steps/s")),
        };
    }
    if default_zero(value_of(sup, "inflight")).gt(zero) || default_zero(
        value_of(server, "active_requests"),
    ).gt(zero) {
        return match front {
            Phase::Prefill { .. } => Phase::Waiting(copied("for the prefill state")),
            _ => Phase::Busy(copied("request in flight")),
        };
    }
    match value_of(server, "avg_generation_tps") {
        Some(v) => if v.gt(zero) {
            let n: String = v.fixed_text(0);
            Phase::Idle(concat3("avg ", n.as_str(), " tok/s"))
        } else {
            Phase::Idle(copied(""))
        },
        None => Phase::Idle(copied("")),
    }
}

fn worker_steps(split: Option<&JsonProbeSample>) -> (r: Reading)
    ensures
        r == step_rate(sample_view(split)),
{
    if answers(split) {
        default_zero(rate_of(split, "steps"))
    } else {
        Reading { bits: 0 }
    }
}

/// Whether a host is reached at `address`.
pub open spec fn has_address(host_id: Seq<char>, address: Seq<char>) -> bool {
    let id = identifier(host_id);
    let at = rfind(id, ":"@);
    at >= 0 && id.take(at) == address
}

/// The first section whose host is reached at `address`.
pub open spec fn host_at(v: Seq<SectionModel>, address: Seq<char>) -> Option<Seq<char>>
    decreases v.len(),
{
    if v.len() == 0 {
        None
    } else if has_address(v[0].host_id, address) {
        Some(v[0].host_id)
    } else {
        host_at(v.drop_first(), address)
    }
}

/// The host that a parsed URL reaches.
pub open spec fn host_of(v: Seq<SectionModel>, parsed: Result<UrlModel, Seq<char>>) -> Option<
    Seq<char>,
> {
    match parsed {
        Ok(u) => match u.host {
            Some(h) => host_at(v, h),
            None => None,
        },
        Err(_) => None,
    }
}

/// Whether a host is reached at `address`.
pub fn reaches(host_id: &str, address: &str) -> (r: bool)
    ensures
        r == has_address(host_id@, address@),
{
    let id: String = host_identifier(host_id);
    let c: Vec<char> = chars_of(id.as_str());
    let colon: Vec<char> = chars_of(":");
    match last_occurrence(c.as_slice(), colon.as_slice()) {
        Some(at) => {
            let ip: String = text_between(c.as_slice(), 0, at);
            assert(c@.subrange(0, at as int) == c@.take(at as int));
            same(ip.as_str(), address)
        },
        None => false,
    }
}

/// The scraped host that a parsed URL reaches, if any.
pub fn host_for_parsed(model: &ConsolidatedModel, parsed: &Result<UrlParts, String>) -> (r: Option<
    String,
>)
    ensures
        optional_text(r) == host_of(sections_of(model.hosts@), parse_view(*parsed)),
{
    match parsed {
        Err(_) => None,
        Ok(u) => match &u.host {
            None => None,
            Some(address) => {
                let ghost all = sections_of(model.hosts@);
                let mut i: usize = 0;
                assert(all.skip(0) == all);
                while i < model.hosts.len()
                    invariant
                        i <= model.hosts@.len(),
                        all == sections_of(model.hosts@),
                        host_of(all, parse_view(*parsed)) == host_at(all, address@),
                        host_at(all, address@) == host_at(all.skip(i as int), address@),
                    decreases model.hosts@.len() - i,
                {
                    assert(all.skip(i as int)[0] == model.hosts@[i as int]@);
                    if reaches(model.hosts[i].host_id.as_str(), address.as_str()) {
                        return Some(copied(model.hosts[i].host_id.as_str()));
                    }
                    assert(all.skip(i as int).drop_first() == all.skip(i + 1));
                    i = i + 1;
                }
                None
            },
        },
    }
}

/// The scraped host whose address matches the URL's host, if any.
pub fn host_for_url(model: &ConsolidatedModel, url: &str) -> (r: Option<String>)
    ensures
        optional_text(r) == host_of(sections_of(model.hosts@), url_parse(url@)),
{
    host_for_parsed(model, &parse_url(url))
}

impl PipelineView {
    /// The view of a pipeline whose halves run on the given hosts.
    pub fn assemble(
        model: &ConsolidatedModel,
        p: &PipelineStatus,
        probes: &[HostProbes],
        front_id: &Option<String>,
        back_id: &Option<String>,
    ) -> (r: PipelineView)
        ensures
            r@ == pipeline_view(
                sections_of(model.hosts@),
                *p,
                probes_of(probes@),
                optional_text(*front_id),
                optional_text(*back_id),
            ),
    {
        let front_probes: Option<&HostProbes> = match front_id {
            Some(h) => find_probes(probes, h.as_str()),
            None => None,
        };
        let back_probes: Option<&HostProbes> = match back_id {
            Some(h) => find_probes(probes, h.as_str()),
            None => None,
        };
        let section: Option<&HostSection> = match back_id {
            Some(h) => find_section(&model.hosts, h.as_str()),
            None => None,
        };
        let split: Option<&JsonProbeSample> = find_json(
            back_probes,
            p.config.probe_split.as_str(),
        );
        let sup: Option<&JsonProbeSample> = find_json(
            back_probes,
            p.config.probe_supervisor.as_str(),
        );
        let server: Option<&JsonProbeSample> = find_json(
            back_probes,
            p.config.probe_server.as_str(),
        );
        let steps: Reading = worker_steps(split);
        let rows: Reading = default_zero(rate_of(split, "rows"));
        let decoding: bool = steps.ge(Reading { bits: DECODE_MIN_STEPS });
        let sent: Option<Reading> = link_rate(front_probes, true);
        let to_back: Option<Reading> = if sent.is_some() {
            sent
        } else {
            link_rate(back_probes, false)
        };
        let returned: Option<Reading> = link_rate(back_probes, true);
        let to_front: Option<Reading> = if returned.is_some() {
            returned
        } else {
            link_rate(front_probes, false)
        };
        let link_busy: bool = busy_link(to_back) || busy_link(to_front);
        let front: Phase = phase_of_front(p, decoding, rows, link_busy);
        let back: Phase = phase_of_back(section, back_probes, split, sup, server, &front);
        let link: LinkUse = match (&front, &back) {
            (Phase::Prefill { .. }, _) => LinkUse::PrefillState,
            (_, Phase::Decode(_)) => LinkUse::Steps,
            (Phase::Decode(_), _) => LinkUse::Steps,
            _ => LinkUse::Idle,
        };
        let front_host: String = match front_id {
            Some(h) => model.host_label(h.as_str()),
            None => copied("?"),
        };
        let back_host: String = match back_id {
            Some(h) => model.host_label(h.as_str()),
            None => copied("?"),
        };
        PipelineView { front_host, back_host, front, back, to_back, to_front, link }
    }

    /// The view of a pipeline, its halves found by the hosts of its endpoints.
    pub fn build(model: &ConsolidatedModel, p: &PipelineStatus, probes: &[HostProbes]) -> (r:
        PipelineView)
        ensures
            r@ == pipeline_view(
                sections_of(model.hosts@),
                *p,
                probes_of(probes@),
                host_of(sections_of(model.hosts@), url_parse(p.config.health_url@)),
                host_of(sections_of(model.hosts@), url_parse(p.config.swap_url@)),
            ),
    {
        let front_id: Option<String> = host_for_url(model, p.config.health_url.as_str());
        let back_id: Option<String> = host_for_url(model, p.config.swap_url.as_str());
        PipelineView::assemble(model, p, probes, &front_id, &back_id)
    }
}

/// A dead engine is never shown at work: after a failed poll the front half is
/// down, whatever the probes say.
pub proof fn a_failed_engine_is_down(
    p: PipelineStatus,
    decoding: bool,
    rows: Reading,
    link_busy: bool,
)
    requires
        p.engine is Failed,
    ensures
        front_phase(p, decoding, rows, link_busy) is Down,
        !active(front_phase(p, decoding, rows, link_busy)),
{
}

} // verus!
