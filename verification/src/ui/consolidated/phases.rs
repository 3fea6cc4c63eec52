//! What the phases of the pipeline follow from.
use vstd::arithmetic::power2::*;
use vstd::prelude::*;
use vstd::string::*;

use crate::common::span::Span;
use crate::probes::ProbesModel;
use crate::probes::json::JsonSampleModel;
use crate::probes::lock::LockModel;
use crate::reading::{bits_of_a_fraction, nearest, nothing_is_zero, Reading};
use crate::table::find_entry;
use crate::text::{begins, decimal};
use crate::ui::consolidated::history::{polled, samples_of, SeriesModel};
use crate::ui::consolidated::model::{DeviceModel, SectionModel};
use crate::ui::consolidated::pipeline::{
    field_text, in_prefill, job_label, shown, shown_models, timed, EngineHealth, GpuJob, JobField,
    PipelineStatus, PrefillTiming, Probe,
};
use crate::ui::consolidated::pipeline_view::{
    back_phase, carries_steps, decode_detail, first_holder, front_phase, idle_detail, is_decoding,
    not_serving, peak_utilization, pipeline_view, probes_for, section_for, step_rate,
    tokens_per_step, LinkUse, PhaseModel,
};
use crate::ui::consolidated::recording::{after_reading, samples_queue_up, takes};

verus! {

/// The names of jobs that belong to the prefill.
pub open spec fn names_a_prefill(job: Seq<char>) -> bool {
    begins(job, "prefill"@) || begins(job, "vision"@) || begins(job, "restore"@) || begins(
        job,
        "snapshot"@,
    )
}

/// The front half is down where its endpoint failed, with the reason, and unknown
/// before the first answer. Of an engine that answers, a prefill job makes it a
/// prefill, with that job and for as long as it has been seen; else decoding
/// steps make it a decode, and so does a step that holds the GPU, or open
/// sessions while the link carries steps; any other job makes it busy, and none
/// idle.
pub proof fn the_front_half_follows_the_engine(
    p: PipelineStatus,
    decoding: bool,
    rows: Reading,
    link_busy: bool,
)
    ensures
        ({
            let phase = front_phase(p, decoding, rows, link_busy);
            &&& p.engine matches Probe::Failed(e) ==> phase == PhaseModel::Down(e@)
            &&& p.engine is Pending ==> phase is Unknown
            &&& p.engine matches Probe::Up(h) ==> {
                let job = job_label(h.gpu_job);
                if job is Some && names_a_prefill(job->0) {
                    &&& phase is Prefill
                    &&& phase->job == job->0
                    &&& phase->job_s == h.gpu_job_s
                    &&& phase->elapsed_s is Some == p.prefill_elapsed is Some
                    &&& p.prefill_elapsed matches Some(s) ==> phase->elapsed_s == Some(
                        s.in_seconds(),
                    )
                } else if decoding {
                    phase == PhaseModel::Decode("verify "@ + rows.fixed(0) + " rows/s"@)
                } else if job == Some("step"@) {
                    phase is Decode
                } else if job is Some {
                    phase == PhaseModel::Busy(job->0)
                } else if h.sessions is Some && h.sessions->0 > 0 && link_busy {
                    phase is Decode
                } else {
                    phase is Idle
                }
            }
        }),
{
}

/// The back half is down where its exporter is, and unknown without a probe. Where
/// neither probe answers it is not serving: busy only where something else works
/// its GPUs. It decodes while steps come in, waits for the front half to prefill,
/// is busy with any other request, and idle without.
pub proof fn the_back_half_follows_its_probes(
    section: Option<SectionModel>,
    probes: Option<ProbesModel>,
    split: Option<JsonSampleModel>,
    sup: Option<JsonSampleModel>,
    server: Option<JsonSampleModel>,
    front: PhaseModel,
)
    ensures
        ({
            let phase = back_phase(section, probes, split, sup, server, front);
            let zero = Reading { bits: 0 };
            let reachable = section is None || section->0.connected;
            let probed = split is Some || sup is Some;
            let answered = (split is Some && split->0.up) || (sup is Some && sup->0.up);
            let steps = if split is Some && split->0.up && split->0.rates.contains_key("steps"@) {
                split->0.rates["steps"@]
            } else {
                zero
            };
            let in_flight = (sup is Some && sup->0.values.contains_key("inflight"@)
                && sup->0.values["inflight"@].above(zero)) || (server is Some
                && server->0.values.contains_key("active_requests"@)
                && server->0.values["active_requests"@].above(zero));
            &&& !reachable ==> phase is Down
            &&& reachable && !probed ==> phase is Unknown
            &&& reachable && probed && !answered ==> phase is Busy || phase is Idle
            &&& reachable && probed && answered ==> {
                if is_decoding(steps) {
                    phase is Decode
                } else if in_flight {
                    if front is Prefill {
                        phase is Waiting
                    } else {
                        phase is Busy
                    }
                } else {
                    phase is Idle
                }
            }
        }),
{
}

/// Steps count as decoding from one in five seconds on, and a link carries steps
/// from a million bytes per second on.
pub proof fn decoding_takes_steps(steps: Reading, bytes: Reading)
    requires
        steps.finite(),
        !steps.negative(),
    ensures
        is_decoding(steps) == (steps.magnitude() >= nearest(2 * pow2(1074), 10)),
        carries_steps(Some(bytes)) == bytes.at_least(Reading::of_natural(1_000_000)),
        !carries_steps(None),
{
    lemma2_to64();
    lemma2_to64_rest();
    assert(pow2(55) == 36_028_797_018_963_968);
    bits_of_a_fraction(2, 10, 55, 7_205_759_403_792_794);
}

/// What goes to the back half is what the front host sends, or, where that is not
/// known, what the back host receives; what comes to the front half the other way
/// round. The link carries the prefill state while the front half prefills, and
/// steps while either half decodes.
pub proof fn links_run_from_sender_to_receiver(
    sections: Seq<SectionModel>,
    p: PipelineStatus,
    probes: Seq<ProbesModel>,
    a: Seq<char>,
    b: Seq<char>,
)
    ensures
        ({
            let v = pipeline_view(sections, p, probes, Some(a), Some(b));
            let (fa, fb) = (probes_for(probes, a), probes_for(probes, b));
            let linked = fa is Some && fa->0.interfaces.len() > 0 && fb is Some
                && fb->0.interfaces.len() > 0;
            &&& linked ==> {
                let (x, y) = (fa->0.interfaces[0], fb->0.interfaces[0]);
                &&& v.to_back == if x.tx_bytes_per_sec is Some {
                    x.tx_bytes_per_sec
                } else {
                    y.rx_bytes_per_sec
                }
                &&& v.to_front == if y.tx_bytes_per_sec is Some {
                    y.tx_bytes_per_sec
                } else {
                    x.rx_bytes_per_sec
                }
            }
            &&& v.front is Prefill ==> v.link == LinkUse::PrefillState
            &&& v.front is Decode ==> v.link == LinkUse::Steps
            &&& v.front !is Prefill && v.back is Decode ==> v.link == LinkUse::Steps
            &&& v.front !is Prefill && v.front !is Decode && v.back !is Decode ==> v.link
                == LinkUse::Idle
        }),
{
}

/// A prefill is timed from the poll that first shows it: while it goes on it has
/// run since then, and once it is over the last prefill took as long as it had
/// run at the poll before.
pub proof fn prefills_are_timed_from_their_first_poll(
    before: PrefillTiming,
    start: u64,
    later: u64,
    end: u64,
)
    requires
        ({
            let (since, _, _) = before;
            since is None
        }),
    ensures
        ({
            let first = timed(before, true, start);
            let second = timed(first, true, later);
            let (since, elapsed, _) = second;
            let (over, running, last) = timed(second, false, end);
            &&& since == Some(start)
            &&& elapsed == Some(Span::spanning(start, later))
            &&& over is None && running is None
            &&& last == Some(Span::spanning(start, later))
        }),
        ({
            let (_, _, last) = before;
            let (over, _, kept) = timed(before, false, end);
            over is None && kept == last
        }),
{
}

/// Only an engine that answers with a prefill job is in prefill.
pub proof fn prefills_are_known_by_their_job(engine: Probe<EngineHealth>)
    ensures
        in_prefill(engine) == (engine is Up && job_label(engine->Up_0.gpu_job) is Some
            && names_a_prefill(job_label(engine->Up_0.gpu_job)->0)),
{
}

/// A job is called by its text, or by the first of the fields that name it.
pub proof fn jobs_are_called_by_their_name(
    text: String,
    fields: Vec<(String, JobField)>,
    json: String,
)
    ensures
        job_label(None) is None,
        job_label(Some(GpuJob::Null)) is None,
        job_label(Some(GpuJob::Text(text))) == Some(shown(text@)),
        find_entry(fields@, "name"@) matches Some(f) ==> job_label(
            Some(GpuJob::Object { fields, json }),
        ) == Some(shown(field_text(f))),
        find_entry(fields@, "name"@) is None ==> (find_entry(fields@, "kind"@) matches Some(f)
            ==> job_label(Some(GpuJob::Object { fields, json })) == Some(shown(field_text(f)))),
        find_entry(fields@, "name"@) is None && find_entry(fields@, "kind"@) is None && find_entry(
            fields@,
            "type"@,
        ) is None && find_entry(fields@, "job"@) is None && find_entry(
            fields@,
            "session"@,
        ) is None ==> job_label(Some(GpuJob::Object { fields, json })) == Some(shown(json@)),
{
}

/// The highest utilization of a host's devices is that of one of them, and none
/// is higher.
pub proof fn the_busiest_device_counts(d: Seq<DeviceModel>, n: nat)
    requires
        n <= d.len(),
        forall|i: int|
            0 <= i < d.len() ==> ((#[trigger] d[i]).utilization matches Some(u)
                ==> !u.is_undefined()),
    ensures
        ({
            let peak = peak_utilization(d, n);
            &&& forall|i: int|
                0 <= i < n && (#[trigger] d[i]).utilization is Some ==> peak is Some
                    && peak->0.at_least(d[i].utilization->0)
            &&& peak is Some ==> !peak->0.is_undefined() && exists|i: int|
                0 <= i < n && (#[trigger] d[i]).utilization == peak
        }),
    decreases n,
{
    if n > 0 {
        the_busiest_device_counts(d, (n - 1) as nat);
        let (before, peak) = (peak_utilization(d, (n - 1) as nat), peak_utilization(d, n));
        assert(d[n - 1].utilization matches Some(u) ==> !u.is_undefined());
        if peak is Some {
            if peak == d[n - 1].utilization {
            } else {
                let i = choose|i: int| 0 <= i < n - 1 && (#[trigger] d[i]).utilization == before;
                assert(d[i].utilization == peak);
            }
        }
    }
}

/// What is not serving is busy from 20 percent of its busiest GPU on.
pub proof fn other_work_shows_as_busy(peak: Reading, holder: Seq<char>)
    ensures
        not_serving(Some(peak), holder) is Busy == peak.at_least(
            Reading::of_natural(20),
        ),
        not_serving(Some(peak), holder) is Busy ==> not_serving(Some(peak), holder)
            == PhaseModel::Busy("not serving · GPU "@ + peak.fixed(0) + "%"@ + holder),
        not_serving(None, holder) == PhaseModel::Idle("not serving"@ + holder),
{
}

/// The holder that is named is the first of the first lock that is held.
pub proof fn the_first_held_lock_is_named(locks: Seq<LockModel>, i: int)
    requires
        0 <= i < locks.len(),
        locks[i].holders.len() > 0,
        forall|j: int| 0 <= j < i ==> (#[trigger] locks[j]).holders.len() == 0,
    ensures
        first_holder(locks) == Some(locks[i].holders[0]),
    decreases locks.len(),
{
    if i > 0 {
        let rest = locks.drop_first();
        assert(locks[0].holders.len() == 0);
        assert forall|j: int| 0 <= j < i - 1 implies (#[trigger] rest[j]).holders.len() == 0 by {
            assert(rest[j] == locks[j + 1]);
        }
        the_first_held_lock_is_named(rest, i - 1);
    }
}

/// The probes and the section of a host are the first ones under its identifier.
pub proof fn hosts_are_found_by_identifier(
    probes: Seq<ProbesModel>,
    sections: Seq<SectionModel>,
    i: int,
    j: int,
)
    requires
        0 <= i < probes.len(),
        0 <= j < sections.len(),
        forall|k: int| 0 <= k < i ==> (#[trigger] probes[k]).host_id != probes[i].host_id,
        forall|k: int| 0 <= k < j ==> (#[trigger] sections[k]).host_id != sections[j].host_id,
    ensures
        probes_for(probes, probes[i].host_id) == Some(probes[i]),
        section_for(sections, sections[j].host_id) == Some(sections[j]),
{
    probes_found(probes, i);
    section_found(sections, j);
}

proof fn probes_found(v: Seq<ProbesModel>, i: int)
    requires
        0 <= i < v.len(),
        forall|k: int| 0 <= k < i ==> (#[trigger] v[k]).host_id != v[i].host_id,
    ensures
        probes_for(v, v[i].host_id) == Some(v[i]),
    decreases v.len(),
{
    if i > 0 {
        let rest = v.drop_first();
        assert(v[0].host_id != v[i].host_id);
        assert(rest[i - 1] == v[i]);
        assert forall|k: int| 0 <= k < i - 1 implies (#[trigger] rest[k]).host_id
            != rest[i - 1].host_id by {
            assert(rest[k] == v[k + 1]);
        }
        probes_found(rest, i - 1);
    }
}

proof fn section_found(v: Seq<SectionModel>, i: int)
    requires
        0 <= i < v.len(),
        forall|k: int| 0 <= k < i ==> (#[trigger] v[k]).host_id != v[i].host_id,
    ensures
        section_for(v, v[i].host_id) == Some(v[i]),
    decreases v.len(),
{
    if i > 0 {
        let rest = v.drop_first();
        assert(v[0].host_id != v[i].host_id);
        assert(rest[i - 1] == v[i]);
        assert forall|k: int| 0 <= k < i - 1 implies (#[trigger] rest[k]).host_id
            != rest[i - 1].host_id by {
            assert(rest[k] == v[k + 1]);
        }
        section_found(rest, i - 1);
    }
}

/// Tokens per step are the tokens completed over the steps taken, where there
/// were any of both; the rate of tokens is that times the rate of steps.
pub proof fn tokens_follow_from_steps(
    server: JsonSampleModel,
    split: JsonSampleModel,
    steps: Reading,
    per_step: Reading,
)
    ensures
        ({
            let zero = Reading { bits: 0 };
            let known = server.values.contains_key("total_completion_tokens"@)
                && split.values.contains_key("steps"@);
            let (tokens, taken) = (
                server.values["total_completion_tokens"@],
                split.values["steps"@],
            );
            tokens_per_step(Some(server), Some(split)) == if known && tokens.above(zero)
                && taken.above(zero) {
                Some(tokens.quotient(taken))
            } else {
                None
            }
        }),
        decode_detail(steps, Some(per_step)) == "≈"@ + steps.product(per_step).fixed(0)
            + " tok/s · "@ + steps.fixed(0) + " steps/s"@,
        decode_detail(steps, None) == steps.fixed(0) + " steps/s"@,
{
}

/// An idle engine tells of its open sessions, else of its last prefill.
pub proof fn idle_engines_tell_of_their_sessions(n: nat, last: Span)
    ensures
        idle_detail(1, Some(last)) == decimal(1) + " session"@ + ""@ + " open"@,
        n > 1 ==> idle_detail(n, Some(last)) == decimal(n) + " session"@ + "s"@ + " open"@,
        idle_detail(0, Some(last)) == "last prefill "@ + last.in_seconds().fixed(1) + "s"@,
        idle_detail(0, None) == ""@,
{
}

/// A poll records whether a job holds the GPU, one or zero, and how many wait.
pub proof fn polls_record_the_engine(m: SeriesModel, h: EngineHealth)
    requires
        takes(m, "pipe_busy"@),
        takes(m, "pipe_queue"@),
        h.queued_jobs matches Some(q) ==> Reading::of_natural(q as nat).finite(),
    ensures
        ({
            let after = polled(m, h);
            let busy = Reading::of_natural(
                if job_label(h.gpu_job) is Some {
                    1
                } else {
                    0
                },
            );
            &&& samples_of(after, "pipe_busy"@) == after_reading(
                samples_of(m, "pipe_busy"@),
                Some(busy),
            )
            &&& samples_of(after, "pipe_queue"@) == after_reading(
                samples_of(m, "pipe_queue"@),
                match h.queued_jobs {
                    Some(q) => Some(Reading::of_natural(q as nat)),
                    None => None,
                },
            )
        }),
{
    reveal_strlit("pipe_busy");
    reveal_strlit("pipe_queue");
    let (b, q) = ("pipe_busy"@, "pipe_queue"@);
    assert(b[5] == 'b' && q[5] == 'q');
    let busy = Reading::of_natural(
        if job_label(h.gpu_job) is Some {
            1
        } else {
            0
        },
    );
    samples_queue_up(m, b, busy, q);
    let a = crate::ui::consolidated::history::with_sample(m, b, busy);
    if let Some(n) = h.queued_jobs {
        samples_queue_up(a, q, Reading::of_natural(n as nat), b);
    }
}

/// At most sixteen models are listed, as they come, their texts made harmless.
pub proof fn models_are_listed_as_they_come(
    v: Seq<(Seq<char>, Seq<char>, Seq<char>)>,
    i: int,
)
    requires
        0 <= i < shown_models(v).len(),
    ensures
        shown_models(v).len() <= v.len(),
        shown_models(v)[i].0 == shown(v[i].0),
        shown_models(v)[i].1 == shown(v[i].1),
        shown_models(v)[i].2 == shown(v[i].2),
        v.len() <= 16 ==> shown_models(v).len() == v.len(),
        v.len() > 16 ==> shown_models(v).len() == 16,
{
}

/// An endpoint that is down, or that is not probed, takes no steps, whatever it
/// was last seen with.
pub proof fn silent_endpoints_take_no_steps(s: JsonSampleModel)
    ensures
        step_rate(None) == Reading::of_natural(0),
        !s.up ==> step_rate(Some(s)) == Reading::of_natural(0),
        s.up && s.rates.contains_key("steps"@) ==> step_rate(Some(s)) == s.rates["steps"@],
{
    nothing_is_zero();
}

} // verus!
