use all_smi::ui::consolidated::history::ConsolidatedState;
use all_smi::common::span::Span;
use all_smi::ui::consolidated::pipeline::{
    EngineHealth, GpuJob, PipelineConfig, PipelineStatus, Probe,
};
use all_smi::view::data_collection::pipeline_poller::{
    check_body, check_status, client_failure, describe, judge_status, record_poll, swap_poll_due,
    Failure, MAX_BODY_BYTES,
};

fn failure(timed_out: bool, not_connected: bool, message: &str) -> Failure {
    Failure { timed_out, not_connected, message: message.to_string() }
}

#[test]
fn unreachable_endpoints_are_stored_as_failures() {
    let config = PipelineConfig::icculis(
        Some("http://127.0.0.1:9/health".to_string()),
        Some("http://127.0.0.1:9".to_string()),
    );
    let mut state = ConsolidatedState::default();
    state.pipeline = Some(PipelineStatus::new(config));
    let down = describe(&failure(false, true, "error sending request"));
    record_poll(&mut state, Err(down.clone()), Some(Err(down)), 0);
    let pipeline = state.pipeline.as_ref().unwrap();
    assert!(matches!(pipeline.engine, Probe::Failed(_)));
    assert!(matches!(pipeline.swap, Probe::Failed(_)));
    // Not polled this time: what was known of it stays.
    record_poll(&mut state, Err("timed out".to_string()), None, 1);
    let pipeline = state.pipeline.as_ref().unwrap();
    match (&pipeline.engine, &pipeline.swap) {
        (Probe::Failed(engine), Probe::Failed(swap)) => {
            assert_eq!(engine, "timed out");
            assert_eq!(swap, "connection failed");
        }
        _ => panic!("both were down"),
    }
    assert!(state.history.is_empty());
}

#[test]
fn a_prefill_is_timed_across_polls() {
    let mut state = ConsolidatedState::default();
    state.pipeline = Some(PipelineStatus::new(PipelineConfig::icculis(None, None)));
    let health = |job: Option<GpuJob>| EngineHealth {
        ok: Some(true),
        encoder: None,
        step_api: None,
        sessions: None,
        connections: None,
        gpu_job: job,
        gpu_job_s: None,
        queued_jobs: None,
        cache: None,
        uptime_s: None,
        version: None,
        numerics: None,
        restart_pending: None,
    };
    let prefill = || Ok(health(Some(GpuJob::Text("prefill".to_string()))));
    record_poll(&mut state, prefill(), None, 1_000_000_000);
    record_poll(&mut state, prefill(), None, 4_000_000_000);
    let ran = Span::between(1_000_000_000, 4_000_000_000);
    assert_eq!(state.pipeline.as_ref().unwrap().prefill_elapsed, Some(ran));
    record_poll(&mut state, Ok(health(None)), None, 5_000_000_000);
    let pipeline = state.pipeline.as_ref().unwrap();
    assert_eq!((pipeline.prefill_since, pipeline.prefill_elapsed), (None, None));
    assert_eq!(pipeline.last_prefill, Some(ran));
}

#[test]
fn running_models_are_asked_for_every_ten_seconds() {
    assert!(swap_poll_due(None));
    assert!(!swap_poll_due(Some(9)));
    assert!(swap_poll_due(Some(10)));
}

#[test]
fn failures_are_described_briefly() {
    assert_eq!(describe(&failure(true, true, "x")), "timed out");
    assert_eq!(describe(&failure(false, true, "x")), "connection failed");
    assert_eq!(describe(&failure(false, false, "builder error")), "builder error");
    let long = "é".repeat(100);
    assert_eq!(describe(&failure(false, false, &long)), "é".repeat(80));
    assert_eq!(client_failure("no TLS"), "HTTP client: no TLS");
}

#[test]
fn a_reply_is_judged_by_its_status() {
    assert_eq!(check_status(200), Ok(()));
    assert_eq!(check_status(299), Ok(()));
    assert_eq!(check_status(404), Err("HTTP 404 Not Found".to_string()));
    assert_eq!(check_status(199), Err("HTTP 199 <unknown status code>".to_string()));
    assert_eq!(judge_status(500, "500 Oops"), Err("HTTP 500 Oops".to_string()));
    assert_eq!(judge_status(204, "204 No Content"), Ok(()));
}

#[test]
fn a_body_has_a_largest_size() {
    assert_eq!(check_body(vec![1, 2]), Ok(vec![1, 2]));
    assert_eq!(check_body(vec![0; MAX_BODY_BYTES]).map(|b| b.len()), Ok(1_048_576));
    assert_eq!(
        check_body(vec![0; MAX_BODY_BYTES + 1]),
        Err("response too large (1048577 bytes)".to_string())
    );
}
