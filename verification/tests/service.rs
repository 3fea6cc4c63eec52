use all_smi::service_cmd::scm_host::{
    api_args, failed, handle_control, serving, start_failure, starting, stopped, ApiSettings,
    ControlResult, ServiceControl, ServiceExitCode, ServiceState, StartStep,
};

#[test]
fn a_stop_is_reported_and_passed_on() {
    for control in [ServiceControl::Stop, ServiceControl::Shutdown] {
        let response = handle_control(control, 30);
        let report = response.report.unwrap();
        assert_eq!(report.current_state, ServiceState::StopPending);
        assert_eq!(report.wait_hint, 30);
        assert!(!report.accepts_stop);
        assert!(response.shut_down);
        assert_eq!(response.result, ControlResult::NoError);
    }
    let asked = handle_control(ServiceControl::Interrogate, 30);
    assert_eq!(asked.report, None);
    assert!(!asked.shut_down);
    assert_eq!(asked.result, ControlResult::NoError);
    let unknown = handle_control(ServiceControl::Other, 30);
    assert_eq!(unknown.report, None);
    assert_eq!(unknown.result, ControlResult::NotImplemented);
}

#[test]
fn the_service_runs_once_it_serves() {
    let first = starting(20);
    assert_eq!(first.current_state, ServiceState::StartPending);
    assert!(first.accepts_stop);
    assert_eq!(first.wait_hint, 20);
    let running = serving(false).unwrap();
    assert_eq!(running.current_state, ServiceState::Running);
    assert!(running.accepts_stop);
    // Asked to stop while it started: it never says that it runs.
    assert_eq!(serving(true), None);
}

#[test]
fn the_exit_code_tells_whether_a_stop_was_asked_for() {
    assert_eq!(stopped(true).exit_code, ServiceExitCode::Win32(0));
    assert_eq!(stopped(false).exit_code, ServiceExitCode::ServiceSpecific(1));
    assert_eq!(failed(), stopped(false));
    assert_eq!(stopped(true).current_state, ServiceState::Stopped);
}

#[test]
fn arguments_come_from_the_configuration() {
    let args = api_args(ApiSettings {
        port: 9090,
        interval_secs: 3,
        processes: true,
        bind: Some("127.0.0.1".to_string()),
    });
    assert_eq!(args.port, Some(9090));
    assert_eq!(args.interval, Some(3));
    assert_eq!(args.processes, Some(true));
    assert_eq!(args.bind, Some("127.0.0.1".to_string()));
}

#[test]
fn failures_name_their_step() {
    assert_eq!(start_failure(StartStep::Configuration, "x"), "configuration error: x");
    assert_eq!(
        start_failure(StartStep::Handler, "denied"),
        "could not register the service control handler: denied"
    );
    assert_eq!(
        start_failure(StartStep::Runtime, "no threads"),
        "could not build the Tokio runtime: no threads"
    );
}
