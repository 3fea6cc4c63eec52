//! What the process of the Windows service reports and when.
//!
//! The process reports that it starts once its control handler stands, that it
//! runs once a listener is bound, that it stops as soon as it is asked to, and
//! that it has stopped when the server has drained.
use vstd::prelude::*;
use vstd::string::*;

use crate::text::concat2;

verus! {

/// Service-specific exit code reported when the server stopped without anyone
/// asking it to. Non-zero so that the configured failure actions restart it.
pub const EXIT_CODE_UNEXPECTED_STOP: u32 = 1;

/// How far along the service is.
#[derive(Clone, Copy, Debug, PartialEq, Eq, Structural)]
pub enum ServiceState {
    StartPending,
    Running,
    StopPending,
    Stopped,
}

/// With what the service ends.
#[derive(Clone, Copy, Debug, PartialEq, Eq, Structural)]
pub enum ServiceExitCode {
    Win32(u32),
    ServiceSpecific(u32),
}

/// What is reported to the service control manager.
#[derive(Clone, Copy, Debug, PartialEq, Eq, Structural)]
pub struct StatusReport {
    pub current_state: ServiceState,
    /// Whether Stop and Shutdown are taken.
    pub accepts_stop: bool,
    pub exit_code: ServiceExitCode,
    /// Only matters where a pending transition reports repeated progress.
    pub checkpoint: u32,
    /// In how many seconds the next report is due.
    pub wait_hint: u64,
}

/// What the service control manager asks of the process.
#[derive(Clone, Copy, Debug, PartialEq, Eq, Structural)]
pub enum ServiceControl {
    Interrogate,
    Stop,
    Shutdown,
    Other,
}

/// What the manager is answered.
#[derive(Clone, Copy, Debug, PartialEq, Eq, Structural)]
pub enum ControlResult {
    NoError,
    NotImplemented,
}

/// What a control leads to.
#[derive(Clone, Copy, Debug, PartialEq, Eq, Structural)]
pub struct ControlResponse {
    /// What is reported before anything else.
    pub report: Option<StatusReport>,
    /// Whether the server is told to shut down.
    pub shut_down: bool,
    pub result: ControlResult,
}

/// A report of a state in passing or at rest, ended by nothing.
pub open spec fn status(state: ServiceState, accepts_stop: bool, wait_hint: u64) -> StatusReport {
    StatusReport {
        current_state: state,
        accepts_stop,
        exit_code: ServiceExitCode::Win32(0),
        checkpoint: 0,
        wait_hint,
    }
}

/// What a control leads to, where a transition takes `wait_hint` seconds.
pub open spec fn response(control: ServiceControl, wait_hint: u64) -> ControlResponse {
    match control {
        ServiceControl::Interrogate => ControlResponse {
            report: None,
            shut_down: false,
            result: ControlResult::NoError,
        },
        ServiceControl::Stop | ServiceControl::Shutdown => ControlResponse {
            report: Some(status(ServiceState::StopPending, false, wait_hint)),
            shut_down: true,
            result: ControlResult::NoError,
        },
        ServiceControl::Other => ControlResponse {
            report: None,
            shut_down: false,
            result: ControlResult::NotImplemented,
        },
    }
}

/// Answers a control. Every service answers Interrogate, even with nothing.
/// Stop and Shutdown take the graceful path: the server drains on its own.
pub fn handle_control(control: ServiceControl, wait_hint: u64) -> (r: ControlResponse)
    ensures
        r == response(control, wait_hint),
{
    match control {
        ServiceControl::Interrogate => ControlResponse {
            report: None,
            shut_down: false,
            result: ControlResult::NoError,
        },
        ServiceControl::Stop | ServiceControl::Shutdown => ControlResponse {
            report: Some(
                StatusReport {
                    current_state: ServiceState::StopPending,
                    accepts_stop: false,
                    exit_code: ServiceExitCode::Win32(0),
                    checkpoint: 0,
                    wait_hint,
                },
            ),
            shut_down: true,
            result: ControlResult::NoError,
        },
        ServiceControl::Other => ControlResponse {
            report: None,
            shut_down: false,
            result: ControlResult::NotImplemented,
        },
    }
}

/// The first report. Stop is taken from here on rather than only once running:
/// a service whose hardware probe wedges during startup could otherwise not be
/// stopped.
pub fn starting(wait_hint: u64) -> (r: StatusReport)
    ensures
        r == status(ServiceState::StartPending, true, wait_hint),
{
    StatusReport {
        current_state: ServiceState::StartPending,
        accepts_stop: true,
        exit_code: ServiceExitCode::Win32(0),
        checkpoint: 0,
        wait_hint,
    }
}

/// What is reported once a listener is bound.
pub open spec fn serving_report(shutdown_requested: bool) -> Option<StatusReport> {
    if shutdown_requested {
        None
    } else {
        Some(status(ServiceState::Running, true, 0))
    }
}

/// The report once a listener is bound. A Stop that arrived during startup
/// already moved the service on; to go back would be a lie.
pub fn serving(shutdown_requested: bool) -> (r: Option<StatusReport>)
    ensures
        r == serving_report(shutdown_requested),
{
    if shutdown_requested {
        None
    } else {
        Some(
            StatusReport {
                current_state: ServiceState::Running,
                accepts_stop: true,
                exit_code: ServiceExitCode::Win32(0),
                checkpoint: 0,
                wait_hint: 0,
            },
        )
    }
}

/// The last report: with nothing where a stop was asked for, with a code of
/// the service's own where not.
pub open spec fn stopped_report(shutdown_requested: bool) -> StatusReport {
    StatusReport {
        current_state: ServiceState::Stopped,
        accepts_stop: false,
        exit_code: if shutdown_requested {
            ServiceExitCode::Win32(0)
        } else {
            ServiceExitCode::ServiceSpecific(EXIT_CODE_UNEXPECTED_STOP)
        },
        checkpoint: 0,
        wait_hint: 0,
    }
}

/// The report when the server has returned, its listeners drained.
pub fn stopped(shutdown_requested: bool) -> (r: StatusReport)
    ensures
        r == stopped_report(shutdown_requested),
{
    StatusReport {
        current_state: ServiceState::Stopped,
        accepts_stop: false,
        exit_code: if shutdown_requested {
            ServiceExitCode::Win32(0)
        } else {
            ServiceExitCode::ServiceSpecific(EXIT_CODE_UNEXPECTED_STOP)
        },
        checkpoint: 0,
        wait_hint: 0,
    }
}

/// The report when the service could not be run at all.
pub fn failed() -> (r: StatusReport)
    ensures
        r == stopped_report(false),
{
    stopped(false)
}

/// Once the service was asked to stop, it says so at once and takes no more
/// such controls, and nothing says after that that it runs.
pub proof fn a_stop_is_not_taken_back(control: ServiceControl, wait_hint: u64)
    requires
        response(control, wait_hint).shut_down,
    ensures
        response(control, wait_hint).report == Some(
            status(ServiceState::StopPending, false, wait_hint),
        ),
        serving_report(response(control, wait_hint).shut_down) is None,
{
}

/// The service ends with a code of nought exactly where it was asked to stop,
/// so that the manager restarts one that ended by itself.
pub proof fn the_exit_code_tells_a_stop_from_a_failure(asked: bool)
    ensures
        stopped_report(asked).current_state == ServiceState::Stopped,
        asked <==> (stopped_report(asked).exit_code matches ServiceExitCode::Win32(c) && c == 0),
        !asked ==> (stopped_report(asked).exit_code matches ServiceExitCode::ServiceSpecific(c)
            && c != 0),
{
}

/// How the API server is configured.
#[derive(Clone, Debug, PartialEq, Eq)]
pub struct ApiSettings {
    pub port: u16,
    pub interval_secs: u64,
    pub processes: bool,
    pub bind: Option<String>,
}

/// With what the API server is started.
#[derive(Clone, Debug, PartialEq, Eq)]
pub struct ApiArgs {
    pub port: Option<u16>,
    pub interval: Option<u64>,
    pub processes: Option<bool>,
    pub bind: Option<String>,
}

/// Builds the API arguments from configuration alone: the manager launches the
/// program without a command line to honour.
pub fn api_args(settings: ApiSettings) -> (r: ApiArgs)
    ensures
        r.port == Some(settings.port),
        r.interval == Some(settings.interval_secs),
        r.processes == Some(settings.processes),
        r.bind == settings.bind,
{
    ApiArgs {
        port: Some(settings.port),
        interval: Some(settings.interval_secs),
        processes: Some(settings.processes),
        bind: settings.bind,
    }
}

/// Which step of the start failed.
#[derive(Clone, Copy, Debug, PartialEq, Eq, Structural)]
pub enum StartStep {
    Handler,
    Configuration,
    Runtime,
}

/// What is logged of a step that failed.
pub open spec fn step_failure(step: StartStep) -> Seq<char> {
    match step {
        StartStep::Handler => "could not register the service control handler: "@,
        StartStep::Configuration => "configuration error: "@,
        StartStep::Runtime => "could not build the Tokio runtime: "@,
    }
}

/// Says which step of the start failed, and why.
pub fn start_failure(step: StartStep, cause: &str) -> (r: String)
    ensures
        r@ == step_failure(step) + cause@,
{
    match step {
        StartStep::Handler => concat2("could not register the service control handler: ", cause),
        StartStep::Configuration => concat2("configuration error: ", cause),
        StartStep::Runtime => concat2("could not build the Tokio runtime: ", cause),
    }
}

/// A stop, or a shutdown of the system, is answered with a pending stop and shuts
/// the service down; a question is answered and changes nothing; anything else is
/// not implemented.
pub proof fn controls_are_answered(wait_hint: u64)
    ensures
        response(ServiceControl::Stop, wait_hint).shut_down,
        response(ServiceControl::Shutdown, wait_hint) == response(ServiceControl::Stop, wait_hint),
        ({
            let r = response(ServiceControl::Stop, wait_hint).report;
            &&& r is Some
            &&& r->0.current_state == ServiceState::StopPending
            &&& !r->0.accepts_stop
            &&& r->0.wait_hint == wait_hint
        }),
        response(ServiceControl::Stop, wait_hint).result == ControlResult::NoError,
        ({
            let r = response(ServiceControl::Interrogate, wait_hint);
            !r.shut_down && r.report is None && r.result == ControlResult::NoError
        }),
        ({
            let r = response(ServiceControl::Other, wait_hint);
            !r.shut_down && r.report is None && r.result == ControlResult::NotImplemented
        }),
        ({
            let r = serving_report(false);
            &&& r is Some
            &&& r->0.current_state == ServiceState::Running
            &&& r->0.accepts_stop
            &&& r->0.exit_code == ServiceExitCode::Win32(0)
        }),
        serving_report(true) is None,
{
}

} // verus!
