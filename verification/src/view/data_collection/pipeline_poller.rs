//! What the poller of the pipeline endpoints decides.
//!
//! The engine's `/health` is polled every cycle and llama-swap's `/running` at
//! most every [`SWAP_POLL_EVERY`] seconds, because llama-swap logs every request
//! and a model's load state changes rarely. A failed poll is shown as
//! unreachable rather than hiding behind the last good reading.
use vstd::prelude::*;
use vstd::string::*;

use crate::text::{begins, concat2, concat3, copied, decimal, decimal_text, truncate_to_width};
use crate::ui::consolidated::history::{polled, ConsolidatedState};
use crate::ui::consolidated::pipeline::{in_prefill, timed, EngineHealth, Probe, SwapModel};

verus! {

/// Seconds that one request may take; both endpoints answer in well under a
/// tenth of one.
pub const REQUEST_TIMEOUT: u64 = 2;

/// Largest body accepted from either endpoint.
pub const MAX_BODY_BYTES: usize = 0x10_0000;

/// Minimum spacing between llama-swap `/running` polls, in seconds.
pub const SWAP_POLL_EVERY: u64 = 10;

/// How many characters of a request's error are shown.
pub const ERROR_CHARS: usize = 80;

/// Whether `/running` is polled in this cycle: the whole seconds since the last
/// time, where there was one.
pub fn swap_poll_due(since_last: Option<u64>) -> (r: bool)
    ensures
        r == (since_last is None || since_last->0 >= SWAP_POLL_EVERY),
{
    match since_last {
        Some(seconds) => seconds >= SWAP_POLL_EVERY,
        None => true,
    }
}

/// Why a request failed.
#[derive(Clone, Debug, PartialEq, Eq)]
pub struct Failure {
    pub timed_out: bool,
    pub not_connected: bool,
    /// The client's own words.
    pub message: String,
}

/// What is shown of a failure.
pub open spec fn described(f: Failure) -> Seq<char> {
    if f.timed_out {
        "timed out"@
    } else if f.not_connected {
        "connection failed"@
    } else if f.message@.len() > ERROR_CHARS {
        f.message@.take(ERROR_CHARS as int)
    } else {
        f.message@
    }
}

/// The client's own messages repeat the URL; the panel already shows it.
pub fn describe(f: &Failure) -> (r: String)
    ensures
        r@ == described(*f),
{
    if f.timed_out {
        copied("timed out")
    } else if f.not_connected {
        copied("connection failed")
    } else {
        truncate_to_width(f.message.as_str(), ERROR_CHARS)
    }
}

/// A status code and its phrase, such as `404 Not Found`.
pub uninterp spec fn status_text(code: u16) -> Seq<char>;

/// What [`reqwest::StatusCode`] shows of a code, which it makes of the numbers
/// from 100 to 999 and of no others. Its text is the number, a space and the
/// phrase that the crate has for it.
#[verifier::external_body]
fn status_line(code: u16) -> (r: Option<String>)
    ensures
        r is Some <==> 100 <= code < 1000,
        r matches Some(t) ==> t@ == status_text(code) && begins(
            t@,
            decimal(code as nat) + seq![' '],
        ),
{
    match reqwest::StatusCode::from_u16(code) {
        Ok(status) => Some(status.to_string()),
        Err(_) => None,
    }
}

/// Whether a code says that a request succeeded.
pub open spec fn succeeded(code: u16) -> bool {
    200 <= code < 300
}

/// Judges a reply by its status, of which `line` is the text.
pub fn judge_status(code: u16, line: &str) -> (r: Result<(), String>)
    ensures
        match r {
            Ok(_) => succeeded(code),
            Err(m) => !succeeded(code) && m@ == "HTTP "@ + line@,
        },
{
    if 200 <= code && code < 300 {
        Ok(())
    } else {
        Err(concat2("HTTP ", line))
    }
}

/// Judges a reply by its status.
pub fn check_status(code: u16) -> (r: Result<(), String>)
    requires
        100 <= code < 1000,
    ensures
        match r {
            Ok(_) => succeeded(code),
            Err(m) => !succeeded(code) && m@ == "HTTP "@ + status_text(code),
        },
{
    let line: String = match status_line(code) {
        Some(t) => t,
        None => decimal_text(code as u128),
    };
    judge_status(code, line.as_str())
}

/// Judges a reply by the size of its body.
pub fn check_body(body: Vec<u8>) -> (r: Result<Vec<u8>, String>)
    ensures
        match r {
            Ok(b) => b == body && body@.len() <= MAX_BODY_BYTES,
            Err(m) => body@.len() > MAX_BODY_BYTES && m@ == "response too large ("@ + decimal(
                body@.len(),
            ) + " bytes)"@,
        },
{
    if body.len() > MAX_BODY_BYTES {
        let size: String = decimal_text(body.len() as u128);
        Err(concat3("response too large (", size.as_str(), " bytes)"))
    } else {
        Ok(body)
    }
}

/// What the panel says where no client could be made.
pub fn client_failure(message: &str) -> (r: String)
    ensures
        r@ == "HTTP client: "@ + message@,
{
    concat2("HTTP client: ", message)
}

/// How a poll comes out in the panel.
pub open spec fn outcome<T>(result: Result<T, String>) -> Probe<T> {
    match result {
        Ok(v) => Probe::Up(v),
        Err(e) => Probe::Failed(e),
    }
}

/// Stores what one cycle found at time `now`, in nanoseconds: the engine's poll,
/// and that of `/running` where it was polled. A prefill is timed across cycles.
pub fn record_poll(
    state: &mut ConsolidatedState,
    engine: Result<EngineHealth, String>,
    swap: Option<Result<Vec<SwapModel>, String>>,
    now: u64,
)
    ensures
        match (old(state).pipeline, final(state).pipeline) {
            (Some(p), Some(q)) => {
                &&& q.config == p.config
                &&& q.engine == outcome(engine)
                &&& q.swap == (match swap {
                    Some(s) => outcome(s),
                    None => p.swap,
                })
                &&& q.timing() == timed(p.timing(), in_prefill(q.engine), now)
            },
            (None, None) => true,
            _ => false,
        },
        final(state).history@ == (match (old(state).pipeline, engine) {
            (Some(_), Ok(h)) => polled(
                old(state).history@,
                h,
            ),
            _ => old(state).history@,
        }),
{
    state.record_engine(engine);
    if let Some(s) = swap {
        state.record_swap(s);
    }
    if let Some(pipeline) = &mut state.pipeline {
        pipeline.observe_phase(now);
    }
}

} // verus!
