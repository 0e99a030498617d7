//! Process control: validating a requested termination signal before any
//! OS interaction, and wrapping the OS outcome of the single delivery call.

use vstd::prelude::*;

verus! {

/// The fixed allow-list of termination signals.
#[derive(Debug, Clone, Copy, PartialEq, Eq, Structural)]
pub enum SignalKind {
    /// Graceful termination request (`SIGTERM`).
    Terminate,
    /// Forced kill (`SIGKILL`).
    ForceKill,
    /// Hang-up (`SIGHUP`).
    HangUp,
}

/// Why a kill request failed.
#[derive(Debug, Clone, Copy, PartialEq, Eq, Structural)]
pub enum KillError {
    /// The requested signal name is outside the allow-list; rejected before
    /// any OS call.
    UnsupportedSignal,
    /// The OS refused or failed the delivery; carries the OS error number.
    OsRejected(i32),
}

/// A validated kill request, ready to be delivered exactly once by the OS
/// layer.
#[derive(Debug, Clone, Copy, PartialEq, Eq, Structural)]
pub struct KillRequest {
    pub pid: i32,
    pub signal: SignalKind,
}

/// The signal kind a name denotes, when it is on the allow-list.
pub open spec fn spec_signal_of(name: Seq<char>) -> Option<SignalKind> {
    if name == "SIGTERM"@ {
        Some(SignalKind::Terminate)
    } else if name == "SIGKILL"@ {
        Some(SignalKind::ForceKill)
    } else if name == "SIGHUP"@ {
        Some(SignalKind::HangUp)
    } else {
        None
    }
}

/// Validates a signal name against the allow-list. Exactly the names
/// `SIGTERM`, `SIGKILL` and `SIGHUP` are accepted; anything else is
/// `UnsupportedSignal`.
pub fn parse_signal(name: &str) -> (r: Result<SignalKind, KillError>)
    ensures
        r == match spec_signal_of(name@) {
            Some(k) => Result::<SignalKind, KillError>::Ok(k),
            None => Result::<SignalKind, KillError>::Err(KillError::UnsupportedSignal),
        },
{
    let n = String::from_str(name);
    if n == String::from_str("SIGTERM") {
        Ok(SignalKind::Terminate)
    } else if n == String::from_str("SIGKILL") {
        Ok(SignalKind::ForceKill)
    } else if n == String::from_str("SIGHUP") {
        Ok(SignalKind::HangUp)
    } else {
        Err(KillError::UnsupportedSignal)
    }
}

impl SignalKind {
    /// The conventional Linux signal number this kind is delivered as.
    pub fn number(&self) -> (r: i32)
        ensures
            *self == SignalKind::Terminate ==> r == 15,
            *self == SignalKind::ForceKill ==> r == 9,
            *self == SignalKind::HangUp ==> r == 1,
    {
        match self {
            SignalKind::Terminate => 15,
            SignalKind::ForceKill => 9,
            SignalKind::HangUp => 1,
        }
    }
}

/// Validates a kill request. Returns the request to deliver when the
/// signal name is recognized, and `UnsupportedSignal` — before any OS
/// interaction — otherwise.
pub fn plan_kill(pid: i32, signal_name: &str) -> (r: Result<KillRequest, KillError>)
    ensures
        r == match spec_signal_of(signal_name@) {
            Some(k) => Result::<KillRequest, KillError>::Ok(KillRequest { pid, signal: k }),
            None => Result::<KillRequest, KillError>::Err(KillError::UnsupportedSignal),
        },
{
    match parse_signal(signal_name) {
        Ok(k) => Ok(KillRequest { pid, signal: k }),
        Err(e) => Err(e),
    }
}

/// Wraps the outcome of the single OS delivery call: success passes
/// through, an OS error number is surfaced as `OsRejected`, never
/// swallowed.
pub fn kill_outcome(os_result: Result<(), i32>) -> (r: Result<(), KillError>)
    ensures
        os_result is Ok <==> r is Ok,
        os_result matches Err(e) ==> r == Result::<(), KillError>::Err(KillError::OsRejected(e)),
{
    match os_result {
        Ok(()) => Ok(()),
        Err(e) => Err(KillError::OsRejected(e)),
    }
}

} // verus!
