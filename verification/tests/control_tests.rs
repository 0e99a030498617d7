use linux_task_manager::control::{
    kill_outcome, parse_signal, plan_kill, KillError, KillRequest, SignalKind,
};

#[test]
fn allow_listed_signals_are_recognized() {
    assert_eq!(parse_signal("SIGTERM"), Ok(SignalKind::Terminate));
    assert_eq!(parse_signal("SIGKILL"), Ok(SignalKind::ForceKill));
    assert_eq!(parse_signal("SIGHUP"), Ok(SignalKind::HangUp));
}

#[test]
fn unknown_signal_is_rejected_before_any_os_call() {
    // `plan_kill` validates and never touches the OS; the delivery call
    // happens only on a returned `KillRequest`, so a rejection here is a
    // rejection with zero OS interaction.
    assert_eq!(plan_kill(1234, "SIGBOGUS"), Err(KillError::UnsupportedSignal));
    assert_eq!(parse_signal("sigterm"), Err(KillError::UnsupportedSignal));
    assert_eq!(parse_signal(""), Err(KillError::UnsupportedSignal));
}

#[test]
fn planned_kill_carries_pid_and_signal() {
    assert_eq!(
        plan_kill(42, "SIGKILL"),
        Ok(KillRequest { pid: 42, signal: SignalKind::ForceKill })
    );
}

#[test]
fn signal_numbers_match_linux_convention() {
    assert_eq!(SignalKind::Terminate.number(), 15);
    assert_eq!(SignalKind::ForceKill.number(), 9);
    assert_eq!(SignalKind::HangUp.number(), 1);
}

#[test]
fn os_outcome_is_wrapped_never_swallowed() {
    assert_eq!(kill_outcome(Ok(())), Ok(()));
    // ESRCH (no such process) and EPERM (permission denied) surface as-is.
    assert_eq!(kill_outcome(Err(3)), Err(KillError::OsRejected(3)));
    assert_eq!(kill_outcome(Err(1)), Err(KillError::OsRejected(1)));
}
