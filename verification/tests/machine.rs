//! Tests for the confirmation state machine and the exit-code protocol.

use session_dialog::config::DialogResult;
use session_dialog::exit::result_from_exit_code;
use session_dialog::exit::result_from_status;
use session_dialog::machine::exit_code;
use session_dialog::machine::step;
use session_dialog::machine::DialogEvent;
use session_dialog::machine::DialogState;

#[test]
fn exit_status_mapping_is_total() {
    assert_eq!(result_from_status(Some(0)), DialogResult::Confirmed);
    assert_eq!(result_from_status(Some(1)), DialogResult::Denied);
    assert_eq!(result_from_status(Some(2)), DialogResult::Timeout);
    assert_eq!(result_from_status(Some(3)), DialogResult::Error);
    assert_eq!(result_from_status(Some(-1)), DialogResult::Error);
    assert_eq!(result_from_status(Some(255)), DialogResult::Error);
    assert_eq!(result_from_status(Some(i32::MIN)), DialogResult::Error);
    assert_eq!(result_from_status(Some(i32::MAX)), DialogResult::Error);
    assert_eq!(result_from_status(None), DialogResult::Error);
}

#[test]
fn killed_surface_never_reads_as_confirmed() {
    // A surface killed before a terminal state yields no exit code.
    assert_eq!(result_from_status(None), DialogResult::Error);
    // And no state but Confirmed exits with a code that reads as Confirmed.
    for s in [
        DialogState::AwaitingInput,
        DialogState::Denied,
        DialogState::TimedOut,
        DialogState::Errored,
    ] {
        assert_ne!(result_from_status(Some(exit_code(s))), DialogResult::Confirmed);
    }
}

#[test]
fn exit_codes_per_state() {
    assert_eq!(exit_code(DialogState::Confirmed), 0);
    assert_eq!(exit_code(DialogState::Denied), 1);
    assert_eq!(exit_code(DialogState::TimedOut), 2);
    assert_eq!(exit_code(DialogState::Errored), 3);
    // Fail-closed default for a run that never reached a terminal state.
    assert_eq!(exit_code(DialogState::AwaitingInput), 1);
}

#[test]
fn result_from_exit_code_matches_status_reading() {
    assert_eq!(result_from_exit_code(0), DialogResult::Confirmed);
    assert_eq!(result_from_exit_code(1), DialogResult::Denied);
    assert_eq!(result_from_exit_code(2), DialogResult::Timeout);
    assert_eq!(result_from_exit_code(3), DialogResult::Error);
}

#[test]
fn keys_decide() {
    let s = DialogState::AwaitingInput;
    assert_eq!(step(s, None, DialogEvent::KeyConfirm), DialogState::Confirmed);
    assert_eq!(step(s, None, DialogEvent::KeyDeny), DialogState::Denied);
    assert_eq!(step(s, None, DialogEvent::KeyOther), DialogState::AwaitingInput);
    assert_eq!(step(s, None, DialogEvent::SurfaceFault), DialogState::Errored);
}

#[test]
fn terminal_states_absorb() {
    for s in [
        DialogState::Confirmed,
        DialogState::Denied,
        DialogState::TimedOut,
        DialogState::Errored,
    ] {
        assert_eq!(step(s, Some(1), DialogEvent::KeyConfirm), s);
        assert_eq!(step(s, Some(1), DialogEvent::KeyDeny), s);
        assert_eq!(step(s, Some(1), DialogEvent::Tick { elapsed_secs: 100 }), s);
        assert_eq!(step(s, Some(1), DialogEvent::SurfaceFault), s);
    }
}

#[test]
fn timeout_fires_at_ten_seconds_and_not_before() {
    let timeout = Some(10u32);
    let mut s = DialogState::AwaitingInput;
    for elapsed in 1..10u64 {
        s = step(s, timeout, DialogEvent::Tick { elapsed_secs: elapsed });
        assert_eq!(s, DialogState::AwaitingInput);
    }
    s = step(s, timeout, DialogEvent::Tick { elapsed_secs: 10 });
    assert_eq!(s, DialogState::TimedOut);
}

#[test]
fn tick_without_timeout_never_fires() {
    let s = DialogState::AwaitingInput;
    assert_eq!(step(s, None, DialogEvent::Tick { elapsed_secs: u64::MAX }), s);
}
