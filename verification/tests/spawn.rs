//! Tests for the environment allow-list, binary choice, projections and
//! the surface's argument conventions.

use session_dialog::config::DialogConfig;
use session_dialog::config::DialogKind;
use session_dialog::machine::exit_code;
use session_dialog::machine::step;
use session_dialog::machine::DialogEvent;
use session_dialog::machine::DialogState;
use session_dialog::spawn::allowed_keys;
use session_dialog::spawn::choose_dialog_binary;
use session_dialog::spawn::filter_env;
use session_dialog::spawn::legacy_config;
use session_dialog::spawn::position_of_config_flag;

fn owned(pairs: &[(&str, &str)]) -> Vec<(String, String)> {
    pairs.iter().map(|(k, v)| (k.to_string(), v.to_string())).collect()
}

#[test]
fn environment_allow_list_filters_exactly() {
    let env = owned(&[
        ("PATH", "/usr/bin"),
        ("WAYLAND_DISPLAY", "wayland-1"),
        ("HOME", "/root"),
        ("XDG_RUNTIME_DIR", "/run/user/1000"),
        ("LD_PRELOAD", "/tmp/evil.so"),
        ("XDG_SESSION_TYPE", "wayland"),
        ("DBUS_SESSION_BUS_ADDRESS", "unix:path=/run/user/1000/bus"),
        ("SECRET_TOKEN", "SECRET-REDACTED"),
    ]);
    let filtered = filter_env(&env);
    assert_eq!(
        filtered,
        owned(&[
            ("WAYLAND_DISPLAY", "wayland-1"),
            ("XDG_RUNTIME_DIR", "/run/user/1000"),
            ("XDG_SESSION_TYPE", "wayland"),
            ("DBUS_SESSION_BUS_ADDRESS", "unix:path=/run/user/1000/bus"),
        ])
    );
}

#[test]
fn environment_allow_list_keeps_only_present_keys() {
    let env = owned(&[("HOME", "/root"), ("XDG_SESSION_TYPE", "wayland")]);
    assert_eq!(filter_env(&env), owned(&[("XDG_SESSION_TYPE", "wayland")]));
    assert_eq!(filter_env(&Vec::new()), Vec::<(String, String)>::new());
}

#[test]
fn allow_list_is_the_four_session_variables() {
    let keys = allowed_keys();
    assert_eq!(
        keys,
        vec![
            "WAYLAND_DISPLAY".to_string(),
            "XDG_RUNTIME_DIR".to_string(),
            "XDG_SESSION_TYPE".to_string(),
            "DBUS_SESSION_BUS_ADDRESS".to_string(),
        ]
    );
}

#[test]
fn binary_choice_prefers_existing_sibling() {
    assert_eq!(
        choose_dialog_binary(Some("/opt/daemon/session-dialog".to_string()), true),
        "/opt/daemon/session-dialog"
    );
    assert_eq!(
        choose_dialog_binary(Some("/opt/daemon/session-dialog".to_string()), false),
        "/usr/bin/session-dialog"
    );
    assert_eq!(choose_dialog_binary(None, false), "/usr/bin/session-dialog");
}

#[test]
fn legacy_invocation_joins_arguments() {
    let args = vec!["run".to_string(), "as".to_string(), "root".to_string()];
    let config = legacy_config(&args).expect("legacy config");
    assert_eq!(
        config,
        DialogConfig {
            kind: DialogKind::PrivilegeEscalation { command: "run as root".to_string() },
            timeout_secs: None,
        }
    );
}

#[test]
fn legacy_invocation_with_no_arguments_is_usage_error() {
    assert_eq!(legacy_config(&Vec::new()), None);
}

#[test]
fn config_flag_position() {
    let args = vec!["--verbose".to_string(), "--config".to_string(), "QUFBQQ==".to_string()];
    assert_eq!(position_of_config_flag(&args), Some(1));
    let no_flag = vec!["run".to_string(), "as".to_string(), "root".to_string()];
    assert_eq!(position_of_config_flag(&no_flag), None);
    assert_eq!(position_of_config_flag(&Vec::new()), None);
}

#[test]
fn privilege_escalation_scenario() {
    let config = DialogConfig {
        kind: DialogKind::PrivilegeEscalation { command: "/usr/bin/pacman -Syu".to_string() },
        timeout_secs: None,
    };
    assert_eq!(config.title(), "Authorization Required");
    assert_eq!(config.subtitle(), "An application wants to run as root:");
    assert_eq!(config.detail(), "/usr/bin/pacman -Syu");
    // A confirm key press yields exit code 0.
    let s = step(DialogState::AwaitingInput, config.timeout_secs, DialogEvent::KeyConfirm);
    assert_eq!(s, DialogState::Confirmed);
    assert_eq!(exit_code(s), 0);
}

#[test]
fn network_connection_scenario() {
    let config = DialogConfig {
        kind: DialogKind::NetworkConnection {
            process: "firefox".to_string(),
            process_path: "/usr/lib/firefox/firefox".to_string(),
            destination: "api.anthropic.com".to_string(),
            port: 443,
            protocol: "TCP".to_string(),
        },
        timeout_secs: None,
    };
    assert_eq!(config.title(), "Network Connection Request");
    assert_eq!(config.subtitle(), "An application wants to connect to:");
    assert_eq!(config.detail(), "firefox → api.anthropic.com:443 (TCP)");
}

#[test]
fn generic_projections_are_caller_supplied() {
    let config = DialogConfig {
        kind: DialogKind::Generic {
            title: "Confirm".to_string(),
            message: "Proceed?".to_string(),
            detail: "detail line".to_string(),
        },
        timeout_secs: Some(5),
    };
    assert_eq!(config.title(), "Confirm");
    assert_eq!(config.subtitle(), "Proceed?");
    assert_eq!(config.detail(), "detail line");
}

#[test]
fn detail_formats_edge_ports() {
    let mk = |port: u16| DialogConfig {
        kind: DialogKind::NetworkConnection {
            process: "p".to_string(),
            process_path: "/p".to_string(),
            destination: "d".to_string(),
            port,
            protocol: "UDP".to_string(),
        },
        timeout_secs: None,
    };
    assert_eq!(mk(0).detail(), "p → d:0 (UDP)");
    assert_eq!(mk(65535).detail(), "p → d:65535 (UDP)");
}
