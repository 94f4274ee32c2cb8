use script_harness::runner::{exit_code, schedule, ConnectionMode, Harness, RunStep, QUIESCENCE_MS};
use script_harness::token::Profile;

#[test]
fn schedule_one_connection_per_script() {
    assert_eq!(
        schedule(3, 100),
        vec![
            RunStep::Script(0),
            RunStep::Pause(100),
            RunStep::Script(1),
            RunStep::Pause(100),
            RunStep::Script(2),
            RunStep::Pause(100),
        ]
    );
    assert!(schedule(0, 100).is_empty());
}

#[test]
fn exit_codes() {
    assert_eq!(exit_code(&[]), 0);
    assert_eq!(exit_code(&[true, true]), 0);
    assert_eq!(exit_code(&[true, false]), 1);
    assert_eq!(exit_code(&[false]), 1);
}

#[test]
fn harness_configurations() {
    let port = Harness::port();
    assert_eq!(port.profile, Profile::Port);
    assert_eq!(port.mode, ConnectionMode::Connect);
    assert_eq!(port.pause_ms, QUIESCENCE_MS);
    assert_eq!(QUIESCENCE_MS, 100);
    let daemon = Harness::daemon();
    assert_eq!(daemon.profile, Profile::Daemon);
    assert_eq!(daemon.mode, ConnectionMode::Listen);
    assert!(daemon.mode.owns_endpoint());
    assert!(daemon.mode.shuts_down_after_script());
    assert!(!port.mode.owns_endpoint());
    assert!(!port.mode.shuts_down_after_script());
}
