use pryx_host::classify::{classify_line, LineEvent};
use pryx_host::supervisor::{
    kill_process_group, terminate_process_group, GroupSignal, RestartDecision, SidecarConfig,
    SidecarError, SidecarProcess, SidecarState, SidecarStatus,
};

#[test]
fn test_sidecar_state_transitions() {
    // Test all state variants can be created
    let states = vec![
        SidecarState::Stopped,
        SidecarState::Starting,
        SidecarState::Running,
        SidecarState::Crashed { attempts: 1 },
        SidecarState::Restarting { backoff_ms: 1000 },
        SidecarState::Stopping,
    ];

    for state in states {
        match state {
            SidecarState::Stopped => assert!(matches!(state, SidecarState::Stopped)),
            SidecarState::Starting => assert!(matches!(state, SidecarState::Starting)),
            SidecarState::Running => assert!(matches!(state, SidecarState::Running)),
            SidecarState::Crashed { attempts } => assert_eq!(attempts, 1),
            SidecarState::Restarting { backoff_ms } => assert_eq!(backoff_ms, 1000),
            SidecarState::Stopping => assert!(matches!(state, SidecarState::Stopping)),
        }
    }
}

#[test]
fn test_sidecar_state_variants() {
    assert!(matches!(SidecarState::Stopped, SidecarState::Stopped));
    assert!(matches!(SidecarState::Starting, SidecarState::Starting));
    assert!(matches!(SidecarState::Running, SidecarState::Running));
    assert!(matches!(
        SidecarState::Crashed { attempts: 0 },
        SidecarState::Crashed { attempts: 0 }
    ));
    assert!(matches!(
        SidecarState::Restarting { backoff_ms: 0 },
        SidecarState::Restarting { backoff_ms: 0 }
    ));
    assert!(matches!(SidecarState::Stopping, SidecarState::Stopping));
}

#[test]
fn mod_test_test_sidecar_config_default() {
    let config = SidecarConfig::default();
    assert_eq!(config.start_timeout_ms, 3000);
    assert_eq!(config.max_restarts, 10);
    assert_eq!(config.initial_backoff_ms, 1000);
    assert_eq!(config.backoff_multiplier_hundredths, 200);
}

#[test]
fn tests_test_sidecar_config_default() {
    let config = SidecarConfig::default();
    assert_eq!(config.binary, "pryx-core".to_string());
    assert!(config.args.is_empty());
}

#[test]
fn mod_test_test_sidecar_config_new() {
    let binary = "/path/to/binary".to_string();
    let cwd = "/working/dir".to_string();
    let db_path = "/path/to/db".to_string();

    let config = SidecarConfig::new(binary.clone(), cwd.clone(), db_path.clone());

    assert_eq!(config.binary, binary);
    assert_eq!(config.cwd, cwd);
    assert_eq!(config.db_path, db_path);
    assert!(config.args.is_empty());
    assert!(config.env.is_empty());
}

#[test]
fn tests_test_sidecar_config_new() {
    let config = SidecarConfig::new(
        "/usr/bin/pryx-core".to_string(),
        "/tmp".to_string(),
        "/tmp/pryx.db".to_string(),
    );
    assert_eq!(config.binary, "/usr/bin/pryx-core".to_string());
    assert_eq!(config.cwd, "/tmp".to_string());
    assert!(config.args.is_empty());
}

#[test]
fn tests_test_default_config() {
    let config = SidecarConfig::default();
    assert_eq!(config.binary, "pryx-core");
    assert_eq!(config.db_path, "pryx.db");
}

#[test]
fn test_config_validation() {
    let mut config = SidecarConfig::default();
    config.binary = "custom-bin".to_string();
    assert_eq!(config.binary, "custom-bin");
}

#[test]
fn mod_test_test_sidecar_error_display() {
    let err = SidecarError::SpawnFailed {
        binary: "pryx-core".to_string(),
        reason: "file not found".to_string(),
    };
    let msg = err.message();
    assert!(msg.contains("pryx-core"));
    assert!(msg.contains("file not found"));

    let err = SidecarError::NoChild;
    assert_eq!(err.message(), "Sidecar process not running");

    let err = SidecarError::ProcessNotRunning("test".into());
    assert!(err.message().contains("test"));
}

#[test]
fn tests_test_sidecar_error_display() {
    let err = SidecarError::ProcessNotRunning("test".into());
    let msg = err.message();
    assert!(msg.contains("test"));
}

#[test]
fn test_sidecar_error_io() {
    let err = SidecarError::Io("not found".to_string());
    let msg = format!("{:?}", err);
    assert!(msg.contains("Io"));
}

#[test]
fn test_sidecar_status_initial() {
    let status = SidecarStatus {
        state: SidecarState::Stopped,
        pid: None,
        port: None,
        uptime_ms: None,
        crash_count: 0,
        started_at_ms: None,
    };

    assert!(matches!(status.state, SidecarState::Stopped));
    assert_eq!(status.crash_count, 0);
}

// The happy start: the child announces its port within the start timeout
// and the supervisor walks Stopped -> Starting -> Running with the port
// latched.
#[test]
fn test_happy_start_scenario() {
    let mut sup = SidecarProcess::new(SidecarConfig::default());
    assert!(matches!(sup.state(), SidecarState::Stopped));

    sup.begin_start(1_000);
    assert!(matches!(sup.state(), SidecarState::Starting));

    sup.spawn_succeeded(4242);

    match classify_line("PRYX_CORE_LISTEN_ADDR=127.0.0.1:51515") {
        LineEvent::Port(p) => sup.observe_port(p),
        _ => panic!("expected a port announcement"),
    }
    sup.start_finished();

    let status = sup.status(1_500);
    assert!(matches!(status.state, SidecarState::Running));
    assert_eq!(status.port, Some(51515));
    assert_eq!(status.pid, Some(4242));
    assert_eq!(status.uptime_ms, Some(500));
}

// The crash loop: with max_restarts = 3 the crash count walks 1, 2, 3 with
// scheduled restarts, and the fourth exit parks the supervisor in
// Crashed { attempts: 4 } with no further spawns.
#[test]
fn test_crash_loop_scenario() {
    let config = SidecarConfig {
        initial_backoff_ms: 10,
        backoff_multiplier_hundredths: 200,
        max_restarts: 3,
        ..SidecarConfig::default()
    };
    let mut sup = SidecarProcess::new(config);
    let mut counts = Vec::new();
    let mut backoffs = Vec::new();

    for _ in 0..3 {
        sup.begin_start(0);
        sup.spawn_succeeded(7);
        match sup.child_exited() {
            RestartDecision::RetryAfter(ms) => backoffs.push(ms),
            RestartDecision::GiveUp => panic!("gave up too early"),
        }
        counts.push(sup.status(0).crash_count);
    }
    assert_eq!(counts, vec![1, 2, 3]);
    assert_eq!(backoffs, vec![10, 20, 40]);

    sup.begin_start(0);
    sup.spawn_succeeded(7);
    match sup.child_exited() {
        RestartDecision::GiveUp => {}
        RestartDecision::RetryAfter(_) => panic!("should have given up"),
    }
    assert!(matches!(sup.state(), SidecarState::Crashed { attempts: 4 }));
}

// A stable run resets the crash counter.
#[test]
fn test_stable_run_resets_crashes() {
    let mut sup = SidecarProcess::new(SidecarConfig::default());
    sup.begin_start(0);
    sup.spawn_succeeded(1);
    sup.child_exited();
    assert_eq!(sup.status(0).crash_count, 1);

    sup.begin_start(10_000);
    sup.spawn_succeeded(2);
    sup.start_finished();
    // Not yet stable: shorter than the 3 s start timeout.
    sup.maybe_reset_crashes(11_000);
    assert_eq!(sup.status(11_000).crash_count, 1);
    // Stable after the full start timeout.
    sup.maybe_reset_crashes(13_000);
    assert_eq!(sup.status(13_000).crash_count, 0);
}

// The graceful stop: stop clears pid and port, and a second stop is a
// no-op that succeeds.
#[test]
fn test_graceful_stop_scenario() {
    let mut sup = SidecarProcess::new(SidecarConfig::default());
    sup.begin_start(0);
    sup.spawn_succeeded(555);
    sup.observe_port(51515);
    sup.start_finished();

    let pid = sup.begin_stop();
    assert_eq!(pid, Some(555));
    assert!(matches!(sup.state(), SidecarState::Stopping));
    sup.finish_stop();
    let status = sup.status(0);
    assert!(matches!(status.state, SidecarState::Stopped));
    assert_eq!(status.pid, None);
    assert_eq!(status.port, None);

    // Second stop: nothing changes.
    let pid2 = sup.begin_stop();
    assert_eq!(pid2, None);
    sup.finish_stop();
    assert!(matches!(sup.state(), SidecarState::Stopped));
    assert_eq!(sup.status(0).crash_count, 0);
}

// The port latches exactly once per child lifetime.
#[test]
fn test_port_latched_once() {
    let mut sup = SidecarProcess::new(SidecarConfig::default());
    sup.begin_start(0);
    sup.observe_port(1111);
    sup.observe_port(2222);
    assert_eq!(sup.port(), Some(1111));
    // A restart begins a new lifetime: the port is forgotten.
    sup.child_exited();
    assert_eq!(sup.port(), None);
    sup.begin_start(1);
    sup.observe_port(3333);
    assert_eq!(sup.port(), Some(3333));
}

#[test]
fn test_spawn_failed_error() {
    let mut sup = SidecarProcess::new(SidecarConfig::default());
    sup.begin_start(0);
    let err = sup.spawn_failed("permission denied".to_string());
    assert!(matches!(sup.state(), SidecarState::Stopped));
    let msg = err.message();
    assert_eq!(
        msg,
        "Failed to spawn sidecar binary 'pryx-core': permission denied"
    );
}

#[test]
fn test_spawn_env_contract_variables() {
    let mut config = SidecarConfig::default();
    config.db_path = "/data/pryx.db".to_string();
    config.env.push(("EXTRA".to_string(), "1".to_string()));
    let sup = SidecarProcess::new(config);
    let env = sup.spawn_env();
    assert_eq!(env[0], ("PRYX_LISTEN_ADDR".to_string(), "127.0.0.1:0".to_string()));
    assert_eq!(env[1], ("PRYX_DB_PATH".to_string(), "/data/pryx.db".to_string()));
    assert_eq!(env[2], ("PRYX_HOST_RPC".to_string(), "1".to_string()));
    assert_eq!(env[3], ("EXTRA".to_string(), "1".to_string()));
    assert_eq!(env.len(), 4);
}

#[test]
fn test_poll_intervals() {
    let mut sup = SidecarProcess::new(SidecarConfig::default());
    assert_eq!(sup.poll_interval_ms(), 500);
    sup.begin_start(0);
    assert_eq!(sup.poll_interval_ms(), 1000);
    sup.start_finished();
    assert_eq!(sup.poll_interval_ms(), 1000);
    sup.begin_stop();
    assert_eq!(sup.poll_interval_ms(), 100);
}

#[test]
fn test_sidecar_error_messages() {
    assert_eq!(
        SidecarError::PortDiscoveryFailed("pipe closed".into()).message(),
        "Port discovery failed: pipe closed"
    );
    assert_eq!(
        SidecarError::Serialization("bad frame".into()).message(),
        "Serialization error: bad frame"
    );
    assert_eq!(SidecarError::Io("broken pipe".into()).message(), "IO error: broken pipe");
    assert_eq!(SidecarError::Cancelled.message(), "Operation cancelled");
}

#[test]
fn test_process_group_signal_plans() {
    let term = terminate_process_group(1234).unwrap();
    assert_eq!(term.pgid, 1234);
    assert!(matches!(term.signal, GroupSignal::Term));
    let kill = kill_process_group(1234).unwrap();
    assert!(matches!(kill.signal, GroupSignal::Kill));
    // No recorded group: nothing is signalled.
    assert!(terminate_process_group(0).is_none());
    assert!(kill_process_group(0).is_none());
}
