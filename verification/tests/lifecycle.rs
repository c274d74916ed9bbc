use fusion::driver::{ModelDriver, ProcessDriver};
use fusion::services::ManagedService;
use fusion::store::{MemStore, StateStore};
use fusion::supervisor::{start_service, status_service, stop_service};
use fusion::supervisor::{StartOutcome, StatusOutcome, StopOutcome};

fn test_service() -> ManagedService {
    ManagedService {
        name: "test".to_string(),
        host: "127.0.0.1".to_string(),
        port: 4242,
        command: vec!["dummy".to_string()],
        log_filename: "test.log".to_string(),
        pid_filename: "test.pid".to_string(),
        config_filename: "test.config".to_string(),
        env: Vec::new(),
    }
}

fn ollama_service() -> ManagedService {
    let cfg = fusion::config::OllamaServerConfig::default();
    fusion::services::create_ollama_service(&cfg)
}

#[test]
fn write_and_read_pid_round_trip() {
    let mut store = MemStore::new();
    let svc = test_service();

    store.write_pid(&svc, 1234).expect("pid should be written");
    let read = store.read_pid(&svc).expect("pid should be readable");
    assert_eq!(read, Some(1234));
}

#[test]
fn remove_pid_is_idempotent() {
    let mut store = MemStore::new();
    let svc = test_service();

    store.write_pid(&svc, 999).unwrap();
    store.remove_pid(&svc).expect("pid file should be removed");
    assert_eq!(store.read_pid(&svc).unwrap(), None);
    store.remove_pid(&svc).expect("second removal should succeed");
}

#[test]
fn status_service_clears_stale_pid() {
    let mut store = MemStore::new();
    let driver = ModelDriver::new(10_000);
    let svc = test_service();

    store.write_pid(&svc, i32::MAX).unwrap();
    let status = status_service(&svc, &mut store, &driver).expect("status check should succeed");
    assert!(matches!(status, StatusOutcome::NotRunning));
    assert_eq!(store.read_pid(&svc).unwrap(), None, "stale pid file should be removed");
}

#[test]
fn start_status_stop_cycle_reports_consistent_pid() {
    let mut store = MemStore::new();
    let mut driver = ModelDriver::new(10_000);
    let svc = ollama_service();

    let started = start_service(&svc, "/tmp/state", &mut store, &mut driver).unwrap();
    assert_eq!(started, StartOutcome::Started { pid: 10_000 });

    let status = status_service(&svc, &mut store, &driver).unwrap();
    assert_eq!(status, StatusOutcome::Running { pid: 10_000 });

    let stopped = stop_service(&svc, false, &mut store, &mut driver).unwrap();
    assert_eq!(stopped, StopOutcome::Stopped { pid: 10_000, forced: false });

    let after = status_service(&svc, &mut store, &driver).unwrap();
    assert_eq!(after, StatusOutcome::NotRunning);
}

#[test]
fn start_is_idempotent_while_running() {
    let mut store = MemStore::new();
    let mut driver = ModelDriver::new(10_000);
    let svc = ollama_service();

    let first = start_service(&svc, "/tmp/state", &mut store, &mut driver).unwrap();
    assert_eq!(first, StartOutcome::Started { pid: 10_000 });
    let second = start_service(&svc, "/tmp/state", &mut store, &mut driver).unwrap();
    assert_eq!(second, StartOutcome::AlreadyRunning { pid: 10_000 });
}

#[test]
fn stop_twice_reports_not_running() {
    let mut store = MemStore::new();
    let mut driver = ModelDriver::new(10_000);
    let svc = ollama_service();

    start_service(&svc, "/tmp/state", &mut store, &mut driver).unwrap();
    let first = stop_service(&svc, false, &mut store, &mut driver).expect("first stop succeeds");
    assert!(matches!(first, StopOutcome::Stopped { .. }));
    let second = stop_service(&svc, false, &mut store, &mut driver).expect("second stop succeeds");
    assert_eq!(second, StopOutcome::NotRunning);
}

#[test]
fn stop_force_without_state_reports_not_running() {
    let mut store = MemStore::new();
    let mut driver = ModelDriver::new(10_000);
    let cfg = fusion::config::MlxServerConfig::default();
    let svc = fusion::services::create_mlx_service(&cfg);

    let outcome = stop_service(&svc, true, &mut store, &mut driver)
        .expect("force down with no state should not error");
    assert_eq!(outcome, StopOutcome::NotRunning);
}

#[test]
fn stop_graceful_delivers_graceful_signal() {
    let mut store = MemStore::new();
    let mut driver = ModelDriver::new(10_000);
    let svc = ollama_service();

    start_service(&svc, "/tmp/state", &mut store, &mut driver).unwrap();
    let outcome = stop_service(&svc, false, &mut store, &mut driver).unwrap();
    assert_eq!(outcome, StopOutcome::Stopped { pid: 10_000, forced: false });
    assert!(driver.signal_events().contains(&(10_000, false)));
    assert_eq!(store.read_pid(&svc).unwrap(), None, "pid record removed on delivery");
}

#[test]
fn stop_forced_delivers_kill_signal() {
    let mut store = MemStore::new();
    let mut driver = ModelDriver::new(10_000);
    let svc = ollama_service();

    start_service(&svc, "/tmp/state", &mut store, &mut driver).unwrap();
    let outcome = stop_service(&svc, true, &mut store, &mut driver).unwrap();
    assert_eq!(outcome, StopOutcome::Stopped { pid: 10_000, forced: true });
    assert!(driver.signal_events().contains(&(10_000, true)));
    assert_eq!(store.read_pid(&svc).unwrap(), None, "pid record removed on delivery");
}

#[test]
fn status_adopts_externally_started_process() {
    let mut store = MemStore::new();
    let mut driver = ModelDriver::new(10_000);
    let svc = ollama_service();

    driver.add_process(12_345, "ollama serve");
    let status = status_service(&svc, &mut store, &driver).unwrap();
    assert_eq!(status, StatusOutcome::Running { pid: 12_345 });
    assert_eq!(store.read_pid(&svc).unwrap(), Some(12_345), "discovered pid adopted");
}

#[test]
fn stop_sweeps_externally_started_process() {
    let mut store = MemStore::new();
    let mut driver = ModelDriver::new(10_000);
    let svc = ollama_service();

    driver.add_process(12_345, "ollama serve");
    let outcome = stop_service(&svc, true, &mut store, &mut driver).unwrap();
    assert_eq!(outcome, StopOutcome::TerminatedByName { count: 1, forced: true });
    let after = status_service(&svc, &mut store, &driver).unwrap();
    assert_eq!(after, StatusOutcome::NotRunning);
}

#[test]
fn pid_reuse_by_unrelated_process_is_not_running() {
    let mut store = MemStore::new();
    let mut driver = ModelDriver::new(10_000);
    let svc = ollama_service();

    store.write_pid(&svc, 4_321).unwrap();
    driver.add_process(4_321, "some unrelated daemon");
    let status = status_service(&svc, &mut store, &driver).unwrap();
    assert_eq!(status, StatusOutcome::NotRunning);
    assert_eq!(store.read_pid(&svc).unwrap(), None, "mismatched record purged");
}

#[test]
fn start_with_empty_command_fails() {
    let mut store = MemStore::new();
    let mut driver = ModelDriver::new(10_000);
    let mut svc = test_service();
    svc.command = Vec::new();

    let r = start_service(&svc, "/tmp/state", &mut store, &mut driver);
    assert!(r.is_err());
    assert_eq!(r.unwrap_err().kind(), fusion::error::ErrorKind::Other);
}

#[test]
fn malformed_pid_record_is_a_process_error() {
    let mut store = MemStore::new();
    let svc = test_service();

    store.put_file("test.pid", "not-a-pid\n".to_string());
    let err = store.read_pid(&svc).expect_err("malformed pid should error");
    assert_eq!(err.kind(), fusion::error::ErrorKind::Other);
    assert!(matches!(err, fusion::error::AppError::ProcessError { .. }));
}
