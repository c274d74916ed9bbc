use fusion::records::{format_cfg_record, format_pid_record, parse_cfg_record, parse_pid_record};
use fusion::services::ManagedService;
use fusion::store::{MemStore, StateStore};

fn service(name: &str) -> ManagedService {
    ManagedService {
        name: name.to_string(),
        host: "10.0.0.5".to_string(),
        port: 5055,
        command: vec![name.to_string()],
        log_filename: format!("{name}.log"),
        pid_filename: format!("{name}.pid"),
        config_filename: format!("{name}.config"),
        env: Vec::new(),
    }
}

#[test]
fn runtime_config_round_trips_exactly() {
    let mut store = MemStore::new();
    let svc = service("mlx");

    store.write_config(&svc).expect("config write should succeed");
    let read = store.read_config(&svc).expect("config should be readable");
    assert_eq!(read, Some(("10.0.0.5".to_string(), 5055)));
}

#[test]
fn missing_runtime_config_reads_as_absent() {
    let store = MemStore::new();
    let svc = service("mlx");
    let read = store.read_config(&svc).expect("absence is not an error");
    assert_eq!(read, None);
}

#[test]
fn cfg_record_text_is_two_lines() {
    let text = format_cfg_record("10.0.0.5", 5055);
    assert_eq!(text, "host=10.0.0.5\nport=5055\n");
}

#[test]
fn cfg_record_parser_tolerates_noise() {
    let parsed = parse_cfg_record("\n  host = 10.0.0.5 \nnote=ignored\n port=5055 \n").unwrap();
    assert_eq!(parsed, Some(("10.0.0.5".to_string(), 5055)));
}

#[test]
fn cfg_record_later_key_wins() {
    let parsed = parse_cfg_record("host=a\nhost=b\nport=1\nport=2\n").unwrap();
    assert_eq!(parsed, Some(("b".to_string(), 2)));
}

#[test]
fn cfg_record_missing_key_is_absent() {
    assert_eq!(parse_cfg_record("host=only\n").unwrap(), None);
    assert_eq!(parse_cfg_record("port=80\n").unwrap(), None);
    assert_eq!(parse_cfg_record("").unwrap(), None);
}

#[test]
fn cfg_record_bad_port_is_an_error() {
    assert!(parse_cfg_record("host=h\nport=eighty\n").is_err());
    assert!(parse_cfg_record("port=65536\n").is_err());
}

#[test]
fn pid_record_round_trips() {
    assert_eq!(format_pid_record(1234), "1234\n");
    assert_eq!(parse_pid_record("1234\n"), Ok(Some(1234)));
    assert_eq!(parse_pid_record(format_pid_record(i32::MIN).as_str()), Ok(Some(i32::MIN)));
    assert_eq!(parse_pid_record(format_pid_record(-7).as_str()), Ok(Some(-7)));
}

#[test]
fn pid_record_blank_is_absent_and_junk_is_an_error() {
    assert_eq!(parse_pid_record(""), Ok(None));
    assert_eq!(parse_pid_record("  \n"), Ok(None));
    assert_eq!(parse_pid_record(" 42 "), Ok(Some(42)));
    assert_eq!(parse_pid_record("+42"), Ok(Some(42)));
    assert!(parse_pid_record("4x2").is_err());
    assert!(parse_pid_record("2147483648").is_err());
    assert_eq!(parse_pid_record("2147483647"), Ok(Some(2147483647)));
    assert_eq!(parse_pid_record("-2147483648"), Ok(Some(-2147483648)));
}

#[test]
fn distinct_services_keep_distinct_records() {
    let mut store = MemStore::new();
    let a = service("alpha");
    let mut b = service("beta");
    b.host = "192.168.0.9".to_string();
    b.port = 7001;

    store.write_pid(&a, 11).unwrap();
    store.write_pid(&b, 22).unwrap();
    store.write_config(&a).unwrap();
    store.write_config(&b).unwrap();

    assert_eq!(store.read_pid(&a).unwrap(), Some(11));
    assert_eq!(store.read_pid(&b).unwrap(), Some(22));
    assert_eq!(store.read_config(&a).unwrap(), Some(("10.0.0.5".to_string(), 5055)));
    assert_eq!(store.read_config(&b).unwrap(), Some(("192.168.0.9".to_string(), 7001)));

    store.remove_pid(&a).unwrap();
    store.remove_config(&a).unwrap();
    assert_eq!(store.read_pid(&a).unwrap(), None);
    assert_eq!(store.read_pid(&b).unwrap(), Some(22));
    assert_eq!(store.read_config(&b).unwrap(), Some(("192.168.0.9".to_string(), 7001)));
}
