use fusion::env::{
    format_host_port, mlx_host, mlx_model, mlx_port, ollama_environment, ollama_host_port,
    parse_host_port, OLLAMA_HOST_DEFAULT,
};
use fusion::cli::{readiness_step, tail_lines, ReadinessDecision};
use fusion::error::ErrorKind;

fn env_value(env: &[(String, String)], key: &str) -> Option<String> {
    env.iter().rev().find(|(k, _)| k == key).map(|(_, v)| v.clone())
}

#[test]
fn ollama_environment_uses_defaults() {
    let env_map = ollama_environment("127.0.0.1", 11434);
    assert_eq!(env_value(&env_map, "OLLAMA_CONTEXT_LENGTH").unwrap(), "4096");
    assert_eq!(env_value(&env_map, "OLLAMA_HOST").unwrap(), OLLAMA_HOST_DEFAULT);
}

#[test]
fn ollama_host_port_prefers_overrides() {
    let (host, port) = ollama_host_port(Some("127.0.0.1".into()), Some(4242), None);
    assert_eq!(host, "127.0.0.1");
    assert_eq!(port, 4242);
}

#[test]
fn ollama_host_port_reads_env_values() {
    let (host, port) = ollama_host_port(None, None, Some("192.168.10.5:2345"));
    assert_eq!(host, "192.168.10.5");
    assert_eq!(port, 2345);
}

#[test]
fn ollama_host_port_handles_malformed_env() {
    let (host, port) = ollama_host_port(None, None, Some("invalid"));
    assert_eq!(format!("{host}:{port}"), OLLAMA_HOST_DEFAULT);
}

#[test]
fn ollama_host_port_strips_brackets_from_override() {
    let (host, port) = ollama_host_port(Some("[::1]".into()), Some(80), None);
    assert_eq!(host, "::1");
    assert_eq!(port, 80);
}

#[test]
fn mlx_overrides_from_env_file() {
    assert_eq!(mlx_model(Some("custom-model")), "custom-model");
    assert_eq!(mlx_port(None, Some("4242")).unwrap(), 4242);
}

#[test]
fn mlx_port_validation_errors() {
    let err = mlx_port(None, Some("not-a-number")).expect_err("port parsing should fail");
    assert_eq!(err.kind(), ErrorKind::InvalidInput);
}

#[test]
fn mlx_host_prefers_override_then_env() {
    assert_eq!(mlx_host(None, Some("192.168.1.5")), "192.168.1.5");
    assert_eq!(mlx_host(Some("127.0.0.1".into()), Some("192.168.1.5")), "127.0.0.1");
}

#[test]
fn mlx_host_defaults_to_loopback() {
    assert_eq!(mlx_host(None, None), "127.0.0.1");
}

#[test]
fn parse_host_port_handles_plain_and_bracketed_forms() {
    assert_eq!(parse_host_port("127.0.0.1:11434"), Some(("127.0.0.1".to_string(), 11434)));
    assert_eq!(parse_host_port("  host:80  "), Some(("host".to_string(), 80)));
    assert_eq!(parse_host_port("[::1]:8080"), Some(("::1".to_string(), 8080)));
    assert_eq!(parse_host_port("a:b:90"), Some(("a:b".to_string(), 90)));
    assert_eq!(parse_host_port(""), None);
    assert_eq!(parse_host_port("nocolon"), None);
    assert_eq!(parse_host_port("host:"), None);
    assert_eq!(parse_host_port("host:notaport"), None);
    assert_eq!(parse_host_port("host:99999"), None);
    assert_eq!(parse_host_port("[::1]8080"), None);
    assert_eq!(parse_host_port("[::1"), None);
}

#[test]
fn format_host_port_brackets_bare_ipv6() {
    assert_eq!(format_host_port("127.0.0.1", 11434), "127.0.0.1:11434");
    assert_eq!(format_host_port("::1", 80), "[::1]:80");
    assert_eq!(format_host_port("[::1]", 80), "[::1]:80");
}

#[test]
fn paths_derive_from_the_config_dir() {
    assert_eq!(fusion::paths::pid_dir("/home/u/.config/fusion"), "/home/u/.config/fusion");
    assert_eq!(
        fusion::paths::user_config_file("/home/u/.config/fusion"),
        "/home/u/.config/fusion/config.toml"
    );
    assert_eq!(fusion::paths::service_state_dir("/base", "ollama"), "/base/ollama");
    assert_eq!(fusion::paths::service_config_file("/base", "mlx"), "/base/mlx/config.toml");
}

#[test]
fn readiness_step_orders_its_checks() {
    assert_eq!(readiness_step(false, false, 300, 300), ReadinessDecision::TimedOut);
    assert_eq!(readiness_step(false, true, 10, 300), ReadinessDecision::ProcessDied);
    assert_eq!(readiness_step(true, true, 10, 300), ReadinessDecision::Ready);
    assert_eq!(readiness_step(true, false, 10, 300), ReadinessDecision::Retry);
}

#[test]
fn tail_lines_keeps_the_last_lines() {
    assert_eq!(tail_lines("a\nb\nc\n", 2), vec!["b".to_string(), "c".to_string()]);
    assert_eq!(tail_lines("a\r\nb\r\n", 5), vec!["a".to_string(), "b".to_string()]);
    assert_eq!(tail_lines("", 3), Vec::<String>::new());
    assert_eq!(tail_lines("solo", 3), vec!["solo".to_string()]);
}
