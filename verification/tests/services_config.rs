use fusion::config::{normalise_env_key, server_env, Config};
use fusion::services::{
    create_mlx_service, create_ollama_service, default_services, expected_signature,
    load_mlx_service, load_ollama_service, matches_signature, process_signature,
};
use fusion::store::{MemStore, StateStore};

fn env_value(env: &[(String, String)], key: &str) -> Option<String> {
    env.iter().rev().find(|(k, _)| k == key).map(|(_, v)| v.clone())
}

#[test]
fn ollama_service_uses_defaults() {
    let cfg = Config::default();
    let service = create_ollama_service(&cfg.ollama_server);
    assert_eq!(service.name, "ollama");
    assert_eq!(service.command, vec!["ollama", "serve"]);
    assert_eq!(service.log_filename, "ollama.log");
    assert_eq!(service.host, "127.0.0.1");
    assert_eq!(service.port, 11434);
    assert_eq!(env_value(&service.env, "OLLAMA_HOST").unwrap(), "127.0.0.1:11434");
}

#[test]
fn default_services_includes_mlx() {
    let store = MemStore::new();
    let mut cfg = Config::default();
    cfg.mlx_server.port = 5050;

    let services = default_services(&cfg, &store).expect("services should resolve");
    assert_eq!(services.len(), 2);
    let mlx = services.iter().find(|svc| svc.name == "mlx").unwrap();
    assert!(mlx.command.contains(&"mlx_lm.server".to_string()));
    assert!(mlx.command.contains(&"5050".to_string()));
    assert_eq!(mlx.host, "127.0.0.1");
    assert_eq!(mlx.port, 5050);
}

#[test]
fn load_ollama_service_prefers_config_file() {
    let mut store = MemStore::new();
    let mut cfg = Config::default();
    cfg.ollama_server.host = "127.0.0.1".into();
    cfg.ollama_server.port = 11434;
    let mut configured = create_ollama_service(&cfg.ollama_server);
    configured.host = "10.0.0.1".into();
    configured.port = 1234;
    store.write_config(&configured).expect("config should be written");

    let loaded =
        load_ollama_service(&cfg.ollama_server, &store).expect("ollama service should load");
    assert_eq!(loaded.host, configured.host);
    assert_eq!(loaded.port, configured.port);
    assert_eq!(env_value(&loaded.env, "OLLAMA_HOST").unwrap(), "10.0.0.1:1234");

    store.remove_config(&configured).expect("config removal should succeed");
}

#[test]
fn load_mlx_service_prefers_runtime_config() {
    let mut store = MemStore::new();
    let cfg = Config::default();

    let mut configured = create_mlx_service(&cfg.mlx_server);
    configured.host = "10.0.0.5".into();
    configured.port = 5055;
    store.write_config(&configured).expect("config write should succeed");

    let service = load_mlx_service(&cfg.mlx_server, &store).expect("mlx service should load");
    assert_eq!(service.port, 5055);
    assert_eq!(service.host, "10.0.0.5");
    assert!(service.command.contains(&"10.0.0.5".to_string()));
    assert!(service.command.contains(&"5055".to_string()));

    store.remove_config(&configured).expect("config removal should succeed");
}

#[test]
fn server_env_prefixes_missing_keys() {
    let extra = vec![("keep_alive".to_string(), "5m".to_string())];
    let env = server_env(&extra, "OLLAMA_");
    assert_eq!(env_value(&env, "OLLAMA_KEEP_ALIVE"), Some("5m".to_string()));
}

#[test]
fn normalise_env_key_is_idempotent_on_prefixed_keys() {
    assert_eq!(normalise_env_key("OLLAMA_NUM_PARALLEL", "OLLAMA_"), "OLLAMA_NUM_PARALLEL");
    assert_eq!(normalise_env_key(" flash_attention ", "OLLAMA_"), "OLLAMA_FLASH_ATTENTION");
}

#[test]
fn signatures_join_and_match_by_containment() {
    let cmd = vec!["ollama".to_string(), "serve".to_string()];
    assert_eq!(expected_signature(&cmd), "ollama serve");
    assert_eq!(process_signature("ollama", &Vec::new()), "ollama");
    assert_eq!(process_signature("x", &cmd), "ollama serve");
    assert!(matches_signature("ollama serve", "/usr/bin/ollama serve --verbose"));
    assert!(!matches_signature("ollama serve", "ollama run model"));
}
