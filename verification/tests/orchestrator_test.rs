use lsproxy::api_types::SupportedLanguages;
use lsproxy::orchestrator::{
    container_name_for, endpoint_for, health_poll_decision, memory_limit_bytes,
    parse_memory_limit_mb, spawn_step, ContainerInfo, ContainerRegistry, HealthDecision,
    OrchestratorError, SpawnEvent, SpawnPhase,
};
use lsproxy::orchestrator::{host_port_value, internal_port_key, rust_log_env, workspace_bind};

fn info(id: &str, image: &str, port: u16) -> ContainerInfo {
    ContainerInfo {
        container_id: id.to_string(),
        image_name: image.to_string(),
        port,
        endpoint: format!("http://0.0.0.0:{}", port),
    }
}

#[test]
fn test_store_and_get_container() {
    let mut reg = ContainerRegistry::new();
    assert!(reg.get_container(SupportedLanguages::Python).is_none());

    reg.store_container(
        SupportedLanguages::Python,
        info("test-123", "lsproxy-python:latest", 8080),
    );

    let retrieved = reg.get_container(SupportedLanguages::Python);
    assert!(retrieved.is_some());
    assert_eq!(retrieved.unwrap().container_id, "test-123");
}

#[test]
fn test_remove_container_from_map() {
    let mut reg = ContainerRegistry::new();
    reg.store_container(
        SupportedLanguages::Golang,
        info("test-456", "lsproxy-golang:latest", 8081),
    );
    assert!(reg.get_container(SupportedLanguages::Golang).is_some());

    let removed = reg.remove_container(SupportedLanguages::Golang);
    assert!(removed.is_some());
    assert_eq!(removed.unwrap().container_id, "test-456");

    assert!(reg.get_container(SupportedLanguages::Golang).is_none());
}

#[test]
fn test_all_containers() {
    let mut reg = ContainerRegistry::new();
    assert_eq!(reg.all_containers().len(), 0);

    reg.store_container(
        SupportedLanguages::Python,
        info("test-1", "lsproxy-python:latest", 8080),
    );
    reg.store_container(
        SupportedLanguages::Golang,
        info("test-2", "lsproxy-golang:latest", 8081),
    );

    let all = reg.all_containers();
    assert_eq!(all.len(), 2);
}

#[test]
fn test_spawn_container_returns_existing() {
    // A pre-populated record ends the spawn sequence at once, unchanged.
    let existing = info("existing-123", "lsproxy-python:latest", 9000);
    let next = spawn_step(
        SupportedLanguages::Python,
        "0.0.0.0",
        SpawnPhase::Checking,
        SpawnEvent::Existing {
            found: Some(existing),
        },
    );
    match next {
        SpawnPhase::Done { info } => {
            assert_eq!(info.container_id, "existing-123");
            assert_eq!(info.port, 9000);
        }
        _ => panic!("expected the existing record"),
    }
}

#[test]
fn spawn_sequence_assembles_the_record() {
    let lang = SupportedLanguages::Python;
    let host = "0.0.0.0";
    let p1 = spawn_step(
        lang,
        host,
        SpawnPhase::Checking,
        SpawnEvent::Existing { found: None },
    );
    assert!(matches!(p1, SpawnPhase::Reserving));
    let p2 = spawn_step(lang, host, p1, SpawnEvent::PortReserved { port: 42311 });
    assert!(matches!(p2, SpawnPhase::Creating { port: 42311 }));
    let p3 = spawn_step(
        lang,
        host,
        p2,
        SpawnEvent::Created {
            container_id: "cid-1".to_string(),
        },
    );
    match &p3 {
        SpawnPhase::Starting { info } => {
            assert_eq!(info.container_id, "cid-1");
            assert_eq!(info.image_name, "lsproxy-python:latest");
            assert_eq!(info.port, 42311);
            assert_eq!(info.endpoint, "http://0.0.0.0:42311");
        }
        _ => panic!("expected the assembled record"),
    }
    let p4 = spawn_step(lang, host, p3, SpawnEvent::Started);
    assert!(matches!(p4, SpawnPhase::HealthChecking { .. }));
    let p5 = spawn_step(lang, host, p4, SpawnEvent::Healthy);
    match p5 {
        SpawnPhase::Done { info } => assert_eq!(info.endpoint, "http://0.0.0.0:42311"),
        _ => panic!("expected completion"),
    }
}

#[test]
fn spawn_failures_surface_the_diagnostics() {
    let lang = SupportedLanguages::Rust;
    let p = spawn_step(
        lang,
        "0.0.0.0",
        SpawnPhase::Reserving,
        SpawnEvent::PortFailed {
            diagnostic: "address in use".to_string(),
        },
    );
    match p {
        SpawnPhase::Failed {
            error: OrchestratorError::Io(d),
        } => assert_eq!(d, "address in use"),
        _ => panic!("expected a port failure"),
    }
    let p = spawn_step(
        lang,
        "0.0.0.0",
        SpawnPhase::Creating { port: 1 },
        SpawnEvent::CreateFailed {
            diagnostic: "no such image".to_string(),
        },
    );
    match p {
        SpawnPhase::Failed {
            error: OrchestratorError::Docker(d),
        } => assert_eq!(d, "no such image"),
        _ => panic!("expected a daemon failure"),
    }
    let p = spawn_step(
        lang,
        "0.0.0.0",
        SpawnPhase::HealthChecking {
            info: info("cid", "img", 5),
        },
        SpawnEvent::Unhealthy {
            logs: "panic: cannot start".to_string(),
        },
    );
    match p {
        SpawnPhase::Failed {
            error: OrchestratorError::HealthCheck(logs),
        } => assert_eq!(logs, "panic: cannot start"),
        _ => panic!("expected a health-check failure"),
    }
}

#[test]
fn second_request_reuses_the_container() {
    // After a first spawn records the container, a second request for the
    // same language sees the record and spawns nothing new.
    let mut reg = ContainerRegistry::new();
    reg.store_container(
        SupportedLanguages::Python,
        info("cid-first", "lsproxy-python:latest", 40001),
    );
    let count_before = reg.all_containers().len();
    let found = reg.get_container(SupportedLanguages::Python);
    let next = spawn_step(
        SupportedLanguages::Python,
        "0.0.0.0",
        SpawnPhase::Checking,
        SpawnEvent::Existing { found },
    );
    match next {
        SpawnPhase::Done { info } => assert_eq!(info.container_id, "cid-first"),
        _ => panic!("expected reuse"),
    }
    assert_eq!(reg.all_containers().len(), count_before);
}

#[test]
fn health_poll_decisions() {
    assert_eq!(health_poll_decision(0, true), HealthDecision::Healthy);
    assert_eq!(health_poll_decision(29999, false), HealthDecision::Retry);
    assert_eq!(health_poll_decision(30000, false), HealthDecision::TimedOut);
}

#[test]
fn memory_limits() {
    assert_eq!(parse_memory_limit_mb(None), 2048);
    assert_eq!(parse_memory_limit_mb(Some(&"4096".to_string())), 4096);
    assert_eq!(parse_memory_limit_mb(Some(&"not a number".to_string())), 2048);
    assert_eq!(memory_limit_bytes(2048), 2048 * 1024 * 1024);
}

#[test]
fn container_names_and_endpoints() {
    let name = container_name_for(SupportedLanguages::RubySorbet);
    assert!(name.starts_with("lsproxy-ruby-sorbet-"));
    assert_eq!(name.len(), "lsproxy-ruby-sorbet-".len() + 36);
    let other = container_name_for(SupportedLanguages::RubySorbet);
    assert_ne!(name, other);
    assert_eq!(endpoint_for("127.0.0.1", 8080), "http://127.0.0.1:8080");
}

#[test]
fn removed_record_is_the_stored_one() {
    let mut reg = ContainerRegistry::new();
    reg.store_container(
        SupportedLanguages::Python,
        info("py-1", "lsproxy-python:latest", 40001),
    );
    reg.store_container(
        SupportedLanguages::Rust,
        info("rs-1", "lsproxy-rust:latest", 40002),
    );
    let removed = reg.remove_container(SupportedLanguages::Python).unwrap();
    assert_eq!(removed.container_id, "py-1");
    assert_eq!(removed.image_name, "lsproxy-python:latest");
    assert_eq!(removed.port, 40001);
    // The other record is untouched; removing an absent tag changes nothing.
    assert_eq!(reg.len(), 1);
    assert!(reg.remove_container(SupportedLanguages::Python).is_none());
    assert_eq!(reg.len(), 1);
    assert!(reg.get_container(SupportedLanguages::Rust).is_some());
}

#[test]
fn create_request_strings() {
    assert_eq!(workspace_bind("/home/me/project"), "/home/me/project:/workspace:rw");
    assert_eq!(internal_port_key(), "8080/tcp");
    assert_eq!(host_port_value(42311), "42311");
    assert_eq!(rust_log_env("debug"), "RUST_LOG=debug");
}
