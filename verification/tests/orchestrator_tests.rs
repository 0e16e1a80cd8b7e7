//! Supervisor configuration and discovery tests.

use commonplace_doc::orchestrator::{
    backoff_for, process_delta, should_restart, CommandSpec, OrchestratorConfig, ProcessManager,
    ProcessState, ProcessesConfig, RestartMode, RestartPolicy,
};

fn proc<'a>(
    config: &'a OrchestratorConfig,
    name: &str,
) -> &'a commonplace_doc::orchestrator::ProcessConfig {
    &config
        .processes
        .iter()
        .find(|(n, _)| n == name)
        .expect("process should exist")
        .1
}

#[test]
fn test_parse_minimal_config() {
    let json = r#"{
        "processes": {
            "store": {
                "command": "commonplace-store"
            }
        }
    }"#;
    let config = OrchestratorConfig::parse(json).unwrap();
    assert_eq!(config.mqtt_broker, "localhost:1883");
    assert_eq!(config.processes.len(), 1);
    assert_eq!(proc(&config, "store").command, "commonplace-store");
    assert_eq!(proc(&config, "store").restart.policy, RestartMode::Always);
}

#[test]
fn test_parse_full_config() {
    let json = r#"{
        "mqtt_broker": "localhost:1884",
        "processes": {
            "store": {
                "command": "commonplace-store",
                "args": ["--database", "./data.redb"],
                "restart": { "policy": "on_failure", "backoff_ms": 1000, "max_backoff_ms": 30000 }
            },
            "http": {
                "command": "commonplace-http",
                "args": ["--port", "3000"],
                "depends_on": ["store"]
            }
        }
    }"#;
    let config = OrchestratorConfig::parse(json).unwrap();
    assert_eq!(config.mqtt_broker, "localhost:1884");
    assert_eq!(proc(&config, "store").restart.policy, RestartMode::OnFailure);
    assert_eq!(proc(&config, "store").restart.backoff_ms, 1000);
    assert_eq!(proc(&config, "http").depends_on, vec!["store"]);
}

#[test]
fn test_dependency_order() {
    let json = r#"{
        "processes": {
            "http": { "command": "http", "depends_on": ["store"] },
            "store": { "command": "store", "depends_on": ["broker"] },
            "broker": { "command": "broker" }
        }
    }"#;
    let config = OrchestratorConfig::parse(json).unwrap();
    let order = config.startup_order().unwrap();
    assert_eq!(order, vec!["broker", "store", "http"]);
}

#[test]
fn test_dependency_cycle_detected() {
    let json = r#"{
        "processes": {
            "a": { "command": "a", "depends_on": ["b"] },
            "b": { "command": "b", "depends_on": ["a"] }
        }
    }"#;
    let config = OrchestratorConfig::parse(json).unwrap();
    assert!(config.startup_order().is_err());
}

#[test]
fn test_unknown_dependency_detected() {
    let json = r#"{
        "processes": {
            "a": { "command": "a", "depends_on": ["ghostly"] }
        }
    }"#;
    let config = OrchestratorConfig::parse(json).unwrap();
    assert!(config.startup_order().is_err());
}

fn discovered<'a>(
    config: &'a ProcessesConfig,
    name: &str,
) -> &'a commonplace_doc::orchestrator::DiscoveredProcess {
    &config
        .processes
        .iter()
        .find(|(n, _)| n == name)
        .expect("process should exist")
        .1
}

#[test]
fn test_parse_processes_json_with_string_command() {
    let json = r#"{
        "processes": {
            "counter": {
                "command": "python counter.py",
                "owns": "counter.json",
                "cwd": "/home/user/examples"
            }
        }
    }"#;

    let config = ProcessesConfig::parse(json).unwrap();
    assert_eq!(config.processes.len(), 1);

    let counter = discovered(&config, "counter");
    assert!(matches!(counter.command, CommandSpec::Simple(_)));
    assert_eq!(counter.command.program(), "python");
    assert_eq!(counter.command.args(), vec!["counter.py"]);
    assert_eq!(counter.owns, "counter.json");
    assert_eq!(counter.cwd, "/home/user/examples");
}

#[test]
fn test_parse_processes_json_with_array_command() {
    let json = r#"{
        "processes": {
            "server": {
                "command": ["node", "server.js", "--port", "3000"],
                "owns": "state.json",
                "cwd": "/opt/app"
            }
        }
    }"#;

    let config = ProcessesConfig::parse(json).unwrap();
    assert_eq!(config.processes.len(), 1);

    let server = discovered(&config, "server");
    assert!(matches!(server.command, CommandSpec::Array(_)));
    assert_eq!(server.command.program(), "node");
    assert_eq!(server.command.args(), vec!["server.js", "--port", "3000"]);
    assert_eq!(server.owns, "state.json");
    assert_eq!(server.cwd, "/opt/app");
}

#[test]
fn test_command_spec_deserialization() {
    let simple = CommandSpec::parse(r#""echo hello world""#).unwrap();
    assert!(matches!(simple, CommandSpec::Simple(_)));
    assert_eq!(simple.program(), "echo");
    assert_eq!(simple.args(), vec!["hello", "world"]);

    let array = CommandSpec::parse(r#"["echo", "hello", "world"]"#).unwrap();
    assert!(matches!(array, CommandSpec::Array(_)));
    assert_eq!(array.program(), "echo");
    assert_eq!(array.args(), vec!["hello", "world"]);
}

#[test]
fn test_empty_command() {
    let spec = CommandSpec::Simple("".to_string());
    assert_eq!(spec.program(), "");
    assert!(spec.args().is_empty());

    let spec = CommandSpec::Array(vec![]);
    assert_eq!(spec.program(), "");
    assert!(spec.args().is_empty());
}

#[test]
fn test_multiple_processes() {
    let json = r#"{
        "processes": {
            "frontend": {
                "command": "npm start",
                "owns": "frontend-state.json",
                "cwd": "/app/frontend"
            },
            "backend": {
                "command": ["cargo", "run", "--release"],
                "owns": "backend-state.json",
                "cwd": "/app/backend"
            }
        }
    }"#;

    let config = ProcessesConfig::parse(json).unwrap();
    assert_eq!(config.processes.len(), 2);
    assert!(config.processes.iter().any(|(n, _)| n == "frontend"));
    assert!(config.processes.iter().any(|(n, _)| n == "backend"));
}

#[test]
fn test_backoff_doubles_to_ceiling() {
    let policy = RestartPolicy {
        policy: RestartMode::Always,
        backoff_ms: 500,
        max_backoff_ms: 10000,
    };
    assert_eq!(backoff_for(&policy, 0), 500);
    assert_eq!(backoff_for(&policy, 1), 1000);
    assert_eq!(backoff_for(&policy, 2), 2000);
    assert_eq!(backoff_for(&policy, 4), 8000);
    assert_eq!(backoff_for(&policy, 5), 10000);
    assert_eq!(backoff_for(&policy, 50), 10000);
}

#[test]
fn test_should_restart_policy() {
    let always = RestartPolicy {
        policy: RestartMode::Always,
        backoff_ms: 1,
        max_backoff_ms: 1,
    };
    let on_failure = RestartPolicy {
        policy: RestartMode::OnFailure,
        backoff_ms: 1,
        max_backoff_ms: 1,
    };
    let never = RestartPolicy {
        policy: RestartMode::Never,
        backoff_ms: 1,
        max_backoff_ms: 1,
    };
    assert!(should_restart(&always, true));
    assert!(should_restart(&always, false));
    assert!(!should_restart(&on_failure, true));
    assert!(should_restart(&on_failure, false));
    assert!(!should_restart(&never, false));
}

#[test]
fn test_process_manager_new_starts_stopped() {
    let json = r#"{
        "mqtt_broker": "broker:1883",
        "processes": {
            "a": { "command": "a" },
            "b": { "command": "b" }
        }
    }"#;
    let config = OrchestratorConfig::parse(json).unwrap();
    let manager = ProcessManager::new(config, None, vec![]);
    assert_eq!(manager.mqtt_broker(), "broker:1883");

    let json2 = r#"{"processes": {"a": {"command": "a"}}}"#;
    let config2 = OrchestratorConfig::parse(json2).unwrap();
    let overridden = ProcessManager::new(config2, Some("other:1".to_string()), vec![]);
    assert_eq!(overridden.mqtt_broker(), "other:1");
    let _ = ProcessState::Stopped;
}

#[test]
fn test_process_delta() {
    let desired = vec!["a".to_string(), "b".to_string(), "c".to_string()];
    let actual = vec!["b".to_string(), "d".to_string()];
    let (spawn, revoke) = process_delta(&desired, &actual);
    assert_eq!(spawn, vec!["a".to_string(), "c".to_string()]);
    assert_eq!(revoke, vec!["d".to_string()]);
}
