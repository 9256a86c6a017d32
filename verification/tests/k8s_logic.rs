//! Tests of the cluster-side logic: checkpoint ordering, label matching,
//! and the application model.

use criu_coordinator::errors::{AppError, ClientError, LoggerError};
use criu_coordinator::k8s::{checkpoint_order, matches_labels, DiscoveredContainer, DistributedApp};

fn ids(order: &[String]) -> Vec<&str> {
    order.iter().map(|s| s.as_str()).collect()
}

#[test]
fn checkpoint_order_respects_dependencies() {
    let containers = vec!["pod/web".to_string(), "pod/db".to_string()];
    let deps = vec![("pod/web".to_string(), vec!["pod/db".to_string()])];
    let order = checkpoint_order(&containers, &deps);
    assert_eq!(ids(&order), vec!["pod/db", "pod/web"]);
}

#[test]
fn checkpoint_order_handles_cycles_once() {
    let containers = vec!["A".to_string(), "B".to_string()];
    let deps = vec![
        ("A".to_string(), vec!["B".to_string()]),
        ("B".to_string(), vec!["A".to_string()]),
    ];
    let order = checkpoint_order(&containers, &deps);
    assert_eq!(order.len(), 2);
    assert!(order.contains(&"A".to_string()));
    assert!(order.contains(&"B".to_string()));
}

#[test]
fn checkpoint_order_covers_independent_containers() {
    let containers = vec!["A".to_string(), "B".to_string(), "C".to_string()];
    let order = checkpoint_order(&containers, &Vec::new());
    assert_eq!(ids(&order), vec!["A", "B", "C"]);
}

#[test]
fn label_selector_matching() {
    let labels = vec![
        ("app".to_string(), "web".to_string()),
        ("tier".to_string(), "front".to_string()),
    ];
    assert!(matches_labels(&labels, "app=web"));
    assert!(matches_labels(&labels, "app=web,tier=front"));
    assert!(!matches_labels(&labels, "app=db"));
    assert!(!matches_labels(&labels, "app=web,tier=back"));
    assert!(!matches_labels(&labels, "missing=x"));
    // A piece that is not of the key=value shape constrains nothing.
    assert!(matches_labels(&labels, "app=web,oddball"));
}

#[test]
fn distributed_app_accumulates_containers() {
    let mut app = DistributedApp::new("shop");
    assert_eq!(app.name, "shop");
    app.add_container(DiscoveredContainer {
        pod_name: "web-1".to_string(),
        namespace: "prod".to_string(),
        container_name: "web".to_string(),
        node_name: "n1".to_string(),
    });
    app.add_container(DiscoveredContainer {
        pod_name: "db-1".to_string(),
        namespace: "prod".to_string(),
        container_name: "db".to_string(),
        node_name: "n2".to_string(),
    });
    app.set_dependencies(vec![("web-1/web".to_string(), vec!["db-1/db".to_string()])]);
    assert_eq!(app.containers.len(), 2);
    assert_eq!(app.containers[1].container_name, "db");
    assert_eq!(app.dependencies.len(), 1);
}

#[test]
fn error_messages_name_their_kind() {
    assert_eq!(
        AppError::ConfigNotFound("x".to_string()).message(),
        "Configuration error: x"
    );
    assert_eq!(AppError::InvalidPort("70000".to_string()).message(), "Invalid port: 70000");
    assert_eq!(AppError::IoError("broken pipe".to_string()).message(), "I/O error: broken pipe");
    assert_eq!(
        AppError::ConfigParse("bad json".to_string()).message(),
        "Failed to parse config: bad json"
    );
    assert_eq!(
        AppError::MissingEnvVar("INIT_PID".to_string()).message(),
        "Missing environment variable: INIT_PID"
    );
    assert_eq!(
        AppError::SocketError("refused".to_string()).message(),
        "Socket error: refused"
    );
    assert_eq!(AppError::Other("odd".to_string()).message(), "Internal/Other error: odd");
    assert_eq!(
        ClientError::ServerError("timeout".to_string()).message(),
        "Server returned error response: timeout"
    );
    assert_eq!(
        ClientError::Connection("refused".to_string()).message(),
        "Connection error: refused"
    );
    assert_eq!(
        ClientError::ResponseParse("junk".to_string()).message(),
        "Failed to parse response: junk"
    );
    assert_eq!(
        ClientError::StreamerError("pipe".to_string()).message(),
        "Streamer error: pipe"
    );
    assert_eq!(
        LoggerError::PathConversion("bad".to_string()).message(),
        "Path conversion error: bad"
    );
    assert_eq!(LoggerError::IoError("full".to_string()).message(), "IO Error: full");
    assert_eq!(
        LoggerError::LoggerInitError("twice".to_string()).message(),
        "Logger initialization error: twice"
    );
}
