use devcontainer_env::cli::ExportFormat;
use devcontainer_env::container::{Container, PortMapping};
use devcontainer_env::env::{Environment, Variable};
use devcontainer_env::report::{exec_invocation, export_text, inspect_text};
use devcontainer_env::workspace::Workspace;

fn workspace() -> Workspace {
    Workspace {
        folder: ".".into(),
        config: ".devcontainer/devcontainer.json".into(),
        containers: vec![Container {
            id: "001".to_string(),
            names: vec!["devcontainer-app-1".to_string()],
            image: "mcr.microsoft.com/devcontainers/rust:latest".to_string(),
            hosts: vec!["my-host".to_string()],
            ports: vec![PortMapping {
                host_ip: "127.0.0.1".to_string(),
                host_port: 8080,
                container_port: 8080,
                protocol: "tcp".to_string(),
            }],
            environment: Environment { variables: vec![] },
        }],
        environment: Environment {
            variables: vec![Variable {
                key: String::from("FAKE_VAR"),
                value: String::from("brown-fox"),
            }],
        },
    }
}

#[test]
fn export_writes_bash_export_statements() {
    let ws = workspace();
    assert_eq!(export_text(&ws.environment, ExportFormat::Bash), "export FAKE_VAR=brown-fox\n");
}

#[test]
fn export_writes_json_object() {
    let ws = workspace();
    assert_eq!(export_text(&ws.environment, ExportFormat::Json), "{\"FAKE_VAR\":\"brown-fox\"}\n");
}

#[test]
fn export_json_escapes_and_keeps_last_value() {
    let env = Environment::from_lines(vec![
        "A=1".to_string(),
        "Q=say \"hi\"\\ \u{1}\u{1f}\t\n\r\u{8}\u{c}/é\u{7f}".to_string(),
        "A=2".to_string(),
    ]);
    assert_eq!(
        export_text(&env, ExportFormat::Json),
        "{\"A\":\"2\",\"Q\":\"say \\\"hi\\\"\\\\ \\u0001\\u001f\\t\\n\\r\\b\\f/é\u{7f}\"}\n"
    );
    let parsed: std::collections::HashMap<String, String> =
        serde_json::from_str(export_text(&env, ExportFormat::Json).trim_end()).unwrap();
    assert_eq!(parsed.get("A").map(String::as_str), Some("2"));
}

#[test]
fn export_json_of_nothing_is_empty_object() {
    assert_eq!(export_text(&Environment::new(), ExportFormat::Json), "{}\n");
    assert_eq!(export_text(&Environment::new(), ExportFormat::Bash), "");
}

#[test]
fn inspect_writes_workspace_display() {
    let expected = "Workspace: .\n\nContainers:\n  devcontainer-app-1\n    Image: mcr.microsoft.com/devcontainers/rust:latest\n    Hosts: my-host\n    Ports: 8080 → 127.0.0.1:8080\n\nEnvironment:\n  FAKE_VAR = brown-fox\n";
    assert_eq!(inspect_text(&workspace()), expected);
}

#[test]
fn inspect_writes_no_containers_message() {
    let ws = Workspace {
        folder: ".".into(),
        config: ".devcontainer/devcontainer.json".into(),
        containers: vec![],
        environment: Environment { variables: vec![] },
    };
    assert_eq!(inspect_text(&ws), "No running devcontainers found for .\n");
}

#[test]
fn exec_invocation_splits_program_and_arguments() {
    let (name, args) = exec_invocation(vec![
        "sh".to_string(),
        "-c".to_string(),
        r#"[ "$FAKE_VAR" = "brown-fox" ]"#.to_string(),
    ]);
    assert_eq!(name, "sh");
    assert_eq!(args, vec!["-c".to_string(), r#"[ "$FAKE_VAR" = "brown-fox" ]"#.to_string()]);
    let (name, args) = exec_invocation(vec![]);
    assert_eq!(name, "sh");
    assert!(args.is_empty());
}
