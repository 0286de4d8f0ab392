use devcontainer_env::container::{
    Container, ContainerConfigRecord, ContainerInspectRecord, ContainerSummaryRecord,
    PortBindingRecord, PortMapping, PortSummaryRecord,
};
use devcontainer_env::env::Environment;

fn tcp() -> String {
    bollard::plugin::PortSummaryTypeEnum::TCP.to_string()
}

fn container_summary() -> ContainerSummaryRecord {
    ContainerSummaryRecord {
        id: Some("1".to_string()),
        names: Some(vec!["devcontainer-app-1".to_string()]),
        image: Some("mcr.microsoft.com/devcontainers/rust:latest".to_string()),
        networks: vec![],
        ports: Some(vec![PortSummaryRecord {
            ip: Some("127.0.0.1".to_string()),
            public_port: Some(8080),
            private_port: 8080,
            protocol: Some(tcp()),
        }]),
        labels: None,
    }
}

#[test]
fn container_from_summary() {
    let container = Container::from_summary(container_summary());
    assert_eq!(container.id, "1");
    assert_eq!(container.names, vec!["devcontainer-app-1"]);
    assert_eq!(container.image, "mcr.microsoft.com/devcontainers/rust:latest");
    assert_eq!(container.ports.len(), 1);
    assert_eq!(container.ports[0].container_port, 8080);
    assert_eq!(container.ports[0].host_port, 8080);
    assert_eq!(container.ports[0].host_ip, "127.0.0.1");
}

#[test]
fn container_includes_compose_service_as_host() {
    let summary = ContainerSummaryRecord {
        id: Some("1".to_string()),
        names: Some(vec!["devcontainer-app-1".to_string()]),
        image: Some("rust:latest".to_string()),
        networks: vec![],
        ports: None,
        labels: Some(vec![("com.docker.compose.service".to_string(), "app".to_string())]),
    };
    let container = Container::from_summary(summary);
    assert_eq!(container.hosts.first().map(String::as_str), Some("app"));
}

#[test]
fn port_mapping_from_summary() {
    let summary = PortSummaryRecord {
        ip: Some("127.0.0.1".to_string()),
        public_port: Some(8080),
        private_port: 80,
        protocol: Some(tcp()),
    };
    let port = PortMapping::from_summary(summary);
    assert_eq!(port.host_ip, "127.0.0.1");
    assert_eq!(port.host_port, 8080);
    assert_eq!(port.container_port, 80);
    assert_eq!(port.protocol, tcp());
}

#[test]
fn port_mapping_from_summary_uses_defaults_when_fields_absent() {
    let summary = PortSummaryRecord { ip: None, public_port: None, private_port: 80, protocol: None };
    let port = PortMapping::from_summary(summary);
    assert_eq!(port.host_ip, "");
    assert_eq!(port.host_port, 0);
    assert_eq!(port.container_port, 80);
    assert_eq!(port.protocol, tcp());
}

#[test]
fn port_mapping_display() {
    let port = PortMapping {
        container_port: 80,
        host_ip: "127.0.0.1".to_string(),
        host_port: 8080,
        protocol: "tcp".to_string(),
    };
    assert_eq!(port.to_string(), "80 → 127.0.0.1:8080");
}

#[test]
fn port_mapping_display_renders_zero_and_max() {
    let port = PortMapping {
        container_port: 0,
        host_ip: "::".to_string(),
        host_port: 65535,
        protocol: "udp".to_string(),
    };
    assert_eq!(port.to_string(), "0 → :::65535");
}

#[test]
fn container_from_inspect_response() {
    let response = ContainerInspectRecord {
        id: Some("abc123".to_string()),
        name: Some("/my-container".to_string()),
        config: Some(ContainerConfigRecord {
            image: Some("rust:latest".to_string()),
            env: Some(vec!["FOO=bar".to_string(), "BAZ=qux".to_string()]),
            labels: None,
        }),
        networks: None,
        ports: None,
    };
    let container = Container::from_inspect(response);
    assert_eq!(container.id, "abc123");
    assert_eq!(container.names, vec!["my-container"]);
    assert_eq!(container.image, "rust:latest");
    let keys: Vec<&str> = container.environment.variables.iter().map(|v| v.key.as_str()).collect();
    let values: Vec<&str> =
        container.environment.variables.iter().map(|v| v.value.as_str()).collect();
    assert_eq!(keys, vec!["FOO", "BAZ"]);
    assert_eq!(values, vec!["bar", "qux"]);
}

#[test]
fn container_from_inspect_response_includes_compose_service_as_host() {
    let response = ContainerInspectRecord {
        id: Some("abc123".to_string()),
        name: Some("/my-container".to_string()),
        config: Some(ContainerConfigRecord {
            image: Some("rust:latest".to_string()),
            env: None,
            labels: Some(vec![("com.docker.compose.service".to_string(), "app".to_string())]),
        }),
        networks: None,
        ports: None,
    };
    let container = Container::from_inspect(response);
    assert_eq!(container.hosts.first().map(String::as_str), Some("app"));
}

#[test]
fn container_from_inspect_reads_port_map() {
    let response = ContainerInspectRecord {
        id: None,
        name: None,
        config: None,
        networks: Some(vec![
            Some(vec!["db-1".to_string(), "db".to_string()]),
            None,
            Some(vec!["abc".to_string()]),
        ]),
        ports: Some(vec![
            (
                "5432/tcp".to_string(),
                Some(vec![
                    PortBindingRecord {
                        host_ip: Some("0.0.0.0".to_string()),
                        host_port: Some("32770".to_string()),
                    },
                    PortBindingRecord { host_ip: Some("::".to_string()), host_port: Some("32770".to_string()) },
                ]),
            ),
            ("53/udp".to_string(), None),
            ("8080".to_string(), Some(vec![PortBindingRecord { host_ip: None, host_port: Some("x".to_string()) }])),
            ("+90/sctp".to_string(), Some(vec![PortBindingRecord { host_ip: None, host_port: None }])),
            ("70000/tcp".to_string(), Some(vec![PortBindingRecord { host_ip: None, host_port: Some("+81".to_string()) }])),
        ]),
    };
    let container = Container::from_inspect(response);
    assert_eq!(container.id, "");
    assert!(container.names.is_empty());
    assert_eq!(container.image, "");
    assert!(container.environment.variables.is_empty());
    assert_eq!(container.hosts, vec!["db-1", "db", "abc"]);
    let ports: Vec<(u16, &str, u16, &str)> = container
        .ports
        .iter()
        .map(|p| (p.container_port, p.host_ip.as_str(), p.host_port, p.protocol.as_str()))
        .collect();
    assert_eq!(
        ports,
        vec![
            (5432, "0.0.0.0", 32770, "tcp"),
            (5432, "::", 32770, "tcp"),
            (8080, "", 0, "tcp"),
            (90, "", 0, "sctp"),
            (0, "", 81, "tcp"),
        ]
    );
}

#[test]
fn compose_service_already_listed_is_not_repeated() {
    let summary = ContainerSummaryRecord {
        id: Some("1".to_string()),
        names: Some(vec!["/a".to_string()]),
        image: Some("img".to_string()),
        networks: vec![Some(vec!["x".to_string(), "app".to_string()])],
        ports: None,
        labels: Some(vec![
            ("other".to_string(), "y".to_string()),
            ("com.docker.compose.service".to_string(), "app".to_string()),
        ]),
    };
    let container = Container::from_summary(summary);
    assert_eq!(container.hosts, vec!["x", "app"]);
    assert_eq!(container.names, vec!["/a"]);
    assert!(container.environment.variables.is_empty());
}

#[test]
fn container_displays_trimmed_names_hosts_and_ports() {
    let container = Container {
        id: "1".to_string(),
        names: vec!["//default-postgres-1".to_string(), "main".to_string()],
        image: "postgres:18-bookworm".to_string(),
        hosts: vec!["postgres".to_string(), "fe6e".to_string()],
        ports: vec![
            PortMapping {
                container_port: 5432,
                host_ip: "0.0.0.0".to_string(),
                host_port: 32770,
                protocol: "tcp".to_string(),
            },
            PortMapping {
                container_port: 5432,
                host_ip: "::".to_string(),
                host_port: 32770,
                protocol: "tcp".to_string(),
            },
        ],
        environment: Environment::new(),
    };
    assert_eq!(
        container.to_string(),
        "  default-postgres-1, main\n    Image: postgres:18-bookworm\n    Hosts: postgres, fe6e\n    Ports: 5432 → 0.0.0.0:32770, 5432 → :::32770\n"
    );
}
