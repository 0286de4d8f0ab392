use devcontainer_env::container::{Container, PortMapping};
use devcontainer_env::env::Environment;
use devcontainer_env::query::{ContainerFilter, ContainerFilters, ContainerSearch, ListContainersFilter, workspace_filters};
use devcontainer_env::query::config_location;
use devcontainer_env::workspace::{Spec, Workspace};
use std::path::Path;

fn env_from_vec(lines: Vec<String>) -> Environment {
    Environment::from_lines(lines)
}

fn port(container_port: u16, host_ip: &str, host_port: u16) -> PortMapping {
    PortMapping {
        container_port,
        host_ip: host_ip.to_string(),
        host_port,
        protocol: "tcp".to_string(),
    }
}

fn container(name: &str, hosts: Vec<&str>, ports: Vec<PortMapping>) -> Container {
    Container {
        id: "1".to_string(),
        names: vec![name.to_string()],
        image: "rust:latest".to_string(),
        hosts: hosts.into_iter().map(String::from).collect(),
        ports,
        environment: Environment::default(),
    }
}

#[test]
fn workspace_displays_without_environment() {
    let workspace = Workspace {
        folder: ".".into(),
        config: ".devcontainer/devcontainer.json".into(),
        containers: vec![Container {
            id: "1".to_string(),
            names: vec!["app".to_string()],
            image: "rust:latest".to_string(),
            hosts: vec![],
            ports: vec![],
            environment: Environment::default(),
        }],
        environment: Environment { variables: vec![] },
    };

    let output = workspace.to_string();
    assert!(output.contains("Containers:"));
    assert!(!output.contains("Environment:"));
}

#[test]
fn workspace_rewrite_rewrites_url_env_vars() {
    let workspace = Workspace {
        folder: ".".into(),
        config: ".devcontainer/devcontainer.json".into(),
        containers: vec![Container {
            id: "1".to_string(),
            names: vec!["app".to_string()],
            image: "rust:latest".to_string(),
            hosts: vec!["app".to_string()],
            ports: vec![PortMapping {
                container_port: 5432,
                host_ip: "127.0.0.1".to_string(),
                host_port: 54320,
                protocol: "tcp".to_string(),
            }],
            environment: Environment::default(),
        }],
        environment: env_from_vec(vec!["DB_URL=postgres://app:5432/db".to_string()]),
    };
    let rewritten = workspace.rewrite();
    assert_eq!(rewritten.environment.variables[0].value, "postgres://127.0.0.1:54320/db");
}

#[test]
fn workspace_rewrite_leaves_non_url_vars_unchanged() {
    let workspace = Workspace {
        folder: ".".into(),
        config: ".devcontainer/devcontainer.json".into(),
        containers: vec![],
        environment: env_from_vec(vec!["FOO=bar".to_string()]),
    };
    let rewritten = workspace.rewrite();
    assert_eq!(rewritten.environment.variables[0].value, "bar");
}

#[test]
fn workspace_rewrite_skips_url_when_port_not_published() {
    let workspace = Workspace {
        folder: ".".into(),
        config: ".devcontainer/devcontainer.json".into(),
        containers: vec![Container {
            id: "1".to_string(),
            names: vec!["db".to_string()],
            image: "postgres:latest".to_string(),
            hosts: vec!["db".to_string()],
            ports: vec![PortMapping {
                container_port: 5432,
                host_ip: "".to_string(),
                host_port: 0,
                protocol: "tcp".to_string(),
            }],
            environment: Environment::default(),
        }],
        environment: env_from_vec(vec!["DB_URL=postgres://db:5432/mydb".to_string()]),
    };
    let rewritten = workspace.rewrite();
    assert_eq!(rewritten.environment.variables[0].value, "postgres://db:5432/mydb");
}

#[test]
fn workspace_rewrite_uses_known_default_port_and_keeps_the_rest() {
    let workspace = Workspace {
        folder: ".".into(),
        config: "c".into(),
        containers: vec![
            container("web", vec!["web"], vec![port(80, "0.0.0.0", 49153)]),
        ],
        environment: env_from_vec(vec![
            "API=http://user:pw@web/path?q=1#frag".to_string(),
            "OTHER=http://elsewhere:80/".to_string(),
            "PLAIN=web".to_string(),
        ]),
    };
    let rewritten = workspace.rewrite();
    let values: Vec<&str> = rewritten.environment.variables.iter().map(|v| v.value.as_str()).collect();
    assert_eq!(
        values,
        vec!["http://user:pw@127.0.0.1:49153/path?q=1#frag", "http://elsewhere:80/", "web"]
    );
    assert_eq!(rewritten.environment.variables[0].key, "API");
    assert_eq!(rewritten.containers.len(), 1);
}

#[test]
fn workspace_rewrite_takes_first_container_with_the_host() {
    let workspace = Workspace {
        folder: ".".into(),
        config: "c".into(),
        containers: vec![
            container("a", vec!["db"], vec![port(5432, "", 0)]),
            container("b", vec!["db"], vec![port(5432, "0.0.0.0", 40000)]),
        ],
        environment: env_from_vec(vec!["URL=postgres://db:5432/x".to_string()]),
    };
    let rewritten = workspace.rewrite();
    assert_eq!(rewritten.environment.variables[0].value, "postgres://db:5432/x");
}

#[test]
fn workspace_rewrite_takes_first_published_mapping() {
    let workspace = Workspace {
        folder: ".".into(),
        config: "c".into(),
        containers: vec![container(
            "a",
            vec!["x", "cache"],
            vec![port(6379, "", 0), port(6379, "::", 41000), port(6379, "0.0.0.0", 42000)],
        )],
        environment: env_from_vec(vec!["REDIS=redis://cache:6379".to_string()]),
    };
    let rewritten = workspace.rewrite();
    assert_eq!(rewritten.environment.variables[0].value, "redis://127.0.0.1:41000");
}

#[test]
fn workspace_displays_containers_and_environment() {
    let workspace = Workspace {
        folder: "/home/me/example-api".into(),
        config: ".devcontainer/devcontainer.json".into(),
        containers: vec![
            Container {
                id: "1".to_string(),
                names: vec!["/default-co-bd5e8-postgres-1".to_string()],
                image: "postgres:18-bookworm".to_string(),
                hosts: vec![
                    "default-co-bd5e8-postgres-1".to_string(),
                    "postgres".to_string(),
                    "fe6eca554c95".to_string(),
                ],
                ports: vec![port(5432, "0.0.0.0", 32770), port(5432, "::", 32770)],
                environment: Environment::default(),
            },
            Container {
                id: "2".to_string(),
                names: vec!["default-co-bd5e8-workspace-1".to_string(), "main".to_string()],
                image: "mcr.microsoft.com/devcontainers/base:noble".to_string(),
                hosts: vec![
                    "default-co-bd5e8-workspace-1".to_string(),
                    "workspace".to_string(),
                    "d93fdbd4f540".to_string(),
                ],
                ports: vec![],
                environment: Environment::default(),
            },
        ],
        environment: env_from_vec(vec![
            "EXAMPLE_API_LOG_LEVEL=DEBUG".to_string(),
            "EXAMPLE_API_LOG_PRETTY=true".to_string(),
        ]),
    };
    let expected = "Workspace: /home/me/example-api\n\nContainers:\n  default-co-bd5e8-postgres-1\n    Image: postgres:18-bookworm\n    Hosts: default-co-bd5e8-postgres-1, postgres, fe6eca554c95\n    Ports: 5432 → 0.0.0.0:32770, 5432 → :::32770\n\n  default-co-bd5e8-workspace-1, main\n    Image: mcr.microsoft.com/devcontainers/base:noble\n    Hosts: default-co-bd5e8-workspace-1, workspace, d93fdbd4f540\n\nEnvironment:\n  EXAMPLE_API_LOG_LEVEL = DEBUG\n  EXAMPLE_API_LOG_PRETTY = true\n";
    assert_eq!(workspace.to_string(), expected);
}

#[test]
fn workspace_without_containers_displays_only_folder() {
    let workspace = Workspace {
        folder: ".".into(),
        config: "c".into(),
        containers: vec![],
        environment: env_from_vec(vec!["A=1".to_string()]),
    };
    assert_eq!(workspace.to_string(), "Workspace: .\n");
}

#[test]
fn workspace_assembles_declared_variables_with_runtime_values() {
    let mut db = container("default-postgres-1", vec!["postgres"], vec![port(5432, "0.0.0.0", 32770)]);
    db.environment = env_from_vec(vec![
        "EXAMPLE_API_LOG_LEVEL=INFO".to_string(),
        "PATH=/usr/bin".to_string(),
    ]);
    let spec = Spec {
        container_env: Some(env_from_vec(vec![
            "EXAMPLE_API_LOG_LEVEL=DEBUG".to_string(),
            "EXAMPLE_API_DATABASE_URL=postgres://vscode@postgres:5432/example-db?sslmode=disable".to_string(),
        ])),
    };
    let workspace = Workspace::assemble("/w".to_string(), "/w/.devcontainer/devcontainer.json".to_string(), vec![db], spec);
    let vars: Vec<(&str, &str)> = workspace
        .environment
        .variables
        .iter()
        .map(|v| (v.key.as_str(), v.value.as_str()))
        .collect();
    assert_eq!(
        vars,
        vec![
            ("EXAMPLE_API_LOG_LEVEL", "INFO"),
            (
                "EXAMPLE_API_DATABASE_URL",
                "postgres://vscode@127.0.0.1:32770/example-db?sslmode=disable"
            ),
        ]
    );
    assert_eq!(workspace.folder, "/w");
    assert_eq!(workspace.containers.len(), 1);
}

#[test]
fn workspace_assembles_without_configured_environment() {
    let workspace = Workspace::assemble("/w".to_string(), "/c".to_string(), vec![], Spec { container_env: None });
    assert!(workspace.environment.variables.is_empty());
    assert!(workspace.containers.is_empty());
}

#[test]
fn container_filter_renders_label_filters() {
    let filters = workspace_filters("/w/.devcontainer".to_string(), "/w".to_string());
    assert_eq!(filters.len(), 2);
    assert_eq!(filters[0].to_string(), "com.docker.compose.project.working_dir=/w/.devcontainer");
    assert_eq!(filters[1].to_string(), "devcontainer.local_folder=/w");
    let list = ListContainersFilter(filters);
    assert_eq!(
        list.labels(),
        vec![
            "com.docker.compose.project.working_dir=/w/.devcontainer".to_string(),
            "devcontainer.local_folder=/w".to_string()
        ]
    );
    let old = ContainerFilters(vec![ContainerFilter { name: "a".to_string(), value: "b".to_string() }]);
    assert_eq!(old.labels(), vec!["a=b".to_string()]);
}

#[test]
fn container_search_stops_at_first_filter_that_finds_containers() {
    let search = ContainerSearch::new("/w/.devcontainer".to_string(), "/w".to_string());
    let mut search = search;
    let first = search.next_query().expect("first filter");
    assert_eq!(first.labels(), vec!["com.docker.compose.project.working_dir=/w/.devcontainer".to_string()]);
    // Nothing found with the first filter: the second one is tried.
    let second = search.next_query().expect("second filter");
    assert_eq!(second.labels(), vec!["devcontainer.local_folder=/w".to_string()]);
    let mut search = search.record(container("app", vec![], vec![]));
    assert!(search.next_query().is_none());
    assert_eq!(search.into_containers().len(), 1);
}

#[test]
fn container_search_stops_after_first_hit() {
    let mut search = ContainerSearch::new("/d".to_string(), "/f".to_string());
    assert!(search.next_query().is_some());
    let mut search = search.record(container("app", vec![], vec![]));
    assert!(search.next_query().is_none());
    let mut empty = ContainerSearch::new("/d".to_string(), "/f".to_string());
    assert!(empty.next_query().is_some());
    assert!(empty.next_query().is_some());
    assert!(empty.next_query().is_none());
    assert!(empty.into_containers().is_empty());
}

#[test]
fn config_location_joins_like_path_join() {
    for (folder, config) in [
        ("/w", ".devcontainer/devcontainer.json"),
        ("/w/", "c.json"),
        ("/w", "/etc/c.json"),
        ("", "c.json"),
        ("/w", ""),
        ("/", "a/b"),
    ] {
        let expected = Path::new(folder).join(config);
        assert_eq!(Path::new(&config_location(folder, config)), expected.as_path(), "{folder:?} {config:?}");
    }
    assert_eq!(config_location("/w", ".devcontainer/devcontainer.json"), "/w/.devcontainer/devcontainer.json");
}

#[test]
fn workspace_rewrite_twice_is_rewrite_once() {
    let workspace = Workspace {
        folder: ".".into(),
        config: "c".into(),
        containers: vec![
            container("db", vec!["db"], vec![port(5432, "0.0.0.0", 32770)]),
            container("web", vec!["web"], vec![port(80, "0.0.0.0", 80)]),
        ],
        environment: env_from_vec(vec![
            "DB=postgres://db:5432/x".to_string(),
            "WEB=http://web/".to_string(),
            "PLAIN=hello".to_string(),
        ]),
    };
    let once = workspace.rewrite();
    let values: Vec<String> = once.environment.variables.iter().map(|v| v.value.clone()).collect();
    assert_eq!(values, vec!["postgres://127.0.0.1:32770/x", "http://127.0.0.1/", "hello"]);
    let twice = once.rewrite();
    let again: Vec<String> = twice.environment.variables.iter().map(|v| v.value.clone()).collect();
    assert_eq!(again, values);
}
