use devcontainer_env::cli::{ExportFormat, ProgramArgs};
use std::path::Path;

#[test]
fn export_format_displays_as_bash() {
    let output = ExportFormat::Bash;
    assert_eq!(output.to_string(), "bash")
}

#[test]
fn export_format_displays_as_json() {
    let output = ExportFormat::Json;
    assert_eq!(output.to_string(), "json")
}

#[test]
fn program_args_defaults() {
    let args = ProgramArgs::default();
    assert_eq!(Path::new(&args.workspace_folder), Path::new("."));
    assert_eq!(Path::new(&args.config), Path::new(".devcontainer/devcontainer.json"));
}

#[test]
fn export_format_defaults_to_bash() {
    assert_eq!(ExportFormat::default(), ExportFormat::Bash);
}

#[test]
fn program_args_name_the_workspace_param() {
    let args = ProgramArgs::default();
    let param = args.workspace_param();
    assert_eq!(param.config, ".devcontainer/devcontainer.json");
    assert_eq!(param.folder, ".");
}
