use cargo_workspace::commands::workspace_dependencies;
use cargo_workspace::{CargoError, CargoPackage, CommandOptions, ListCommand, PublishCommand};

fn shared() -> CommandOptions {
    CommandOptions {
        workspace_root: "/shared".to_string(),
        dry_run: true,
        skip_published: false,
        token: Some("SECRET-REDACTED".to_string()),
    }
}

#[test]
fn command_root_defers_to_shared_only_when_default() {
    let list = ListCommand { workspace_root: ".".to_string() };
    assert_eq!(list.resolved_root(&shared()), "/shared");
    let own = ListCommand { workspace_root: "/own".to_string() };
    assert_eq!(own.resolved_root(&shared()), "/own");
}

#[test]
fn publish_settings_combine_both_levels() {
    let cmd = PublishCommand {
        workspace_root: ".".to_string(),
        dry_run: false,
        skip_published: true,
        resume: true,
        token: None,
        publish_interval: 30,
    };
    let s = cmd.settings(&shared());
    assert_eq!(s.workspace_root, "/shared");
    assert!(s.dry_run && s.skip_published && s.resume);
    assert_eq!(s.token.as_deref(), Some("SECRET-REDACTED"));
    assert_eq!(s.publish_interval, 30);
    let o = s.session_options();
    assert!(o.dry_run && o.skip_published && o.keep_checkpoint);
    assert_eq!(o.publish_interval, 30);
    let own_token = PublishCommand { token: Some("mine".to_string()), ..cmd };
    assert_eq!(own_token.settings(&shared()).token.as_deref(), Some("mine"));
}

#[test]
fn listed_dependencies_are_those_in_the_list() {
    let pkg = |name: &str, deps: &[&str]| CargoPackage {
        name: name.to_string(),
        version: "1.0.0".to_string(),
        path: String::new(),
        dependencies: deps.iter().map(|d| d.to_string()).collect(),
        publish: true,
    };
    let listed = vec![pkg("core", &[]), pkg("net", &["core"]), pkg("app", &["serde", "net", "core"])];
    assert_eq!(workspace_dependencies(&listed[2], &listed), vec!["net", "core"]);
    assert!(workspace_dependencies(&listed[0], &listed).is_empty());
}

#[test]
fn error_messages_name_their_kind() {
    assert_eq!(CargoError::MissingWorkspace.message(), "No workspace found");
    assert_eq!(CargoError::InvalidToml("x".to_string()).message(), "Invalid TOML: x");
    assert_eq!(CargoError::IoError("x".to_string()).message(), "IO error: x");
    assert_eq!(CargoError::PublishError("x".to_string()).message(), "Publish error: x");
    assert_eq!(CargoError::DependencyError("x".to_string()).message(), "Dependency error: x");
    assert_eq!(CargoError::CircularDependency("x".to_string()).message(), "Circular dependency: x");
    assert_eq!(CargoError::CorruptCheckpoint("x".to_string()).message(), "Corrupt checkpoint: x");
}

