use cargo_workspace::{
    parse_cargo_toml, parse_cargo_toml_with_workspace, CargoError, ManifestFields, VersionEntry,
};

fn fields(name: Option<&str>, version: VersionEntry) -> ManifestFields {
    ManifestFields {
        has_package: true,
        name: name.map(|n| n.to_string()),
        version,
        publish: None,
        dependency_names: vec!["serde".to_string(), "core".to_string()],
    }
}

fn invalid_text(r: Result<cargo_workspace::CargoPackage, CargoError>) -> String {
    match r {
        Err(CargoError::InvalidToml(t)) => t,
        other => panic!("expected an invalid manifest, got {:?}", other),
    }
}

#[test]
fn manifest_gives_the_package_record() {
    let mut m = fields(Some("app"), VersionEntry::Text("1.2.3".to_string()));
    m.dependency_names.push("app".to_string());
    let p = parse_cargo_toml(&m, "/ws/app".to_string()).unwrap();
    assert_eq!(p.name, "app");
    assert_eq!(p.version, "1.2.3");
    assert_eq!(p.path, "/ws/app");
    assert_eq!(p.dependencies, vec!["serde", "core"]);
    assert!(p.publish);
}

#[test]
fn manifest_publish_flag_is_kept() {
    let mut m = fields(Some("internal"), VersionEntry::Text("0.1.0".to_string()));
    m.publish = Some(false);
    assert!(!parse_cargo_toml(&m, "/ws/internal".to_string()).unwrap().publish);
}

#[test]
fn manifest_inherits_the_workspace_version() {
    let m = fields(Some("app"), VersionEntry::Inherited);
    let ws_version = "4.5.6".to_string();
    let p = parse_cargo_toml_with_workspace(&m, "/ws/app".to_string(), Some(&ws_version)).unwrap();
    assert_eq!(p.version, "4.5.6");
    let q = parse_cargo_toml(&m, "/ws/app".to_string()).unwrap();
    assert_eq!(q.version, "0.0.0");
}

#[test]
fn manifest_errors_name_what_is_missing() {
    let mut no_package = fields(Some("app"), VersionEntry::Text("1.0.0".to_string()));
    no_package.has_package = false;
    assert_eq!(invalid_text(parse_cargo_toml(&no_package, String::new())), "Missing [package] section");
    let no_name = fields(None, VersionEntry::Text("1.0.0".to_string()));
    assert_eq!(invalid_text(parse_cargo_toml(&no_name, String::new())), "Missing package name");
    let no_version = fields(Some("app"), VersionEntry::Missing);
    assert_eq!(invalid_text(parse_cargo_toml(&no_version, String::new())), "Missing package version");
    let bad_version = fields(Some("app"), VersionEntry::Invalid);
    assert_eq!(invalid_text(parse_cargo_toml(&bad_version, String::new())), "Invalid version format");
}
