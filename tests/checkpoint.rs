use cargo_workspace::{CargoPackage, PublishCheckpoint};

fn package(name: &str, version: &str) -> CargoPackage {
    CargoPackage {
        name: name.to_string(),
        version: version.to_string(),
        path: String::new(),
        dependencies: Vec::new(),
        publish: true,
    }
}

#[test]
fn new_checkpoint_records_nothing() {
    let cp = PublishCheckpoint::new("/ws".to_string());
    assert_eq!(cp.workspace_root, "/ws");
    assert!(cp.published_packages.is_empty());
    assert!(!cp.is_published("a", "1.0.0"));
}

#[test]
fn marking_records_the_name_at_version_token() {
    let mut cp = PublishCheckpoint::new("/ws".to_string());
    cp.mark_published("a".to_string(), "1.0.0".to_string());
    assert_eq!(cp.published_packages, vec!["a@1.0.0".to_string()]);
    assert!(cp.is_published("a", "1.0.0"));
}

#[test]
fn another_version_is_not_released() {
    let mut cp = PublishCheckpoint::new("/ws".to_string());
    cp.mark_published("a".to_string(), "2.0.0".to_string());
    assert!(!cp.is_published("a", "1.0.0"));
    assert!(!cp.is_published("b", "2.0.0"));
}

#[test]
fn marking_twice_is_idempotent() {
    let mut cp = PublishCheckpoint::new("/ws".to_string());
    cp.mark_published("a".to_string(), "1.0.0".to_string());
    cp.mark_published("a".to_string(), "1.0.0".to_string());
    assert_eq!(cp.published_packages.len(), 1);
}

#[test]
fn unpublished_packages_keep_their_order() {
    let mut cp = PublishCheckpoint::new("/ws".to_string());
    cp.mark_published("b".to_string(), "1.0.0".to_string());
    let list = vec![package("a", "1.0.0"), package("b", "1.0.0"), package("b2", "1.0.0"), package("c", "2.0.0")];
    let left: Vec<String> = cp.unpublished_packages(&list).into_iter().map(|p| p.name).collect();
    assert_eq!(left, vec!["a", "b2", "c"]);
}

#[test]
fn tokens_rebuild_an_equal_record() {
    let mut cp = PublishCheckpoint::new("/ws".to_string());
    cp.mark_published("a".to_string(), "1.0.0".to_string());
    cp.mark_published("b".to_string(), "0.3.1".to_string());
    let restored = PublishCheckpoint {
        workspace_root: cp.workspace_root.clone(),
        published_packages: cp.published_packages.clone(),
        timestamp: cp.timestamp,
    };
    assert!(restored.is_published("a", "1.0.0"));
    assert!(restored.is_published("b", "0.3.1"));
    assert!(!restored.is_published("b", "1.0.0"));
}
