use cargo_workspace::{
    publish_outcome, publish_packages, search_lists_package, CargoError, CargoPackage,
    PublishAction, PublishCheckpoint, PublishEvent, PublishOptions, PublishSession,
};

fn package(name: &str) -> CargoPackage {
    CargoPackage {
        name: name.to_string(),
        version: "0.1.0".to_string(),
        path: format!("/ws/{}", name),
        dependencies: Vec::new(),
        publish: true,
    }
}

fn options(skip_published: bool, publish_interval: u64) -> PublishOptions {
    PublishOptions { dry_run: false, skip_published, publish_interval, keep_checkpoint: true }
}

/// What a scripted driver saw while running a session to its end.
struct Run {
    actions: Vec<String>,
    outcome: Result<(), CargoError>,
    checkpoint: PublishCheckpoint,
    saves: usize,
}

fn run(
    mut session: PublishSession,
    registry_has: &dyn Fn(&str) -> Result<bool, CargoError>,
    release: &dyn Fn(&str) -> Result<(), CargoError>,
) -> Run {
    let mut actions = Vec::new();
    let mut saves = 0;
    let mut event = PublishEvent::Start;
    loop {
        let (next, action) = session.step(event);
        session = next;
        event = match action {
            PublishAction::CheckRegistry(i) => {
                let name = session.packages()[i].name.clone();
                actions.push(format!("check {}", name));
                PublishEvent::RegistryChecked(registry_has(&name))
            }
            PublishAction::Publish(i) => {
                let name = session.packages()[i].name.clone();
                actions.push(format!("publish {}", name));
                PublishEvent::Published(release(&name))
            }
            PublishAction::SaveCheckpoint => {
                saves += 1;
                PublishEvent::CheckpointSaved(Ok(()))
            }
            PublishAction::Wait(secs) => {
                actions.push(format!("wait {}", secs));
                PublishEvent::WaitOver
            }
            PublishAction::Finished => {
                return Run { actions, outcome: Ok(()), checkpoint: session.into_checkpoint(), saves };
            }
            PublishAction::Failed(e) => {
                return Run { actions, outcome: Err(e), checkpoint: session.into_checkpoint(), saves };
            }
            PublishAction::Ignored => panic!("the driver sent an unexpected event"),
        };
    }
}

fn sorted_tokens(cp: &PublishCheckpoint) -> Vec<String> {
    let mut t = cp.published_packages.clone();
    t.sort();
    t
}

fn abc() -> Vec<CargoPackage> {
    vec![package("A"), package("B"), package("C")]
}

#[test]
fn failure_halts_and_keeps_what_was_done() {
    let session = PublishSession::new(abc(), options(false, 0), PublishCheckpoint::new("/ws".to_string()));
    let r = run(session, &|_| Ok(false), &|name| {
        if name == "B" {
            Err(CargoError::PublishError("Failed to publish B: network".to_string()))
        } else {
            Ok(())
        }
    });
    assert_eq!(r.actions, vec!["publish A", "publish B"]);
    assert!(matches!(r.outcome, Err(CargoError::PublishError(_))));
    assert_eq!(sorted_tokens(&r.checkpoint), vec!["A@0.1.0"]);
    assert_eq!(r.saves, 1);
}

#[test]
fn resume_after_failure_completes_the_rest() {
    let session = PublishSession::new(abc(), options(false, 0), PublishCheckpoint::new("/ws".to_string()));
    let first = run(session, &|_| Ok(false), &|name| {
        if name == "B" {
            Err(CargoError::PublishError("boom".to_string()))
        } else {
            Ok(())
        }
    });
    let resumed = PublishSession::new(abc(), options(false, 0), first.checkpoint);
    let second = run(resumed, &|_| Ok(false), &|_| Ok(()));
    assert_eq!(second.actions, vec!["publish B", "publish C"]);
    assert!(second.outcome.is_ok());
    assert_eq!(sorted_tokens(&second.checkpoint), vec!["A@0.1.0", "B@0.1.0", "C@0.1.0"]);
}

#[test]
fn second_run_with_carried_checkpoint_releases_nothing() {
    let session = PublishSession::new(abc(), options(true, 5), PublishCheckpoint::new("/ws".to_string()));
    let first = run(session, &|_| Ok(false), &|_| Ok(()));
    assert!(first.outcome.is_ok());
    let again = PublishSession::new(abc(), options(true, 5), first.checkpoint);
    let second = run(again, &|_| panic!("no registry query expected"), &|_| panic!("no release expected"));
    assert!(second.actions.is_empty());
    assert!(second.outcome.is_ok());
    assert_eq!(second.saves, 0);
}

#[test]
fn pause_only_between_releases() {
    let session = PublishSession::new(abc(), options(false, 7), PublishCheckpoint::new("/ws".to_string()));
    let r = run(session, &|_| Ok(false), &|_| Ok(()));
    assert_eq!(r.actions, vec!["publish A", "wait 7", "publish B", "wait 7", "publish C"]);
}

#[test]
fn dry_run_takes_no_pause() {
    let opts = PublishOptions { dry_run: true, skip_published: false, publish_interval: 7, keep_checkpoint: true };
    let session = PublishSession::new(abc(), opts, PublishCheckpoint::new("/ws".to_string()));
    let r = run(session, &|_| Ok(false), &|_| Ok(()));
    assert_eq!(r.actions, vec!["publish A", "publish B", "publish C"]);
}

#[test]
fn registry_hits_are_recorded_without_release_and_probe_failures_do_not_block() {
    let session = PublishSession::new(abc(), options(true, 3), PublishCheckpoint::new("/ws".to_string()));
    let r = run(
        session,
        &|name| match name {
            "A" => Ok(true),
            "B" => Err(CargoError::IoError("search failed".to_string())),
            _ => Ok(false),
        },
        &|_| Ok(()),
    );
    assert_eq!(r.actions, vec!["check A", "check B", "publish B", "wait 3", "check C", "publish C"]);
    assert_eq!(sorted_tokens(&r.checkpoint), vec!["A@0.1.0", "B@0.1.0", "C@0.1.0"]);
    assert_eq!(r.saves, 3);
}

#[test]
fn failed_save_halts_the_session() {
    let session = PublishSession::new(abc(), options(false, 0), PublishCheckpoint::new("/ws".to_string()));
    let (session, action) = session.step(PublishEvent::Start);
    assert!(matches!(action, PublishAction::Publish(0)));
    let (session, action) = session.step(PublishEvent::Published(Ok(())));
    assert!(matches!(action, PublishAction::SaveCheckpoint));
    let (session, action) = session.step(PublishEvent::CheckpointSaved(Err(CargoError::IoError("disk full".to_string()))));
    assert!(matches!(action, PublishAction::Failed(CargoError::IoError(ref m)) if m == "disk full"));
    let (_, action) = session.step(PublishEvent::WaitOver);
    assert!(matches!(action, PublishAction::Ignored));
}

#[test]
fn unexpected_event_changes_nothing() {
    let session = PublishSession::new(abc(), options(false, 0), PublishCheckpoint::new("/ws".to_string()));
    let (session, action) = session.step(PublishEvent::WaitOver);
    assert!(matches!(action, PublishAction::Ignored));
    let (_, action) = session.step(PublishEvent::Start);
    assert!(matches!(action, PublishAction::Publish(0)));
}

#[test]
fn empty_list_finishes_at_once() {
    let session = PublishSession::new(Vec::new(), options(true, 1), PublishCheckpoint::new("/ws".to_string()));
    let (_, action) = session.step(PublishEvent::Start);
    assert!(matches!(action, PublishAction::Finished));
}

#[test]
fn legacy_session_keeps_no_record() {
    let session = publish_packages(abc(), false, true);
    let r = run(session, &|name| Ok(name == "B"), &|_| Ok(()));
    assert_eq!(r.actions, vec!["check A", "publish A", "check B", "check C", "publish C"]);
    assert_eq!(r.saves, 0);
    assert!(r.outcome.is_ok());
}

#[test]
fn release_output_success_counts_as_released() {
    assert!(publish_outcome(true, "", "a").is_ok());
}

#[test]
fn release_output_already_on_index_counts_as_released() {
    let stderr = "error: crate a@0.1.0 already exists on crates.io index";
    assert!(publish_outcome(false, stderr, "a").is_ok());
}

#[test]
fn release_output_already_uploaded_counts_as_released() {
    let stderr = "error: failed to publish: crate version `0.1.0` is already uploaded";
    assert!(publish_outcome(false, stderr, "a").is_ok());
    let half = "error: crate version `0.1.0` was rejected";
    assert!(publish_outcome(false, half, "a").is_err());
}

#[test]
fn release_output_other_failure_is_a_publish_error() {
    match publish_outcome(false, "network unreachable", "a") {
        Err(CargoError::PublishError(m)) => assert_eq!(m, "Failed to publish a: network unreachable"),
        other => panic!("unexpected {:?}", other),
    }
}

#[test]
fn registry_search_output_is_interpreted() {
    let out = "serde = \"1.0.200\"    # A generic serialization/deserialization framework";
    assert!(search_lists_package(true, out, "serde", "1.0.200"));
    assert!(!search_lists_package(true, out, "serde", "1.0.201"));
    assert!(!search_lists_package(true, "tokio = \"1.0.200\"", "serde", "1.0.200"));
    assert!(!search_lists_package(false, out, "serde", "1.0.200"));
}
