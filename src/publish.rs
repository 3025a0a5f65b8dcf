//! The release pipeline as a state machine. The session decides; its driver performs
//! each requested action (a registry query, a release, a save, a pause) and reports
//! the outcome back as an event.
use vstd::prelude::*;
use crate::checkpoint::{is_released, PublishCheckpoint};
use crate::errors::CargoError;
use crate::text::{has_substring, release_token, text_contains};
use crate::workspace::{packages_view, CargoPackage, PackageView};

verus! {

/// Settings of a release session.
#[derive(Clone, Copy, Debug)]
pub struct PublishOptions {
    /// Release operations only rehearse; no pause is taken between packages.
    pub dry_run: bool,
    /// Ask the registry before each release whether the version is already there.
    pub skip_published: bool,
    /// Seconds to pause after a release when more packages follow.
    pub publish_interval: u64,
    /// Persist the checkpoint after every package that is recorded.
    pub keep_checkpoint: bool,
}

/// What the session asks its driver to do next.
#[derive(Debug)]
pub enum PublishAction {
    /// Ask the registry whether the version of the package at this position exists.
    CheckRegistry(usize),
    /// Release the package at this position.
    Publish(usize),
    /// Persist the checkpoint.
    SaveCheckpoint,
    /// Pause for this many seconds.
    Wait(u64),
    /// Every package is released or recorded; the session is over.
    Finished,
    /// The session halts with this error; the checkpoint keeps what was done.
    Failed(CargoError),
    /// The event did not answer the pending request; nothing changed.
    Ignored,
}

/// What the driver reports back.
#[derive(Debug)]
pub enum PublishEvent {
    /// Begin the session.
    Start,
    /// The registry answered whether the version exists, or the query failed.
    RegistryChecked(Result<bool, CargoError>),
    /// The release succeeded (an "already exists" answer counts as success) or failed.
    Published(Result<(), CargoError>),
    /// The checkpoint was persisted, or persisting failed.
    CheckpointSaved(Result<(), CargoError>),
    /// The pause is over.
    WaitOver,
}

/// Where a session stands.
#[derive(Clone, Copy, Debug, PartialEq, Eq, Structural)]
pub enum PublishStage {
    /// Not started.
    Ready,
    /// Waiting for the registry's answer on the current package.
    Checking,
    /// Waiting for the release of the current package.
    Publishing,
    /// Waiting for the checkpoint to be persisted; `true` when the current package was
    /// just released rather than found in the registry.
    Saving(bool),
    /// Waiting for the pause after the current package to end.
    Waiting,
    /// Finished or halted.
    Done,
}

/// What a session holds, as the contracts see it.
pub struct SessionView {
    pub packages: Seq<PackageView>,
    pub options: PublishOptions,
    pub workspace_root: Seq<char>,
    pub released: Set<Seq<char>>,
    pub index: int,
    pub stage: PublishStage,
}

/// The first position at or after `i` whose package version is not recorded.
pub open spec fn next_unreleased(pkgs: Seq<PackageView>, released: Set<Seq<char>>, i: int) -> int
    decreases pkgs.len() - i,
{
    if i >= pkgs.len() {
        pkgs.len() as int
    } else if is_released(released, pkgs[i]) {
        next_unreleased(pkgs, released, i + 1)
    } else {
        i
    }
}

/// The session with another position and stage.
pub open spec fn moved(s: SessionView, index: int, stage: PublishStage) -> SessionView {
    SessionView { index, stage, ..s }
}

/// Moving on to position `i`: recorded versions are skipped without any request; the
/// first unrecorded one is queried or released; past the end the session finishes.
pub open spec fn advance(s: SessionView, i: int) -> (SessionView, PublishAction) {
    let k = next_unreleased(s.packages, s.released, i);
    if k >= s.packages.len() {
        (moved(s, s.packages.len() as int, PublishStage::Done), PublishAction::Finished)
    } else if s.options.skip_published {
        (moved(s, k, PublishStage::Checking), PublishAction::CheckRegistry(k as usize))
    } else {
        (moved(s, k, PublishStage::Publishing), PublishAction::Publish(k as usize))
    }
}

/// The session with the current package's version recorded.
pub open spec fn recorded(s: SessionView) -> SessionView {
    SessionView {
        released: s.released.insert(release_token(s.packages[s.index].name, s.packages[s.index].version)),
        ..s
    }
}

/// After the current package is released and its record is safe: pause if more packages
/// follow, this is no rehearsal, and a pause is configured; else move on.
pub open spec fn after_release(s: SessionView) -> (SessionView, PublishAction) {
    if s.index + 1 < s.packages.len() && !s.options.dry_run && s.options.publish_interval > 0 {
        (moved(s, s.index, PublishStage::Waiting), PublishAction::Wait(s.options.publish_interval))
    } else {
        advance(s, s.index + 1)
    }
}

/// After the current package is recorded: persist the record if the session keeps one,
/// else go on as if it were persisted.
pub open spec fn after_record(s: SessionView, released_now: bool) -> (SessionView, PublishAction) {
    let r = recorded(s);
    if s.options.keep_checkpoint {
        (moved(r, s.index, PublishStage::Saving(released_now)), PublishAction::SaveCheckpoint)
    } else if released_now {
        after_release(r)
    } else {
        advance(r, s.index + 1)
    }
}

/// One step of the session: its next state and the action it asks for.
pub open spec fn step_spec(s: SessionView, e: PublishEvent) -> (SessionView, PublishAction) {
    match (s.stage, e) {
        (PublishStage::Ready, PublishEvent::Start) => advance(s, s.index),
        (PublishStage::Checking, PublishEvent::RegistryChecked(Ok(true))) => after_record(s, false),
        (PublishStage::Checking, PublishEvent::RegistryChecked(_)) => (
            moved(s, s.index, PublishStage::Publishing),
            PublishAction::Publish(s.index as usize),
        ),
        (PublishStage::Publishing, PublishEvent::Published(Ok(()))) => after_record(s, true),
        (PublishStage::Publishing, PublishEvent::Published(Err(err))) => (
            moved(s, s.index, PublishStage::Done),
            PublishAction::Failed(err),
        ),
        (PublishStage::Saving(_), PublishEvent::CheckpointSaved(Err(err))) => (
            moved(s, s.index, PublishStage::Done),
            PublishAction::Failed(err),
        ),
        (PublishStage::Saving(true), PublishEvent::CheckpointSaved(Ok(()))) => after_release(s),
        (PublishStage::Saving(false), PublishEvent::CheckpointSaved(Ok(()))) => advance(s, s.index + 1),
        (PublishStage::Waiting, PublishEvent::WaitOver) => advance(s, s.index + 1),
        _ => (s, PublishAction::Ignored),
    }
}

/// Every package before position `i` has its version recorded.
pub open spec fn released_before(s: SessionView, i: int) -> bool {
    forall|k: int| 0 <= k < i ==> #[trigger] is_released(s.released, s.packages[k])
}

/// What holds of every session: the position is in range; everything before it is
/// recorded; a pending request concerns a real package; while its record is persisted
/// or a pause runs, the current package is recorded; a finished session has covered
/// every package or halted.
pub open spec fn session_inv(s: SessionView) -> bool {
    &&& 0 <= s.index <= s.packages.len()
    &&& released_before(s, s.index)
    &&& (s.stage is Ready ==> s.index == 0)
    &&& (s.stage is Checking || s.stage is Publishing || s.stage is Saving || s.stage is Waiting)
        ==> s.index < s.packages.len()
    &&& (s.stage is Saving || s.stage is Waiting) ==> is_released(s.released, s.packages[s.index])
}

/// A fresh session over the packages.
pub open spec fn initial_view(
    packages: Seq<PackageView>,
    options: PublishOptions,
    workspace_root: Seq<char>,
    released: Set<Seq<char>>,
) -> SessionView {
    SessionView { packages, options, workspace_root, released, index: 0, stage: PublishStage::Ready }
}

proof fn lemma_next_unreleased(pkgs: Seq<PackageView>, released: Set<Seq<char>>, i: int)
    requires
        0 <= i <= pkgs.len(),
    ensures
        i <= next_unreleased(pkgs, released, i) <= pkgs.len(),
        forall|j: int| i <= j < next_unreleased(pkgs, released, i) ==> #[trigger] is_released(released, pkgs[j]),
        next_unreleased(pkgs, released, i) < pkgs.len() ==> !is_released(
            released,
            pkgs[next_unreleased(pkgs, released, i)],
        ),
    decreases pkgs.len() - i,
{
    if i < pkgs.len() && is_released(released, pkgs[i]) {
        lemma_next_unreleased(pkgs, released, i + 1);
    }
}

proof fn lemma_recorded(s: SessionView)
    requires
        session_inv(s),
        s.index < s.packages.len(),
    ensures
        released_before(recorded(s), s.index + 1),
        recorded(s).packages == s.packages,
{
    let r = recorded(s);
    assert forall|k: int| 0 <= k < s.index + 1 implies #[trigger] is_released(r.released, r.packages[k]) by {
        if k < s.index {
            assert(is_released(s.released, s.packages[k]));
        }
    }
}

proof fn lemma_advance_inv(s: SessionView, i: int)
    requires
        0 <= i <= s.packages.len(),
        released_before(s, i),
    ensures
        session_inv(advance(s, i).0),
        advance(s, i).1 is Finished ==> released_before(advance(s, i).0, s.packages.len() as int),
{
    lemma_next_unreleased(s.packages, s.released, i);
}

/// A session over packages whose versions are all recorded finishes at its first step,
/// asking for no registry query and no release.
pub proof fn lemma_all_recorded_finishes_at_once(
    packages: Seq<PackageView>,
    options: PublishOptions,
    workspace_root: Seq<char>,
    released: Set<Seq<char>>,
)
    requires
        forall|k: int| 0 <= k < packages.len() ==> #[trigger] is_released(released, packages[k]),
    ensures
        step_spec(initial_view(packages, options, workspace_root, released), PublishEvent::Start).1 is Finished,
        step_spec(initial_view(packages, options, workspace_root, released), PublishEvent::Start).0.stage
            is Done,
{
    lemma_next_unreleased(packages, released, 0);
}

/// Running the same packages again, with the record that a finished run left behind,
/// releases nothing: the second session finishes at its first step.
pub proof fn lemma_rerun_after_finish(s: SessionView, e: PublishEvent, options: PublishOptions)
    requires
        session_inv(s),
        step_spec(s, e).1 is Finished,
    ensures
        step_spec(
            initial_view(s.packages, options, s.workspace_root, step_spec(s, e).0.released),
            PublishEvent::Start,
        ).1 is Finished,
{
    lemma_step_inv(s, e);
    let r = step_spec(s, e).0;
    assert(r.packages == s.packages);
    lemma_all_recorded_finishes_at_once(s.packages, options, s.workspace_root, r.released);
}

/// Every step keeps the session's invariant, and a step that finishes leaves every
/// package's version recorded.
pub proof fn lemma_step_inv(s: SessionView, e: PublishEvent)
    requires
        session_inv(s),
    ensures
        session_inv(step_spec(s, e).0),
        step_spec(s, e).0.packages == s.packages,
        step_spec(s, e).0.options == s.options,
        step_spec(s, e).0.workspace_root == s.workspace_root,
        step_spec(s, e).1 is Finished ==> released_before(step_spec(s, e).0, s.packages.len() as int),
{
    match (s.stage, e) {
        (PublishStage::Ready, PublishEvent::Start) => {
            lemma_advance_inv(s, s.index);
        },
        (PublishStage::Checking, PublishEvent::RegistryChecked(Ok(true))) => {
            lemma_recorded(s);
            lemma_advance_inv(recorded(s), s.index + 1);
        },
        (PublishStage::Publishing, PublishEvent::Published(Ok(()))) => {
            lemma_recorded(s);
            lemma_advance_inv(recorded(s), s.index + 1);
        },
        (PublishStage::Saving(_), PublishEvent::CheckpointSaved(Ok(()))) => {
            lemma_advance_inv(s, s.index + 1);
        },
        (PublishStage::Waiting, PublishEvent::WaitOver) => {
            lemma_advance_inv(s, s.index + 1);
        },
        _ => {},
    }
}

/// A release session over an ordered list of packages.
pub struct PublishSession {
    packages: Vec<CargoPackage>,
    options: PublishOptions,
    checkpoint: PublishCheckpoint,
    index: usize,
    stage: PublishStage,
}

/// A session state made of its parts.
pub open spec fn assemble(
    packages: Seq<CargoPackage>,
    options: PublishOptions,
    checkpoint: PublishCheckpoint,
    index: int,
    stage: PublishStage,
) -> SessionView {
    SessionView {
        packages: packages_view(packages),
        options,
        workspace_root: checkpoint@.workspace_root,
        released: checkpoint@.released,
        index,
        stage,
    }
}

impl View for PublishSession {
    type V = SessionView;

    closed spec fn view(&self) -> SessionView {
        assemble(self.packages@, self.options, self.checkpoint, self.index as int, self.stage)
    }
}

/// The first unrecorded position at or after `i`.
fn find_unreleased(packages: &Vec<CargoPackage>, checkpoint: &PublishCheckpoint, i: usize) -> (k: usize)
    requires
        i <= packages.len(),
    ensures
        k == next_unreleased(packages_view(packages@), checkpoint@.released, i as int),
{
    let ghost pkgs = packages_view(packages@);
    let mut k = i;
    while k < packages.len() && checkpoint.is_published(
        packages[k].name.as_str(),
        packages[k].version.as_str(),
    )
        invariant
            i <= k <= packages.len(),
            pkgs == packages_view(packages@),
            next_unreleased(pkgs, checkpoint@.released, i as int) == next_unreleased(
                pkgs,
                checkpoint@.released,
                k as int,
            ),
        decreases packages.len() - k,
    {
        k = k + 1;
    }
    k
}

/// The session moved on to position `i`.
fn advance_to(
    packages: Vec<CargoPackage>,
    options: PublishOptions,
    checkpoint: PublishCheckpoint,
    i: usize,
) -> (r: (PublishSession, PublishAction))
    requires
        i <= packages.len(),
        released_before(assemble(packages@, options, checkpoint, 0, PublishStage::Ready), i as int),
    ensures
        r.0@ == advance(assemble(packages@, options, checkpoint, 0, PublishStage::Ready), i as int).0,
        r.1 == advance(assemble(packages@, options, checkpoint, 0, PublishStage::Ready), i as int).1,
{
    let ghost s = assemble(packages@, options, checkpoint, 0, PublishStage::Ready);
    proof {
        lemma_advance_inv(s, i as int);
    }
    let k = find_unreleased(&packages, &checkpoint, i);
    if k >= packages.len() {
        let n = packages.len();
        (PublishSession { packages, options, checkpoint, index: n, stage: PublishStage::Done }, PublishAction::Finished)
    } else if options.skip_published {
        (
            PublishSession { packages, options, checkpoint, index: k, stage: PublishStage::Checking },
            PublishAction::CheckRegistry(k),
        )
    } else {
        (
            PublishSession { packages, options, checkpoint, index: k, stage: PublishStage::Publishing },
            PublishAction::Publish(k),
        )
    }
}

/// The session after the package at `index` was released and its record is safe.
fn continue_after_release(
    packages: Vec<CargoPackage>,
    options: PublishOptions,
    checkpoint: PublishCheckpoint,
    index: usize,
) -> (r: (PublishSession, PublishAction))
    requires
        index < packages.len(),
        released_before(assemble(packages@, options, checkpoint, 0, PublishStage::Ready), index + 1),
    ensures
        r.0@ == after_release(assemble(packages@, options, checkpoint, index as int, PublishStage::Ready)).0,
        r.1 == after_release(assemble(packages@, options, checkpoint, index as int, PublishStage::Ready)).1,
{
    if index + 1 < packages.len() && !options.dry_run && options.publish_interval > 0 {
        let interval = options.publish_interval;
        (
            PublishSession { packages, options, checkpoint, index, stage: PublishStage::Waiting },
            PublishAction::Wait(interval),
        )
    } else {
        advance_to(packages, options, checkpoint, index + 1)
    }
}

impl PublishSession {
    #[verifier::type_invariant]
    spec fn inv(&self) -> bool {
        session_inv(self@)
    }

    /// A session that releases the packages in order, skipping the versions that the
    /// checkpoint records and recording the others as they are done.
    pub fn new(packages: Vec<CargoPackage>, options: PublishOptions, checkpoint: PublishCheckpoint) -> (r:
        PublishSession)
        ensures
            r@ == initial_view(
                packages_view(packages@),
                options,
                checkpoint@.workspace_root,
                checkpoint@.released,
            ),
            session_inv(r@),
    {
        PublishSession { packages, options, checkpoint, index: 0, stage: PublishStage::Ready }
    }

    /// The packages of the session, in order.
    pub fn packages(&self) -> (r: &Vec<CargoPackage>)
        ensures
            packages_view(r@) == self@.packages,
    {
        &self.packages
    }

    /// The session's checkpoint, to be persisted when the session asks for it.
    pub fn checkpoint(&self) -> (r: &PublishCheckpoint)
        ensures
            r@.workspace_root == self@.workspace_root,
            r@.released == self@.released,
    {
        &self.checkpoint
    }

    /// Ends the session and hands back its checkpoint.
    pub fn into_checkpoint(self) -> (r: PublishCheckpoint)
        ensures
            r@.workspace_root == self@.workspace_root,
            r@.released == self@.released,
    {
        self.checkpoint
    }

    /// One step: the session takes the event and says what to do next.
    pub fn step(self, event: PublishEvent) -> (r: (PublishSession, PublishAction))
        ensures
            r.0@ == step_spec(self@, event).0,
            r.1 == step_spec(self@, event).1,
            session_inv(r.0@),
            r.1 is Finished ==> released_before(r.0@, r.0@.packages.len() as int),
    {
        proof {
            use_type_invariant(&self);
            lemma_step_inv(self@, event);
        }
        let ghost s = self@;
        let PublishSession { packages, options, mut checkpoint, index, stage } = self;
        assert(s.packages.len() == packages.len() && s.index == index && s.stage == stage);
        match (stage, event) {
            (PublishStage::Ready, PublishEvent::Start) => advance_to(packages, options, checkpoint, index),
            (PublishStage::Checking, PublishEvent::RegistryChecked(Ok(true))) => {
                let name = packages[index].name.clone();
                let version = packages[index].version.clone();
                checkpoint.mark_published(name, version);
                proof {
                    lemma_recorded(s);
                }
                if options.keep_checkpoint {
                    (
                        PublishSession { packages, options, checkpoint, index, stage: PublishStage::Saving(false) },
                        PublishAction::SaveCheckpoint,
                    )
                } else {
                    advance_to(packages, options, checkpoint, index + 1)
                }
            },
            (PublishStage::Checking, PublishEvent::RegistryChecked(_)) => (
                PublishSession { packages, options, checkpoint, index, stage: PublishStage::Publishing },
                PublishAction::Publish(index),
            ),
            (PublishStage::Publishing, PublishEvent::Published(Ok(()))) => {
                let name = packages[index].name.clone();
                let version = packages[index].version.clone();
                checkpoint.mark_published(name, version);
                proof {
                    lemma_recorded(s);
                }
                if options.keep_checkpoint {
                    (
                        PublishSession { packages, options, checkpoint, index, stage: PublishStage::Saving(true) },
                        PublishAction::SaveCheckpoint,
                    )
                } else {
                    continue_after_release(packages, options, checkpoint, index)
                }
            },
            (PublishStage::Publishing, PublishEvent::Published(Err(err))) => (
                PublishSession { packages, options, checkpoint, index, stage: PublishStage::Done },
                PublishAction::Failed(err),
            ),
            (PublishStage::Saving(_), PublishEvent::CheckpointSaved(Err(err))) => (
                PublishSession { packages, options, checkpoint, index, stage: PublishStage::Done },
                PublishAction::Failed(err),
            ),
            (PublishStage::Saving(true), PublishEvent::CheckpointSaved(Ok(()))) => {
                continue_after_release(packages, options, checkpoint, index)
            },
            (PublishStage::Saving(false), PublishEvent::CheckpointSaved(Ok(()))) => {
                advance_to(packages, options, checkpoint, index + 1)
            },
            (PublishStage::Waiting, PublishEvent::WaitOver) => {
                advance_to(packages, options, checkpoint, index + 1)
            },
            (stage, _) => (PublishSession { packages, options, checkpoint, index, stage }, PublishAction::Ignored),
        }
    }
}

/// A session that releases the packages in order without keeping a record: versions
/// that the registry already has are skipped when `skip_published` is set, and there
/// is no pause between releases.
pub fn publish_packages(packages: Vec<CargoPackage>, dry_run: bool, skip_published: bool) -> (r:
    PublishSession)
    ensures
        r@ == initial_view(
            packages_view(packages@),
            PublishOptions { dry_run, skip_published, publish_interval: 0, keep_checkpoint: false },
            Seq::empty(),
            Set::empty(),
        ),
{
    let scratch = PublishCheckpoint { workspace_root: String::new(), published_packages: Vec::new(), timestamp: 0 };
    assert(scratch@.released =~= Set::<Seq<char>>::empty());
    PublishSession::new(
        packages,
        PublishOptions { dry_run, skip_published, publish_interval: 0, keep_checkpoint: false },
        scratch,
    )
}

/// The registry's refusal says that this version is already there.
pub open spec fn already_released_answer(stderr: Seq<char>) -> bool {
    ||| has_substring(stderr, "already exists on crates.io index"@)
    ||| (has_substring(stderr, "crate version"@) && has_substring(stderr, "is already uploaded"@))
}

/// The text of a failed release.
pub open spec fn publish_failure_text(package_name: Seq<char>, stderr: Seq<char>) -> Seq<char> {
    "Failed to publish "@ + package_name + ": "@ + stderr
}

/// Interprets the release command's outcome: success, or a refusal because the version
/// already exists, counts as released; anything else is a release error.
pub fn publish_outcome(succeeded: bool, stderr: &str, package_name: &str) -> (r: Result<(), CargoError>)
    ensures
        r is Ok <==> (succeeded || already_released_answer(stderr@)),
        r matches Err(e) ==> e matches CargoError::PublishError(m) && m@ == publish_failure_text(
            package_name@,
            stderr@,
        ),
{
    if succeeded {
        return Ok(());
    }
    if text_contains(stderr, "already exists on crates.io index") {
        return Ok(());
    }
    if text_contains(stderr, "crate version") && text_contains(stderr, "is already uploaded") {
        return Ok(());
    }
    let mut m = "Failed to publish ".to_owned();
    m.append(package_name);
    m.append(": ");
    m.append(stderr);
    Err(CargoError::PublishError(m))
}

/// The line by which a registry search lists a package version: `name = "version"`.
pub open spec fn search_listing(package_name: Seq<char>, version: Seq<char>) -> Seq<char> {
    package_name + " = \""@ + version + "\""@
}

/// Interprets a registry search for the package: this exact version is there when the
/// search succeeded and its output lists `name = "version"`.
pub fn search_lists_package(succeeded: bool, stdout: &str, package_name: &str, version: &str) -> (r: bool)
    ensures
        r == (succeeded && has_substring(stdout@, search_listing(package_name@, version@))),
{
    if !succeeded {
        return false;
    }
    let mut listing = package_name.to_owned();
    listing.append(" = \"");
    listing.append(version);
    listing.append("\"");
    text_contains(stdout, listing.as_str())
}

} // verus!
