//! The commands and their options, and the decisions a command makes from them.
use vstd::prelude::*;
use crate::publish::PublishOptions;
use crate::workspace::{has_name, packages_view, strings_view, CargoPackage, PackageView};

verus! {

/// Options shared by every command.
#[derive(Clone, Debug)]
pub struct CommandOptions {
    /// The workspace root directory.
    pub workspace_root: String,
    /// Rehearse releases without publishing.
    pub dry_run: bool,
    /// Skip versions that the registry already has.
    pub skip_published: bool,
    /// The registry credential.
    pub token: Option<String>,
}

/// Lists the releasable packages in release order.
#[derive(Clone, Debug)]
pub struct ListCommand {
    /// The workspace root directory; `.` defers to the shared option.
    pub workspace_root: String,
}

/// Releases the workspace's packages in order.
#[derive(Clone, Debug)]
pub struct PublishCommand {
    /// The workspace root directory; `.` defers to the shared option.
    pub workspace_root: String,
    /// Rehearse releases without publishing.
    pub dry_run: bool,
    /// Skip versions that the registry already has.
    pub skip_published: bool,
    /// Continue the session that a checkpoint records.
    pub resume: bool,
    /// The registry credential.
    pub token: Option<String>,
    /// Seconds to pause between releases.
    pub publish_interval: u64,
}

/// The subcommands.
#[derive(Clone, Debug)]
pub enum WorkspaceCommands {
    /// List all packages in the workspace in publish order.
    List(ListCommand),
    /// Publish all packages in the workspace.
    Publish(PublishCommand),
}

/// The whole command line.
#[derive(Clone, Debug)]
pub struct CargoWorkspaceCommand {
    /// The shared options.
    pub options: CommandOptions,
    /// The subcommand; without one, the workspace is summarised.
    pub command: Option<WorkspaceCommands>,
}

/// The settings that a release session runs with, the command's own options taking
/// precedence over the shared ones.
#[derive(Clone, Debug)]
pub struct PublishSettings {
    pub workspace_root: String,
    pub dry_run: bool,
    pub skip_published: bool,
    pub resume: bool,
    pub token: Option<String>,
    pub publish_interval: u64,
}

/// A command's root, unless it is the default `.`, in which case the shared one.
pub open spec fn chosen_root(own: Seq<char>, shared: Seq<char>) -> Seq<char> {
    if own == "."@ {
        shared
    } else {
        own
    }
}

/// Picks the root as `chosen_root` says.
pub fn choose_root(own: &String, shared: &String) -> (r: String)
    ensures
        r@ == chosen_root(own@, shared@),
{
    let default_root = ".".to_owned();
    if own.eq(&default_root) {
        shared.clone()
    } else {
        own.clone()
    }
}

/// A copy of an optional string.
fn copy_option(s: &Option<String>) -> (r: Option<String>)
    ensures
        r == *s,
{
    match s {
        Some(t) => Some(t.clone()),
        None => None,
    }
}

impl ListCommand {
    /// The root the listing works on.
    pub fn resolved_root(&self, shared: &CommandOptions) -> (r: String)
        ensures
            r@ == chosen_root(self.workspace_root@, shared.workspace_root@),
    {
        choose_root(&self.workspace_root, &shared.workspace_root)
    }
}

impl PublishCommand {
    /// The settings of the release session: the command's root unless it is `.`; a flag
    /// set on either level; the command's credential, else the shared one.
    pub fn settings(&self, shared: &CommandOptions) -> (r: PublishSettings)
        ensures
            r.workspace_root@ == chosen_root(self.workspace_root@, shared.workspace_root@),
            r.dry_run == (self.dry_run || shared.dry_run),
            r.skip_published == (self.skip_published || shared.skip_published),
            r.resume == self.resume,
            r.token == (if self.token is Some {
                self.token
            } else {
                shared.token
            }),
            r.publish_interval == self.publish_interval,
    {
        let token = if self.token.is_some() {
            copy_option(&self.token)
        } else {
            copy_option(&shared.token)
        };
        PublishSettings {
            workspace_root: choose_root(&self.workspace_root, &shared.workspace_root),
            dry_run: self.dry_run || shared.dry_run,
            skip_published: self.skip_published || shared.skip_published,
            resume: self.resume,
            token,
            publish_interval: self.publish_interval,
        }
    }
}

impl PublishSettings {
    /// The options of a checkpointed session with these settings.
    pub fn session_options(&self) -> (r: PublishOptions)
        ensures
            r == (PublishOptions {
                dry_run: self.dry_run,
                skip_published: self.skip_published,
                publish_interval: self.publish_interval,
                keep_checkpoint: true,
            }),
    {
        PublishOptions {
            dry_run: self.dry_run,
            skip_published: self.skip_published,
            publish_interval: self.publish_interval,
            keep_checkpoint: true,
        }
    }
}

/// The names among `deps` that some listed package carries, in their order.
pub open spec fn listed_dependencies(deps: Seq<Seq<char>>, listed: Seq<PackageView>) -> Seq<Seq<char>>
    decreases deps.len(),
{
    if deps.len() == 0 {
        Seq::empty()
    } else if has_name(listed, deps.last()) {
        listed_dependencies(deps.drop_last(), listed).push(deps.last())
    } else {
        listed_dependencies(deps.drop_last(), listed)
    }
}

/// Whether some package of the list carries the name.
pub fn names_package(listed: &Vec<CargoPackage>, name: &String) -> (r: bool)
    ensures
        r == has_name(packages_view(listed@), name@),
{
    let ghost pv = packages_view(listed@);
    for i in 0..listed.len()
        invariant
            pv == packages_view(listed@),
            forall|k: int| 0 <= k < i ==> pv[k].name != name@,
    {
        if listed[i].name.eq(name) {
            assert(pv[i as int].name == name@);
            return true;
        }
    }
    false
}

/// The dependencies of the package that are among the listed packages, in order.
pub fn workspace_dependencies(package: &CargoPackage, listed: &Vec<CargoPackage>) -> (r: Vec<String>)
    ensures
        strings_view(r@) == listed_dependencies(package@.dependencies, packages_view(listed@)),
{
    let ghost deps = package@.dependencies;
    let mut r: Vec<String> = Vec::new();
    for i in 0..package.dependencies.len()
        invariant
            deps == package@.dependencies,
            deps == strings_view(package.dependencies@),
            strings_view(r@) == listed_dependencies(deps.take(i as int), packages_view(listed@)),
    {
        assert(deps.take(i + 1).drop_last() =~= deps.take(i as int));
        assert(deps.take(i + 1).last() == package.dependencies@[i as int]@);
        if names_package(listed, &package.dependencies[i]) {
            let d = package.dependencies[i].clone();
            let ghost before = r@;
            r.push(d);
            assert(strings_view(r@) =~= strings_view(before).push(d@));
        }
    }
    assert(deps.take(package.dependencies.len() as int) =~= deps);
    r
}

} // verus!
