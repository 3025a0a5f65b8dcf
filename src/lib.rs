//! Orders the members of a multi-package workspace by their dependencies and
//! drives a resumable, checkpointed release of them.

pub mod checkpoint;
pub mod commands;
pub mod errors;
pub mod graph;
pub mod manifest;
pub mod publish;
pub mod text;
pub mod topo_sort;
pub mod workspace;

pub use crate::checkpoint::PublishCheckpoint;
pub use crate::commands::{
    CargoWorkspaceCommand, CommandOptions, ListCommand, PublishCommand, PublishSettings,
    WorkspaceCommands,
};
pub use crate::errors::CargoError;
pub use crate::manifest::{parse_cargo_toml, parse_cargo_toml_with_workspace, ManifestFields, VersionEntry};
pub use crate::publish::{
    publish_outcome, publish_packages, search_lists_package, PublishAction, PublishEvent,
    PublishOptions, PublishSession,
};
pub use crate::topo_sort::{filter_publishable_packages, find_cycles, topological_sort};
pub use crate::workspace::{CargoPackage, CargoWorkspace};
