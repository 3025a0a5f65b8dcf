//! The package record that a member's manifest describes. The manifest's TOML is read
//! into plain fields by the caller; the rules that turn them into a record are here.
use vstd::prelude::*;
use crate::errors::CargoError;
use crate::workspace::{strings_view, CargoPackage, PackageView};

verus! {

/// The `version` entry of a manifest's `[package]` table.
#[derive(Clone, Debug)]
pub enum VersionEntry {
    /// There is no `version` entry.
    Missing,
    /// A version string.
    Text(String),
    /// A table saying `workspace = true`: the workspace's version applies.
    Inherited,
    /// Anything else.
    Invalid,
}

/// What a manifest says about its package.
#[derive(Clone, Debug)]
pub struct ManifestFields {
    /// Whether the manifest has a `[package]` table.
    pub has_package: bool,
    /// `package.name`, when it is a string.
    pub name: Option<String>,
    /// `package.version`.
    pub version: VersionEntry,
    /// `package.publish`, when it is a boolean.
    pub publish: Option<bool>,
    /// The keys of `[dependencies]`, then those of `[build-dependencies]`.
    pub dependency_names: Vec<String>,
}

/// The names other than `name`, in order.
pub open spec fn without_name(deps: Seq<Seq<char>>, name: Seq<char>) -> Seq<Seq<char>>
    decreases deps.len(),
{
    if deps.len() == 0 {
        Seq::empty()
    } else if deps.last() == name {
        without_name(deps.drop_last(), name)
    } else {
        without_name(deps.drop_last(), name).push(deps.last())
    }
}

/// The version used when a manifest inherits one and the workspace states none.
pub open spec fn fallback_version() -> Seq<char> {
    "0.0.0"@
}

/// The record a manifest describes, or the text of the reason it describes none. A
/// package's own name among its dependencies is dropped; `publish` defaults to true.
pub open spec fn manifest_outcome(
    m: ManifestFields,
    dir: Seq<char>,
    workspace_version: Option<Seq<char>>,
) -> Result<PackageView, Seq<char>> {
    if !m.has_package {
        Err("Missing [package] section"@)
    } else {
        match m.name {
            None => Err("Missing package name"@),
            Some(name) => {
                let record = |version: Seq<char>|
                    PackageView {
                        name: name@,
                        version,
                        path: dir,
                        dependencies: without_name(strings_view(m.dependency_names@), name@),
                        publish: match m.publish {
                            Some(b) => b,
                            None => true,
                        },
                    };
                match m.version {
                    VersionEntry::Missing => Err("Missing package version"@),
                    VersionEntry::Invalid => Err("Invalid version format"@),
                    VersionEntry::Text(v) => Ok(record(v@)),
                    VersionEntry::Inherited => Ok(
                        record(
                            match workspace_version {
                                Some(v) => v,
                                None => fallback_version(),
                            },
                        ),
                    ),
                }
            },
        }
    }
}

/// An invalid-manifest error with the given text.
fn invalid(text: &str) -> (r: CargoError)
    ensures
        r matches CargoError::InvalidToml(t) && t@ == text@,
{
    CargoError::InvalidToml(text.to_owned())
}

/// The dependency names other than the package's own.
fn dependencies_without(deps: &Vec<String>, name: &String) -> (r: Vec<String>)
    ensures
        strings_view(r@) == without_name(strings_view(deps@), name@),
{
    let ghost dv = strings_view(deps@);
    let mut r: Vec<String> = Vec::new();
    for i in 0..deps.len()
        invariant
            dv == strings_view(deps@),
            strings_view(r@) == without_name(dv.take(i as int), name@),
    {
        assert(dv.take(i + 1).drop_last() =~= dv.take(i as int));
        assert(dv.take(i + 1).last() == deps@[i as int]@);
        if !deps[i].eq(name) {
            let d = deps[i].clone();
            let ghost before = r@;
            r.push(d);
            assert(strings_view(r@) =~= strings_view(before).push(d@));
        }
    }
    assert(dv.take(deps.len() as int) =~= dv);
    r
}

/// The package record a member's manifest describes, with the workspace's version for
/// a manifest that inherits it. The package lives in `dir`.
pub fn parse_cargo_toml_with_workspace(
    manifest: &ManifestFields,
    dir: String,
    workspace_version: Option<&String>,
) -> (r: Result<CargoPackage, CargoError>)
    ensures
        match manifest_outcome(
            *manifest,
            dir@,
            match workspace_version {
                Some(v) => Some(v@),
                None => None,
            },
        ) {
            Ok(p) => r matches Ok(q) && q@ == p,
            Err(text) => r matches Err(e) && e matches CargoError::InvalidToml(t) && t@ == text,
        },
{
    if !manifest.has_package {
        return Err(invalid("Missing [package] section"));
    }
    let name = match &manifest.name {
        Some(n) => n,
        None => {
            return Err(invalid("Missing package name"));
        },
    };
    let version = match &manifest.version {
        VersionEntry::Missing => {
            return Err(invalid("Missing package version"));
        },
        VersionEntry::Invalid => {
            return Err(invalid("Invalid version format"));
        },
        VersionEntry::Text(v) => v.clone(),
        VersionEntry::Inherited => match workspace_version {
            Some(v) => v.clone(),
            None => "0.0.0".to_owned(),
        },
    };
    let publish = match manifest.publish {
        Some(b) => b,
        None => true,
    };
    Ok(
        CargoPackage {
            name: name.clone(),
            version,
            path: dir,
            dependencies: dependencies_without(&manifest.dependency_names, name),
            publish,
        },
    )
}

/// The package record a member's manifest describes, outside any workspace context.
pub fn parse_cargo_toml(manifest: &ManifestFields, dir: String) -> (r: Result<CargoPackage, CargoError>)
    ensures
        match manifest_outcome(*manifest, dir@, None) {
            Ok(p) => r matches Ok(q) && q@ == p,
            Err(text) => r matches Err(e) && e matches CargoError::InvalidToml(t) && t@ == text,
        },
{
    parse_cargo_toml_with_workspace(manifest, dir, None)
}

} // verus!
