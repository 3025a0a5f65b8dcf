use vstd::prelude::*;

verus! {

/// The errors of the library.
#[derive(Clone, Debug)]
pub enum CargoError {
    /// No workspace root could be located.
    MissingWorkspace,
    /// A manifest could not be read as a package description.
    InvalidToml(String),
    /// Reading or writing durable state failed.
    IoError(String),
    /// A release failed; the registry's answer is carried along.
    PublishError(String),
    /// The dependency relation could not be handled.
    DependencyError(String),
    /// The dependency relation has cycles; the text names them.
    CircularDependency(String),
    /// A persisted checkpoint exists but cannot be read back.
    CorruptCheckpoint(String),
}

/// The human-readable text of an error.
pub open spec fn error_text(e: CargoError) -> Seq<char> {
    match e {
        CargoError::MissingWorkspace => "No workspace found"@,
        CargoError::InvalidToml(m) => "Invalid TOML: "@ + m@,
        CargoError::IoError(m) => "IO error: "@ + m@,
        CargoError::PublishError(m) => "Publish error: "@ + m@,
        CargoError::DependencyError(m) => "Dependency error: "@ + m@,
        CargoError::CircularDependency(m) => "Circular dependency: "@ + m@,
        CargoError::CorruptCheckpoint(m) => "Corrupt checkpoint: "@ + m@,
    }
}

/// A string holding `prefix` followed by `rest`.
fn prefixed(prefix: &str, rest: &String) -> (r: String)
    ensures
        r@ == prefix@ + rest@,
{
    let mut r = prefix.to_owned();
    r.append(rest.as_str());
    r
}

impl CargoError {
    /// The text that describes this error to a user.
    pub fn message(&self) -> (r: String)
        ensures
            r@ == error_text(*self),
    {
        match self {
            CargoError::MissingWorkspace => "No workspace found".to_owned(),
            CargoError::InvalidToml(m) => prefixed("Invalid TOML: ", m),
            CargoError::IoError(m) => prefixed("IO error: ", m),
            CargoError::PublishError(m) => prefixed("Publish error: ", m),
            CargoError::DependencyError(m) => prefixed("Dependency error: ", m),
            CargoError::CircularDependency(m) => prefixed("Circular dependency: ", m),
            CargoError::CorruptCheckpoint(m) => prefixed("Corrupt checkpoint: ", m),
        }
    }
}

} // verus!
