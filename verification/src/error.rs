use vstd::prelude::*;

verus! {

/// The failure taxonomy of the store.
///
/// Every fallible operation reports one of these; none is ever swallowed.
/// Two absences are deliberately not errors: a missing registry file on load
/// (an empty registry) and a missing references directory on hydration (no
/// references to hydrate).
#[derive(Clone, Copy, Debug, PartialEq, Eq, Structural)]
pub enum StoreError {
    /// A path that was required to be absolute is not.
    InvalidPath,
    /// A workspace or vertex id is already present at the target location.
    AlreadyExists,
    /// A workspace, vertex, or note is absent.
    NotFound,
    /// A vertex names a parent id that no directory scan can locate.
    ParentNotFound,
    /// A workspace id is not present in the registry.
    UnregisteredWorkspace,
    /// A vertex carries no workspace id, so no root can be resolved.
    MissingWorkspaceId,
    /// The registry file exists but its content cannot be decoded.
    CorruptRegistry,
    /// A metadata file exists but its content cannot be decoded.
    CorruptMetadata,
    /// The underlying filesystem reported a failure.
    IoFailure,
    /// A note name contains a path separator.
    InvalidNoteName,
}

impl StoreError {
    /// A short human-readable description, for the host shell to surface.
    pub fn message(&self) -> (r: &'static str)
    {
        match self {
            StoreError::InvalidPath => "path must be absolute",
            StoreError::AlreadyExists => "target already exists",
            StoreError::NotFound => "not found",
            StoreError::ParentNotFound => "parent vertex not found",
            StoreError::UnregisteredWorkspace => "workspace is not registered",
            StoreError::MissingWorkspaceId => "vertex carries no workspace id",
            StoreError::CorruptRegistry => "registry file is malformed",
            StoreError::CorruptMetadata => "metadata file is malformed",
            StoreError::IoFailure => "filesystem operation failed",
            StoreError::InvalidNoteName => "note name contains a path separator",
        }
    }
}

} // verus!
