//! Workspace mapping between logical paths and the guest mount.

pub mod backend;

pub use backend::{
    exists_from_outcomes, logical_path_to_guest, logical_to_guest_abs, resolve_path_with_cwd, GuestPrimaryBackend, WorkspaceBackendError,
};
