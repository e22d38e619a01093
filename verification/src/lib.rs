//! Core of a privileged userspace helper: deterministic installation of
//! embedded executable resources into a protected directory, and the
//! decision logic of a command proxy that forwards an invocation to a
//! fixed system executable.
//!
//! The installer is written against an explicit filesystem state
//! ([`fs_model::FsModel`]); the surrounding binary materializes that state
//! on disk and performs the actual process plumbing.

pub mod errors;
pub mod fs_model;
pub mod installer;
pub mod proxy;
pub mod resources;
