//! How the library works with the host.
//!
//! Nothing here touches the host itself. Each operation that does is a small
//! machine: its `op` says what the host is to do next, and its `resume` takes
//! what came back and either goes on or finishes. An answer to some other
//! question than the one that was asked leaves a machine where it is. Spans of
//! time are counted in nanoseconds.

use vstd::prelude::*;

use crate::error::IoFailure;
use crate::path::HostPath;

verus! {

/// Where a machine stands after an answer.
#[derive(Debug)]
pub enum Progress<M, T> {
    /// There is more to ask.
    Running(M),
    /// The outcome.
    Finished(T),
}

/// The platform that the library runs on.
#[derive(Debug, Clone, Copy)]
pub struct Platform {
    /// Whether it is Linux, the only one with configfs, TCMU and `mount(2)`.
    pub linux: bool,
    /// What it is called.
    pub os: &'static str,
}

/// What came of creating the directory that a path stands in.
#[derive(Debug)]
pub enum Parents {
    /// The directory is there, or the path names none.
    Ready,
    /// `parent` could not be created.
    Failed { parent: HostPath, source: IoFailure },
}

} // verus!
