//! Saved projects and the tasks started from them.

pub mod env;
pub mod lifecycle;
pub mod parse;

pub mod registry;
pub mod spawn;
pub mod store;

use vstd::prelude::*;

use self::store::StoreError;

verus! {

/// A command saved under a project.
#[derive(Clone, Debug, PartialEq, Eq)]
pub struct Task {
    pub id: String,
    pub name: String,
    pub command: String,
}

/// A folder with its saved tasks; its id is the canonical folder path.
#[derive(Clone, Debug, PartialEq, Eq)]
pub struct Project {
    pub id: String,
    pub name: String,
    pub folder: String,
    pub tasks: Vec<Task>,
}

/// Why a project operation failed.
#[derive(Debug)]
pub enum ProjectError {
    Store(StoreError),
}

impl ProjectError {
    /// The error's message (the store error's own).
    pub fn message(&self) -> (m: String)
        ensures
            m@ == (match self {
                ProjectError::Store(e) => e.message_text(),
            }),
    {
        match self {
            ProjectError::Store(e) => e.message(),
        }
    }
}

impl From<StoreError> for ProjectError {
    fn from(e: StoreError) -> (r: ProjectError) {
        ProjectError::Store(e)
    }
}

impl vstd::std_specs::convert::FromSpecImpl<StoreError> for ProjectError {
    open spec fn obeys_from_spec() -> bool {
        true
    }

    open spec fn from_spec(e: StoreError) -> ProjectError {
        ProjectError::Store(e)
    }
}

} // verus!
