//! Builder for a `Compose` handle. Only the pure state lives here; path
//! resolution against the file system is the caller's concern.

use vstd::prelude::*;

use crate::error::{BuilderErrorView, ComposeBuilderError};

verus! {

/// Accumulates the settings of a `Compose` handle before it is built.
#[derive(Debug, Clone)]
pub struct ComposeBuilder {
    path: Option<String>,
}

impl ComposeBuilder {
    /// The configured path, if one was set.
    pub closed spec fn path_spec(&self) -> Option<Seq<char>> {
        match self.path {
            Some(ref p) => Some(p@),
            None => None,
        }
    }

    /// Create a builder with nothing configured.
    pub fn new() -> (r: Self)
        ensures
            r.path_spec() is None,
    {
        Self { path: None }
    }

    /// Set the path to the compose manifest; absolute or relative.
    pub fn path(self, path: &str) -> (r: Self)
        ensures
            r.path_spec() == Some(path@),
    {
        Self { path: Some(String::from_str(path)) }
    }

    /// The configured path, or the failure that names the missing field.
    /// Resolving the path against the working directory and checking that
    /// the file exists remain with the caller.
    pub fn take_path(self) -> (r: Result<String, ComposeBuilderError>)
        ensures
            (match self.path_spec() {
                Some(p) => r matches Ok(s) && s@ == p,
                None => r matches Err(e) && e@ == BuilderErrorView::MissingField("path"@),
            }),
    {
        match self.path {
            Some(p) => Ok(p),
            None => Err(ComposeBuilderError::MissingField(String::from_str("path"))),
        }
    }
}

impl Default for ComposeBuilder {
    fn default() -> (r: Self)
        ensures
            r.path_spec() is None,
    {
        Self::new()
    }
}

} // verus!
