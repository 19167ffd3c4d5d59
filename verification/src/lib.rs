//! Typed views over a container-orchestration CLI's output: a listing
//! parser with header-offset column slicing, small decoders for its
//! compound text fields, and a window aggregator for its line-oriented
//! JSON stats stream.

use vstd::prelude::*;

pub mod builder;
pub mod command;
pub mod container;
pub mod error;
pub mod parser;
pub mod stats;
pub mod text;

pub use builder::ComposeBuilder;
pub use command::{ComposeCommandArgs, DownArgs, RemoveOptions, ScaleArgs, StartArgs, UpArgs};
pub use container::{Container, ContainerStatus, PortMapping, Status};
pub use error::{ComposeBuilderError, ComposeError};
pub use stats::{Stats, StatsIO, StatsPercentage, StatsUsage, WindowVerdict};

verus! {

/// A handle on one compose manifest; everything the wrapped commands need
/// from it is the manifest's path.
#[derive(Debug, Clone)]
pub struct Compose {
    pub path: String,
}

impl Compose {
    /// Start assembling a handle.
    pub fn builder() -> (r: ComposeBuilder)
        ensures
            r.path_spec() is None,
    {
        ComposeBuilder::new()
    }

    /// Wrap an already resolved manifest path.
    pub fn at_path(path: String) -> (r: Self)
        ensures
            r.path@ == path@,
    {
        Self { path }
    }
}

} // verus!
