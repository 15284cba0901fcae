//! Media engines as the supply chain sees them: their lifecycle state, the
//! events they raise, and the pool of workers that owns them.

pub mod event;
pub mod state;
pub mod worker;

use crate::pipeline::worker::PipelineId;
use vstd::prelude::*;

verus! {

/// One engine on its way to the front end: its name, the file it plays and
/// whatever the caller needs to reach the engine itself.
pub struct Pipeline<T> {
    pub id: PipelineId,
    pub path: String,
    pub handle: T,
}

impl<T> Pipeline<T> {
    /// An engine named `id` that plays the file at `path`.
    pub fn new(id: PipelineId, path: String, handle: T) -> (pipeline: Pipeline<T>)
        ensures
            pipeline.id == id,
            pipeline.path == path,
            pipeline.handle == handle,
    {
        Pipeline { id, path, handle }
    }

    /// The file the engine plays.
    pub fn path(&self) -> (path: &str)
        ensures
            path@ == self.path@,
    {
        self.path.as_str()
    }
}

} // verus!
