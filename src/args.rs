use vstd::prelude::*;

use crate::poll::Watcher;

verus! {

/// What a run of the watcher is asked to do.
#[derive(Clone, Debug)]
pub struct Args {
    /// The credentials profile to use.
    pub aws_profile: String,
    /// The region to target.
    pub aws_region: String,
    /// The cluster to watch.
    pub cluster: String,
    /// Whether to dump the full task description once.
    pub detail: bool,
    /// Whether to render one snapshot and stop, rather than keep watching.
    pub one_shot: bool,
}

impl Args {
    /// A watcher in the mode these arguments ask for.
    pub fn watcher(&self) -> (r: Watcher)
        ensures
            r.spec_one_shot() == self.one_shot,
            r.last_view() is None,
    {
        Watcher::new(self.one_shot)
    }
}

} // verus!
