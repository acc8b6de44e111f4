//! The runtime that probe attachment goes through.
use vstd::prelude::*;
use super::{RuntimeStatus, UserspaceRuntime};

verus! {

#[derive(Debug, Default)]
pub struct RuntimeSelector;

impl RuntimeSelector {
    pub fn select(status: &RuntimeStatus) -> (r: UserspaceRuntime)
        ensures
            r == status.userspace_runtime,
    {
        status.userspace_runtime
    }
}

} // verus!
