//! Counters and named workers kept beside the coordinator.

use vstd::prelude::*;

use std::collections::HashMap;

use crate::registry::Worker;

verus! {

/// Named counters and workers by name.
#[derive(Debug)]
pub struct ServerState {
    pub metrics: HashMap<String, u64>,
    pub workers: HashMap<String, Worker>,
}

impl ServerState {
    /// A state with no counters and no workers.
    pub fn new() -> (r: ServerState)
        ensures
            r.metrics@ == Map::<String, u64>::empty(),
            r.workers@ == Map::<String, Worker>::empty(),
    {
        ServerState { metrics: HashMap::new(), workers: HashMap::new() }
    }
}

} // verus!
