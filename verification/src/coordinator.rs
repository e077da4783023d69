//! The pipeline of one route: where its sockets live and how each stage
//! batches and waits.

use vstd::prelude::*;

use crate::endpoint::{socket_name, Endpoint};

verus! {

/// The settings of the stage pipeline of one route.
pub struct Coordinator {
    /// capacity of the channel between two stages
    pub capacity: usize,
    /// directory that holds the sockets of the stages
    pub path: String,
    /// max batch size of each stage
    pub batches: Vec<u32>,
    /// max wait of each stage, in milliseconds
    pub wait_time: Vec<u64>,
}

/// What one stage of a pipeline is started with.
pub struct StagePlan {
    /// the stage's number, counted from 1
    pub stage: usize,
    /// file name of the stage's socket inside the coordinator's directory
    pub socket: String,
    /// max batch size of the stage
    pub batch_size: u32,
    /// max wait of the stage, in milliseconds
    pub wait_ms: u64,
}

impl Coordinator {
    /// The settings of a route's pipeline; an empty `path` falls back to
    /// `default_path`.
    pub fn init(
        batches: Vec<u32>,
        waits: Vec<u64>,
        path: String,
        capacity: usize,
        default_path: String,
    ) -> (c: Coordinator)
        ensures
            c.capacity == capacity,
            c.batches@ == batches@,
            c.wait_time@ == waits@,
            c.path@ == if path@.len() > 0 {
                path@
            } else {
                default_path@
            },
    {
        let path = if !path.as_str().is_empty() {
            path
        } else {
            default_path
        };
        Coordinator { capacity, path, batches, wait_time: waits }
    }

    /// How many parties meet at the start barrier: every stage and the caller.
    pub fn barrier_parties(&self) -> (n: usize)
        requires
            self.batches@.len() < usize::MAX,
        ensures
            n == self.batches@.len() + 1,
    {
        self.batches.len() + 1
    }

    /// The plan of each stage of `endpoint`'s pipeline, in order.
    pub fn stage_plans(&self, endpoint: &Endpoint) -> (plans: Vec<StagePlan>)
        requires
            self.wait_time@.len() >= self.batches@.len(),
        ensures
            plans@.len() == self.batches@.len(),
            forall|i: int|
                0 <= i < plans@.len() ==> {
                    &&& (#[trigger] plans@[i]).stage == i + 1
                    &&& plans@[i].socket@ == socket_name(endpoint@, (i + 1) as nat)
                    &&& plans@[i].batch_size == self.batches@[i]
                    &&& plans@[i].wait_ms == self.wait_time@[i]
                },
    {
        let mut plans: Vec<StagePlan> = Vec::new();
        let mut i: usize = 0;
        while i < self.batches.len()
            invariant
                self.wait_time@.len() >= self.batches@.len(),
                i <= self.batches@.len(),
                plans@.len() == i,
                forall|j: int|
                    0 <= j < i ==> {
                        &&& (#[trigger] plans@[j]).stage == j + 1
                        &&& plans@[j].socket@ == socket_name(endpoint@, (j + 1) as nat)
                        &&& plans@[j].batch_size == self.batches@[j]
                        &&& plans@[j].wait_ms == self.wait_time@[j]
                    },
            decreases self.batches.len() - i,
        {
            let stage = i + 1;
            plans.push(
                StagePlan {
                    stage,
                    socket: endpoint.standardize_to_socket(stage),
                    batch_size: self.batches[i],
                    wait_ms: self.wait_time[i],
                },
            );
            i = i + 1;
        }
        plans
    }
}

} // verus!
