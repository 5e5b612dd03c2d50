//! The worker-side dispatch state: what a worker process does with each
//! command it receives.
//!
//! The worker owns an allocation table mapping each logical index it has
//! assigned to the allocator handle reported back for it. Index spaces are
//! per-worker and never shared: the k-th allocation a worker records gets
//! index `k`, and a `Free` must name an index with an outstanding allocation
//! — anything else is an [`IndexError`], a workload-invariant violation. The
//! calls into the allocator and the process's own termination are performed
//! by the surrounding process, which follows the returned [`WorkerAction`].

use vstd::prelude::*;
use std::collections::HashMap;
use crate::rpc::Command;
use crate::workload::rng_from_seed;
use crate::workload::sample_inclusive;
use crate::workload::uniform_draw;
use crate::workload::xoshiro_seed_state;
use crate::workload::SeededRng;

verus! {

broadcast use vstd::std_specs::hash::group_hash_axioms;

/// A `Free` referenced an index with no outstanding allocation: a
/// programming-error assertion, never expected in correct operation.
#[derive(Clone, Copy, Debug, PartialEq, Eq, Structural)]
pub struct IndexError {
    pub index: usize,
}

/// What the process around the dispatch state must do for one command.
pub enum WorkerAction {
    /// Terminate the process immediately, acknowledging nothing further.
    CrashNow,
    /// Terminate the process after the given number of nanoseconds.
    CrashAfter { delay_ns: u64 },
    /// Call the allocator's `Init` with the heap id and size; its answer says
    /// whether persisted state existed.
    InitHeap { id: String, size: u64 },
    /// Allocate `size` bytes; the handle obtained must be recorded under
    /// `index` with [`WorkerState::record_allocation`].
    Allocate { size: usize, index: usize },
    /// Release the allocation behind `handle`.
    Release { handle: u64 },
    /// Ask the allocator to rebuild its in-memory structures.
    RecoverHeap,
    /// Close the allocator and exit with code zero.
    ExitClean,
}

/// The dispatch state of one worker process.
pub struct WorkerState {
    rng: SeededRng,
    next_index: usize,
    live: HashMap<u64, u64>,
}

/// The delay before a `Crash { delay, random }` takes effect, measured in
/// nanoseconds: `delay` itself, or, when `random` is set, a value drawn
/// uniformly from `[0, delay]` out of the worker's own seeded stream.
pub open spec fn crash_delay(delay: u64, random: bool, state: Seq<u64>) -> u64 {
    if random {
        uniform_draw(0, delay, state).0
    } else {
        delay
    }
}

impl WorkerState {
    /// The generator state the next random crash delay is drawn from.
    pub closed spec fn rng_state(self) -> Seq<u64> {
        self.rng.state@
    }

    /// The index the next allocation will be assigned.
    pub closed spec fn next_index_spec(self) -> usize {
        self.next_index
    }

    /// The outstanding allocations: logical index to allocator handle.
    pub closed spec fn live_spec(self) -> Map<u64, u64> {
        self.live@
    }

    /// A fresh dispatch state seeded with the worker's own seed: no
    /// allocation yet, indices starting at zero.
    pub fn new(worker_seed: u64) -> (s: WorkerState)
        ensures
            s.rng_state() == xoshiro_seed_state(worker_seed),
            s.next_index_spec() == 0,
            s.live_spec() == Map::<u64, u64>::empty(),
    {
        let s = WorkerState {
            rng: rng_from_seed(worker_seed),
            next_index: 0,
            live: HashMap::new(),
        };
        s
    }

    /// Record the handle the allocator returned for the allocation that was
    /// assigned `index`.
    pub fn record_allocation(&mut self, index: usize, handle: u64)
        ensures
            final(self).live_spec() == old(self).live_spec().insert(index as u64, handle),
            final(self).next_index_spec() == old(self).next_index_spec(),
            final(self).rng_state() == old(self).rng_state(),
    {
        self.live.insert(index as u64, handle);
    }

    /// How many allocations have ever been assigned an index — the index the
    /// next one will get.
    pub fn allocations(&self) -> (n: usize)
        ensures
            n == self.next_index_spec(),
    {
        self.next_index
    }

    /// How many allocations are outstanding.
    pub fn outstanding(&self) -> (n: usize)
        ensures
            n == self.live_spec().len(),
    {
        self.live.len()
    }

    /// Decide what one received command means for this worker: the action the
    /// process must perform, or the error the command amounts to. Every
    /// command but a `Free` of an unknown index is accepted; a `Malloc` is
    /// assigned the next logical index; a `Free` of a recorded index releases
    /// exactly the handle recorded for it and forgets it.
    pub fn apply(&mut self, cmd: &Command) -> (r: Result<WorkerAction, IndexError>)
        requires
            old(self).next_index_spec() < usize::MAX,
        ensures
            match *cmd {
                Command::Crash { delay, random } => {
                    &&& (r matches Ok(a) ==> a == (if delay == 0 {
                        WorkerAction::CrashNow
                    } else {
                        WorkerAction::CrashAfter {
                            delay_ns: crash_delay(delay, random, old(self).rng_state()),
                        }
                    }))
                    &&& r is Ok
                    &&& final(self).live_spec() == old(self).live_spec()
                    &&& final(self).next_index_spec() == old(self).next_index_spec()
                    &&& final(self).rng_state() == (if delay != 0 && random {
                        uniform_draw(0, delay, old(self).rng_state()).1
                    } else {
                        old(self).rng_state()
                    })
                },
                Command::Init { ref id, size } => {
                    &&& (r matches Ok(a) ==> a matches WorkerAction::InitHeap {
                        id: aid,
                        size: asize,
                    } && aid@ == id@ && asize == size)
                    &&& r is Ok
                    &&& *final(self) == *old(self)
                },
                Command::Malloc { size } => {
                    &&& r matches Ok(a) && a == (WorkerAction::Allocate {
                        size,
                        index: old(self).next_index_spec(),
                    })
                    &&& final(self).next_index_spec() == old(self).next_index_spec() + 1
                    &&& final(self).live_spec() == old(self).live_spec()
                    &&& final(self).rng_state() == old(self).rng_state()
                },
                Command::Free { index } => {
                    &&& (old(self).live_spec().contains_key(index as u64) ==> (r matches Ok(a)
                        && a == (WorkerAction::Release {
                        handle: old(self).live_spec()[index as u64],
                    }) && final(self).live_spec() == old(self).live_spec().remove(index as u64)))
                    &&& (!old(self).live_spec().contains_key(index as u64) ==> (r matches Err(e)
                        && e == (IndexError { index }) && final(self).live_spec() == old(
                        self,
                    ).live_spec()))
                    &&& final(self).next_index_spec() == old(self).next_index_spec()
                    &&& final(self).rng_state() == old(self).rng_state()
                },
                Command::Recover => {
                    &&& r matches Ok(a) && a == WorkerAction::RecoverHeap
                    &&& *final(self) == *old(self)
                },
                Command::Exit => {
                    &&& r matches Ok(a) && a == WorkerAction::ExitClean
                    &&& *final(self) == *old(self)
                },
            },
    {
        match cmd {
            Command::Crash { delay, random } => {
                if *delay == 0 {
                    Ok(WorkerAction::CrashNow)
                } else if *random {
                    let d = sample_inclusive(&mut self.rng, 0, *delay);
                    Ok(WorkerAction::CrashAfter { delay_ns: d })
                } else {
                    Ok(WorkerAction::CrashAfter { delay_ns: *delay })
                }
            },
            Command::Init { id, size } => {
                Ok(WorkerAction::InitHeap { id: id.clone(), size: *size })
            },
            Command::Malloc { size } => {
                let index = self.next_index;
                self.next_index = self.next_index + 1;
                Ok(WorkerAction::Allocate { size: *size, index })
            },
            Command::Free { index } => {
                match self.live.remove(&(*index as u64)) {
                    Some(handle) => Ok(WorkerAction::Release { handle }),
                    None => Err(IndexError { index: *index }),
                }
            },
            Command::Recover => Ok(WorkerAction::RecoverHeap),
            Command::Exit => Ok(WorkerAction::ExitClean),
        }
    }
}

} // verus!
