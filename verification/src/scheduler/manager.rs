//! The scheduler: one arena, the record of resident layers, and the decision
//! taken on each load request.

use vstd::prelude::*;
use crate::memory::arena::{ArenaError, ArenaHandle, ArenaState, ModelArena};
use crate::memory::arena::{max_region_bytes, BYTES_PER_MB};

verus! {

/// The outcome of a load request.
#[derive(Clone, Copy, Debug, PartialEq, Eq)]
pub enum SchedulerDecision {
    /// The layer fits and now occupies `handle`.
    LoadSuccess { handle: ArenaHandle },
    /// The arena is full, but room can be made by unloading: `layer_id` is
    /// the layer that has been resident longest.
    MustUnload { layer_id: usize },
    /// The arena is full and nothing is resident: the request cannot be met
    /// at this capacity.
    OOM,
}

/// The mathematical state of a scheduler.
pub struct SchedulerState {
    /// The state of the arena it owns.
    pub arena: ArenaState,
    /// The resident layers in the order in which they were loaded.
    pub resident: Seq<usize>,
}

impl SchedulerState {
    /// A scheduler over an empty arena of the given capacity.
    pub open spec fn fresh(capacity: nat) -> SchedulerState {
        SchedulerState { arena: ArenaState::fresh(capacity), resident: Seq::empty() }
    }

    /// The arena is well formed and holds one live sub-range for each
    /// resident layer, so that the record and the arena are only ever
    /// emptied together.
    pub open spec fn wf(self) -> bool {
        &&& self.arena.wf()
        &&& self.resident.len() == self.arena.live.len()
    }

    /// What a request to load `size` bytes is answered with.
    pub open spec fn decision(self, size: usize) -> SchedulerDecision {
        if self.arena.fits(size as nat) {
            SchedulerDecision::LoadSuccess { handle: self.arena.next_handle(size) }
        } else if self.resident.len() > 0 {
            SchedulerDecision::MustUnload { layer_id: self.resident[0] }
        } else {
            SchedulerDecision::OOM
        }
    }

    /// The state after a request to load layer `layer_id` of `size` bytes.
    pub open spec fn request_load(self, layer_id: usize, size: usize) -> SchedulerState {
        if self.arena.fits(size as nat) {
            SchedulerState {
                arena: self.arena.allocate(size),
                resident: self.resident.push(layer_id),
            }
        } else {
            self
        }
    }

    /// The state after a flush: the arena reset, no layer resident.
    pub open spec fn unload_all(self) -> SchedulerState {
        SchedulerState::fresh(self.arena.capacity)
    }

    /// A request keeps the state well formed. Where an unload is asked for,
    /// the arena holds something: the named layer is one that was loaded.
    pub proof fn lemma_request_load_wf(self, layer_id: usize, size: usize)
        requires
            self.wf(),
        ensures
            self.request_load(layer_id, size).wf(),
            self.decision(size) is MustUnload ==> self.arena.live.len() > 0,
    {
        self.arena.lemma_allocate_wf(size);
    }

    /// What is in use is what the resident layers were given: the watermark
    /// is the sum of the lengths of one sub-range for each resident layer, and
    /// is zero where no layer is resident.
    pub proof fn lemma_usage_is_resident(self)
        requires
            self.wf(),
        ensures
            self.arena.used() == self.arena.live_bytes(self.resident.len() as int),
            self.resident.len() == 0 ==> self.arena.used() == 0,
    {
        self.arena.lemma_used_is_live_bytes();
    }

    /// After a flush no request is answered with `MustUnload`: it is loaded
    /// at the start of the region where its size is within the capacity, and
    /// is out of memory for good where it is not.
    pub proof fn lemma_retry_after_unload(self, size: usize)
        requires
            self.wf(),
        ensures
            self.unload_all().wf(),
            self.unload_all().arena.used() == 0,
            self.unload_all().decision(size) == (if size <= self.arena.capacity {
                SchedulerDecision::LoadSuccess { handle: ArenaHandle { offset: 0, len: size } }
            } else {
                SchedulerDecision::OOM
            }),
    {
    }
}

/// Decides each load request against one arena, and keeps the record of the
/// layers that are resident in it.
pub struct Scheduler {
    arena: ModelArena,
    loaded_layers: Vec<usize>,
}

impl View for Scheduler {
    type V = SchedulerState;

    closed spec fn view(&self) -> SchedulerState {
        SchedulerState { arena: self.arena@, resident: self.loaded_layers@ }
    }
}

impl Scheduler {
    /// The scheduler's invariant: its arena's, and that of its state.
    pub closed spec fn wf(&self) -> bool {
        &&& self.arena.wf()
        &&& self@.wf()
    }

    /// Starts a scheduler over a new arena of `memory_limit_mb` megabytes.
    ///
    /// Fails with `AllocationFailed` exactly where the arena cannot be made;
    /// one of no bytes always can.
    pub fn boot(memory_limit_mb: usize) -> (res: Result<Self, ArenaError>)
        ensures
            memory_limit_mb == 0 ==> res is Ok,
            memory_limit_mb * BYTES_PER_MB > max_region_bytes() ==> res is Err,
            res is Err ==> res->Err_0 == ArenaError::AllocationFailed,
            res is Ok ==> res->Ok_0.wf() && res->Ok_0@ == SchedulerState::fresh(
                (memory_limit_mb * BYTES_PER_MB) as nat,
            ),
    {
        match ModelArena::new(memory_limit_mb) {
            Ok(arena) => Ok(Self::with_arena(arena)),
            Err(e) => Err(e),
        }
    }

    /// Starts a scheduler over the given arena, which is reset first: no
    /// layer is resident in it.
    pub fn with_arena(arena: ModelArena) -> (scheduler: Self)
        requires
            arena.wf(),
        ensures
            scheduler.wf(),
            scheduler@ == SchedulerState::fresh(arena@.capacity),
    {
        let mut arena = arena;
        arena.reset();
        proof {
            arena.lemma_wf_state();
        }
        Scheduler { arena, loaded_layers: Vec::new() }
    }

    /// Asks to load layer `layer_id` of `size_bytes` bytes.
    ///
    /// Where the arena has room, the layer is allocated at the watermark and
    /// added at the end of the resident record. Where it has not, nothing
    /// changes: the answer names the layer that has been resident longest,
    /// or is `OOM` where none is resident.
    pub fn request_load(&mut self, layer_id: usize, size_bytes: usize) -> (decision:
        SchedulerDecision)
        requires
            old(self).wf(),
        ensures
            final(self).wf(),
            decision == old(self)@.decision(size_bytes),
            final(self)@ == old(self)@.request_load(layer_id, size_bytes),
            size_bytes <= old(self)@.arena.available() ==> decision
                == (SchedulerDecision::LoadSuccess {
                handle: ArenaHandle { offset: old(self)@.arena.used() as usize, len: size_bytes },
            }) && final(self)@.resident == old(self)@.resident.push(layer_id)
                && final(self)@.arena == old(self)@.arena.allocate(size_bytes),
            size_bytes > old(self)@.arena.available() && old(self)@.resident.len() > 0 ==> decision
                == (SchedulerDecision::MustUnload { layer_id: old(self)@.resident[0] })
                && *final(self) == *old(self),
            size_bytes > old(self)@.arena.available() && old(self)@.resident.len() == 0
                ==> decision == SchedulerDecision::OOM && *final(self) == *old(self),
    {
        let allocated = self.arena.allocate(size_bytes);
        proof {
            self.arena.lemma_wf_state();
        }
        match allocated {
            Ok(handle) => {
                self.loaded_layers.push(layer_id);
                SchedulerDecision::LoadSuccess { handle }
            },
            Err(_) => {
                if self.loaded_layers.len() > 0 {
                    SchedulerDecision::MustUnload { layer_id: self.loaded_layers[0] }
                } else {
                    SchedulerDecision::OOM
                }
            },
        }
    }

    /// Flushes everything: the arena is reset and the resident record
    /// emptied, together.
    pub fn unload_all(&mut self)
        requires
            old(self).wf(),
        ensures
            final(self).wf(),
            final(self)@ == old(self)@.unload_all(),
            final(self)@.arena.used() == 0,
            final(self)@.resident.len() == 0,
    {
        self.arena.reset();
        self.loaded_layers.clear();
    }

    /// The arena's watermark: how many bytes are in use.
    pub fn memory_usage(&self) -> (used: usize)
        requires
            self.wf(),
        ensures
            used == self@.arena.used(),
    {
        self.arena.used_bytes()
    }
}

} // verus!
