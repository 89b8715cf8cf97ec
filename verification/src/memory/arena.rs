//! A bump arena over one fixed region.
//!
//! The arena hands out consecutive sub-ranges of a region whose size is fixed
//! when the arena is made. Nothing is given back piece by piece: `reset`
//! releases every sub-range at once.

use vstd::prelude::*;

verus! {

/// Bytes in one megabyte, the unit in which capacities are given.
pub const BYTES_PER_MB: usize = 1048576;

/// Alignment, in bytes, that a region's size has to leave room for.
pub const REGION_ALIGN: usize = 32;

/// Why an arena operation failed.
#[derive(Clone, Copy, Debug, PartialEq, Eq)]
pub enum ArenaError {
    /// The request exceeds what is left of the region.
    OutOfMemory { requested: usize, available: usize },
    /// The backing region could not be reserved.
    AllocationFailed,
}

/// A sub-range `[offset, offset + len)` of an arena's region.
///
/// A handle is valid from the allocation that returned it until the next
/// `reset` of the arena.
#[derive(Clone, Copy, Debug, PartialEq, Eq)]
pub struct ArenaHandle {
    pub offset: usize,
    pub len: usize,
}

impl ArenaHandle {
    /// One past the last byte of the sub-range.
    pub open spec fn end(self) -> int {
        self.offset + self.len
    }

    /// Two sub-ranges share no byte.
    pub open spec fn disjoint(self, other: ArenaHandle) -> bool {
        self.end() <= other.offset || other.end() <= self.offset
    }
}

/// The largest region size, in bytes, that can be rounded up to the region
/// alignment without passing the largest size of an allocation.
pub open spec fn max_region_bytes() -> int {
    usize::MAX / 2 - (REGION_ALIGN - 1)
}

/// `size` zero bytes.
pub open spec fn zeros(size: nat) -> Seq<u8> {
    Seq::new(size, |i: int| 0u8)
}

/// The sum of the requested sizes.
pub open spec fn total_size(sizes: Seq<usize>) -> nat
    decreases sizes.len(),
{
    if sizes.len() == 0 {
        0
    } else {
        total_size(sizes.drop_last()) + sizes.last() as nat
    }
}

/// The mathematical state of an arena.
pub struct ArenaState {
    /// Size of the region in bytes.
    pub capacity: nat,
    /// The bytes in use; its length is the watermark.
    pub bytes: Seq<u8>,
    /// The sub-ranges handed out since the last reset, oldest first.
    pub live: Seq<ArenaHandle>,
}

impl ArenaState {
    /// The watermark: how many bytes are in use.
    pub open spec fn used(self) -> nat {
        self.bytes.len()
    }

    /// Bytes left above the watermark.
    pub open spec fn available(self) -> int {
        self.capacity - self.used()
    }

    /// An arena of the given capacity with nothing allocated.
    pub open spec fn fresh(capacity: nat) -> ArenaState {
        ArenaState { capacity, bytes: Seq::empty(), live: Seq::empty() }
    }

    /// Where the sub-range number `i` has to begin: at the start of the
    /// region, or where the one before it ended.
    pub open spec fn start_of(self, i: int) -> int {
        if i == 0 {
            0
        } else {
            self.live[i - 1].end()
        }
    }

    /// The sum of the lengths of the first `n` live sub-ranges.
    pub open spec fn live_bytes(self, n: int) -> int
        decreases n,
    {
        if n <= 0 {
            0
        } else {
            self.live_bytes(n - 1) + self.live[n - 1].len
        }
    }

    /// The sub-range number `i` begins where it has to.
    pub open spec fn begins_in_place(self, i: int) -> bool {
        self.live[i].offset == self.start_of(i)
    }

    /// The watermark stays within the region, and the live sub-ranges tile
    /// `[0, used)` in the order in which they were handed out.
    pub open spec fn wf(self) -> bool {
        &&& self.used() <= self.capacity
        &&& self.capacity <= max_region_bytes()
        &&& forall|i: int| 0 <= i < self.live.len() ==> #[trigger] self.begins_in_place(i)
        &&& self.used() == self.start_of(self.live.len() as int)
    }

    /// A request for `size` bytes can be met.
    pub open spec fn fits(self, size: nat) -> bool {
        self.used() + size <= self.capacity
    }

    /// The sub-range that a request for `size` bytes gets.
    pub open spec fn next_handle(self, size: usize) -> ArenaHandle {
        ArenaHandle { offset: self.used() as usize, len: size }
    }

    /// The state after a request for `size` bytes: unchanged where the request
    /// does not fit, else the zero-filled sub-range is added at the watermark.
    pub open spec fn allocate(self, size: usize) -> ArenaState {
        if self.fits(size as nat) {
            ArenaState {
                capacity: self.capacity,
                bytes: self.bytes + zeros(size as nat),
                live: self.live.push(self.next_handle(size)),
            }
        } else {
            self
        }
    }

    /// What a request for `size` bytes returns.
    pub open spec fn allocate_result(self, size: usize) -> Result<ArenaHandle, ArenaError> {
        if self.fits(size as nat) {
            Ok(self.next_handle(size))
        } else {
            Err(ArenaError::OutOfMemory { requested: size, available: self.available() as usize })
        }
    }

    /// Place `index` of the sub-range `handle` is a byte below the watermark.
    pub open spec fn holds(self, handle: ArenaHandle, index: usize) -> bool {
        handle.end() <= self.used() && index < handle.len
    }

    /// The state after `value` is stored at place `index` of the sub-range
    /// `handle`: unchanged where the state does not hold that place.
    pub open spec fn write(self, handle: ArenaHandle, index: usize, value: u8) -> ArenaState {
        if self.holds(handle, index) {
            ArenaState {
                capacity: self.capacity,
                bytes: self.bytes.update(handle.offset + index, value),
                live: self.live,
            }
        } else {
            self
        }
    }

    /// The state after a reset: same capacity, nothing in use, no live sub-range.
    pub open spec fn reset(self) -> ArenaState {
        ArenaState::fresh(self.capacity)
    }

    /// The state after the requests `sizes`, made in order.
    pub open spec fn allocate_all(self, sizes: Seq<usize>) -> ArenaState
        decreases sizes.len(),
    {
        if sizes.len() == 0 {
            self
        } else {
            self.allocate_all(sizes.drop_last()).allocate(sizes.last())
        }
    }
}

impl ArenaState {
    /// Of two live sub-ranges, the one handed out first ends where the later
    /// one begins, or before it.
    pub proof fn lemma_live_ordered(self, i: int, j: int)
        requires
            self.wf(),
            0 <= i < j < self.live.len(),
        ensures
            self.live[i].end() <= self.live[j].offset,
        decreases j - i,
    {
        assert(self.begins_in_place(j));
        if i + 1 < j {
            self.lemma_live_ordered(i, j - 1);
        }
    }

    /// The live sub-ranges are pairwise disjoint, and each lies below the
    /// watermark.
    pub proof fn lemma_live_disjoint(self)
        requires
            self.wf(),
        ensures
            forall|i: int, j: int|
                0 <= i < j < self.live.len() ==> (#[trigger] self.live[i]).disjoint(
                    #[trigger] self.live[j],
                ),
            forall|i: int| 0 <= i < self.live.len() ==> (#[trigger] self.live[i]).end() <= self.used(),
    {
        assert forall|i: int, j: int| 0 <= i < j < self.live.len() implies
            (#[trigger] self.live[i]).disjoint(#[trigger] self.live[j]) by {
            self.lemma_live_ordered(i, j);
        }
        assert forall|i: int| 0 <= i < self.live.len() implies
            (#[trigger] self.live[i]).end() <= self.used() by {
            if i + 1 < self.live.len() {
                self.lemma_live_ordered(i, self.live.len() - 1);
            }
        }
    }

    /// The first `n` live sub-ranges fill the region up to where number `n`
    /// has to begin.
    pub proof fn lemma_start_is_live_bytes(self, n: int)
        requires
            self.wf(),
            0 <= n <= self.live.len(),
        ensures
            self.start_of(n) == self.live_bytes(n),
        decreases n,
    {
        if n > 0 {
            self.lemma_start_is_live_bytes(n - 1);
            assert(self.begins_in_place(n - 1));
        }
    }

    /// The watermark is the sum of the lengths of the live sub-ranges: every
    /// byte in use belongs to one of them.
    pub proof fn lemma_used_is_live_bytes(self)
        requires
            self.wf(),
        ensures
            self.used() == self.live_bytes(self.live.len() as int),
    {
        self.lemma_start_is_live_bytes(self.live.len() as int);
    }

    /// A request keeps the state well formed, whether it fits or not, and
    /// never moves the watermark down.
    pub proof fn lemma_allocate_wf(self, size: usize)
        requires
            self.wf(),
        ensures
            self.allocate(size).wf(),
            self.allocate(size).capacity == self.capacity,
            self.allocate(size).used() >= self.used(),
    {
        if self.fits(size as nat) {
            let next = self.allocate(size);
            assert forall|i: int| 0 <= i < next.live.len() implies #[trigger] next.begins_in_place(
                i,
            ) by {
                if i < self.live.len() {
                    assert(self.begins_in_place(i));
                }
            }
        }
    }

    /// Storing a byte keeps the state well formed and moves nothing.
    pub proof fn lemma_write_wf(self, handle: ArenaHandle, index: usize, value: u8)
        requires
            self.wf(),
        ensures
            self.write(handle, index, value).wf(),
            self.write(handle, index, value).used() == self.used(),
    {
        let next = self.write(handle, index, value);
        assert forall|i: int| 0 <= i < next.live.len() implies #[trigger] next.begins_in_place(
            i,
        ) by {
            assert(self.begins_in_place(i));
        }
    }

    /// Requests whose sizes add up to no more than what is left all succeed.
    /// Request number `k` gets the sub-range that the final state lists at
    /// place `k` after those that were live before; the watermark moves up by
    /// the sum of the sizes; and all live sub-ranges are pairwise disjoint.
    pub proof fn lemma_allocate_all_fits(self, sizes: Seq<usize>)
        requires
            self.wf(),
            self.used() + total_size(sizes) <= self.capacity,
        ensures
            self.allocate_all(sizes).wf(),
            self.allocate_all(sizes).capacity == self.capacity,
            self.allocate_all(sizes).used() == self.used() + total_size(sizes),
            self.allocate_all(sizes).live.len() == self.live.len() + sizes.len(),
            forall|k: int|
                0 <= k < sizes.len() ==> #[trigger] self.allocate_all(sizes.take(k)).allocate_result(
                    sizes[k],
                ) == Ok::<ArenaHandle, ArenaError>(
                    self.allocate_all(sizes).live[self.live.len() + k],
                ),
            forall|k: int|
                0 <= k < sizes.len() ==>
                    (#[trigger] self.allocate_all(sizes).live[self.live.len() + k]).len == sizes[k],
            forall|i: int, j: int|
                0 <= i < j < self.allocate_all(sizes).live.len() ==> (#[trigger] self.allocate_all(
                    sizes,
                ).live[i]).disjoint(#[trigger] self.allocate_all(sizes).live[j]),
        decreases sizes.len(),
    {
        let last_state = self.allocate_all(sizes);
        if sizes.len() > 0 {
            let front = sizes.drop_last();
            let before = self.allocate_all(front);
            self.lemma_allocate_all_fits(front);
            before.lemma_allocate_wf(sizes.last());
            assert(before.fits(sizes.last() as nat));
            assert forall|k: int| 0 <= k < sizes.len() implies #[trigger] self.allocate_all(
                sizes.take(k),
            ).allocate_result(sizes[k]) == Ok::<ArenaHandle, ArenaError>(
                last_state.live[self.live.len() + k],
            ) by {
                if k < sizes.len() - 1 {
                    assert(sizes.take(k) =~= front.take(k));
                    assert(front[k] == sizes[k]);
                    assert(last_state.live[self.live.len() + k] == before.live[self.live.len() + k]);
                } else {
                    assert(sizes.take(k) =~= front);
                }
            }
            assert forall|k: int| 0 <= k < sizes.len() implies
                (#[trigger] last_state.live[self.live.len() + k]).len == sizes[k] by {
                if k < sizes.len() - 1 {
                    assert(front[k] == sizes[k]);
                    assert(last_state.live[self.live.len() + k] == before.live[self.live.len() + k]);
                }
            }
        }
        last_state.lemma_live_disjoint();
    }

    /// After a reset nothing is in use, and a request for the whole capacity
    /// succeeds and fills the region.
    pub proof fn lemma_reset_frees_all(self)
        requires
            self.wf(),
        ensures
            self.reset().wf(),
            self.reset().used() == 0,
            self.reset().allocate_result(self.capacity as usize) == Ok::<ArenaHandle, ArenaError>(
                ArenaHandle { offset: 0, len: self.capacity as usize },
            ),
            self.reset().allocate(self.capacity as usize).used() == self.capacity,
    {
    }
}

/// A bump arena: one region of fixed capacity, a watermark, and no way to
/// release a single sub-range.
pub struct ModelArena {
    region: Vec<u8>,
    capacity: usize,
    offset: usize,
    live: Ghost<Seq<ArenaHandle>>,
}

impl View for ModelArena {
    type V = ArenaState;

    closed spec fn view(&self) -> ArenaState {
        ArenaState { capacity: self.capacity as nat, bytes: self.region@, live: self.live@ }
    }
}

/// The region size in bytes for a capacity in megabytes, where that size is
/// one that a region can have.
pub fn region_bytes(capacity_mb: usize) -> (res: Option<usize>)
    ensures
        res == (if capacity_mb * BYTES_PER_MB <= max_region_bytes() {
            Some((capacity_mb * BYTES_PER_MB) as usize)
        } else {
            None
        }),
{
    let limit: usize = (usize::MAX / 2 - (REGION_ALIGN - 1)) / BYTES_PER_MB;
    if capacity_mb <= limit {
        Some(capacity_mb * BYTES_PER_MB)
    } else {
        None
    }
}

/// An empty region with room for `bytes` bytes, asked of the allocator at
/// once; `None` where the allocator refuses. A region of no bytes needs no
/// room, so it is always had, without asking.
fn reserve_region(bytes: usize) -> (res: Option<Vec<u8>>)
    ensures
        bytes == 0 ==> res is Some,
        res is Some ==> res->0@ == Seq::<u8>::empty(),
{
    let mut region: Vec<u8> = Vec::new();
    if bytes == 0 {
        return Some(region);
    }
    let reserved = region.try_reserve(bytes);
    if reserved.is_ok() {
        Some(region)
    } else {
        None
    }
}

impl ModelArena {
    /// The arena's invariant: the watermark is the length of what is in use,
    /// and the state is well formed.
    pub closed spec fn wf(&self) -> bool {
        &&& self.offset == self.region@.len()
        &&& self@.wf()
    }

    /// A valid arena's state is well formed.
    pub proof fn lemma_wf_state(&self)
        requires
            self.wf(),
        ensures
            self@.wf(),
    {
    }

    /// Makes an arena of `capacity_mb` megabytes, reserving the whole region
    /// at once.
    ///
    /// Fails with `AllocationFailed` where the size in bytes is not one a
    /// region can have, or where the allocator refuses the reservation; the
    /// latter is not known before the call. An arena of no bytes reserves
    /// nothing and is always made.
    pub fn new(capacity_mb: usize) -> (res: Result<Self, ArenaError>)
        ensures
            capacity_mb == 0 ==> res is Ok,
            capacity_mb * BYTES_PER_MB > max_region_bytes() ==> res is Err,
            res is Err ==> res->Err_0 == ArenaError::AllocationFailed,
            res is Ok ==> res->Ok_0.wf() && res->Ok_0@ == ArenaState::fresh(
                (capacity_mb * BYTES_PER_MB) as nat,
            ),
    {
        match region_bytes(capacity_mb) {
            Some(bytes) => Self::with_region(bytes, reserve_region(bytes)),
            None => Err(ArenaError::AllocationFailed),
        }
    }

    /// Makes an arena of `capacity_bytes` bytes over a region that was
    /// reserved for it, given as `None` where the reservation failed.
    ///
    /// Succeeds exactly where there is a region and the capacity is one a
    /// region can have. Whatever the region held is dropped: the arena starts
    /// with nothing in use.
    pub fn with_region(capacity_bytes: usize, region: Option<Vec<u8>>) -> (res: Result<
        Self,
        ArenaError,
    >)
        ensures
            region is Some && capacity_bytes <= max_region_bytes() ==> res is Ok && res->Ok_0.wf()
                && res->Ok_0@ == ArenaState::fresh(capacity_bytes as nat),
            region is None || capacity_bytes > max_region_bytes() ==> res == Err::<Self, ArenaError>(
                ArenaError::AllocationFailed,
            ),
    {
        if capacity_bytes > usize::MAX / 2 - (REGION_ALIGN - 1) {
            return Err(ArenaError::AllocationFailed);
        }
        match region {
            Some(mut region) => {
                region.clear();
                let arena = ModelArena {
                    region,
                    capacity: capacity_bytes,
                    offset: 0,
                    live: Ghost(Seq::empty()),
                };
                Ok(arena)
            },
            None => Err(ArenaError::AllocationFailed),
        }
    }

    /// Hands out the next `size` bytes of the region, zero-filled.
    ///
    /// Where `size` exceeds what is left, fails with `OutOfMemory` and changes
    /// nothing. Otherwise returns the sub-range that begins at the watermark,
    /// and the watermark moves up by `size`.
    pub fn allocate(&mut self, size: usize) -> (res: Result<ArenaHandle, ArenaError>)
        requires
            old(self).wf(),
        ensures
            final(self).wf(),
            res == old(self)@.allocate_result(size),
            final(self)@ == old(self)@.allocate(size),
            size > old(self)@.available() ==> *final(self) == *old(self) && res == Err::<
                ArenaHandle,
                ArenaError,
            >(
                ArenaError::OutOfMemory {
                    requested: size,
                    available: old(self)@.available() as usize,
                },
            ),
            size <= old(self)@.available() ==> res == Ok::<ArenaHandle, ArenaError>(
                ArenaHandle { offset: old(self)@.used() as usize, len: size },
            ) && final(self)@.used() == old(self)@.used() + size,
    {
        let available: usize = self.capacity - self.offset;
        if size > available {
            return Err(ArenaError::OutOfMemory { requested: size, available });
        }
        let ghost before = self@;
        let handle = ArenaHandle { offset: self.offset, len: size };
        let mut filled: usize = 0;
        while filled < size
            invariant
                filled <= size,
                self.capacity == before.capacity,
                self.offset == before.used(),
                self.live@ == before.live,
                before.used() + size <= before.capacity,
                self.region@ == before.bytes + zeros(filled as nat),
            decreases size - filled,
        {
            self.region.push(0u8);
            filled += 1;
            assert(self.region@ =~= before.bytes + zeros(filled as nat));
        }
        self.offset += size;
        self.live = Ghost(self.live@.push(handle));
        proof {
            before.lemma_allocate_wf(size);
        }
        Ok(handle)
    }

    /// The byte at place `index` of the sub-range `handle`, or `None` where
    /// that place is not a byte below the watermark.
    pub fn read(&self, handle: ArenaHandle, index: usize) -> (res: Option<u8>)
        requires
            self.wf(),
        ensures
            res == (if self@.holds(handle, index) {
                Some(self@.bytes[handle.offset + index])
            } else {
                None
            }),
    {
        if handle.offset > self.offset || handle.len > self.offset - handle.offset || index
            >= handle.len {
            None
        } else {
            Some(self.region[handle.offset + index])
        }
    }

    /// Stores `value` at place `index` of the sub-range `handle`. Returns
    /// whether that place is a byte below the watermark; where it is not,
    /// nothing changes.
    pub fn write(&mut self, handle: ArenaHandle, index: usize, value: u8) -> (written: bool)
        requires
            old(self).wf(),
        ensures
            final(self).wf(),
            written == old(self)@.holds(handle, index),
            final(self)@ == old(self)@.write(handle, index, value),
    {
        if handle.offset > self.offset || handle.len > self.offset - handle.offset || index
            >= handle.len {
            false
        } else {
            proof {
                self@.lemma_write_wf(handle, index, value);
            }
            self.region.set(handle.offset + index, value);
            true
        }
    }

    /// Releases every sub-range at once: the watermark goes back to zero. The
    /// region itself is kept, and nothing in it is cleared.
    pub fn reset(&mut self)
        requires
            old(self).wf(),
        ensures
            final(self).wf(),
            final(self)@ == old(self)@.reset(),
            final(self)@.used() == 0,
    {
        self.region.clear();
        self.offset = 0;
        self.live = Ghost(Seq::empty());
    }

    /// The watermark: how many bytes are in use.
    pub fn used_bytes(&self) -> (used: usize)
        requires
            self.wf(),
        ensures
            used == self@.used(),
    {
        self.offset
    }

    /// The size of the region in bytes.
    pub fn capacity(&self) -> (capacity: usize)
        ensures
            capacity == self@.capacity,
    {
        self.capacity
    }
}

} // verus!
