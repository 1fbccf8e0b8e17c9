use vstd::prelude::*;

verus! {

/// The state of one chunk of an object.
#[derive(Clone, Copy, Debug, PartialEq, Eq, Structural)]
pub enum ChunkState {
    /// Never populated since allocation or the last reset.
    Unpopulated,
    /// Transient: a fault is being serviced for this chunk. Never observed
    /// between engine operations.
    Populating,
    /// Backed by resident cells.
    Resident,
    /// Evicted without writeback; the contents are the population values and
    /// are recomputed on the next fault.
    EvictedClean,
    /// Evicted with its bytes persisted in the spill table; reloaded from
    /// there on the next fault.
    EvictedDirty,
}

/// Per-chunk descriptor. The element range a chunk covers is derived from its
/// index within the object, so only state and bookkeeping live here.
#[derive(Clone, Copy, Debug)]
pub struct Chunk {
    /// Position in the chunk state machine.
    pub state: ChunkState,
    /// Whether any element of this chunk was written since allocation or the
    /// last reset. A chunk that was never written may always be evicted
    /// cleanly, because its contents are still the population values.
    pub written: bool,
    /// Tick of the most recent population of this chunk, for the
    /// least-recently-populated eviction policy.
    pub last_pop: u64,
}

impl Chunk {
    /// A fresh descriptor, as built at allocation and by reset.
    pub fn fresh() -> (r: Chunk)
        ensures
            r.state == ChunkState::Unpopulated,
            !r.written,
            r.last_pop == 0,
    {
        Chunk { state: ChunkState::Unpopulated, written: false, last_pop: 0 }
    }
}

/// The chunk state machine: which single transitions the engine may perform.
/// Population moves a chunk through `Populating` to `Resident`; the eviction
/// sweep moves a resident chunk to one of the evicted states; reset returns
/// any chunk to `Unpopulated`.
pub open spec fn chunk_step(pre: ChunkState, post: ChunkState) -> bool {
    ||| pre == post
    ||| (pre == ChunkState::Unpopulated && post == ChunkState::Populating)
    ||| (pre == ChunkState::EvictedClean && post == ChunkState::Populating)
    ||| (pre == ChunkState::EvictedDirty && post == ChunkState::Populating)
    ||| (pre == ChunkState::Populating && post == ChunkState::Resident)
    ||| (pre == ChunkState::Resident && post == ChunkState::EvictedClean)
    ||| (pre == ChunkState::Resident && post == ChunkState::EvictedDirty)
    ||| (post == ChunkState::Unpopulated)
}

} // verus!
