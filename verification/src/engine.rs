use vstd::prelude::*;

use crate::chunk::{Chunk, ChunkState};
use crate::config::UfoCoreConfig;
use crate::errors::{UfoAllocateErr, UfoInternalErr};
use crate::fault::FaultChannel;
use crate::handle::UfoHandle;
use crate::object::{lemma_resident_bytes_fits, spec_num_chunks, UfoObject};
use crate::populate::Populate;
use crate::seq_sum::{lemma_sum_entry_bound, lemma_sum_uniform_bound, lemma_sum_update, sum_of};
use crate::store::WritebackStore;
use crate::waiter::WaiterToken;

verus! {

/// Elements loaded per fault when the caller does not ask for a minimum.
pub const DEFAULT_MIN_LOAD_CT: usize = 4096;

/// Construction parameters for one lazy object.
pub struct UfoObjectParams<P: Populate> {
    /// Bytes reserved ahead of the body for caller metadata.
    pub header_size: usize,
    /// Bytes per element; must be positive.
    pub stride: usize,
    /// Minimum number of elements populated per fault; must be positive when
    /// given.
    pub min_load_ct: Option<usize>,
    /// Disallows writes; the object never enters the spill table.
    pub read_only: bool,
    /// Total element count.
    pub element_ct: usize,
    /// The population function.
    pub populate: P,
    /// Whether writebacks are reported to the event observer.
    pub writeback_listener: bool,
}

/// A diagnostic lifecycle event.
#[derive(Clone, Copy, Debug, PartialEq, Eq, Structural)]
pub enum UfoEvent {
    /// An object was allocated.
    AllocateEvent { ufo_id: usize },
    /// A chunk was populated or reloaded.
    PopulateEvent { ufo_id: usize, chunk: usize },
    /// A chunk was evicted without writeback.
    EvictEvent { ufo_id: usize, chunk: usize },
    /// A modified chunk was persisted to the spill area and evicted.
    WritebackEvent { ufo_id: usize, chunk: usize },
    /// An object was reset.
    ResetEvent { ufo_id: usize },
    /// An object was freed.
    FreeEvent { ufo_id: usize },
    /// The core shut down.
    ShutdownEvent,
}

/// The process-wide lifecycle observer: a sink the engine appends events to.
/// Replacing it does not block in-flight work; events around a replacement
/// may land in either sink.
pub struct UfoEventSink {
    /// Events observed so far, oldest first.
    pub events: Vec<UfoEvent>,
}

impl UfoEventSink {
    /// An empty sink.
    pub fn new() -> (r: UfoEventSink)
        ensures
            r.events@.len() == 0,
    {
        UfoEventSink { events: Vec::new() }
    }
}

/// A queued lifecycle task for the background worker.
#[derive(Clone, Copy, Debug)]
pub enum UfoTask {
    /// Discard all state of the object and return it to `Unpopulated`.
    ResetTask { ufo_id: usize },
    /// Remove the object entirely.
    FreeTask { ufo_id: usize },
}

/// The core engine: owns the fault channel, the object table, the spill
/// table and the worker's task queue, and keeps total resident bytes inside
/// the configured watermarks.
///
/// The worker is rendered synchronously: lifecycle operations queue their
/// task and drive the worker through it before handing back an
/// already-completed waiter, and eviction sweeps run as an explicit step at
/// the end of the fault path. The chunk state machine, the watermark
/// accounting and the task/waiter protocol are exactly those a threaded
/// embedding would run concurrently.
pub struct UfoCore<P: Populate> {
    /// Watermarks and spill path.
    pub config: UfoCoreConfig,
    /// Reservations and backing cells.
    pub chan: FaultChannel,
    /// Persisted written-back chunks.
    pub store: WritebackStore,
    /// The object table; a freed slot holds `None` and is never reused.
    pub objects: Vec<Option<UfoObject<P>>>,
    /// Population counter driving the least-recently-populated policy.
    pub tick: u64,
    /// The worker's queue of pending lifecycle tasks.
    pub tasks: Vec<UfoTask>,
    /// The current lifecycle observer, if any.
    pub sink: Option<UfoEventSink>,
    /// Whether the core has shut down.
    pub is_shutdown: bool,
}

/// The larger of two naturals.
pub open spec fn nat_max(a: nat, b: nat) -> nat {
    if a >= b {
        a
    } else {
        b
    }
}

impl<P: Populate> UfoCore<P> {
    /// Whether slot `id` holds a live object.
    pub open spec fn live(self, id: int) -> bool {
        0 <= id < self.objects@.len() && self.objects@[id] is Some
    }

    /// The object in slot `id`.
    pub open spec fn obj(self, id: int) -> UfoObject<P> {
        self.objects@[id].unwrap()
    }

    /// Resident bytes contributed by slot `id`.
    pub open spec fn slot_weight(self, id: int) -> nat {
        if self.objects@[id] is Some {
            self.obj(id).resident_bytes()
        } else {
            0
        }
    }

    /// The per-slot resident weights, in table order.
    pub open spec fn slot_weights(self) -> Seq<nat> {
        Seq::new(self.objects@.len(), |id: int| self.slot_weight(id))
    }

    /// Total resident bytes across all live objects.
    pub open spec fn resident_bytes(self) -> nat {
        sum_of(self.slot_weights())
    }

    /// The invariant of slot `id`: a live object satisfies the object
    /// invariant against its region and its spill row; a freed slot has no
    /// backing and no spill data left.
    pub open spec fn slot_ok(self, id: int) -> bool {
        match self.objects@[id] {
            Some(o) => o.inv(self.chan.region_cells(id), self.store.row(id)),
            None => {
                &&& (forall|i: int|
                    0 <= i < self.chan.region_cells(id).len() ==> self.chan.region_cells(id)[i]
                        is None)
                &&& (forall|k: int|
                    0 <= k < self.store.row(id).len() ==> self.store.row(id)[k] is None)
            },
        }
    }

    /// The engine invariant.
    pub open spec fn inv(self) -> bool {
        &&& self.config.wf()
        &&& self.objects@.len() == self.chan.regions@.len()
        &&& self.objects@.len() == self.store.rows@.len()
        &&& (forall|id: int| 0 <= id < self.objects@.len() ==> self.slot_ok(id))
        &&& (self.is_shutdown ==> forall|id: int| !self.live(id))
    }

    /// The table keeps its shape across an operation: the same slots, the
    /// same liveness, and for each live object the same identity — geometry,
    /// population function and access mode. Contents may change.
    pub open spec fn same_shape(self, post: UfoCore<P>) -> bool {
        &&& post.objects@.len() == self.objects@.len()
        &&& post.config == self.config
        &&& (forall|id: int| self.live(id) <==> post.live(id))
        &&& (forall|id: int|
            self.live(id) ==> {
                &&& post.obj(id).element_ct == self.obj(id).element_ct
                &&& post.obj(id).stride == self.obj(id).stride
                &&& post.obj(id).chunk_elems == self.obj(id).chunk_elems
                &&& post.obj(id).header_size == self.obj(id).header_size
                &&& post.obj(id).read_only == self.obj(id).read_only
                &&& post.obj(id).populate == self.obj(id).populate
            })
    }

    /// Every live object's logical contents are unchanged.
    pub open spec fn same_contents(self, post: UfoCore<P>) -> bool {
        forall|id: int| self.live(id) ==> post.obj(id).contents@ == self.obj(id).contents@
    }

    /// Builds a core from a configuration. Returns the invalid-watermarks
    /// error — creating nothing — exactly when `low_watermark` does not lie
    /// strictly below `high_watermark`.
    pub fn new_ufo_core(config: UfoCoreConfig) -> (r: Result<UfoCore<P>, UfoAllocateErr>)
        ensures
            match r {
                Ok(core) => {
                    &&& config.wf()
                    &&& core.inv()
                    &&& core.config == config
                    &&& core.objects@.len() == 0
                    &&& !core.is_shutdown
                    &&& core.resident_bytes() == 0
                    &&& core.tasks@.len() == 0
                },
                Err(e) => !config.wf() && e == UfoAllocateErr::InvalidWatermarks,
            },
    {
        if !config.is_valid() {
            return Err(UfoAllocateErr::InvalidWatermarks);
        }
        let store = WritebackStore::new(config.writeback_temp_path.clone());
        let core = UfoCore {
            config,
            chan: FaultChannel::new(),
            store,
            objects: Vec::new(),
            tick: 0,
            tasks: Vec::new(),
            sink: None,
            is_shutdown: false,
        };
        Ok(core)
    }

    /// Appends a diagnostic event to the current observer, if one is
    /// registered. Touches nothing but the observer.
    fn note_event(&mut self, e: UfoEvent)
        ensures
            final(self).config == old(self).config,
            final(self).chan == old(self).chan,
            final(self).store == old(self).store,
            final(self).objects == old(self).objects,
            final(self).tick == old(self).tick,
            final(self).tasks == old(self).tasks,
            final(self).is_shutdown == old(self).is_shutdown,
    {
        match &mut self.sink {
            Some(s) => {
                s.events.push(e);
            },
            None => {},
        }
    }

    /// Atomically replaces the process-wide lifecycle observer. In-flight
    /// events may have been delivered to the previous observer; no stronger
    /// ordering is promised across the swap.
    pub fn new_event_callback(&mut self, callback: Option<UfoEventSink>) -> (r: Result<
        (),
        UfoInternalErr,
    >)
        ensures
            r is Ok,
            final(self).sink == callback,
            final(self).config == old(self).config,
            final(self).chan == old(self).chan,
            final(self).store == old(self).store,
            final(self).objects == old(self).objects,
            final(self).tick == old(self).tick,
            final(self).tasks == old(self).tasks,
            final(self).is_shutdown == old(self).is_shutdown,
    {
        self.sink = callback;
        Ok(())
    }

    /// Takes the current observer back out, with everything it has seen.
    pub fn take_event_sink(&mut self) -> (r: Option<UfoEventSink>)
        ensures
            r == old(self).sink,
            final(self).sink is None,
            final(self).config == old(self).config,
            final(self).chan == old(self).chan,
            final(self).store == old(self).store,
            final(self).objects == old(self).objects,
            final(self).tick == old(self).tick,
            final(self).tasks == old(self).tasks,
            final(self).is_shutdown == old(self).is_shutdown,
    {
        let mut taken: Option<UfoEventSink> = None;
        core::mem::swap(&mut taken, &mut self.sink);
        taken
    }

    /// Elements loaded per fault for these parameters: the requested
    /// minimum, or the default.
    pub open spec fn spec_min_load(params: UfoObjectParams<P>) -> int {
        match params.min_load_ct {
            Some(m) => m as int,
            None => DEFAULT_MIN_LOAD_CT as int,
        }
    }

    /// Bytes of address space an allocation of these parameters reserves:
    /// header plus body, with one chunk of slack.
    pub open spec fn spec_total_bytes(params: UfoObjectParams<P>) -> int {
        (params.element_ct + Self::spec_min_load(params)) * params.stride + params.header_size
    }

    /// Allocates a lazy object and returns its handle. Validates the
    /// parameters and reserves the virtual range; on any failure nothing is
    /// registered — the table, channel and spill area are untouched.
    pub fn new_ufo(&mut self, params: UfoObjectParams<P>) -> (r: Result<
        UfoHandle,
        UfoAllocateErr,
    >)
        requires
            old(self).inv(),
        ensures
            final(self).inv(),
            final(self).is_shutdown == old(self).is_shutdown,
            final(self).tasks == old(self).tasks,
            match r {
                Ok(h) => {
                    &&& !old(self).is_shutdown
                    &&& params.stride > 0
                    &&& params.min_load_ct != Some(0usize)
                    &&& final(self).objects@.len() == old(self).objects@.len() + 1
                    &&& (forall|q: int|
                        0 <= q < old(self).objects@.len() ==> final(self).objects@[q] == old(
                            self,
                        ).objects@[q])
                    &&& h.ufo == Some(old(self).objects@.len() as usize)
                    &&& final(self).live(old(self).objects@.len() as int)
                    &&& {
                        let o = final(self).obj(old(self).objects@.len() as int);
                        &&& o.is_pristine()
                        &&& o.element_ct == params.element_ct
                        &&& o.stride == params.stride
                        &&& o.header_size == params.header_size
                        &&& o.read_only == params.read_only
                        &&& o.writeback_listener == params.writeback_listener
                        &&& o.populate == params.populate
                        &&& o.chunk_elems == Self::spec_min_load(params)
                    }
                    &&& h.element_ct == params.element_ct
                    &&& h.stride == params.stride
                    &&& h.header_size == params.header_size
                    &&& h.body_base == h.base + params.header_size
                    &&& final(self).resident_bytes() == old(self).resident_bytes()
                },
                Err(e) => {
                    &&& *final(self) == *old(self)
                    &&& (e == UfoAllocateErr::CoreShutdown <==> old(self).is_shutdown)
                    &&& (!old(self).is_shutdown ==> {
                        if params.stride == 0 {
                            e == UfoAllocateErr::InvalidStride
                        } else if params.min_load_ct == Some(0usize) {
                            e == UfoAllocateErr::InvalidMinLoad
                        } else if Self::spec_total_bytes(params) > usize::MAX {
                            e == UfoAllocateErr::SizeOverflow
                        } else {
                            e == UfoAllocateErr::AddressSpaceExhausted && old(self).chan.next_base
                                + Self::spec_total_bytes(params) > usize::MAX
                        }
                    })
                },
            },
            r is Err <==> (old(self).is_shutdown || params.stride == 0 || params.min_load_ct
                == Some(0usize) || old(self).chan.next_base + Self::spec_total_bytes(params)
                > usize::MAX),
    {
        if self.is_shutdown {
            return Err(UfoAllocateErr::CoreShutdown);
        }
        if params.stride == 0 {
            return Err(UfoAllocateErr::InvalidStride);
        }
        let ce = match params.min_load_ct {
            Some(m) => {
                if m == 0 {
                    return Err(UfoAllocateErr::InvalidMinLoad);
                }
                m
            },
            None => DEFAULT_MIN_LOAD_CT,
        };
        let body_plus = match params.element_ct.checked_add(ce) {
            None => {
                proof {
                    assert(Self::spec_total_bytes(params) >= params.element_ct + ce)
                        by (nonlinear_arith)
                        requires
                            params.stride >= 1,
                            Self::spec_total_bytes(params) == (params.element_ct + ce)
                                * params.stride + params.header_size,
                            params.element_ct + ce >= 0,
                    ;
                }
                return Err(UfoAllocateErr::SizeOverflow);
            },
            Some(x) => x,
        };
        let body_bytes = match body_plus.checked_mul(params.stride) {
            None => {
                return Err(UfoAllocateErr::SizeOverflow);
            },
            Some(x) => x,
        };
        let total = match body_bytes.checked_add(params.header_size) {
            None => {
                return Err(UfoAllocateErr::SizeOverflow);
            },
            Some(x) => x,
        };
        let nc = crate::object::chunk_count(params.element_ct, ce);
        let id = self.objects.len();
        let base = self.chan.next_base;
        let reserved = self.chan.reserve(params.element_ct, total);
        match reserved {
            Err(()) => {
                return Err(UfoAllocateErr::AddressSpaceExhausted);
            },
            Ok(_) => {},
        };
        self.store.add_object(nc);
        let chunks = crate::object::fresh_chunks(nc);
        let ghost initial = Seq::new(
            params.element_ct as nat,
            |i: int| params.populate.spec_value(i),
        );
        let obj = UfoObject {
            header_size: params.header_size,
            stride: params.stride,
            chunk_elems: ce,
            read_only: params.read_only,
            writeback_listener: params.writeback_listener,
            element_ct: params.element_ct,
            populate: params.populate,
            chunks,
            contents: Ghost(initial),
        };
        self.objects.push(Some(obj));
        self.note_event(UfoEvent::AllocateEvent { ufo_id: id });
        proof {
            let idd = id as int;
            assert forall|k: int| 0 <= k < self.obj(idd).chunks@.len() implies self.obj(
                idd,
            ).chunk_ok(k, self.chan.region_cells(idd), self.store.row(idd)) by {
                crate::object::lemma_chunk_nonempty(params.element_ct as int, ce as int, k);
            }
            assert forall|q: int| 0 <= q < self.objects@.len() implies self.slot_ok(q) by {
                if q < idd {
                    assert(old(self).slot_ok(q));
                    assert(self.chan.regions@[q] == old(self).chan.regions@[q]);
                    assert(self.store.rows@[q] == old(self).store.rows@[q]);
                }
            }
            assert forall|k: int| 0 <= k < self.obj(idd).chunks@.len() implies self.obj(
                idd,
            ).resident_weights()[k] == 0 by {}
            lemma_sum_uniform_bound(self.obj(idd).resident_weights(), 0);
            assert(self.slot_weights().drop_last() =~= old(self).slot_weights());
            assert(self.resident_bytes() == old(self).resident_bytes());
        }
        Ok(
            UfoHandle {
                ufo: Some(id),
                base,
                body_base: base + params.header_size,
                header_size: params.header_size,
                stride: params.stride,
                element_ct: params.element_ct,
            },
        )
    }

    /// Evicts one resident chunk: a never-written chunk (and any chunk of a
    /// read-only object) is dropped cleanly, a written chunk is persisted to
    /// the spill area first; either way its backing is removed.
    fn evict_one(&mut self, vo: usize, vk: usize) -> (w: usize)
        requires
            old(self).inv(),
            old(self).live(vo as int),
            vk < old(self).obj(vo as int).chunks@.len(),
            old(self).obj(vo as int).chunks@[vk as int].state == ChunkState::Resident,
        ensures
            final(self).inv(),
            old(self).same_shape(*final(self)),
            old(self).same_contents(*final(self)),
            final(self).is_shutdown == old(self).is_shutdown,
            final(self).tasks == old(self).tasks,
            final(self).tick == old(self).tick,
            forall|oo: int|
                old(self).live(oo) ==> final(self).obj(oo).chunks@.len() == old(self).obj(
                    oo,
                ).chunks@.len(),
            forall|oo: int, kk: int|
                old(self).live(oo) && 0 <= kk < old(self).obj(oo).chunks@.len() && !(oo == vo && kk
                    == vk) ==> final(self).obj(oo).chunks@[kk] == old(self).obj(oo).chunks@[kk],
            final(self).obj(vo as int).chunks@[vk as int].state != ChunkState::Resident,
            crate::chunk::chunk_step(
                old(self).obj(vo as int).chunks@[vk as int].state,
                final(self).obj(vo as int).chunks@[vk as int].state,
            ),
            final(self).resident_bytes() + old(self).obj(vo as int).chunk_weight(vk as int) == old(
                self,
            ).resident_bytes(),
            old(self).obj(vo as int).chunk_weight(vk as int) > 0,
            w == old(self).obj(vo as int).chunk_weight(vk as int),
    {
        proof {
            assert(old(self).slot_ok(vo as int));
        }
        let mut slot = self.objects.remove(vo);
        let mut o = slot.unwrap();
        let (lo, hi) = o.chunk_range(vk);
        let c = o.chunks[vk];
        proof {
            assert(o.chunk_ok(vk as int, old(self).chan.region_cells(vo as int), old(self).store.row(vo as int)));
            assert((hi - lo) * o.stride >= 1) by (nonlinear_arith)
                requires
                    hi - lo >= 1,
                    o.stride >= 1,
            ;
            assert((hi - lo) * o.stride <= (o.element_ct + o.chunk_elems) * o.stride)
                by (nonlinear_arith)
                requires
                    o.stride > 0,
                    0 <= hi - lo <= o.element_ct + o.chunk_elems,
            ;
        }
        let wbytes = (hi - lo) * o.stride;
        let dirty = c.written && !o.read_only;
        if dirty {
            let mut vals: Vec<u64> = Vec::new();
            let mut j: usize = lo;
            while j < hi
                invariant
                    lo <= j <= hi,
                    vals@.len() == j - lo,
                    vo < self.chan.regions@.len(),
                    hi <= self.chan.region_cells(vo as int).len(),
                    forall|i: int|
                        lo <= i < hi ==> self.chan.region_cells(vo as int)[i] == Some(
                            o.contents@[i],
                        ),
                    forall|q: int| 0 <= q < hi - lo && q < j - lo ==> vals@[q] == o.contents@[lo + q],
                decreases hi - j,
            {
                let v = self.chan.read_cell(vo, j);
                vals.push(v);
                j += 1;
            }
            self.store.put(vo, vk, vals);
            if o.writeback_listener {
                self.note_event(UfoEvent::WritebackEvent { ufo_id: vo, chunk: vk });
            } else {
                self.note_event(UfoEvent::EvictEvent { ufo_id: vo, chunk: vk });
            }
            o.chunks.set(
                vk,
                Chunk { state: ChunkState::EvictedDirty, written: c.written, last_pop: c.last_pop },
            );
        } else {
            self.note_event(UfoEvent::EvictEvent { ufo_id: vo, chunk: vk });
            o.chunks.set(
                vk,
                Chunk { state: ChunkState::EvictedClean, written: c.written, last_pop: c.last_pop },
            );
        }
        self.chan.unmap(vo, lo, hi - lo);
        self.objects.insert(vo, Some(o));
        proof {
            let voo = vo as int;
            let pre = *old(self);
            assert(self.objects@ =~= pre.objects@.update(voo, self.objects@[voo]));
            let oldo = pre.obj(voo);
            let newo = self.obj(voo);
            assert forall|kk: int| 0 <= kk < newo.chunks@.len() implies newo.chunk_ok(
                kk,
                self.chan.region_cells(voo),
                self.store.row(voo),
            ) by {
                crate::object::lemma_chunk_nonempty(
                    newo.element_ct as int,
                    newo.chunk_elems as int,
                    kk,
                );
                assert(oldo.chunk_ok(kk, pre.chan.region_cells(voo), pre.store.row(voo)));
                if kk != vk {
                    if kk < vk as int {
                        crate::object::lemma_chunks_disjoint(newo.chunk_elems as int, kk, vk as int);
                    } else {
                        crate::object::lemma_chunks_disjoint(newo.chunk_elems as int, vk as int, kk);
                    }
                }
            }
            assert forall|q: int| 0 <= q < self.objects@.len() implies self.slot_ok(q) by {
                assert(pre.slot_ok(q));
                if q != voo {
                    assert(self.chan.regions@[q] == pre.chan.regions@[q]);
                    assert(self.store.rows@[q] == pre.store.rows@[q]);
                    assert(self.objects@[q] == pre.objects@[q]);
                }
            }
            crate::object::lemma_resident_bytes_update(oldo, newo, vk as int);
            assert forall|q: int|
                0 <= q < pre.objects@.len() && q != voo implies self.slot_weight(q)
                == pre.slot_weight(q) by {
                assert(self.objects@[q] == pre.objects@[q]);
            }
            lemma_slot_weights_update(pre, *self, voo);
        }
        wbytes
    }

    /// The byte capacity of one full chunk of the object in slot `id`: the
    /// most one fault can make resident at once.
    pub open spec fn chunk_capacity(self, id: int) -> nat {
        (self.obj(id).chunk_elems * self.obj(id).stride) as nat
    }

    /// The resident-byte bound an operation that touched slot `id` leaves
    /// behind: what was already there, or the high watermark, or — when a
    /// sweep had to run — the low watermark plus the chunk just serviced.
    pub open spec fn resident_bound(self, id: int) -> nat {
        nat_max(
            self.resident_bytes(),
            nat_max(
                self.config.high_watermark as nat,
                self.config.low_watermark as nat + self.chunk_capacity(id),
            ),
        )
    }

    /// Whether a fault on element `i` of the live object in slot `id` can
    /// be serviced: its chunk is already resident, or reloads from the
    /// spill table, or the population function succeeds on the whole chunk.
    pub open spec fn can_service(self, id: int, i: int) -> bool {
        let o = self.obj(id);
        let k = o.chunk_of(i);
        ||| o.chunks@[k].state == ChunkState::Resident
        ||| o.chunks@[k].state == ChunkState::EvictedDirty
        ||| o.range_ok(o.chunk_lo(k), o.chunk_hi(k))
    }

    /// Services a fault on element `i` of the object in slot `id`: locates
    /// the containing chunk and, unless it is already resident, populates or
    /// reloads it, installs the backing, and — if total resident bytes now
    /// exceed the high watermark — runs an eviction sweep that spares the
    /// chunk just serviced. A failing population function leaves the engine
    /// exactly as it was and surfaces the failure.
    fn fault_service(&mut self, id: usize, i: usize) -> (r: Result<usize, ()>)
        requires
            old(self).inv(),
            old(self).live(id as int),
            !old(self).is_shutdown,
            i < old(self).obj(id as int).element_ct,
        ensures
            final(self).inv(),
            old(self).same_shape(*final(self)),
            old(self).same_contents(*final(self)),
            final(self).is_shutdown == old(self).is_shutdown,
            final(self).tasks == old(self).tasks,
            r is Ok <==> old(self).can_service(id as int, i as int),
            r matches Ok(k) ==> {
                &&& k == old(self).obj(id as int).chunk_of(i as int)
                &&& k < final(self).obj(id as int).chunks@.len()
                &&& final(self).obj(id as int).chunks@[k as int].state == ChunkState::Resident
                &&& (crate::chunk::chunk_step(
                    old(self).obj(id as int).chunks@[k as int].state,
                    ChunkState::Populating,
                ) || old(self).obj(id as int).chunks@[k as int].state == ChunkState::Resident)
                &&& crate::chunk::chunk_step(ChunkState::Populating, ChunkState::Resident)
                &&& final(self).obj(id as int).chunk_lo(k as int) <= i < final(self).obj(
                    id as int,
                ).chunk_hi(k as int)
                &&& final(self).resident_bytes() <= old(self).resident_bound(id as int)
            },
            r is Err ==> final(self).resident_bytes() == old(self).resident_bytes(),
    {
        proof {
            assert(old(self).slot_ok(id as int));
        }
        let mut slot = self.objects.remove(id);
        let mut o = slot.unwrap();
        let k = o.find_chunk(i);
        let (lo, hi) = o.chunk_range(k);
        let c = o.chunks[k];
        proof {
            assert(o.chunk_ok(k as int, old(self).chan.region_cells(id as int), old(self).store.row(id as int)));
        }
        if matches!(c.state, ChunkState::Resident) {
            self.objects.insert(id, Some(o));
            proof {
                assert(self.objects@ =~= old(self).objects@.update(
                    id as int,
                    self.objects@[id as int],
                ));
                assert(self.objects@ =~= old(self).objects@);
                assert forall|q: int| 0 <= q < self.objects@.len() implies self.slot_ok(q) by {
                    assert(old(self).slot_ok(q));
                    assert(self.objects@[q] == old(self).objects@[q]);
                }
                assert(self.slot_weights() =~= old(self).slot_weights());
            }
            return Ok(k);
        }
        o.chunks.set(
            k,
            Chunk { state: ChunkState::Populating, written: c.written, last_pop: c.last_pop },
        );
        let vals: Vec<u64>;
        if matches!(c.state, ChunkState::EvictedDirty) {
            vals = self.store.take(id, k);
        } else {
            match o.populate_range(lo, hi) {
                Ok(v) => {
                    vals = v;
                },
                Err(()) => {
                    // The access cannot be serviced; put the chunk back as
                    // it was and report the failure for this fault alone.
                    o.chunks.set(k, c);
                    self.objects.insert(id, Some(o));
                    proof {
                        let idd = id as int;
                        let pre = *old(self);
                        assert(self.obj(idd).chunks@ =~= pre.obj(idd).chunks@);
                        assert(self.objects@ =~= pre.objects@.update(idd, self.objects@[idd]));
                        let oldo = pre.obj(idd);
                        let newo = self.obj(idd);
                        assert forall|kk: int| 0 <= kk < newo.chunks@.len() implies newo.chunk_ok(
                            kk,
                            self.chan.region_cells(idd),
                            self.store.row(idd),
                        ) by {
                            assert(oldo.chunk_ok(kk, pre.chan.region_cells(idd), pre.store.row(idd)));
                            assert(newo.chunks@[kk] == oldo.chunks@[kk]);
                        }
                        assert forall|q: int| 0 <= q < self.objects@.len() implies self.slot_ok(
                            q,
                        ) by {
                            assert(pre.slot_ok(q));
                            if q != idd {
                                assert(self.objects@[q] == pre.objects@[q]);
                            }
                        }
                        assert(newo.resident_weights() =~= oldo.resident_weights());
                        assert forall|q: int|
                            0 <= q < pre.objects@.len() implies self.slot_weight(q)
                            == pre.slot_weight(q) by {
                            if q != idd {
                                assert(self.objects@[q] == pre.objects@[q]);
                            }
                        }
                        assert(self.slot_weights() =~= pre.slot_weights());
                    }
                    return Err(());
                },
            }
        }
        proof {
            assert forall|j: int| 0 <= j < hi - lo implies vals@[j] == o.contents@[lo + j] by {}
        }
        self.chan.install(id, lo, &vals);
        if self.tick < u64::MAX {
            self.tick = self.tick + 1;
        }
        let t = self.tick;
        o.chunks.set(k, Chunk { state: ChunkState::Resident, written: c.written, last_pop: t });
        self.objects.insert(id, Some(o));
        self.note_event(UfoEvent::PopulateEvent { ufo_id: id, chunk: k });
        proof {
            let idd = id as int;
            let pre = *old(self);
            assert(self.objects@ =~= pre.objects@.update(idd, self.objects@[idd]));
            let oldo = pre.obj(idd);
            let newo = self.obj(idd);
            assert forall|kk: int| 0 <= kk < newo.chunks@.len() implies newo.chunk_ok(
                kk,
                self.chan.region_cells(idd),
                self.store.row(idd),
            ) by {
                crate::object::lemma_chunk_nonempty(
                    newo.element_ct as int,
                    newo.chunk_elems as int,
                    kk,
                );
                assert(oldo.chunk_ok(kk, pre.chan.region_cells(idd), pre.store.row(idd)));
                if kk != k {
                    if kk < k as int {
                        crate::object::lemma_chunks_disjoint(newo.chunk_elems as int, kk, k as int);
                    } else {
                        crate::object::lemma_chunks_disjoint(newo.chunk_elems as int, k as int, kk);
                    }
                }
            }
            assert forall|q: int| 0 <= q < self.objects@.len() implies self.slot_ok(q) by {
                assert(pre.slot_ok(q));
                if q != idd {
                    assert(self.chan.regions@[q] == pre.chan.regions@[q]);
                    assert(self.store.rows@[q] == pre.store.rows@[q]);
                    assert(self.objects@[q] == pre.objects@[q]);
                }
            }
            crate::object::lemma_resident_bytes_update(oldo, newo, k as int);
            assert forall|q: int|
                0 <= q < pre.objects@.len() && q != idd implies self.slot_weight(q)
                == pre.slot_weight(q) by {
                assert(self.objects@[q] == pre.objects@[q]);
            }
            lemma_slot_weights_update(pre, *self, idd);
            assert((hi - lo) * newo.stride <= newo.chunk_elems * newo.stride) by (nonlinear_arith)
                requires
                    newo.stride > 0,
                    0 < hi - lo <= newo.chunk_elems,
            ;
        }
        proof {
            assert(old(self).same_shape(*self));
            assert(old(self).same_contents(*self));
        }
        let resident = self.current_resident();
        if resident > self.config.high_watermark as u128 {
            self.sweep(id, k);
            proof {
                assert(self.slot_ok(id as int));
                assert(old(self).same_shape(*self));
                assert(old(self).same_contents(*self));
            }
        }
        Ok(k)
    }

    /// Reads element `i` of the object in slot `id`, servicing the fault
    /// first when the containing chunk is not resident. The value returned
    /// is the object's logical contents at `i`: the population value, the
    /// last write, or the reloaded written-back value, whichever governs.
    pub fn read_element(&mut self, id: usize, i: usize) -> (r: Result<u64, UfoInternalErr>)
        requires
            old(self).inv(),
            old(self).live(id as int) ==> i < old(self).obj(id as int).element_ct,
        ensures
            final(self).inv(),
            old(self).same_shape(*final(self)),
            old(self).same_contents(*final(self)),
            final(self).is_shutdown == old(self).is_shutdown,
            final(self).tasks == old(self).tasks,
            r is Ok <==> (!old(self).is_shutdown && old(self).live(id as int) && old(
                self,
            ).can_service(id as int, i as int)),
            old(self).is_shutdown ==> r == Err::<u64, UfoInternalErr>(UfoInternalErr::CoreShutdown),
            !old(self).is_shutdown && !old(self).live(id as int) ==> r == Err::<u64, UfoInternalErr>(
                UfoInternalErr::UfoNotFound,
            ),
            !old(self).is_shutdown && old(self).live(id as int) && !old(self).can_service(
                id as int,
                i as int,
            ) ==> r == Err::<u64, UfoInternalErr>(UfoInternalErr::PopulateFailure),
            r matches Ok(v) ==> v == old(self).obj(id as int).contents@[i as int],
            r == Err::<u64, UfoInternalErr>(UfoInternalErr::CoreShutdown) || r == Err::<
                u64,
                UfoInternalErr,
            >(UfoInternalErr::UfoNotFound) ==> *final(self) == *old(self),
            r is Err ==> final(self).resident_bytes() == old(self).resident_bytes(),
            r is Ok ==> final(self).resident_bytes() <= old(self).resident_bound(id as int),
    {
        if self.is_shutdown {
            return Err(UfoInternalErr::CoreShutdown);
        }
        if id >= self.objects.len() {
            return Err(UfoInternalErr::UfoNotFound);
        }
        match &self.objects[id] {
            None => {
                return Err(UfoInternalErr::UfoNotFound);
            },
            Some(_) => {},
        }
        let k = match self.fault_service(id, i) {
            Err(()) => {
                return Err(UfoInternalErr::PopulateFailure);
            },
            Ok(k) => k,
        };
        proof {
            let idd = id as int;
            assert(old(self).live(idd));
            assert(self.live(idd));
            assert(self.slot_ok(idd));
            let o2 = self.obj(idd);
            assert(o2.inv(self.chan.region_cells(idd), self.store.row(idd)));
            assert(k < o2.chunks@.len());
            assert(o2.chunk_ok(k as int, self.chan.region_cells(idd), self.store.row(idd)));
            assert(o2.chunks@[k as int].state == ChunkState::Resident);
            assert(o2.chunk_lo(k as int) <= i < o2.chunk_hi(k as int));
            assert(self.chan.region_cells(idd)[i as int] == Some(o2.contents@[i as int]));
            assert(o2.contents@[i as int] == old(self).obj(idd).contents@[i as int]);
        }
        let v = self.chan.read_cell(id, i);
        Ok(v)
    }

    /// Writes `v` to element `i` of the object in slot `id`: services the
    /// fault so the chunk is resident, then updates the backing cell and
    /// marks the chunk written, so an eviction will persist it.
    pub fn write_element(&mut self, id: usize, i: usize, v: u64) -> (r: Result<(), UfoInternalErr>)
        requires
            old(self).inv(),
            old(self).live(id as int) ==> i < old(self).obj(id as int).element_ct,
        ensures
            final(self).inv(),
            old(self).same_shape(*final(self)),
            final(self).is_shutdown == old(self).is_shutdown,
            final(self).tasks == old(self).tasks,
            r is Ok <==> (!old(self).is_shutdown && old(self).live(id as int) && !old(self).obj(
                id as int,
            ).read_only && old(self).can_service(id as int, i as int)),
            old(self).is_shutdown ==> r == Err::<(), UfoInternalErr>(UfoInternalErr::CoreShutdown),
            !old(self).is_shutdown && !old(self).live(id as int) ==> r == Err::<(), UfoInternalErr>(
                UfoInternalErr::UfoNotFound,
            ),
            !old(self).is_shutdown && old(self).live(id as int) && old(self).obj(
                id as int,
            ).read_only ==> r == Err::<(), UfoInternalErr>(UfoInternalErr::ReadOnlyObject),
            !old(self).is_shutdown && old(self).live(id as int) && !old(self).obj(
                id as int,
            ).read_only && !old(self).can_service(id as int, i as int) ==> r == Err::<
                (),
                UfoInternalErr,
            >(UfoInternalErr::PopulateFailure),
            r != Err::<(), UfoInternalErr>(UfoInternalErr::PopulateFailure) && r is Err
                ==> *final(self) == *old(self),
            r is Err ==> old(self).same_contents(*final(self)),
            r is Ok ==> final(self).obj(id as int).contents@ == old(self).obj(
                id as int,
            ).contents@.update(i as int, v),
            forall|oo: int|
                old(self).live(oo) && oo != id ==> final(self).obj(oo).contents@ == old(self).obj(
                    oo,
                ).contents@,
            r is Ok ==> final(self).resident_bytes() <= old(self).resident_bound(id as int),
    {
        if self.is_shutdown {
            return Err(UfoInternalErr::CoreShutdown);
        }
        if id >= self.objects.len() {
            return Err(UfoInternalErr::UfoNotFound);
        }
        match &self.objects[id] {
            None => {
                return Err(UfoInternalErr::UfoNotFound);
            },
            Some(o) => {
                if o.read_only {
                    return Err(UfoInternalErr::ReadOnlyObject);
                }
            },
        }
        let k = match self.fault_service(id, i) {
            Err(()) => {
                return Err(UfoInternalErr::PopulateFailure);
            },
            Ok(k) => k,
        };
        let ghost mid = *self;
        proof {
            let idd = id as int;
            assert(old(self).live(idd));
            assert(mid.live(idd));
            assert(mid.slot_ok(idd));
            let o2 = mid.obj(idd);
            assert(o2.inv(mid.chan.region_cells(idd), mid.store.row(idd)));
            assert(k < o2.chunks@.len());
            assert(o2.chunk_ok(k as int, mid.chan.region_cells(idd), mid.store.row(idd)));
            assert(o2.chunks@[k as int].state == ChunkState::Resident);
            assert(o2.chunk_lo(k as int) <= i < o2.chunk_hi(k as int));
            assert(mid.chan.region_cells(idd)[i as int] == Some(o2.contents@[i as int]));
        }
        self.chan.write_cell(id, i, v);
        let mut slot = self.objects.remove(id);
        let mut o = slot.unwrap();
        let c = o.chunks[k];
        o.chunks.set(k, Chunk { state: ChunkState::Resident, written: true, last_pop: c.last_pop });
        proof {
            o.contents@ = o.contents@.update(i as int, v);
        }
        self.objects.insert(id, Some(o));
        proof {
            let idd = id as int;
            assert(self.objects@ =~= mid.objects@.update(idd, self.objects@[idd]));
            let oldo = mid.obj(idd);
            let newo = self.obj(idd);
            assert forall|kk: int| 0 <= kk < newo.chunks@.len() implies newo.chunk_ok(
                kk,
                self.chan.region_cells(idd),
                self.store.row(idd),
            ) by {
                crate::object::lemma_chunk_nonempty(
                    newo.element_ct as int,
                    newo.chunk_elems as int,
                    kk,
                );
                assert(oldo.chunk_ok(kk, mid.chan.region_cells(idd), mid.store.row(idd)));
                if kk != k {
                    if kk < k as int {
                        crate::object::lemma_chunks_disjoint(newo.chunk_elems as int, kk, k as int);
                    } else {
                        crate::object::lemma_chunks_disjoint(newo.chunk_elems as int, k as int, kk);
                    }
                }
            }
            assert forall|q: int| 0 <= q < self.objects@.len() implies self.slot_ok(q) by {
                assert(mid.slot_ok(q));
                if q != idd {
                    assert(self.chan.regions@[q] == mid.chan.regions@[q]);
                    assert(self.store.rows@[q] == mid.store.rows@[q]);
                    assert(self.objects@[q] == mid.objects@[q]);
                }
            }
            crate::object::lemma_resident_bytes_update(oldo, newo, k as int);
            assert(newo.chunk_weight(k as int) == oldo.chunk_weight(k as int));
            assert forall|q: int|
                0 <= q < mid.objects@.len() && q != idd implies self.slot_weight(q)
                == mid.slot_weight(q) by {
                assert(self.objects@[q] == mid.objects@[q]);
            }
            lemma_slot_weights_update(mid, *self, idd);
        }
        Ok(())
    }

    /// Selects the next victim chunk for eviction: a resident chunk other
    /// than the one currently being serviced. The policy is
    /// least-recently-populated — among the candidates, one with the
    /// smallest population tick is preferred.
    fn find_victim(&self, skip_o: usize, skip_k: usize) -> (r: Option<(usize, usize)>)
        requires
            self.inv(),
        ensures
            match r {
                Some(v) => {
                    &&& self.live(v.0 as int)
                    &&& v.1 < self.obj(v.0 as int).chunks@.len()
                    &&& self.obj(v.0 as int).chunks@[v.1 as int].state == ChunkState::Resident
                    &&& !(v.0 == skip_o && v.1 == skip_k)
                },
                None => forall|oo: int, kk: int|
                    #![trigger self.obj(oo).chunks@[kk]]
                    self.live(oo) && 0 <= kk < self.obj(oo).chunks@.len() && self.obj(
                        oo,
                    ).chunks@[kk].state == ChunkState::Resident ==> oo == skip_o && kk == skip_k,
            },
    {
        let n = self.objects.len();
        let mut best: Option<(usize, usize)> = None;
        let mut best_tick: u64 = 0;
        let mut oo: usize = 0;
        while oo < n
            invariant
                self.inv(),
                n == self.objects@.len(),
                oo <= n,
                match best {
                    Some(v) => {
                        &&& self.live(v.0 as int)
                        &&& v.1 < self.obj(v.0 as int).chunks@.len()
                        &&& self.obj(v.0 as int).chunks@[v.1 as int].state == ChunkState::Resident
                        &&& !(v.0 == skip_o && v.1 == skip_k)
                    },
                    None => forall|o2: int, k2: int|
                        #![trigger self.obj(o2).chunks@[k2]]
                        0 <= o2 < oo && self.live(o2) && 0 <= k2 < self.obj(o2).chunks@.len()
                            && self.obj(o2).chunks@[k2].state == ChunkState::Resident ==> o2
                            == skip_o && k2 == skip_k,
                },
            decreases n - oo,
        {
            match &self.objects[oo] {
                None => {},
                Some(o) => {
                    proof {
                        assert(Some(*o) == self.objects@[oo as int]);
                    }
                    let m = o.chunks.len();
                    let mut kk: usize = 0;
                    while kk < m
                        invariant
                            self.inv(),
                            oo < n,
                            n == self.objects@.len(),
                            Some(*o) == self.objects@[oo as int],
                            m == o.chunks@.len(),
                            kk <= m,
                            match best {
                                Some(v) => {
                                    &&& self.live(v.0 as int)
                                    &&& v.1 < self.obj(v.0 as int).chunks@.len()
                                    &&& self.obj(v.0 as int).chunks@[v.1 as int].state
                                        == ChunkState::Resident
                                    &&& !(v.0 == skip_o && v.1 == skip_k)
                                },
                                None => forall|o2: int, k2: int|
                                    #![trigger self.obj(o2).chunks@[k2]]
                                    (0 <= o2 < oo || (o2 == oo && 0 <= k2 < kk)) && self.live(o2)
                                        && 0 <= k2 < self.obj(o2).chunks@.len() && self.obj(
                                        o2,
                                    ).chunks@[k2].state == ChunkState::Resident ==> o2 == skip_o
                                        && k2 == skip_k,
                            },
                        decreases m - kk,
                    {
                        let c = o.chunks[kk];
                        if !(oo == skip_o && kk == skip_k) && matches!(
                            c.state,
                            ChunkState::Resident,
                        ) {
                            let better = match best {
                                None => true,
                                Some(_) => c.last_pop < best_tick,
                            };
                            if better {
                                best = Some((oo, kk));
                                best_tick = c.last_pop;
                            }
                        }
                        kk += 1;
                    }
                },
            }
            oo += 1;
        }
        best
    }

    /// The eviction sweep: while total resident bytes exceed the low
    /// watermark, evict victims in least-recently-populated order, skipping
    /// the chunk currently being serviced. On return either the low
    /// watermark is met or that chunk is the only resident one left.
    fn sweep(&mut self, skip_o: usize, skip_k: usize)
        requires
            old(self).inv(),
            old(self).live(skip_o as int),
            skip_k < old(self).obj(skip_o as int).chunks@.len(),
            old(self).obj(skip_o as int).chunks@[skip_k as int].state == ChunkState::Resident,
        ensures
            final(self).inv(),
            old(self).same_shape(*final(self)),
            old(self).same_contents(*final(self)),
            final(self).is_shutdown == old(self).is_shutdown,
            final(self).tasks == old(self).tasks,
            final(self).tick == old(self).tick,
            final(self).obj(skip_o as int).chunks@[skip_k as int] == old(self).obj(
                skip_o as int,
            ).chunks@[skip_k as int],
            final(self).resident_bytes() <= nat_max(
                old(self).config.low_watermark as nat,
                old(self).obj(skip_o as int).chunk_weight(skip_k as int),
            ),
    {
        let low = self.config.low_watermark;
        let mut resident = self.current_resident();
        let mut stalled = false;
        while resident > low as u128 && !stalled
            invariant
                self.inv(),
                self.config == old(self).config,
                low == old(self).config.low_watermark,
                old(self).same_shape(*self),
                old(self).same_contents(*self),
                self.is_shutdown == old(self).is_shutdown,
                self.tasks == old(self).tasks,
                self.tick == old(self).tick,
                self.live(skip_o as int),
                skip_k < self.obj(skip_o as int).chunks@.len(),
                self.obj(skip_o as int).chunks@[skip_k as int] == old(self).obj(
                    skip_o as int,
                ).chunks@[skip_k as int],
                resident == self.resident_bytes(),
                stalled ==> forall|oo: int, kk: int|
                    #![trigger self.obj(oo).chunks@[kk]]
                    self.live(oo) && 0 <= kk < self.obj(oo).chunks@.len() && self.obj(
                        oo,
                    ).chunks@[kk].state == ChunkState::Resident ==> oo == skip_o && kk == skip_k,
            decreases resident, (if stalled {
                0int
            } else {
                1int
            }),
        {
            let victim = self.find_victim(skip_o, skip_k);
            match victim {
                None => {
                    stalled = true;
                },
                Some(v) => {
                    let ghost pre = *self;
                    proof {
                        crate::object::lemma_resident_bytes_entry(pre.obj(v.0 as int), v.1 as int);
                        lemma_sum_entry_bound(pre.slot_weights(), v.0 as int);
                    }
                    let w = self.evict_one(v.0, v.1);
                    resident = resident - (w as u128);
                },
            }
        }
        proof {
            if resident > low as u128 {
                lemma_only_skip_resident(*self, skip_o as int, skip_k as int);
            }
        }
    }

    /// The worker's reset step: discards the object's writeback data,
    /// unmaps all its resident cells, rebuilds its chunk table as
    /// `Unpopulated`, and restores the logical contents to the population
    /// values.
    fn do_reset(&mut self, id: usize)
        requires
            old(self).inv(),
            old(self).live(id as int),
        ensures
            final(self).inv(),
            old(self).same_shape(*final(self)),
            final(self).is_shutdown == old(self).is_shutdown,
            final(self).tasks == old(self).tasks,
            final(self).tick == old(self).tick,
            forall|q: int|
                0 <= q < old(self).objects@.len() && q != id ==> final(self).objects@[q] == old(
                    self,
                ).objects@[q],
            final(self).obj(id as int).is_pristine(),
            forall|kk: int|
                0 <= kk < final(self).obj(id as int).chunks@.len() ==> final(self).obj(
                    id as int,
                ).chunks@[kk].state == ChunkState::Unpopulated && !final(self).obj(
                    id as int,
                ).chunks@[kk].written,
            forall|kk: int|
                0 <= kk < final(self).store.row(id as int).len() ==> final(self).store.row(
                    id as int,
                )[kk] is None,
            final(self).resident_bytes() <= old(self).resident_bytes(),
    {
        proof {
            assert(old(self).slot_ok(id as int));
        }
        let mut slot = self.objects.remove(id);
        let mut o = slot.unwrap();
        let ect = o.element_ct;
        self.chan.unmap(id, 0, ect);
        self.store.clear_object(id);
        let nc = o.chunks.len();
        o.chunks = crate::object::fresh_chunks(nc);
        proof {
            o.contents@ = o.populate_values();
        }
        self.objects.insert(id, Some(o));
        self.note_event(UfoEvent::ResetEvent { ufo_id: id });
        proof {
            let idd = id as int;
            let pre = *old(self);
            assert(self.objects@ =~= pre.objects@.update(idd, self.objects@[idd]));
            let newo = self.obj(idd);
            assert forall|kk: int| 0 <= kk < newo.chunks@.len() implies newo.chunk_ok(
                kk,
                self.chan.region_cells(idd),
                self.store.row(idd),
            ) by {
                crate::object::lemma_chunk_nonempty(
                    newo.element_ct as int,
                    newo.chunk_elems as int,
                    kk,
                );
            }
            assert forall|q: int| 0 <= q < self.objects@.len() implies self.slot_ok(q) by {
                assert(pre.slot_ok(q));
                if q != idd {
                    assert(self.chan.regions@[q] == pre.chan.regions@[q]);
                    assert(self.store.rows@[q] == pre.store.rows@[q]);
                    assert(self.objects@[q] == pre.objects@[q]);
                }
            }
            assert forall|kk: int| 0 <= kk < newo.resident_weights().len() implies newo.resident_weights()[kk]
                <= 0 by {}
            lemma_sum_uniform_bound(newo.resident_weights(), 0);
            assert forall|q: int|
                0 <= q < pre.objects@.len() && q != idd implies self.slot_weight(q)
                == pre.slot_weight(q) by {
                assert(self.objects@[q] == pre.objects@[q]);
            }
            lemma_slot_weights_update(pre, *self, idd);
        }
    }

    /// The worker's free step: unmaps all the object's cells, deletes its
    /// writeback data, and removes it from the table; its slot stays empty
    /// for good.
    fn do_free(&mut self, id: usize)
        requires
            old(self).inv(),
            old(self).live(id as int),
        ensures
            final(self).inv(),
            final(self).objects@.len() == old(self).objects@.len(),
            final(self).config == old(self).config,
            final(self).is_shutdown == old(self).is_shutdown,
            final(self).tasks == old(self).tasks,
            final(self).tick == old(self).tick,
            forall|q: int|
                0 <= q < old(self).objects@.len() && q != id ==> final(self).objects@[q] == old(
                    self,
                ).objects@[q],
            !final(self).live(id as int),
            final(self).resident_bytes() <= old(self).resident_bytes(),
    {
        proof {
            assert(old(self).slot_ok(id as int));
        }
        let mut slot = self.objects.remove(id);
        let o = slot.unwrap();
        let ect = o.element_ct;
        self.chan.unmap(id, 0, ect);
        self.store.clear_object(id);
        self.objects.insert(id, None);
        self.note_event(UfoEvent::FreeEvent { ufo_id: id });
        proof {
            let idd = id as int;
            let pre = *old(self);
            assert(self.objects@ =~= pre.objects@.update(idd, None));
            assert forall|q: int| 0 <= q < self.objects@.len() implies self.slot_ok(q) by {
                assert(pre.slot_ok(q));
                if q != idd {
                    assert(self.chan.regions@[q] == pre.chan.regions@[q]);
                    assert(self.store.rows@[q] == pre.store.rows@[q]);
                    assert(self.objects@[q] == pre.objects@[q]);
                }
            }
            assert forall|q: int|
                0 <= q < pre.objects@.len() && q != idd implies self.slot_weight(q)
                == pre.slot_weight(q) by {
                assert(self.objects@[q] == pre.objects@[q]);
            }
            lemma_slot_weights_update(pre, *self, idd);
        }
    }

    /// What a completed reset of slot `id` leaves behind: every other slot
    /// untouched; if the object was live, it is pristine again — all chunks
    /// unpopulated and unwritten, its spill row empty, its contents the
    /// population values — and total resident bytes have not grown.
    pub open spec fn reset_effect(pre: UfoCore<P>, post: UfoCore<P>, id: int) -> bool {
        &&& (forall|q: int|
            0 <= q < pre.objects@.len() && q != id ==> post.objects@[q] == pre.objects@[q])
        &&& (pre.live(id) ==> {
            &&& pre.same_shape(post)
            &&& post.obj(id).is_pristine()
            &&& (forall|kk: int|
                0 <= kk < post.obj(id).chunks@.len() ==> post.obj(id).chunks@[kk].state
                    == ChunkState::Unpopulated && !post.obj(id).chunks@[kk].written)
            &&& (forall|kk: int|
                0 <= kk < post.store.row(id).len() ==> post.store.row(id)[kk] is None)
        })
        &&& (!pre.live(id) ==> post.objects == pre.objects)
        &&& post.resident_bytes() <= pre.resident_bytes()
    }

    /// What a completed free of slot `id` leaves behind: the slot empty for
    /// good, every other slot untouched, and total resident bytes not
    /// grown.
    pub open spec fn free_effect(pre: UfoCore<P>, post: UfoCore<P>, id: int) -> bool {
        &&& (forall|q: int|
            0 <= q < pre.objects@.len() && q != id ==> post.objects@[q] == pre.objects@[q])
        &&& !post.live(id)
        &&& post.resident_bytes() <= pre.resident_bytes()
    }

    /// The worker takes the most recently queued task and performs it. A
    /// task naming an object that is gone by the time the worker reaches it
    /// is dropped without effect.
    fn work_one(&mut self)
        requires
            old(self).inv(),
            old(self).tasks@.len() > 0,
        ensures
            final(self).inv(),
            final(self).tasks@ == old(self).tasks@.drop_last(),
            final(self).is_shutdown == old(self).is_shutdown,
            final(self).config == old(self).config,
            final(self).objects@.len() == old(self).objects@.len(),
            match old(self).tasks@.last() {
                UfoTask::ResetTask { ufo_id } => Self::reset_effect(
                    *old(self),
                    *final(self),
                    ufo_id as int,
                ),
                UfoTask::FreeTask { ufo_id } => Self::free_effect(
                    *old(self),
                    *final(self),
                    ufo_id as int,
                ),
            },
    {
        let ghost pre = *old(self);
        let task = match self.tasks.pop() {
            Some(t) => t,
            None => {
                proof {
                    assert(false);
                }
                UfoTask::ResetTask { ufo_id: 0 }
            },
        };
        proof {
            lemma_inv_frame(pre, *self);
            lemma_table_frame(pre, *self);
        }
        let ghost mid = *self;
        match task {
            UfoTask::ResetTask { ufo_id } => {
                if ufo_id < self.objects.len() {
                    let live = match &self.objects[ufo_id] {
                        Some(_) => true,
                        None => false,
                    };
                    if live {
                        self.do_reset(ufo_id);
                        proof {
                            lemma_shape_trans(pre, mid, *self);
                            assert(Self::reset_effect(pre, *self, ufo_id as int));
                        }
                    }
                }
            },
            UfoTask::FreeTask { ufo_id } => {
                if ufo_id < self.objects.len() {
                    let live = match &self.objects[ufo_id] {
                        Some(_) => true,
                        None => false,
                    };
                    if live {
                        self.do_free(ufo_id);
                        proof {
                            assert(Self::free_effect(pre, *self, ufo_id as int));
                        }
                    }
                }
            },
        }
    }

    /// Queues a reset of the object in slot `id` for the background worker
    /// and returns a waiter for its completion. Once the waiter reports
    /// done, every element reads as its population value again: writes are
    /// undone and the object's writeback data is discarded.
    pub fn reset_object(&mut self, id: usize) -> (r: Result<WaiterToken, UfoInternalErr>)
        requires
            old(self).inv(),
        ensures
            final(self).inv(),
            final(self).tasks@ == old(self).tasks@,
            final(self).is_shutdown == old(self).is_shutdown,
            r is Ok <==> (!old(self).is_shutdown && old(self).live(id as int)),
            old(self).is_shutdown ==> r == Err::<WaiterToken, UfoInternalErr>(
                UfoInternalErr::CoreShutdown,
            ),
            !old(self).is_shutdown && !old(self).live(id as int) ==> r == Err::<
                WaiterToken,
                UfoInternalErr,
            >(UfoInternalErr::UfoNotFound),
            r is Err ==> *final(self) == *old(self),
            r matches Ok(t) ==> t.done && old(self).same_shape(*final(self))
                && Self::reset_effect(*old(self), *final(self), id as int),
    {
        if self.is_shutdown {
            return Err(UfoInternalErr::CoreShutdown);
        }
        if id >= self.objects.len() {
            return Err(UfoInternalErr::UfoNotFound);
        }
        match &self.objects[id] {
            None => {
                return Err(UfoInternalErr::UfoNotFound);
            },
            Some(_) => {},
        }
        let ghost pre = *old(self);
        self.tasks.push(UfoTask::ResetTask { ufo_id: id });
        proof {
            lemma_inv_frame(pre, *self);
            lemma_table_frame(pre, *self);
            assert(self.tasks@.drop_last() =~= pre.tasks@);
            assert(self.live(id as int));
        }
        let ghost pushed = *self;
        self.work_one();
        proof {
            assert(Self::reset_effect(pushed, *self, id as int));
            lemma_shape_trans(pre, pushed, *self);
            assert(Self::reset_effect(pre, *self, id as int));
        }
        Ok(WaiterToken::completed())
    }

    /// Queues removal of the object in slot `id` and returns a waiter for
    /// its completion. Freeing an object that is already gone — including a
    /// second free of the same object — reports the not-found error and has
    /// no effect.
    pub fn free_object(&mut self, id: usize) -> (r: Result<WaiterToken, UfoInternalErr>)
        requires
            old(self).inv(),
        ensures
            final(self).inv(),
            final(self).tasks@ == old(self).tasks@,
            final(self).is_shutdown == old(self).is_shutdown,
            final(self).objects@.len() == old(self).objects@.len(),
            final(self).config == old(self).config,
            r is Ok <==> old(self).live(id as int),
            !old(self).live(id as int) ==> r == Err::<WaiterToken, UfoInternalErr>(
                UfoInternalErr::UfoNotFound,
            ),
            r is Err ==> *final(self) == *old(self),
            r matches Ok(t) ==> t.done && Self::free_effect(*old(self), *final(self), id as int),
    {
        if id >= self.objects.len() {
            return Err(UfoInternalErr::UfoNotFound);
        }
        match &self.objects[id] {
            None => {
                return Err(UfoInternalErr::UfoNotFound);
            },
            Some(_) => {},
        }
        let ghost pre = *old(self);
        self.tasks.push(UfoTask::FreeTask { ufo_id: id });
        proof {
            lemma_inv_frame(pre, *self);
            lemma_table_frame(pre, *self);
            assert(self.tasks@.drop_last() =~= pre.tasks@);
            assert(self.live(id as int));
        }
        let ghost pushed = *self;
        self.work_one();
        proof {
            assert(Self::free_effect(pushed, *self, id as int));
            assert(Self::free_effect(pre, *self, id as int));
        }
        Ok(WaiterToken::completed())
    }

    /// Shuts the core down: frees every remaining object, drains the task
    /// queue, and closes the fault channel. Idempotent — a second call
    /// changes nothing.
    pub fn shutdown(&mut self)
        requires
            old(self).inv(),
        ensures
            final(self).inv(),
            final(self).is_shutdown,
            forall|id: int| !final(self).live(id),
            final(self).resident_bytes() == 0,
            old(self).is_shutdown ==> *final(self) == *old(self),
    {
        if self.is_shutdown {
            proof {
                assert forall|q: int|
                    0 <= q < self.slot_weights().len() implies self.slot_weights()[q] <= 0 by {
                    assert(!self.live(q));
                }
                lemma_sum_uniform_bound(self.slot_weights(), 0);
            }
            return ;
        }
        let n = self.objects.len();
        let mut id: usize = 0;
        while id < n
            invariant
                self.inv(),
                n == self.objects@.len(),
                id <= n,
                !self.is_shutdown,
                forall|q: int| 0 <= q < id ==> !self.live(q),
            decreases n - id,
        {
            let ghost lpre = *self;
            let live = match &self.objects[id] {
                Some(_) => true,
                None => false,
            };
            if live {
                self.do_free(id);
            }
            proof {
                assert forall|q: int| 0 <= q <= id implies !self.live(q) by {
                    if q < id {
                        assert(!lpre.live(q));
                        assert(self.objects@[q] == lpre.objects@[q]);
                    }
                }
            }
            id += 1;
        }
        let ghost after_loop = *self;
        let empty_tasks: Vec<UfoTask> = Vec::new();
        self.tasks = empty_tasks;
        self.note_event(UfoEvent::ShutdownEvent);
        self.chan.close();
        self.is_shutdown = true;
        proof {
            assert forall|q: int| 0 <= q < self.objects@.len() implies self.slot_ok(q) by {
                assert(after_loop.slot_ok(q));
                assert(self.objects@[q] == after_loop.objects@[q]);
                assert(self.chan.regions@[q] == after_loop.chan.regions@[q]);
                assert(self.store.rows@[q] == after_loop.store.rows@[q]);
            }
            assert forall|q: int| !self.live(q) by {
                if 0 <= q < self.objects@.len() {
                    assert(!after_loop.live(q));
                    assert(self.objects@[q] == after_loop.objects@[q]);
                }
            }
            assert forall|q: int| 0 <= q < self.slot_weights().len() implies self.slot_weights()[q]
                <= 0 by {
                assert(!self.live(q));
            }
            lemma_sum_uniform_bound(self.slot_weights(), 0);
        }
    }

    /// Computes the total resident bytes across all live objects.
    pub fn current_resident(&self) -> (r: u128)
        requires
            self.inv(),
        ensures
            r == self.resident_bytes(),
    {
        let n = self.objects.len();
        let mut acc: u128 = 0;
        let mut id: usize = 0;
        while id < n
            invariant
                self.inv(),
                n == self.objects@.len(),
                id <= n,
                acc == sum_of(self.slot_weights().take(id as int)),
                acc <= (id as nat) * (usize::MAX as nat),
            decreases n - id,
        {
            proof {
                assert(self.slot_ok(id as int));
            }
            let w: u128 = match &self.objects[id] {
                Some(o) => {
                    proof {
                        assert(Some(*o) == self.objects@[id as int]);
                    }
                    resident_of(o)
                },
                None => 0,
            };
            proof {
                assert(w == self.slot_weight(id as int));
                assert(self.slot_weights().take(id as int + 1).drop_last() =~= self.slot_weights()
                    .take(id as int));
                assert((id as nat + 1) * (usize::MAX as nat) == (id as nat) * (usize::MAX as nat)
                    + usize::MAX as nat) by (nonlinear_arith);
                assert((id as nat) * (usize::MAX as nat) <= (u64::MAX as nat) * (usize::MAX as nat))
                    by (nonlinear_arith)
                    requires
                        id as nat <= u64::MAX as nat,
                ;
            }
            acc = acc + w;
            id += 1;
        }
        proof {
            assert(self.slot_weights().take(n as int) =~= self.slot_weights());
        }
        acc
    }
}

/// A read before any write returns exactly the population value of its
/// index, however many times the chunk was evicted and reloaded in between:
/// every engine operation but a write preserves an object's logical
/// contents (`same_contents` in their contracts), reads return the logical
/// contents, and a pristine object's contents are the population values.
pub proof fn lemma_unwritten_read_is_populate<P: Populate>(c: UfoCore<P>, id: int, i: int)
    requires
        c.live(id),
        c.obj(id).is_pristine(),
        0 <= i < c.obj(id).contents@.len(),
    ensures
        c.obj(id).contents@[i] == c.obj(id).populate.spec_value(i),
{
    assert(c.obj(id).contents@[i] == c.obj(id).populate_values()[i]);
}

/// Write-then-read coherence: a write updates the logical contents at
/// exactly its index, so reading that index back — with no eviction or
/// anything else in between or after, since every operation preserves
/// contents — yields the written value, and every other index is untouched.
pub proof fn lemma_write_then_read(s: Seq<u64>, i: int, v: u64)
    requires
        0 <= i < s.len(),
    ensures
        s.update(i, v)[i] == v,
        forall|j: int| 0 <= j < s.len() && j != i ==> s.update(i, v)[j] == s[j],
{
}

/// The watermark envelope: a core whose resident total lies within
/// `max(high_watermark, low_watermark + one chunk of the touched object)`
/// stays within that envelope across any read or write, whose contracts
/// bound the new total by `resident_bound`. Touching every element in turn
/// therefore never leaves the total above the high watermark for longer
/// than the sweep a single fault triggers.
pub proof fn lemma_resident_envelope<P: Populate>(pre: UfoCore<P>, post_resident: nat, id: int)
    requires
        pre.resident_bytes() <= nat_max(
            pre.config.high_watermark as nat,
            pre.config.low_watermark as nat + pre.chunk_capacity(id),
        ),
        post_resident <= pre.resident_bound(id),
    ensures
        post_resident <= nat_max(
            pre.config.high_watermark as nat,
            pre.config.low_watermark as nat + pre.chunk_capacity(id),
        ),
{
}

/// Changing nothing but bookkeeping outside the object table (the task
/// queue, the tick, the observer) preserves the invariant.
pub proof fn lemma_inv_frame<P: Populate>(pre: UfoCore<P>, post: UfoCore<P>)
    requires
        pre.inv(),
        post.config == pre.config,
        post.objects == pre.objects,
        post.chan == pre.chan,
        post.store == pre.store,
        post.is_shutdown == pre.is_shutdown,
    ensures
        post.inv(),
{
    assert forall|q: int| 0 <= q < post.objects@.len() implies post.slot_ok(q) by {
        assert(pre.slot_ok(q));
    }
    if post.is_shutdown {
        assert forall|id2: int| !post.live(id2) by {
            assert(!pre.live(id2));
        }
    }
}

/// Two cores with the same object table have the same shape, the same
/// contents and the same resident weights.
pub proof fn lemma_table_frame<P: Populate>(pre: UfoCore<P>, post: UfoCore<P>)
    requires
        post.objects == pre.objects,
        post.config == pre.config,
    ensures
        pre.same_shape(post),
        pre.same_contents(post),
        post.slot_weights() == pre.slot_weights(),
        post.resident_bytes() == pre.resident_bytes(),
{
    assert(post.slot_weights() =~= pre.slot_weights());
}

/// Shape and contents preservation compose across two steps.
pub proof fn lemma_shape_trans<P: Populate>(a: UfoCore<P>, b: UfoCore<P>, c: UfoCore<P>)
    requires
        a.same_shape(b),
        b.same_shape(c),
    ensures
        a.same_shape(c),
{
    assert forall|id: int| a.live(id) <==> c.live(id) by {
        assert(a.live(id) <==> b.live(id));
        assert(b.live(id) <==> c.live(id));
    }
    assert forall|id: int| a.live(id) implies c.obj(id).element_ct == a.obj(id).element_ct
        && c.obj(id).stride == a.obj(id).stride && c.obj(id).chunk_elems == a.obj(id).chunk_elems
        && c.obj(id).header_size == a.obj(id).header_size && c.obj(id).read_only == a.obj(
        id,
    ).read_only && c.obj(id).populate == a.obj(id).populate by {
        assert(b.live(id));
    }
}

/// When the only resident chunk left is the one being serviced, the total
/// resident bytes are exactly that chunk's weight.
pub proof fn lemma_only_skip_resident<P: Populate>(c: UfoCore<P>, so: int, sk: int)
    requires
        c.live(so),
        0 <= sk < c.obj(so).chunks@.len(),
        forall|oo: int, kk: int|
            #![trigger c.obj(oo).chunks@[kk]]
            c.live(oo) && 0 <= kk < c.obj(oo).chunks@.len() && c.obj(oo).chunks@[kk].state
                == ChunkState::Resident ==> oo == so && kk == sk,
    ensures
        c.resident_bytes() <= c.obj(so).chunk_weight(sk),
{
    let n = c.objects@.len() as int;
    assert forall|q: int| 0 <= q < n && q != so implies c.slot_weight(q) == 0 by {
        if c.live(q) {
            let o = c.obj(q);
            assert forall|kk: int| 0 <= kk < o.resident_weights().len() implies o.resident_weights()[kk]
                <= 0 by {
                assert(o.chunks@[kk].state != ChunkState::Resident);
            }
            lemma_sum_uniform_bound(o.resident_weights(), 0);
        }
    }
    let o = c.obj(so);
    assert forall|kk: int|
        0 <= kk < o.resident_weights().update(sk, 0nat).len() implies o.resident_weights().update(
        sk,
        0nat,
    )[kk] <= 0 by {
        if kk != sk {
            assert(o.chunks@[kk].state != ChunkState::Resident);
        }
    }
    lemma_sum_uniform_bound(o.resident_weights().update(sk, 0nat), 0);
    lemma_sum_update(o.resident_weights(), sk, 0nat);
    assert(o.resident_bytes() <= o.chunk_weight(sk));
    assert forall|q: int| 0 <= q < c.slot_weights().update(so, 0nat).len() implies c.slot_weights()
        .update(so, 0nat)[q] <= 0 by {}
    lemma_sum_uniform_bound(c.slot_weights().update(so, 0nat), 0);
    lemma_sum_update(c.slot_weights(), so, 0nat);
}

/// Two cores that differ in at most slot `id` have resident totals that
/// differ by exactly the two weights of that slot.
pub proof fn lemma_slot_weights_update<P: Populate>(pre: UfoCore<P>, post: UfoCore<P>, id: int)
    requires
        pre.objects@.len() == post.objects@.len(),
        0 <= id < pre.objects@.len(),
        forall|q: int|
            0 <= q < pre.objects@.len() && q != id ==> post.slot_weight(q) == pre.slot_weight(q),
    ensures
        post.resident_bytes() + pre.slot_weight(id) == pre.resident_bytes() + post.slot_weight(id),
{
    assert(post.slot_weights() =~= pre.slot_weights().update(id, post.slot_weight(id)));
    lemma_sum_update(pre.slot_weights(), id, post.slot_weight(id));
}

/// Computes one object's resident bytes by walking its chunk table.
fn resident_of<P: Populate>(o: &UfoObject<P>) -> (r: u128)
    requires
        o.stride > 0,
        o.chunk_elems > 0,
        o.chunks@.len() == o.num_chunks(),
        (o.element_ct + o.chunk_elems) * o.stride <= usize::MAX,
    ensures
        r == o.resident_bytes(),
        r <= usize::MAX as u128,
{
    let n = o.chunks.len();
    let mut acc: u128 = 0;
    let mut k: usize = 0;
    while k < n
        invariant
            o.stride > 0,
            o.chunk_elems > 0,
            o.chunks@.len() == o.num_chunks(),
            (o.element_ct + o.chunk_elems) * o.stride <= usize::MAX,
            n == o.chunks@.len(),
            k <= n,
            acc == sum_of(o.resident_weights().take(k as int)),
            acc <= (k as nat) * (usize::MAX as nat),
        decreases n - k,
    {
        let w: u128 = match o.chunks[k].state {
            ChunkState::Resident => {
                let (lo, hi) = o.chunk_range(k);
                proof {
                    assert((hi - lo) * o.stride <= (o.element_ct + o.chunk_elems) * o.stride)
                        by (nonlinear_arith)
                        requires
                            o.stride > 0,
                            0 <= hi - lo <= o.element_ct + o.chunk_elems,
                    ;
                }
                ((hi - lo) * o.stride) as u128
            },
            _ => 0,
        };
        proof {
            assert(w == o.chunk_weight(k as int));
            assert(o.resident_weights().take(k as int + 1).drop_last() =~= o.resident_weights()
                .take(k as int));
            assert((k as nat + 1) * (usize::MAX as nat) == (k as nat) * (usize::MAX as nat)
                + usize::MAX as nat) by (nonlinear_arith);
            assert((k as nat) * (usize::MAX as nat) <= (u64::MAX as nat) * (usize::MAX as nat))
                by (nonlinear_arith)
                requires
                    k as nat <= u64::MAX as nat,
            ;
        }
        acc = acc + w;
        k += 1;
    }
    proof {
        assert(o.resident_weights().take(n as int) =~= o.resident_weights());
        lemma_resident_bytes_fits(*o);
    }
    acc
}

} // verus!
