use vstd::arithmetic::div_mod::lemma_fundamental_div_mod;
use vstd::prelude::*;

use crate::chunk::{Chunk, ChunkState};
use crate::populate::Populate;
use crate::seq_sum::{lemma_sum_entry_bound, lemma_sum_uniform_bound, lemma_sum_update, sum_of};

verus! {

/// Number of chunks an object of `ect` elements has at `ce` elements per
/// chunk: the body divided into `ce`-sized pieces, the last one clipped.
pub open spec fn spec_num_chunks(ect: int, ce: int) -> int {
    ect / ce + if ect % ce == 0 {
        0int
    } else {
        1int
    }
}

/// One lazy object: a reserved region whose body of `element_ct` elements of
/// `stride` bytes each is populated chunk by chunk on demand.
///
/// `contents` is the object's logical contents: what a read of each element
/// must return. The engine invariant ties it to the three places an element
/// can live — the resident cells of the fault channel, the spill table, or
/// (for never-written chunks) the population function itself.
pub struct UfoObject<P: Populate> {
    /// Bytes reserved ahead of the body for caller metadata.
    pub header_size: usize,
    /// Bytes per element.
    pub stride: usize,
    /// Elements per chunk: the minimum load unit, so small faults are
    /// batched.
    pub chunk_elems: usize,
    /// Whether writes are disallowed; read-only objects are always evicted
    /// cleanly and never enter the spill table.
    pub read_only: bool,
    /// Whether writebacks of this object are reported to the lifecycle
    /// observer.
    pub writeback_listener: bool,
    /// Total element count of the body.
    pub element_ct: usize,
    /// The population function.
    pub populate: P,
    /// One descriptor per chunk.
    pub chunks: Vec<Chunk>,
    /// The logical contents of the body.
    pub contents: Ghost<Seq<u64>>,
}

impl<P: Populate> UfoObject<P> {
    /// First element of chunk `k`.
    pub open spec fn chunk_lo(self, k: int) -> int {
        k * self.chunk_elems
    }

    /// One past the last element of chunk `k`.
    pub open spec fn chunk_hi(self, k: int) -> int {
        if k * self.chunk_elems + self.chunk_elems <= self.element_ct {
            k * self.chunk_elems + self.chunk_elems
        } else {
            self.element_ct as int
        }
    }

    /// The chunk containing element `i`.
    pub open spec fn chunk_of(self, i: int) -> int {
        i / (self.chunk_elems as int)
    }

    /// How many chunks the object has.
    pub open spec fn num_chunks(self) -> int {
        spec_num_chunks(self.element_ct as int, self.chunk_elems as int)
    }

    /// The body as the population function alone would produce it.
    pub open spec fn populate_values(self) -> Seq<u64> {
        Seq::new(self.element_ct as nat, |i: int| self.populate.spec_value(i))
    }

    /// Whether the object's contents are untouched by writes: every element
    /// still reads as its population value.
    pub open spec fn is_pristine(self) -> bool {
        self.contents@ == self.populate_values()
    }

    /// Resident bytes contributed by chunk `k`.
    pub open spec fn chunk_weight(self, k: int) -> nat {
        if self.chunks@[k].state is Resident {
            ((self.chunk_hi(k) - self.chunk_lo(k)) * self.stride) as nat
        } else {
            0
        }
    }

    /// The per-chunk resident weights, in chunk order.
    pub open spec fn resident_weights(self) -> Seq<nat> {
        Seq::new(self.chunks@.len(), |k: int| self.chunk_weight(k))
    }

    /// Total resident bytes of this object.
    pub open spec fn resident_bytes(self) -> nat {
        sum_of(self.resident_weights())
    }

    /// The per-chunk part of the engine invariant, against this object's
    /// backing cells and its row of the spill table.
    pub open spec fn chunk_ok(
        self,
        k: int,
        cells: Seq<Option<u64>>,
        row: Seq<Option<Vec<u64>>>,
    ) -> bool {
        let lo = self.chunk_lo(k);
        let hi = self.chunk_hi(k);
        let c = self.chunks@[k];
        &&& c.state != ChunkState::Populating
        &&& (c.state == ChunkState::Unpopulated || c.state == ChunkState::EvictedClean)
            ==> !c.written
        &&& (!c.written ==> forall|i: int|
            lo <= i < hi ==> self.contents@[i] == self.populate.spec_value(i))
        &&& match c.state {
            ChunkState::Resident => {
                &&& (forall|i: int| lo <= i < hi ==> cells[i] == Some(self.contents@[i]))
                &&& row[k] is None
            },
            ChunkState::EvictedDirty => {
                &&& c.written
                &&& (forall|i: int| lo <= i < hi ==> cells[i] is None)
                &&& row[k] is Some
                &&& row[k].unwrap()@.len() == hi - lo
                &&& (forall|i: int| lo <= i < hi ==> row[k].unwrap()@[i - lo] == self.contents@[i])
            },
            _ => {
                &&& (forall|i: int| lo <= i < hi ==> cells[i] is None)
                &&& row[k] is None
            },
        }
    }

    /// The object invariant: geometry is consistent, capacity (including one
    /// chunk of slack) fits the address space, and every chunk's state agrees
    /// with the backing cells and the spill table.
    pub open spec fn inv(self, cells: Seq<Option<u64>>, row: Seq<Option<Vec<u64>>>) -> bool {
        &&& self.stride > 0
        &&& self.chunk_elems > 0
        &&& self.contents@.len() == self.element_ct
        &&& cells.len() == self.element_ct
        &&& row.len() == self.chunks@.len()
        &&& self.chunks@.len() == self.num_chunks()
        &&& (self.element_ct + self.chunk_elems) * self.stride + self.header_size <= usize::MAX
        &&& (forall|k: int| 0 <= k < self.chunks@.len() ==> self.chunk_ok(k, cells, row))
        &&& (self.read_only ==> forall|k: int|
            0 <= k < self.chunks@.len() ==> !self.chunks@[k].written)
    }

    /// Computes the chunk index of element `i`.
    pub fn find_chunk(&self, i: usize) -> (k: usize)
        requires
            self.chunk_elems > 0,
            i < self.element_ct,
            self.chunks@.len() == self.num_chunks(),
        ensures
            k == self.chunk_of(i as int),
            k < self.chunks@.len(),
            self.chunk_lo(k as int) <= i < self.chunk_hi(k as int),
    {
        proof {
            lemma_chunk_of_bounds(self.element_ct as int, self.chunk_elems as int, i as int);
        }
        i / self.chunk_elems
    }

    /// Computes the element range `[lo, hi)` of chunk `k`.
    pub fn chunk_range(&self, k: usize) -> (r: (usize, usize))
        requires
            self.chunk_elems > 0,
            self.chunks@.len() == self.num_chunks(),
            k < self.chunks@.len(),
        ensures
            r.0 == self.chunk_lo(k as int),
            r.1 == self.chunk_hi(k as int),
            r.0 < r.1 <= self.element_ct,
    {
        proof {
            lemma_chunk_nonempty(self.element_ct as int, self.chunk_elems as int, k as int);
        }
        let lo = k * self.chunk_elems;
        if self.element_ct - lo <= self.chunk_elems {
            (lo, self.element_ct)
        } else {
            (lo, lo + self.chunk_elems)
        }
    }

    /// Whether the population function succeeds on every index of `[lo, hi)`.
    pub open spec fn range_ok(self, lo: int, hi: int) -> bool {
        forall|i: int| lo <= i < hi ==> self.populate.spec_ok(i)
    }

    /// Runs the population function over `[lo, hi)`, producing the chunk's
    /// initial values; fails exactly when some index of the range cannot be
    /// populated.
    pub fn populate_range(&self, lo: usize, hi: usize) -> (r: Result<Vec<u64>, ()>)
        requires
            lo <= hi,
        ensures
            r is Ok <==> self.range_ok(lo as int, hi as int),
            r matches Ok(v) ==> v@.len() == hi - lo && (forall|j: int|
                0 <= j < hi - lo ==> v@[j] == self.populate.spec_value(lo + j)),
    {
        let mut v: Vec<u64> = Vec::new();
        let mut i: usize = lo;
        while i < hi
            invariant
                lo <= i <= hi,
                v@.len() == i - lo,
                forall|j: int| lo <= j < i ==> self.populate.spec_ok(j),
                forall|j: int| 0 <= j < i - lo ==> v@[j] == self.populate.spec_value(lo + j),
            decreases hi - i,
        {
            match self.populate.value(i) {
                Ok(x) => {
                    v.push(x);
                },
                Err(()) => {
                    return Err(());
                },
            }
            i += 1;
        }
        Ok(v)
    }
}

/// Computes the number of chunks of a body of `element_ct` elements at
/// `chunk_elems` elements per chunk.
pub fn chunk_count(element_ct: usize, chunk_elems: usize) -> (r: usize)
    requires
        chunk_elems > 0,
    ensures
        r == spec_num_chunks(element_ct as int, chunk_elems as int),
{
    let q = element_ct / chunk_elems;
    if element_ct % chunk_elems == 0 {
        q
    } else {
        proof {
            lemma_fundamental_div_mod(element_ct as int, chunk_elems as int);
            assert(q < element_ct) by (nonlinear_arith)
                requires
                    chunk_elems > 0,
                    q == (element_ct as int) / (chunk_elems as int),
                    element_ct as int == (chunk_elems as int) * q + (element_ct as int) % (
                    chunk_elems as int),
                    0 < (element_ct as int) % (chunk_elems as int) < (chunk_elems as int),
            ;
        }
        q + 1
    }
}

/// Builds a table of `n` fresh chunk descriptors.
pub fn fresh_chunks(n: usize) -> (r: Vec<Chunk>)
    ensures
        r@.len() == n,
        forall|k: int|
            0 <= k < n ==> r@[k] == (Chunk {
                state: ChunkState::Unpopulated,
                written: false,
                last_pop: 0u64,
            }),
{
    let mut v: Vec<Chunk> = Vec::new();
    let mut j: usize = 0;
    while j < n
        invariant
            j <= n,
            v@.len() == j,
            forall|k: int|
                0 <= k < j ==> v@[k] == (Chunk {
                    state: ChunkState::Unpopulated,
                    written: false,
                    last_pop: 0u64,
                }),
        decreases n - j,
    {
        v.push(Chunk::fresh());
        j += 1;
    }
    v
}

/// Element `i` lies inside chunk `i / ce`, and that chunk index is in range.
pub proof fn lemma_chunk_of_bounds(ect: int, ce: int, i: int)
    requires
        ce > 0,
        0 <= i < ect,
    ensures
        0 <= i / ce < spec_num_chunks(ect, ce),
        (i / ce) * ce <= i < (i / ce) * ce + ce,
{
    lemma_fundamental_div_mod(i, ce);
    lemma_fundamental_div_mod(ect, ce);
    let k = i / ce;
    let nc = spec_num_chunks(ect, ce);
    assert(k * ce <= i < k * ce + ce) by (nonlinear_arith)
        requires
            ce > 0,
            i == ce * k + i % ce,
            0 <= i % ce < ce,
    ;
    assert(ect <= nc * ce) by (nonlinear_arith)
        requires
            ce > 0,
            ect == ce * (ect / ce) + ect % ce,
            0 <= ect % ce < ce,
            nc == ect / ce + if ect % ce == 0 {
                0int
            } else {
                1int
            },
    ;
    assert(k < nc) by (nonlinear_arith)
        requires
            ce > 0,
            k * ce <= i,
            i < ect,
            ect <= nc * ce,
    ;
}

/// Every chunk of the layout is non-empty and lies inside the body.
pub proof fn lemma_chunk_nonempty(ect: int, ce: int, k: int)
    requires
        ce > 0,
        0 <= k < spec_num_chunks(ect, ce),
    ensures
        0 <= k * ce < ect,
        k * ce + 1 <= ect,
{
    lemma_fundamental_div_mod(ect, ce);
    let nc = spec_num_chunks(ect, ce);
    assert(k * ce < ect) by (nonlinear_arith)
        requires
            ce > 0,
            0 <= k,
            k < nc,
            ect == ce * (ect / ce) + ect % ce,
            0 <= ect % ce < ce,
            nc == ect / ce + if ect % ce == 0 {
                0int
            } else {
                1int
            },
    ;
}

/// Distinct chunks cover disjoint element ranges: an earlier chunk ends
/// before a later one begins.
pub proof fn lemma_chunks_disjoint(ce: int, k1: int, k2: int)
    requires
        ce > 0,
        0 <= k1 < k2,
    ensures
        k1 * ce + ce <= k2 * ce,
{
    assert(k1 * ce + ce <= k2 * ce) by (nonlinear_arith)
        requires
            ce > 0,
            0 <= k1,
            k1 + 1 <= k2,
    ;
}

/// Two objects that differ in at most the descriptor of chunk `k` have
/// resident totals that differ by exactly the two weights of that chunk.
pub proof fn lemma_resident_bytes_update<P: Populate>(o1: UfoObject<P>, o2: UfoObject<P>, k: int)
    requires
        o1.chunks@.len() == o2.chunks@.len(),
        0 <= k < o1.chunks@.len(),
        forall|j: int| 0 <= j < o1.chunks@.len() && j != k ==> o1.chunks@[j] == o2.chunks@[j],
        o1.element_ct == o2.element_ct,
        o1.stride == o2.stride,
        o1.chunk_elems == o2.chunk_elems,
    ensures
        o2.resident_bytes() + o1.chunk_weight(k) == o1.resident_bytes() + o2.chunk_weight(k),
{
    assert(o2.resident_weights() =~= o1.resident_weights().update(k, o2.chunk_weight(k)));
    lemma_sum_update(o1.resident_weights(), k, o2.chunk_weight(k));
}

/// The resident total of an object dominates the weight of each chunk.
pub proof fn lemma_resident_bytes_entry<P: Populate>(o: UfoObject<P>, k: int)
    requires
        0 <= k < o.chunks@.len(),
    ensures
        o.chunk_weight(k) <= o.resident_bytes(),
{
    lemma_sum_entry_bound(o.resident_weights(), k);
}

/// An object's resident total never exceeds its reserved capacity, which the
/// invariant keeps within the address space.
pub proof fn lemma_resident_bytes_fits<P: Populate>(o: UfoObject<P>)
    requires
        o.stride > 0,
        o.chunk_elems > 0,
        o.chunks@.len() == o.num_chunks(),
        (o.element_ct + o.chunk_elems) * o.stride <= usize::MAX,
    ensures
        o.resident_bytes() <= (o.element_ct + o.chunk_elems) * o.stride,
        o.resident_bytes() <= usize::MAX,
{
    let ect = o.element_ct as int;
    let ce = o.chunk_elems as int;
    let st = o.stride as int;
    let nc = o.chunks@.len() as int;
    let m = (ce * st) as nat;
    assert forall|k: int| 0 <= k < nc implies o.resident_weights()[k] <= m by {
        lemma_chunk_nonempty(ect, ce, k);
        assert(0 < o.chunk_hi(k) - o.chunk_lo(k) <= ce);
        assert((o.chunk_hi(k) - o.chunk_lo(k)) * st <= ce * st) by (nonlinear_arith)
            requires
                st > 0,
                0 < o.chunk_hi(k) - o.chunk_lo(k) <= ce,
        ;
    }
    lemma_sum_uniform_bound(o.resident_weights(), m);
    lemma_fundamental_div_mod(ect, ce);
    assert(nc * ce <= ect + ce) by (nonlinear_arith)
        requires
            ce > 0,
            ect == ce * (ect / ce) + ect % ce,
            0 <= ect % ce < ce,
            nc == ect / ce + if ect % ce == 0 {
                0int
            } else {
                1int
            },
    ;
    assert(nc * (ce * st) <= (ect + ce) * st) by (nonlinear_arith)
        requires
            st > 0,
            ce > 0,
            0 <= nc,
            nc * ce <= ect + ce,
    ;
}

} // verus!
