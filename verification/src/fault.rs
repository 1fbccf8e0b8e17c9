use vstd::prelude::*;

verus! {

/// One reserved region of the fault channel: a base address, the reserved
/// byte span, and the backing table. A cell is `None` while unbacked — an
/// access there is what raises a fault — and `Some(v)` once installed.
pub struct Region {
    /// First address of the reservation.
    pub base: usize,
    /// Number of reserved bytes.
    pub byte_len: usize,
    /// Physical backing, one slot per element of the object's body.
    pub cells: Vec<Option<u64>>,
}

/// The engine's view of the memory subsystem: it reserves address ranges,
/// installs backing for cell ranges (atomically — a reader never observes a
/// partially installed chunk, because the engine only reads a cell after the
/// whole chunk is marked resident), and removes backing again on eviction.
pub struct FaultChannel {
    /// Bump pointer for reservations; ranges handed out never overlap.
    pub next_base: usize,
    /// All reservations made so far, in order.
    pub regions: Vec<Region>,
    /// Set once the core shuts down; no further reservations are made.
    pub closed: bool,
}

impl FaultChannel {
    /// The backing table of region `r`.
    pub open spec fn region_cells(self, r: int) -> Seq<Option<u64>> {
        self.regions@[r].cells@
    }

    /// An open channel with no reservations.
    pub fn new() -> (r: FaultChannel)
        ensures
            r.regions@.len() == 0,
            r.next_base == 0,
            !r.closed,
    {
        FaultChannel { next_base: 0, regions: Vec::new(), closed: false }
    }

    /// Reserves a fresh region of `byte_len` bytes with `cell_ct` unbacked
    /// cells. Fails — with no side effect — when the address space is
    /// exhausted.
    pub fn reserve(&mut self, cell_ct: usize, byte_len: usize) -> (r: Result<usize, ()>)
        ensures
            r is Err <==> old(self).next_base + byte_len > usize::MAX,
            match r {
                Ok(idx) => {
                    &&& idx == old(self).regions@.len()
                    &&& final(self).regions@.len() == old(self).regions@.len() + 1
                    &&& forall|q: int|
                        0 <= q < old(self).regions@.len() ==> final(self).regions@[q] == old(
                            self,
                        ).regions@[q]
                    &&& final(self).regions@[idx as int].base == old(self).next_base
                    &&& final(self).regions@[idx as int].byte_len == byte_len
                    &&& final(self).regions@[idx as int].cells@.len() == cell_ct
                    &&& forall|i: int|
                        0 <= i < cell_ct ==> final(self).regions@[idx as int].cells@[i] is None
                    &&& final(self).next_base == old(self).next_base + byte_len
                    &&& final(self).closed == old(self).closed
                },
                Err(()) => *final(self) == *old(self),
            },
    {
        match self.next_base.checked_add(byte_len) {
            None => Err(()),
            Some(bumped) => {
                let base = self.next_base;
                let mut cells: Vec<Option<u64>> = Vec::new();
                let mut j: usize = 0;
                while j < cell_ct
                    invariant
                        j <= cell_ct,
                        cells@.len() == j,
                        forall|i: int| 0 <= i < j ==> cells@[i] is None,
                    decreases cell_ct - j,
                {
                    cells.push(None);
                    j += 1;
                }
                self.next_base = bumped;
                self.regions.push(Region { base, byte_len, cells });
                Ok(self.regions.len() - 1)
            },
        }
    }

    /// Installs backing for the cell range `[start, start + vals.len())` of
    /// region `r`, with the given contents. Cells outside the range, and all
    /// other regions, are untouched.
    pub fn install(&mut self, r: usize, start: usize, vals: &Vec<u64>)
        requires
            r < old(self).regions@.len(),
            start + vals@.len() <= old(self).regions@[r as int].cells@.len(),
        ensures
            final(self).regions@.len() == old(self).regions@.len(),
            forall|q: int|
                0 <= q < old(self).regions@.len() && q != r ==> final(self).regions@[q] == old(
                    self,
                ).regions@[q],
            final(self).regions@[r as int].base == old(self).regions@[r as int].base,
            final(self).regions@[r as int].byte_len == old(self).regions@[r as int].byte_len,
            final(self).region_cells(r as int).len() == old(self).region_cells(r as int).len(),
            forall|i: int|
                start <= i < start + vals@.len() ==> final(self).region_cells(r as int)[i] == Some(
                    vals@[i - start],
                ),
            forall|i: int|
                0 <= i < old(self).region_cells(r as int).len() && !(start <= i < start
                    + vals@.len()) ==> final(self).region_cells(r as int)[i] == old(
                    self,
                ).region_cells(r as int)[i],
            final(self).next_base == old(self).next_base,
            final(self).closed == old(self).closed,
    {
        let mut reg = self.regions.remove(r);
        let ghost orig = reg.cells@;
        let ghost base0 = reg.base;
        let ghost blen0 = reg.byte_len;
        let cap = reg.cells.len();
        let n = vals.len();
        let mut j: usize = 0;
        while j < n
            invariant
                j <= n,
                n == vals@.len(),
                start + n <= cap,
                cap == reg.cells@.len(),
                reg.base == base0,
                reg.byte_len == blen0,
                reg.cells@.len() == orig.len(),
                forall|i: int| start <= i < start + j ==> reg.cells@[i] == Some(vals@[i - start]),
                forall|i: int|
                    0 <= i < orig.len() && !(start <= i < start + j) ==> reg.cells@[i] == orig[i],
            decreases n - j,
        {
            let v = vals[j];
            reg.cells.set(start + j, Some(v));
            j += 1;
        }
        self.regions.insert(r, reg);
    }

    /// Removes backing for the cell range `[start, start + len)` of region
    /// `r`; subsequent access there refaults.
    pub fn unmap(&mut self, r: usize, start: usize, len: usize)
        requires
            r < old(self).regions@.len(),
            start + len <= old(self).regions@[r as int].cells@.len(),
        ensures
            final(self).regions@.len() == old(self).regions@.len(),
            forall|q: int|
                0 <= q < old(self).regions@.len() && q != r ==> final(self).regions@[q] == old(
                    self,
                ).regions@[q],
            final(self).regions@[r as int].base == old(self).regions@[r as int].base,
            final(self).regions@[r as int].byte_len == old(self).regions@[r as int].byte_len,
            final(self).region_cells(r as int).len() == old(self).region_cells(r as int).len(),
            forall|i: int| start <= i < start + len ==> final(self).region_cells(r as int)[i] is None,
            forall|i: int|
                0 <= i < old(self).region_cells(r as int).len() && !(start <= i < start + len)
                    ==> final(self).region_cells(r as int)[i] == old(self).region_cells(r as int)[i],
            final(self).next_base == old(self).next_base,
            final(self).closed == old(self).closed,
    {
        let mut reg = self.regions.remove(r);
        let ghost orig = reg.cells@;
        let ghost base0 = reg.base;
        let ghost blen0 = reg.byte_len;
        let cap = reg.cells.len();
        let mut j: usize = 0;
        while j < len
            invariant
                j <= len,
                start + len <= cap,
                cap == reg.cells@.len(),
                reg.base == base0,
                reg.byte_len == blen0,
                reg.cells@.len() == orig.len(),
                forall|i: int| start <= i < start + j ==> reg.cells@[i] is None,
                forall|i: int|
                    0 <= i < orig.len() && !(start <= i < start + j) ==> reg.cells@[i] == orig[i],
            decreases len - j,
        {
            reg.cells.set(start + j, None);
            j += 1;
        }
        self.regions.insert(r, reg);
    }

    /// Reads one backed cell of region `r`.
    pub fn read_cell(&self, r: usize, i: usize) -> (v: u64)
        requires
            r < self.regions@.len(),
            i < self.region_cells(r as int).len(),
            self.region_cells(r as int)[i as int] is Some,
        ensures
            Some(v) == self.region_cells(r as int)[i as int],
    {
        self.regions[r].cells[i].unwrap()
    }

    /// Overwrites one backed cell of region `r` in place.
    pub fn write_cell(&mut self, r: usize, i: usize, v: u64)
        requires
            r < old(self).regions@.len(),
            i < old(self).region_cells(r as int).len(),
            old(self).region_cells(r as int)[i as int] is Some,
        ensures
            final(self).regions@.len() == old(self).regions@.len(),
            forall|q: int|
                0 <= q < old(self).regions@.len() && q != r ==> final(self).regions@[q] == old(
                    self,
                ).regions@[q],
            final(self).regions@[r as int].base == old(self).regions@[r as int].base,
            final(self).regions@[r as int].byte_len == old(self).regions@[r as int].byte_len,
            final(self).region_cells(r as int) == old(self).region_cells(r as int).update(
                i as int,
                Some(v),
            ),
            final(self).next_base == old(self).next_base,
            final(self).closed == old(self).closed,
    {
        let mut reg = self.regions.remove(r);
        reg.cells.set(i, Some(v));
        self.regions.insert(r, reg);
    }

    /// Marks the channel closed; used by shutdown.
    pub fn close(&mut self)
        ensures
            final(self).closed,
            final(self).regions@ == old(self).regions@,
            final(self).next_base == old(self).next_base,
    {
        self.closed = true;
    }
}

} // verus!
