use vstd::prelude::*;

verus! {

/// The spill area for written-back chunks: one row per object, one slot per
/// chunk. A slot holds the chunk's element values as persisted at eviction
/// time, or `None` while nothing is persisted for that chunk.
///
/// This is the portable writeback store the engine is verified against; a
/// file-backed spill directory sits outside the engine and mirrors exactly
/// this table, one file per occupied slot.
pub struct WritebackStore {
    /// The directory name this spill area stands for.
    pub path: String,
    /// Persisted chunk contents, indexed by object id, then chunk index.
    pub rows: Vec<Vec<Option<Vec<u64>>>>,
}

impl WritebackStore {
    /// The row of persisted chunks belonging to object `id`.
    pub open spec fn row(self, id: int) -> Seq<Option<Vec<u64>>> {
        self.rows@[id]@
    }

    /// An empty spill area.
    pub fn new(path: String) -> (r: WritebackStore)
        ensures
            r.rows@.len() == 0,
            r.path@ == path@,
    {
        WritebackStore { path, rows: Vec::new() }
    }

    /// Adds an empty row for a newly allocated object with `chunk_ct` chunks.
    pub fn add_object(&mut self, chunk_ct: usize) -> (idx: usize)
        ensures
            idx == old(self).rows@.len(),
            final(self).rows@.len() == old(self).rows@.len() + 1,
            forall|q: int|
                0 <= q < old(self).rows@.len() ==> final(self).rows@[q] == old(self).rows@[q],
            final(self).row(idx as int).len() == chunk_ct,
            forall|k: int| 0 <= k < chunk_ct ==> final(self).row(idx as int)[k] is None,
            final(self).path == old(self).path,
    {
        let mut slots: Vec<Option<Vec<u64>>> = Vec::new();
        let mut j: usize = 0;
        while j < chunk_ct
            invariant
                j <= chunk_ct,
                slots@.len() == j,
                forall|k: int| 0 <= k < j ==> slots@[k] is None,
            decreases chunk_ct - j,
        {
            slots.push(None);
            j += 1;
        }
        self.rows.push(slots);
        self.rows.len() - 1
    }

    /// Persists `vals` as the written-back contents of chunk `k` of object
    /// `id`, replacing anything persisted for that chunk before.
    pub fn put(&mut self, id: usize, k: usize, vals: Vec<u64>)
        requires
            id < old(self).rows@.len(),
            k < old(self).row(id as int).len(),
        ensures
            final(self).rows@.len() == old(self).rows@.len(),
            forall|q: int|
                0 <= q < old(self).rows@.len() && q != id ==> final(self).rows@[q] == old(
                    self,
                ).rows@[q],
            final(self).row(id as int) == old(self).row(id as int).update(k as int, Some(vals)),
            final(self).path == old(self).path,
    {
        let mut slots = self.rows.remove(id);
        slots.set(k, Some(vals));
        self.rows.insert(id, slots);
    }

    /// Takes the persisted contents of chunk `k` of object `id` back out of
    /// the spill area; the slot is empty afterwards.
    pub fn take(&mut self, id: usize, k: usize) -> (vals: Vec<u64>)
        requires
            id < old(self).rows@.len(),
            k < old(self).row(id as int).len(),
            old(self).row(id as int)[k as int] is Some,
        ensures
            Some(vals) == old(self).row(id as int)[k as int],
            final(self).rows@.len() == old(self).rows@.len(),
            forall|q: int|
                0 <= q < old(self).rows@.len() && q != id ==> final(self).rows@[q] == old(
                    self,
                ).rows@[q],
            final(self).row(id as int) == old(self).row(id as int).update(k as int, None),
            final(self).path == old(self).path,
    {
        let mut slots = self.rows.remove(id);
        let entry = slots.remove(k);
        slots.insert(k, None);
        proof {
            assert(slots@ =~= old(self).row(id as int).update(k as int, None));
        }
        self.rows.insert(id, slots);
        entry.unwrap()
    }

    /// Discards everything persisted for object `id`; reset and free both
    /// end with the object owning no spill data.
    pub fn clear_object(&mut self, id: usize)
        requires
            id < old(self).rows@.len(),
        ensures
            final(self).rows@.len() == old(self).rows@.len(),
            forall|q: int|
                0 <= q < old(self).rows@.len() && q != id ==> final(self).rows@[q] == old(
                    self,
                ).rows@[q],
            final(self).row(id as int).len() == old(self).row(id as int).len(),
            forall|k: int|
                0 <= k < old(self).row(id as int).len() ==> final(self).row(id as int)[k] is None,
            final(self).path == old(self).path,
    {
        let mut slots = self.rows.remove(id);
        let n = slots.len();
        let mut j: usize = 0;
        while j < n
            invariant
                j <= n,
                slots@.len() == n,
                forall|k: int| 0 <= k < j ==> slots@[k] is None,
            decreases n - j,
        {
            slots.set(j, None);
            j += 1;
        }
        self.rows.insert(id, slots);
    }
}

} // verus!
