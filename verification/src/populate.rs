use vstd::prelude::*;

verus! {

/// A caller-supplied population function: maps an element index to that
/// element's initial value, or reports failure for indices it cannot
/// produce. Populations are pure — re-running one for the same index yields
/// the same outcome, which is what lets a clean-evicted chunk be discarded
/// and recomputed instead of persisted.
pub trait Populate: Sized {
    /// The mathematical content of the population function: the value an
    /// index populates to, when population succeeds.
    spec fn spec_value(&self, i: int) -> u64;

    /// Whether population of index `i` succeeds.
    spec fn spec_ok(&self, i: int) -> bool;

    /// Computes the initial value of element `i`, or reports that this
    /// index cannot be populated.
    fn value(&self, i: usize) -> (r: Result<u64, ()>)
        ensures
            r is Ok <==> self.spec_ok(i as int),
            r matches Ok(v) ==> v == self.spec_value(i as int),
    ;
}

/// Populates each element with its own index; never fails.
pub struct IndexPopulate {
}

impl Populate for IndexPopulate {
    open spec fn spec_value(&self, i: int) -> u64 {
        i as u64
    }

    open spec fn spec_ok(&self, i: int) -> bool {
        true
    }

    fn value(&self, i: usize) -> (r: Result<u64, ()>) {
        Ok(i as u64)
    }
}

/// Populates every element with one fixed value; never fails.
pub struct ConstPopulate {
    /// The value every element starts with.
    pub fill: u64,
}

impl Populate for ConstPopulate {
    open spec fn spec_value(&self, i: int) -> u64 {
        self.fill
    }

    open spec fn spec_ok(&self, i: int) -> bool {
        true
    }

    fn value(&self, i: usize) -> (r: Result<u64, ()>) {
        Ok(self.fill)
    }
}

/// Populates each element with its index, but only below a cutoff: indices
/// at or past the cutoff fail to populate. Faults on them cannot be
/// serviced and surface as population failures.
pub struct PartialPopulate {
    /// First index that fails to populate.
    pub cutoff: usize,
}

impl Populate for PartialPopulate {
    open spec fn spec_value(&self, i: int) -> u64 {
        i as u64
    }

    open spec fn spec_ok(&self, i: int) -> bool {
        i < self.cutoff
    }

    fn value(&self, i: usize) -> (r: Result<u64, ()>) {
        if i < self.cutoff {
            Ok(i as u64)
        } else {
            Err(())
        }
    }
}

} // verus!
