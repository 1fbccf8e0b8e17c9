use vstd::prelude::*;

verus! {

/// Errors reported synchronously by allocation; no partial state is ever
/// created when one of these is returned.
#[derive(Clone, Copy, Debug, PartialEq, Eq, Structural)]
pub enum UfoAllocateErr {
    /// `stride` was zero.
    InvalidStride,
    /// `min_load_ct` was given as zero.
    InvalidMinLoad,
    /// The watermark configuration was rejected (`low_watermark` must be
    /// strictly below `high_watermark`).
    InvalidWatermarks,
    /// `header_size + element_ct * stride` (plus one chunk of slack) does not
    /// fit in the address space.
    SizeOverflow,
    /// The reservation could not be satisfied: address space exhausted.
    AddressSpaceExhausted,
    /// The core has shut down and accepts no new objects.
    CoreShutdown,
}

impl UfoAllocateErr {
    /// A short description of the error.
    pub fn describe(&self) -> (r: &'static str) {
        match self {
            UfoAllocateErr::InvalidStride => "stride must be positive",
            UfoAllocateErr::InvalidMinLoad => "min_load_ct must be positive",
            UfoAllocateErr::InvalidWatermarks => "low watermark must be below high watermark",
            UfoAllocateErr::SizeOverflow => "object does not fit in the address space",
            UfoAllocateErr::AddressSpaceExhausted => "address space exhausted",
            UfoAllocateErr::CoreShutdown => "core has shut down",
        }
    }
}

/// Errors reported by operations on live handles.
#[derive(Clone, Copy, Debug, PartialEq, Eq, Structural)]
pub enum UfoInternalErr {
    /// The object was already freed, or never existed.
    UfoNotFound,
    /// The owning core has shut down; access paths report this error.
    CoreShutdown,
    /// A write was attempted on a read-only object.
    ReadOnlyObject,
    /// The population function failed for the faulted chunk; the access
    /// cannot be serviced. Fatal to this access only, never masked as
    /// zeroed memory.
    PopulateFailure,
}

impl UfoInternalErr {
    /// A short description of the error.
    pub fn describe(&self) -> (r: &'static str) {
        match self {
            UfoInternalErr::UfoNotFound => "no ufo found",
            UfoInternalErr::CoreShutdown => "core has shut down",
            UfoInternalErr::ReadOnlyObject => "object is read-only",
            UfoInternalErr::PopulateFailure => "population function failed",
        }
    }
}

} // verus!
