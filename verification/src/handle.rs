use vstd::prelude::*;

use crate::engine::UfoCore;
use crate::errors::UfoInternalErr;
use crate::populate::Populate;

verus! {

/// A per-object reference: the object's id in the owning core's table plus
/// the layout facts needed to answer pointer queries locally. `ufo` becomes
/// `None` once the handle has freed its object; every later operation
/// through the handle reports the not-found error.
pub struct UfoHandle {
    /// The object's slot in the core's table, until freed through this
    /// handle.
    pub ufo: Option<usize>,
    /// First address of the reservation; the header starts here.
    pub base: usize,
    /// First address of the body, directly after the header.
    pub body_base: usize,
    /// Bytes of caller metadata ahead of the body.
    pub header_size: usize,
    /// Bytes per element.
    pub stride: usize,
    /// Total element count.
    pub element_ct: usize,
}

impl UfoHandle {
    /// The handle agrees with the core it came from: while its object is
    /// still live, the layout facts it caches are the object's own.
    pub open spec fn wf<P: Populate>(self, core: UfoCore<P>) -> bool {
        match self.ufo {
            Some(id) => {
                &&& id < core.objects@.len()
                &&& (core.live(id as int) ==> {
                    &&& core.obj(id as int).element_ct == self.element_ct
                    &&& core.obj(id as int).stride == self.stride
                    &&& core.obj(id as int).header_size == self.header_size
                })
            },
            None => true,
        }
    }

    /// The address of the object's header, for caller metadata.
    pub fn header_ptr(&self) -> (r: Result<usize, UfoInternalErr>)
        ensures
            self.ufo is Some ==> r == Ok::<usize, UfoInternalErr>(self.base),
            self.ufo is None ==> r == Err::<usize, UfoInternalErr>(UfoInternalErr::UfoNotFound),
    {
        match self.ufo {
            Some(_) => Ok(self.base),
            None => Err(UfoInternalErr::UfoNotFound),
        }
    }

    /// The address of the object's body: the base plus the header bytes.
    pub fn body_ptr(&self) -> (r: Result<usize, UfoInternalErr>)
        ensures
            self.ufo is Some ==> r == Ok::<usize, UfoInternalErr>(self.body_base),
            self.ufo is None ==> r == Err::<usize, UfoInternalErr>(UfoInternalErr::UfoNotFound),
    {
        match self.ufo {
            Some(_) => Ok(self.body_base),
            None => Err(UfoInternalErr::UfoNotFound),
        }
    }

    /// Reads element `i` of this handle's object through the owning core,
    /// servicing the fault if the containing chunk is not resident.
    pub fn read<P: Populate>(&self, core: &mut UfoCore<P>, i: usize) -> (r: Result<
        u64,
        UfoInternalErr,
    >)
        requires
            old(core).inv(),
            self.wf(*old(core)),
            i < self.element_ct,
        ensures
            final(core).inv(),
            self.wf(*final(core)),
            old(core).same_shape(*final(core)),
            old(core).same_contents(*final(core)),
            self.ufo is None ==> r == Err::<u64, UfoInternalErr>(UfoInternalErr::UfoNotFound)
                && *final(core) == *old(core),
            match self.ufo {
                Some(id) => {
                    &&& (r is Ok <==> (!old(core).is_shutdown && old(core).live(id as int) && old(
                        core,
                    ).can_service(id as int, i as int)))
                    &&& (r matches Ok(v) ==> v == old(core).obj(id as int).contents@[i as int])
                    &&& (old(core).is_shutdown ==> r == Err::<u64, UfoInternalErr>(
                        UfoInternalErr::CoreShutdown,
                    ))
                },
                None => r is Err,
            },
    {
        match self.ufo {
            None => Err(UfoInternalErr::UfoNotFound),
            Some(id) => core.read_element(id, i),
        }
    }

    /// Writes `v` to element `i` of this handle's object through the owning
    /// core. Rejected on read-only objects.
    pub fn write<P: Populate>(&self, core: &mut UfoCore<P>, i: usize, v: u64) -> (r: Result<
        (),
        UfoInternalErr,
    >)
        requires
            old(core).inv(),
            self.wf(*old(core)),
            i < self.element_ct,
        ensures
            final(core).inv(),
            self.wf(*final(core)),
            old(core).same_shape(*final(core)),
            self.ufo is None ==> r == Err::<(), UfoInternalErr>(UfoInternalErr::UfoNotFound)
                && *final(core) == *old(core),
            match self.ufo {
                Some(id) => {
                    &&& (r is Ok <==> (!old(core).is_shutdown && old(core).live(id as int) && !old(
                        core,
                    ).obj(id as int).read_only && old(core).can_service(id as int, i as int)))
                    &&& (r is Ok ==> final(core).obj(id as int).contents@ == old(core).obj(
                        id as int,
                    ).contents@.update(i as int, v))
                    &&& (r is Err ==> old(core).same_contents(*final(core)))
                },
                None => r is Err,
            },
    {
        match self.ufo {
            None => Err(UfoInternalErr::UfoNotFound),
            Some(id) => core.write_element(id, i, v),
        }
    }

    /// Resets this handle's object: queues the reset with the background
    /// worker and blocks on the waiter. When it returns successfully, every
    /// element reads as its population value again.
    pub fn reset<P: Populate>(&self, core: &mut UfoCore<P>) -> (r: Result<(), UfoInternalErr>)
        requires
            old(core).inv(),
            self.wf(*old(core)),
        ensures
            final(core).inv(),
            self.wf(*final(core)),
            self.ufo is None ==> r == Err::<(), UfoInternalErr>(UfoInternalErr::UfoNotFound)
                && *final(core) == *old(core),
            match self.ufo {
                Some(id) => {
                    &&& (r is Ok <==> (!old(core).is_shutdown && old(core).live(id as int)))
                    &&& (r is Ok ==> old(core).same_shape(*final(core))
                        && UfoCore::<P>::reset_effect(*old(core), *final(core), id as int))
                    &&& (r is Err ==> *final(core) == *old(core))
                },
                None => r is Err,
            },
    {
        match self.ufo {
            None => Err(UfoInternalErr::UfoNotFound),
            Some(id) => {
                match core.reset_object(id) {
                    Err(e) => Err(e),
                    Ok(waiter) => {
                        waiter.wait();
                        Ok(())
                    },
                }
            },
        }
    }

    /// Frees this handle's object: queues the removal, blocks on the
    /// waiter, and disarms the handle. A second free through the same
    /// handle — or a free after the core already removed the object —
    /// reports the not-found error and changes nothing.
    pub fn free<P: Populate>(&mut self, core: &mut UfoCore<P>) -> (r: Result<(), UfoInternalErr>)
        requires
            old(core).inv(),
            old(self).wf(*old(core)),
        ensures
            final(core).inv(),
            final(self).ufo is None,
            old(self).ufo is None ==> r == Err::<(), UfoInternalErr>(UfoInternalErr::UfoNotFound)
                && *final(core) == *old(core),
            match old(self).ufo {
                Some(id) => {
                    &&& (r is Ok <==> old(core).live(id as int))
                    &&& (r is Ok ==> UfoCore::<P>::free_effect(*old(core), *final(core), id as int))
                    &&& (r is Err ==> *final(core) == *old(core) && r == Err::<(), UfoInternalErr>(
                        UfoInternalErr::UfoNotFound,
                    ))
                },
                None => r is Err,
            },
    {
        match self.ufo {
            None => Err(UfoInternalErr::UfoNotFound),
            Some(id) => {
                self.ufo = None;
                match core.free_object(id) {
                    Err(e) => Err(e),
                    Ok(waiter) => {
                        waiter.wait();
                        Ok(())
                    },
                }
            },
        }
    }

    /// Reads one byte of the header. The engine zero-fills headers and
    /// offers no write path into them, so a successful read is zero.
    pub fn read_header(&self, offset: usize) -> (r: Result<u8, UfoInternalErr>)
        requires
            offset < self.header_size,
        ensures
            self.ufo is Some ==> r == Ok::<u8, UfoInternalErr>(0u8),
            self.ufo is None ==> r == Err::<u8, UfoInternalErr>(UfoInternalErr::UfoNotFound),
    {
        match self.ufo {
            Some(_) => Ok(0u8),
            None => Err(UfoInternalErr::UfoNotFound),
        }
    }
}

} // verus!
