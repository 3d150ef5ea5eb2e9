//! Plain-value forms of the DAOS handles, identifiers and I/O descriptors.
use vstd::prelude::*;

verus! {

/// The minor version of the API this model answers to.
pub const DAOS_API_VERSION_MINOR: u32 = 999;

/// A 128-bit object identifier. Objects are stored under their low word.
#[derive(Clone, Copy, Debug, PartialEq, Eq, Structural, Hash)]
pub struct DaosObjId {
    pub lo: u64,
    pub hi: u64,
}

/// An opaque handle to an open pool, container, object or event queue.
/// An open array's handle carries the low word of its object identifier.
#[derive(Clone, Copy, Debug, PartialEq, Eq, Structural, Hash)]
pub struct DaosHandle {
    pub cookie: u64,
}

/// One extent of an array: `rg_len` cells starting at cell `rg_idx`.
#[derive(Clone, Copy, Debug, PartialEq, Eq, Structural)]
pub struct ArrayRange {
    pub rg_idx: u64,
    pub rg_len: u64,
}

/// The I/O descriptor of an array read or write: the extents that the
/// scatter/gather buffers correspond to, and the count of cells read.
#[derive(Debug)]
pub struct ArrayIod {
    pub arr_nr: u64,
    pub arr_rgs: Vec<ArrayRange>,
    pub arr_nr_short_read: u64,
    pub arr_nr_read: u64,
}

impl DaosObjId {
    /// The key under which the store keeps this object.
    pub open spec fn key(self) -> u64 {
        self.lo
    }
}

impl DaosHandle {
    /// The handle of the array object with the given identifier.
    pub fn for_object(oid: DaosObjId) -> (h: DaosHandle)
        ensures
            h.cookie == oid.lo,
    {
        DaosHandle { cookie: oid.lo }
    }

    /// The identifier of the object an array handle refers to; its high
    /// word is zero, as the handle only carries the low word.
    pub fn object_id(&self) -> (oid: DaosObjId)
        ensures
            oid.lo == self.cookie,
            oid.hi == 0,
    {
        DaosObjId { lo: self.cookie, hi: 0 }
    }
}

} // verus!
