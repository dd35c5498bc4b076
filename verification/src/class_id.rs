//! A numeric identity of a class.

use vstd::prelude::*;

verus! {

/// The identity of a class.
#[derive(Debug, Clone, Copy, PartialEq, Eq, Structural, Hash)]
pub struct ClassId {
    id: u32,
}

impl ClassId {
    /// The number this identity holds.
    pub closed spec fn value(self) -> u32 {
        self.id
    }

    /// The identity numbered `id`.
    pub fn new(id: u32) -> (res: ClassId)
        ensures
            res.value() == id,
    {
        ClassId { id }
    }

    /// The number of this identity.
    pub fn id_as_u32(&self) -> (res: u32)
        ensures
            res == self.value(),
    {
        self.id
    }
}

} // verus!
