//! Exclusive handles to physical lines.
//!
//! A [`LineHandle`] identifies one physical pin and stands for exclusive
//! access to it.  Handles are neither copyable nor clonable, and the only
//! way to obtain one is through a [`LineRegistry`], which issues each
//! identifier at most once: asking twice for the same line is a
//! configuration error and is refused at issuance time.

use vstd::prelude::*;

verus! {

/// Exclusive handle to one physical line.  Never duplicated: two handles
/// must never alias the same physical line.
pub struct LineHandle {
    id: usize,
}

impl LineHandle {
    /// The identifier of the physical line this handle owns.
    pub closed spec fn spec_id(&self) -> usize {
        self.id
    }

    /// Returns the identifier of the physical line this handle owns.
    #[verifier::when_used_as_spec(spec_id)]
    pub fn id(&self) -> (r: usize)
        ensures
            r == self.spec_id(),
    {
        self.id
    }
}

/// An arena of line identifiers.  Identifier `i` may be issued at most
/// once over the registry's lifetime, which makes double ownership of a
/// line impossible by construction.
pub struct LineRegistry {
    issued: Vec<bool>,
}

impl LineRegistry {
    /// Which identifiers the registry has already issued.
    pub closed spec fn issued(&self) -> Seq<bool> {
        self.issued@
    }

    /// A fresh registry for lines `0 .. capacity`, none issued yet.
    pub fn new(capacity: usize) -> (r: LineRegistry)
        ensures
            r.issued().len() == capacity,
            forall|i: int| 0 <= i < capacity ==> !r.issued()[i],
    {
        let mut issued: Vec<bool> = Vec::new();
        let mut i: usize = 0;
        while i < capacity
            invariant
                i <= capacity,
                issued@.len() == i,
                forall|j: int| 0 <= j < i ==> !issued@[j],
            decreases capacity - i,
        {
            issued.push(false);
            i = i + 1;
        }
        LineRegistry { issued }
    }

    /// Issues the handle for line `id`, exactly once: a second request for
    /// the same line, or a request outside the registry's capacity, is
    /// refused.
    pub fn issue(&mut self, id: usize) -> (r: Option<LineHandle>)
        ensures
            r is Some <==> id < old(self).issued().len() && !old(self).issued()[id as int],
            r matches Some(h) ==> h.id() == id && final(self).issued() == old(
                self,
            ).issued().update(id as int, true),
            r is None ==> final(self).issued() == old(self).issued(),
    {
        if id < self.issued.len() && !self.issued[id] {
            self.issued[id] = true;
            Some(LineHandle { id })
        } else {
            None
        }
    }
}

} // verus!
