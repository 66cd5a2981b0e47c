//! A read-only view of a borrowed byte vector.

use vstd::prelude::*;

verus! {

/// Holds a shared borrow of a byte vector for its lifetime `'a`; the
/// vector cannot be moved or mutated while the view exists.
pub struct BorrowedVec<'a> {
    vec: &'a Vec<u8>,
}

impl<'a> View for BorrowedVec<'a> {
    type V = Seq<u8>;

    /// The bytes of the borrowed vector.
    closed spec fn view(&self) -> Seq<u8> {
        self.vec@
    }
}

impl<'a> BorrowedVec<'a> {
    /// Borrows `vec` for reading.
    pub fn new(vec: &'a Vec<u8>) -> (r: BorrowedVec<'a>)
        ensures
            r@ == vec@,
    {
        BorrowedVec { vec }
    }

    /// The borrowed vector.
    pub fn get(&self) -> (r: &Vec<u8>)
        ensures
            r@ == self@,
    {
        self.vec
    }
}

} // verus!
