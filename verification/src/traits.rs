//! Element traits the containers are generic over.
//!
//! The containers hand values back to their callers by copying them out of
//! their own storage.  For the contracts to say anything exact about those
//! copies, copying must have a specified meaning: [`Duplicable`] promises a
//! copy equal to the original, [`CacheKey`] adds an equality test over the
//! key's view, and [`TotalOrd`] gives the binary tree a total order to sort
//! by.  Each trait is implemented here for the plain types the library is
//! used with.

use vstd::prelude::*;

verus! {

/// A value that can be copied with nothing lost: the copy equals the
/// original, so a contract may speak of the stored value and the returned
/// value interchangeably.
pub trait Duplicable: Sized {
    fn duplicate(&self) -> (r: Self)
        ensures
            r == *self,
    ;
}

impl Duplicable for String {
    fn duplicate(&self) -> (r: Self) {
        self.clone()
    }
}

impl Duplicable for bool {
    fn duplicate(&self) -> (r: Self) {
        *self
    }
}

impl Duplicable for u8 {
    fn duplicate(&self) -> (r: Self) {
        *self
    }
}

impl Duplicable for u16 {
    fn duplicate(&self) -> (r: Self) {
        *self
    }
}

impl Duplicable for u32 {
    fn duplicate(&self) -> (r: Self) {
        *self
    }
}

impl Duplicable for u64 {
    fn duplicate(&self) -> (r: Self) {
        *self
    }
}

impl Duplicable for usize {
    fn duplicate(&self) -> (r: Self) {
        *self
    }
}

impl Duplicable for i32 {
    fn duplicate(&self) -> (r: Self) {
        *self
    }
}

impl Duplicable for i64 {
    fn duplicate(&self) -> (r: Self) {
        *self
    }
}

/// A cache key: duplicable, with a view to model it by and an equality test
/// that decides exactly whether two keys have the same view.
pub trait CacheKey: View + Duplicable {
    fn key_eq(&self, other: &Self) -> (r: bool)
        ensures
            r == (self@ == other@),
    ;
}

impl CacheKey for String {
    fn key_eq(&self, other: &Self) -> (r: bool) {
        *self == *other
    }
}

/// A total order, given as a specification-level `le_spec` relation with the
/// three laws a total order owes, and an executable test that decides it.
pub trait TotalOrd: Sized {
    spec fn le_spec(self, other: Self) -> bool;

    proof fn le_total(a: Self, b: Self)
        ensures
            a.le_spec(b) || b.le_spec(a),
    ;

    proof fn le_antisymmetric(a: Self, b: Self)
        requires
            a.le_spec(b),
            b.le_spec(a),
        ensures
            a == b,
    ;

    proof fn le_transitive(a: Self, b: Self, c: Self)
        requires
            a.le_spec(b),
            b.le_spec(c),
        ensures
            a.le_spec(c),
    ;

    fn le(&self, other: &Self) -> (r: bool)
        ensures
            r == self.le_spec(*other),
    ;
}

impl TotalOrd for u16 {
    open spec fn le_spec(self, other: Self) -> bool {
        self <= other
    }

    proof fn le_total(a: Self, b: Self) {
    }

    proof fn le_antisymmetric(a: Self, b: Self) {
    }

    proof fn le_transitive(a: Self, b: Self, c: Self) {
    }

    fn le(&self, other: &Self) -> (r: bool) {
        *self <= *other
    }
}

impl TotalOrd for u64 {
    open spec fn le_spec(self, other: Self) -> bool {
        self <= other
    }

    proof fn le_total(a: Self, b: Self) {
    }

    proof fn le_antisymmetric(a: Self, b: Self) {
    }

    proof fn le_transitive(a: Self, b: Self, c: Self) {
    }

    fn le(&self, other: &Self) -> (r: bool) {
        *self <= *other
    }
}

impl TotalOrd for i64 {
    open spec fn le_spec(self, other: Self) -> bool {
        self <= other
    }

    proof fn le_total(a: Self, b: Self) {
    }

    proof fn le_antisymmetric(a: Self, b: Self) {
    }

    proof fn le_transitive(a: Self, b: Self, c: Self) {
    }

    fn le(&self, other: &Self) -> (r: bool) {
        *self <= *other
    }
}

} // verus!
