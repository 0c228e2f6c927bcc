//! The capability that a symbol type has to offer.

use vstd::prelude::*;

verus! {

/// A symbol type: every symbol stands for one integer code, and distinct
/// symbols stand for distinct codes. The order of the alphabet is the order
/// of the codes.
pub trait Alphabet: Sized {
    /// The code that identifies the symbol.
    spec fn code(&self) -> u64;

    /// Two symbols with the same code are the same symbol.
    proof fn code_is_injective(a: &Self, b: &Self)
        requires
            a.code() == b.code(),
        ensures
            *a == *b,
    ;

    /// The code as a machine integer.
    fn key(&self) -> (k: u64)
        ensures
            k == self.code(),
    ;

    /// A copy of the symbol.
    fn duplicate(&self) -> (s: Self)
        ensures
            s == *self,
    ;
}

impl Alphabet for u8 {
    open spec fn code(&self) -> u64 {
        *self as u64
    }

    proof fn code_is_injective(a: &Self, b: &Self) {
    }

    fn key(&self) -> (k: u64) {
        *self as u64
    }

    fn duplicate(&self) -> (s: Self) {
        *self
    }
}

impl Alphabet for u16 {
    open spec fn code(&self) -> u64 {
        *self as u64
    }

    proof fn code_is_injective(a: &Self, b: &Self) {
    }

    fn key(&self) -> (k: u64) {
        *self as u64
    }

    fn duplicate(&self) -> (s: Self) {
        *self
    }
}

impl Alphabet for u32 {
    open spec fn code(&self) -> u64 {
        *self as u64
    }

    proof fn code_is_injective(a: &Self, b: &Self) {
    }

    fn key(&self) -> (k: u64) {
        *self as u64
    }

    fn duplicate(&self) -> (s: Self) {
        *self
    }
}

impl Alphabet for u64 {
    open spec fn code(&self) -> u64 {
        *self as u64
    }

    proof fn code_is_injective(a: &Self, b: &Self) {
    }

    fn key(&self) -> (k: u64) {
        *self
    }

    fn duplicate(&self) -> (s: Self) {
        *self
    }
}

impl Alphabet for usize {
    open spec fn code(&self) -> u64 {
        *self as u64
    }

    proof fn code_is_injective(a: &Self, b: &Self) {
    }

    fn key(&self) -> (k: u64) {
        *self as u64
    }

    fn duplicate(&self) -> (s: Self) {
        *self
    }
}

} // verus!
