use vstd::prelude::*;

verus! {

/// Largest magnitude that a vector component may have.
pub open spec fn component_bound() -> int {
    32768
}

/// The element types a `Vector` may hold: small integers whose products and
/// sums stay exact in machine arithmetic.
pub trait Numeric: Copy + core::fmt::Debug {
    /// The mathematical value of the component.
    spec fn value(&self) -> int;

    /// Every component lies within `component_bound()`.
    proof fn lemma_bounded(&self)
        ensures
            -component_bound() <= self.value() <= component_bound(),
    ;

    /// The component widened to an `i64` without change of value.
    fn widen(&self) -> (r: i64)
        ensures
            r as int == self.value(),
    ;
}

impl Numeric for i8 {
    open spec fn value(&self) -> int {
        *self as int
    }

    proof fn lemma_bounded(&self) {
    }

    fn widen(&self) -> (r: i64) {
        *self as i64
    }
}

impl Numeric for u8 {
    open spec fn value(&self) -> int {
        *self as int
    }

    proof fn lemma_bounded(&self) {
    }

    fn widen(&self) -> (r: i64) {
        *self as i64
    }
}

impl Numeric for i16 {
    open spec fn value(&self) -> int {
        *self as int
    }

    proof fn lemma_bounded(&self) {
    }

    fn widen(&self) -> (r: i64) {
        *self as i64
    }
}

} // verus!
