//! The two supported kernel shapes.  Their floating-point evaluation
//! happens outside the library; here they only carry their parameters.

use vstd::prelude::*;

use crate::decimal::Decimal;

verus! {

/// The linear kernel: the similarity of two vectors is their dot product.
/// It carries no parameters.
#[derive(Debug, Clone, Copy, PartialEq)]
pub struct LinearKernel {}

/// The radial-basis kernel: the similarity of two vectors is
/// `exp(-gamma * squared distance)`.
#[derive(Debug, Clone, Copy, PartialEq)]
pub struct RBFKernel {
    gamma: Decimal,
}

impl RBFKernel {
    /// The kernel's width parameter.
    pub closed spec fn spec_gamma(self) -> Decimal {
        self.gamma
    }

    pub fn new(gamma: Decimal) -> (r: Self)
        ensures
            r.spec_gamma() == gamma,
    {
        RBFKernel { gamma }
    }

    /// The kernel's width parameter.
    pub fn gamma(&self) -> (r: Decimal)
        ensures
            r == self.spec_gamma(),
    {
        self.gamma
    }
}

} // verus!
