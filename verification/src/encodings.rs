//! The per-residue feature-encoding schemes.
//!
//! Each scheme maps one residue symbol to three normalized physicochemical
//! values through its lookup tables.  The tables and the floating-point
//! normalization live in the surrounding application; the library only
//! needs to know which scheme a model's vectors assume.

use vstd::prelude::*;

verus! {

/// The interchangeable per-residue encoding schemes.
#[derive(Debug, Clone, Copy, PartialEq, Eq, Structural)]
pub enum FeatureEncoding {
    Blin,
    Rausch,
    Wold,
}

} // verus!
