//! Cauchy erasure coding over GF(2^8).
//!
//! Given `k` equal-sized data blocks, the encoder produces `m` recovery
//! blocks as GF(256) linear combinations of the data, using a Cauchy
//! coding matrix; the decoder reconstructs the `k` original data blocks
//! from any `k` surviving blocks (data or recovery), each tagged with its
//! row index in `[0, k + m)`.

use vstd::prelude::*;

pub mod codec;
pub mod gf256;
pub mod matrix;

verus! {

/// Ways an encode or decode call can fail.
///
/// The first three are contract violations, detected before any field
/// computation; `DivideByZero` is raised by the field operations themselves;
/// `SingularSystem` reports a decode whose supplied rows do not determine
/// the data (for example, duplicate row tags).
#[derive(Clone, Copy, Debug, PartialEq, Eq, Structural)]
pub enum Error {
    /// Block count out of bounds: `k == 0`, `k > max_k`, `k + m > 256`,
    /// or a decode call whose block slice is not exactly `k` long.
    InvalidBlockCount,
    /// Block sizes differ within one call, or the common size is zero or
    /// not a multiple of the word size (8 bytes).
    InconsistentBlockSize,
    /// A decode row tag lies outside `[0, k + m)`.
    InvalidRowIndex,
    /// Division or inversion of the zero field element.
    DivideByZero,
    /// The linear system assembled for decode has no unique solution.
    SingularSystem,
}

} // verus!
