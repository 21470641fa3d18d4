//! Sparse matrix-matrix multiplication: coordinate-list and compressed-row
//! data model, Gustavson's row-wise product with a non-zero-count predictor,
//! and the host-side model of a GPU execution pipeline (record codec, buffer
//! sizing, stage machine).

use vstd::prelude::*;

pub mod coo;
pub mod csr;
pub mod dense;
pub mod error;
pub mod gpu;
pub mod laws;
pub mod predict;
pub mod product;
pub mod sparse;
pub mod sums;

verus! {

} // verus!
