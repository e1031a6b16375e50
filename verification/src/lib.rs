//! A chunked voxel terrain pipeline: dense cubical fields with neighbourhood
//! and visibility analysis, an integer terrain classifier driven by
//! per-column height maps, a culled mesh builder that emits only exposed
//! cube faces, a streaming manager that turns viewer movement into
//! prioritised generation work, and a conservative frustum-culling test.
//! Every function carries a contract that pins its result down, so chunk
//! generation is provably a pure function of its inputs.

pub mod analysis;
pub mod bits;
pub mod chunk;
pub mod cull;
pub mod field;
pub mod keymap;
pub mod mesh;
pub mod stream;
pub mod terrain;
pub mod util;

use vstd::prelude::*;

verus! {

/// Number of voxels along one edge of a full-resolution chunk, as an exponent.
pub const K: usize = 6;

/// Number of voxels along one edge of a full-resolution chunk: `2^K`.
pub const N: usize = 64;

/// The chunk edge length is the power of two named by `K`.
pub proof fn lemma_extent_exponent()
    ensures
        N == (1usize << K),
        N as nat == vstd::arithmetic::power2::pow2(K as nat),
{
    assert((1usize << 6usize) == 64) by (bit_vector);
    vstd::arithmetic::power2::lemma2_to64();
}

} // verus!
