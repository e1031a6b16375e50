use vstd::prelude::*;

verus! {

use vstd::arithmetic::power2::{
    pow2,
    lemma_pow2_adds,
    lemma_pow2_pos,
    lemma_pow2_strictly_increases,
    lemma2_to64,
};
use vstd::arithmetic::div_mod::lemma_div_multiples_vanish;
use vstd::bits::{lemma_usize_shr_is_div, lemma_u64_shl_is_mul};
use crate::{K, N};
use crate::field::Field;
use crate::analysis::{env_contents, shell_contents, vis_contents};
use crate::terrain::{HeightMap, occ_contents, color_contents, occupancy, colors};
use crate::mesh::{VoxelMesh, Vertex, Placement, mesh_vertices};

// A chunk is one cubical region of world space, generated and meshed as one
// unit. Its level of detail fixes both its voxel extent (`N >> lod`) and the
// world-space size of each voxel (`2^lod`), so the world footprint of a chunk
// is the same at every level of detail.

/// Voxel extent of a chunk at level of detail `lod`.
pub open spec fn lod_extent(lod: nat) -> int {
    64int / pow2(lod) as int
}

/// World-space size of one voxel at level of detail `lod`.
pub open spec fn lod_scale(lod: nat) -> int {
    pow2(lod) as int
}

pub proof fn lemma_lod_extent(lod: nat)
    requires
        lod <= 6,
    ensures
        lod_extent(lod) == pow2((6 - lod) as nat) as int,
        1 <= lod_extent(lod) <= 64,
        lod_extent(lod) * lod_scale(lod) == 64,
        1 <= lod_scale(lod) <= 64,
{
    lemma_pow2_adds(lod, (6 - lod) as nat);
    lemma2_to64();
    lemma_pow2_pos(lod);
    lemma_pow2_pos((6 - lod) as nat);
    vstd::arithmetic::mul::lemma_mul_is_commutative(pow2(lod) as int, pow2((6 - lod) as nat) as int);
    lemma_div_multiples_vanish(pow2((6 - lod) as nat) as int, pow2(lod) as int);
    assert(pow2(lod) * pow2((6 - lod) as nat) == 64);
    assert(lod_extent(lod) == pow2((6 - lod) as nat));
    if lod < 6 {
        lemma_pow2_strictly_increases(lod, 6);
    }
    if lod > 0 {
        lemma_pow2_strictly_increases(0, lod);
    }
}

/// Extent of a chunk's voxel lattice at the given level of detail.
pub fn chunk_extent(lod: usize) -> (e: usize)
    requires
        lod <= K,
    ensures
        e == lod_extent(lod as nat),
        1 <= e <= 64,
{
    proof {
        lemma_usize_shr_is_div(N, lod);
        lemma_lod_extent(lod as nat);
    }
    N >> lod
}

/// Largest chunk-key magnitude the generator accepts.
pub const MAX_KEY: i64 = 0x100_0000;

pub open spec fn key_in_range(key: (i64, i64, i64)) -> bool {
    &&& -MAX_KEY <= key.0 <= MAX_KEY
    &&& -MAX_KEY <= key.1 <= MAX_KEY
    &&& -MAX_KEY <= key.2 <= MAX_KEY
}

/// A generated chunk: the level of detail it was built for, the pruned
/// occupancy shell, the per-cell colour field, and the built mesh with its
/// placement.
pub struct Chunk {
    pub lod: usize,
    pub shell: Field<bool>,
    pub color: Field<u32>,
    pub voxel_mesh: VoxelMesh,
}

/// Everything `Chunk::new` promises: the chunk is the unique pure function of
/// its key, level of detail and height map that the generation pipeline
/// describes.
pub open spec fn chunk_built_from(c: Chunk, key: (i64, i64, i64), lod: nat, hs: Seq<i64>) -> bool {
    let e = lod_extent(lod);
    let oz = 64 * key.2;
    let occ = occ_contents(hs, e, lod, oz);
    let env = env_contents(occ, e);
    let sh = shell_contents(occ, env);
    let vis = vis_contents(env, e);
    let col = color_contents(hs, e, lod, oz);
    &&& c.lod == lod
    &&& c.shell.wf()
    &&& c.shell.ext() == e
    &&& c.shell.contents() == sh
    &&& c.color.wf()
    &&& c.color.ext() == e
    &&& c.color.contents() == col
    &&& c.voxel_mesh.vertices@ == mesh_vertices(sh, vis, col, e)
    &&& c.voxel_mesh.symmetry.tx == 64 * key.0
    &&& c.voxel_mesh.symmetry.ty == 64 * key.1
    &&& c.voxel_mesh.symmetry.tz == oz
    &&& c.voxel_mesh.symmetry.scale == lod_scale(lod)
}

impl Chunk {
    /// Generate and mesh one chunk from its per-column height map. Generation
    /// is a pure function of `(key, lod, heights)` and cannot fail.
    pub fn new(key: (i64, i64, i64), lod: usize, heights: &HeightMap) -> (c: Chunk)
        requires
            lod <= K,
            key_in_range(key),
            heights.wf(),
            heights.ext() == lod_extent(lod as nat),
        ensures
            chunk_built_from(c, key, lod as nat, heights.columns()),
    {
        let ox = (N as i64) * key.0;
        let oy = (N as i64) * key.1;
        let oz = (N as i64) * key.2;
        let occ = occupancy(heights, lod, oz);
        let env = occ.environment();
        let shell = occ.shell(&env);
        let vis = env.visibility();
        let color = colors(heights, lod, oz);
        proof {
            lemma_lod_extent(lod as nat);
            lemma2_to64();
            if lod < 6 {
                lemma_pow2_strictly_increases(lod as nat, 6);
            }
            lemma_u64_shl_is_mul(1u64, lod as u64);
        }
        let scale = 1u64 << lod;
        let voxel_mesh = VoxelMesh::new(&shell, &vis, &color, (ox, oy, oz), scale);
        Chunk { lod, shell, color, voxel_mesh }
    }

    /// The renderable surface of the chunk: its vertex buffer, the vertex
    /// count, and the placement that maps the local lattice into world space.
    pub fn mesh(&self) -> (r: (&Vec<Vertex>, usize, Placement))
        ensures
            r.0@ == self.voxel_mesh.vertices@,
            r.1 == self.voxel_mesh.vertices@.len(),
            r.2 == self.voxel_mesh.symmetry,
    {
        (&self.voxel_mesh.vertices, self.voxel_mesh.vertices.len(), self.voxel_mesh.symmetry)
    }
}

/// Determinism of generation: two chunks built from the same key, level of
/// detail and height map have bit-identical occupancy shells, colours and
/// vertex buffers, and the same placement.
pub proof fn lemma_chunk_deterministic(
    c1: Chunk,
    c2: Chunk,
    key: (i64, i64, i64),
    lod: nat,
    hs: Seq<i64>,
)
    requires
        chunk_built_from(c1, key, lod, hs),
        chunk_built_from(c2, key, lod, hs),
    ensures
        c1.lod == c2.lod,
        c1.shell.contents() == c2.shell.contents(),
        c1.color.contents() == c2.color.contents(),
        c1.voxel_mesh.vertices@ == c2.voxel_mesh.vertices@,
        c1.voxel_mesh.symmetry == c2.voxel_mesh.symmetry,
{
}

/// World-space extent of a chunk's bounding box along each axis.
pub open spec fn world_size(c: Chunk) -> int {
    c.shell.ext() * c.voxel_mesh.symmetry.scale
}

/// Scale invariance across levels of detail: chunks of the same key occupy
/// the same world-space bounding box whatever their level of detail, because
/// the voxel extent shrinks exactly as the voxel size grows.
pub proof fn lemma_lod_scale_invariant(
    c1: Chunk,
    c2: Chunk,
    key: (i64, i64, i64),
    lod1: nat,
    lod2: nat,
    hs1: Seq<i64>,
    hs2: Seq<i64>,
)
    requires
        chunk_built_from(c1, key, lod1, hs1),
        chunk_built_from(c2, key, lod2, hs2),
        lod1 <= 6,
        lod2 <= 6,
    ensures
        c1.voxel_mesh.symmetry.tx == c2.voxel_mesh.symmetry.tx,
        c1.voxel_mesh.symmetry.ty == c2.voxel_mesh.symmetry.ty,
        c1.voxel_mesh.symmetry.tz == c2.voxel_mesh.symmetry.tz,
        world_size(c1) == 64,
        world_size(c2) == 64,
{
    lemma_lod_extent(lod1);
    lemma_lod_extent(lod2);
}

} // verus!
