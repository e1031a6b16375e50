use vstd::prelude::*;

verus! {

use vstd::arithmetic::power2::{pow2, lemma2_to64, lemma_pow2_strictly_increases};
use vstd::bits::lemma_u64_shl_is_mul;
use crate::field::{Field, delin_x, delin_y, delin_z};
use crate::analysis::lemma_delin_bounds;

// The terrain generator classifies every cell of a chunk into a material from
// a per-column height map sampled in world space. Occupancy is "not air";
// colour is a pure function of the material. Heights and thresholds are whole
// world-space units.

/// Highest world-space height that still reads as water.
pub const WATER_LEVEL: i64 = 1;

/// Highest world-space height that still reads as sand.
pub const SAND_LEVEL: i64 = 4;

/// Per-cell material classification.
#[derive(Clone, Copy, PartialEq, Eq, Structural, Debug)]
pub enum Material {
    Air,
    Water,
    Sand,
    Grass,
}

/// Material of a cell at world height `z` in a column of surface height `h`.
pub open spec fn material_spec(z: int, h: int) -> Material {
    if z > h {
        Material::Air
    } else if z <= WATER_LEVEL {
        Material::Water
    } else if z <= SAND_LEVEL {
        Material::Sand
    } else {
        Material::Grass
    }
}

pub fn material_at(z: i64, h: i64) -> (m: Material)
    ensures
        m == material_spec(z as int, h as int),
{
    if z > h {
        Material::Air
    } else if z <= WATER_LEVEL {
        Material::Water
    } else if z <= SAND_LEVEL {
        Material::Sand
    } else {
        Material::Grass
    }
}

pub open spec fn is_solid(m: Material) -> bool {
    m != Material::Air
}

pub fn solid(m: Material) -> (b: bool)
    ensures
        b == is_solid(m),
{
    match m {
        Material::Air => false,
        _ => true,
    }
}

/// A colour packed into one `u32`: red in the low byte, then green, then blue.
pub open spec fn pack_spec(r: u32, g: u32, b: u32) -> u32 {
    r | (g << 8) | (b << 16)
}

pub fn pack(r: u32, g: u32, b: u32) -> (c: u32)
    requires
        r < 256,
        g < 256,
        b < 256,
    ensures
        c == pack_spec(r, g, b),
{
    r | (g << 8) | (b << 16)
}

/// Pack one colour from its byte channels.
pub fn rgb(r: u8, g: u8, b: u8) -> (c: u32)
    ensures
        c == pack_spec(r as u32, g as u32, b as u32),
{
    pack(r as u32, g as u32, b as u32)
}

/// The colour of each material.
pub open spec fn color_spec(m: Material) -> u32 {
    match m {
        Material::Air => 0,
        Material::Water => pack_spec(51, 51, 255),
        Material::Sand => pack_spec(194, 178, 128),
        Material::Grass => pack_spec(91, 135, 49),
    }
}

pub fn color_of(m: Material) -> (c: u32)
    ensures
        c == color_spec(m),
{
    match m {
        Material::Air => 0,
        Material::Water => rgb(51, 51, 255),
        Material::Sand => rgb(194, 178, 128),
        Material::Grass => rgb(91, 135, 49),
    }
}

/// World-space coordinate of a chunk-local coordinate: every level of detail
/// of the same region samples the same underlying world points, because the
/// local lattice is scaled by `2^lod` before the chunk origin is added.
pub open spec fn world_coord(local: int, lod: nat, origin: int) -> int {
    local * pow2(lod) + origin
}

/// Largest chunk origin magnitude the generator accepts.
pub const MAX_ORIGIN: i64 = 0x1000_0000_0000;

pub fn world_of(local: usize, lod: usize, origin: i64) -> (w: i64)
    requires
        lod <= 6,
        local <= 1024,
        -MAX_ORIGIN <= origin <= MAX_ORIGIN,
    ensures
        w == world_coord(local as int, lod as nat, origin as int),
{
    proof {
        lemma2_to64();
        if lod < 6 {
            lemma_pow2_strictly_increases(lod as nat, 6);
        }
        lemma_u64_shl_is_mul(1u64, lod as u64);
    }
    let s = 1u64 << lod;
    proof {
        assert(local * s <= 1024 * 64) by (nonlinear_arith)
            requires
                local <= 1024,
                s <= 64,
        ;
    }
    (local as u64 * s) as i64 + origin
}

/// Per-column surface heights of one chunk, in world-space units: a square
/// grid of `extent^2` columns stored row-major.
pub struct HeightMap {
    heights: Vec<i64>,
    extent: usize,
}

impl HeightMap {
    /// The flat column buffer, in row-major order.
    pub closed spec fn columns(self) -> Seq<i64> {
        self.heights@
    }

    /// Number of columns along each axis.
    pub closed spec fn ext(self) -> int {
        self.extent as int
    }

    pub open spec fn wf(self) -> bool {
        &&& self.columns().len() == self.ext() * self.ext()
        &&& 0 <= self.ext() <= 1024
    }

    /// The surface height of column `(x, y)`.
    pub open spec fn at_spec(self, x: int, y: int) -> int {
        self.columns()[x * self.ext() + y] as int
    }

    pub fn from_data(heights: Vec<i64>, extent: usize) -> (r: HeightMap)
        requires
            extent <= 1024,
            heights@.len() == extent * extent,
        ensures
            r.wf(),
            r.ext() == extent,
            r.columns() == heights@,
    {
        HeightMap { heights, extent }
    }

    pub fn extent(&self) -> (e: usize)
        ensures
            e == self.ext(),
    {
        self.extent
    }

    pub fn at(&self, x: usize, y: usize) -> (h: i64)
        requires
            self.wf(),
            x < self.ext(),
            y < self.ext(),
        ensures
            h == self.at_spec(x as int, y as int),
    {
        proof {
            assert(x * self.extent + y < self.extent * self.extent && self.extent * self.extent
                <= 0x10_0000) by (nonlinear_arith)
                requires
                    x < self.extent,
                    y < self.extent,
                    self.extent <= 1024,
            ;
        }
        self.heights[x * self.extent + y]
    }
}

/// Whether the cell `(x, y, z)` of a chunk is occupied: its world-space
/// height is at or below the surface height of its column.
pub open spec fn occ_cell(hs: Seq<i64>, e: int, lod: nat, oz: int, x: int, y: int, z: int) -> bool {
    is_solid(material_spec(world_coord(z, lod, oz), hs[x * e + y] as int))
}

/// The occupancy of every cell of a chunk, in row-major order.
pub open spec fn occ_contents(hs: Seq<i64>, e: int, lod: nat, oz: int) -> Seq<bool> {
    Seq::new(
        (e * e * e) as nat,
        |n: int| occ_cell(hs, e, lod, oz, delin_x(e, n), delin_y(e, n), delin_z(e, n)),
    )
}

/// The colour of the cell `(x, y, z)` of a chunk.
pub open spec fn color_cell(hs: Seq<i64>, e: int, lod: nat, oz: int, x: int, y: int, z: int) -> u32 {
    color_spec(material_spec(world_coord(z, lod, oz), hs[x * e + y] as int))
}

/// The colour of every cell of a chunk, in row-major order.
pub open spec fn color_contents(hs: Seq<i64>, e: int, lod: nat, oz: int) -> Seq<u32> {
    Seq::new(
        (e * e * e) as nat,
        |n: int| color_cell(hs, e, lod, oz, delin_x(e, n), delin_y(e, n), delin_z(e, n)),
    )
}

/// Derive the occupancy field of a chunk from its height map.
pub fn occupancy(heights: &HeightMap, lod: usize, oz: i64) -> (r: Field<bool>)
    requires
        heights.wf(),
        lod <= 6,
        -MAX_ORIGIN <= oz <= MAX_ORIGIN,
    ensures
        r.wf(),
        r.ext() == heights.ext(),
        r.contents() == occ_contents(heights.columns(), heights.ext(), lod as nat, oz as int),
{
    let e = heights.extent();
    let hs: Ghost<Seq<i64>> = Ghost(heights.columns());
    let ghost ei = heights.ext();
    let cl = |x: usize, y: usize, z: usize| -> (v: bool)
        requires
            x < ei && y < ei && z < ei,
            lod <= 6,
            -MAX_ORIGIN <= oz <= MAX_ORIGIN,
        ensures
            v == occ_cell(hs@, ei, lod as nat, oz as int, x as int, y as int, z as int),
        {
            let w = world_of(z, lod, oz);
            let h = heights.at(x, y);
            solid(material_at(w, h))
        };
    let r = Field::new(e, cl);
    proof {
        let want = occ_contents(hs@, ei, lod as nat, oz as int);
        assert forall|n: int| 0 <= n < r.contents().len() implies r.contents()[n] == want[n] by {
            lemma_delin_bounds(ei, n);
            let x = delin_x(ei, n);
            let y = delin_y(ei, n);
            let z = delin_z(ei, n);
            assert(r.in_bounds(x, y, z));
            assert(call_ensures(cl, (x as usize, y as usize, z as usize), r.at_spec(x, y, z)));
        }
        assert(r.contents() =~= want);
    }
    r
}

/// Derive the colour field of a chunk from its height map.
pub fn colors(heights: &HeightMap, lod: usize, oz: i64) -> (r: Field<u32>)
    requires
        heights.wf(),
        lod <= 6,
        -MAX_ORIGIN <= oz <= MAX_ORIGIN,
    ensures
        r.wf(),
        r.ext() == heights.ext(),
        r.contents() == color_contents(heights.columns(), heights.ext(), lod as nat, oz as int),
{
    let e = heights.extent();
    let hs: Ghost<Seq<i64>> = Ghost(heights.columns());
    let ghost ei = heights.ext();
    let cl = |x: usize, y: usize, z: usize| -> (v: u32)
        requires
            x < ei && y < ei && z < ei,
            lod <= 6,
            -MAX_ORIGIN <= oz <= MAX_ORIGIN,
        ensures
            v == color_cell(hs@, ei, lod as nat, oz as int, x as int, y as int, z as int),
        {
            let w = world_of(z, lod, oz);
            let h = heights.at(x, y);
            color_of(material_at(w, h))
        };
    let r = Field::new(e, cl);
    proof {
        let want = color_contents(hs@, ei, lod as nat, oz as int);
        assert forall|n: int| 0 <= n < r.contents().len() implies r.contents()[n] == want[n] by {
            lemma_delin_bounds(ei, n);
            let x = delin_x(ei, n);
            let y = delin_y(ei, n);
            let z = delin_z(ei, n);
            assert(r.in_bounds(x, y, z));
            assert(call_ensures(cl, (x as usize, y as usize, z as usize), r.at_spec(x, y, z)));
        }
        assert(r.contents() =~= want);
    }
    r
}

/// Level-of-detail consistency of sampling: the material a world point is
/// classified as depends only on the world point and its column height, so a
/// cell of a coarse chunk and the cell of a fine chunk that cover the same
/// world point with the same column height agree.
pub proof fn lemma_lod_sampling_consistent(
    hs1: Seq<i64>,
    hs2: Seq<i64>,
    e1: int,
    e2: int,
    lod1: nat,
    lod2: nat,
    oz: int,
    x1: int,
    y1: int,
    z1: int,
    x2: int,
    y2: int,
    z2: int,
)
    requires
        0 <= x1 * e1 + y1 < hs1.len(),
        0 <= x2 * e2 + y2 < hs2.len(),
        world_coord(z1, lod1, oz) == world_coord(z2, lod2, oz),
        hs1[x1 * e1 + y1] == hs2[x2 * e2 + y2],
    ensures
        occ_cell(hs1, e1, lod1, oz, x1, y1, z1) == occ_cell(hs2, e2, lod2, oz, x2, y2, z2),
        color_cell(hs1, e1, lod1, oz, x1, y1, z1) == color_cell(hs2, e2, lod2, oz, x2, y2, z2),
{
}

} // verus!
