use vstd::prelude::*;

verus! {

use crate::bits::{bit8, test_bit8, VIS_XP, VIS_XN, VIS_YP, VIS_YN, VIS_ZP, VIS_ZN};
use crate::field::{Field, lin, delin_x, delin_y, delin_z, lemma_lin_delin};

// The mesh builder walks the shell occupancy and visibility fields and emits
// only exposed cube faces: for every occupied cell, for every face flagged
// visible, two triangles of three vertices each, tagged with a per-face flat
// normal and the cell's packed colour. Vertex emission follows the row-major
// coordinate enumeration order, so output is reproducible for equal inputs.
// Positions and normals live on the integer unit-cube lattice; the placement
// transform maps the local lattice into world space.

/// One emitted vertex: a lattice position, a flat face normal and a packed
/// colour.
#[derive(Clone, Copy, PartialEq, Eq, Structural, Debug)]
pub struct Vertex {
    pub px: i64,
    pub py: i64,
    pub pz: i64,
    pub nx: i64,
    pub ny: i64,
    pub nz: i64,
    pub color: u32,
}

/// Rigid placement of a chunk's local lattice in world space: a translation
/// and a uniform scale, with no rotation.
#[derive(Clone, Copy, PartialEq, Eq, Structural, Debug)]
pub struct Placement {
    pub tx: i64,
    pub ty: i64,
    pub tz: i64,
    pub scale: u64,
}

/// A built chunk mesh: the flat vertex buffer plus its placement.
pub struct VoxelMesh {
    pub vertices: Vec<Vertex>,
    pub symmetry: Placement,
}

/// Coordinates of corner `c` of the unit cube: bit 0 of `c` selects x,
/// bit 1 selects y, bit 2 selects z.
pub open spec fn corner_x(c: int) -> int {
    if c == 1 || c == 3 || c == 5 || c == 7 {
        1
    } else {
        0
    }
}

pub open spec fn corner_y(c: int) -> int {
    if c == 2 || c == 3 || c == 6 || c == 7 {
        1
    } else {
        0
    }
}

pub open spec fn corner_z(c: int) -> int {
    if c == 4 || c == 5 || c == 6 || c == 7 {
        1
    } else {
        0
    }
}

/// The six cube-corner indices of the two triangles of a face, in emission
/// order. Faces are emitted in slot order -X, +X, -Y, +Y, -Z, +Z.
pub open spec fn face_corners(slot: int) -> Seq<int> {
    if slot == 0 {
        seq![6, 2, 0, 6, 0, 4]
    } else if slot == 1 {
        seq![5, 1, 3, 5, 3, 7]
    } else if slot == 2 {
        seq![4, 0, 1, 4, 1, 5]
    } else if slot == 3 {
        seq![7, 3, 2, 7, 2, 6]
    } else if slot == 4 {
        seq![0, 2, 3, 0, 3, 1]
    } else {
        seq![4, 5, 7, 4, 7, 6]
    }
}

/// The visibility-mask bit that gates the face of emission slot `slot`.
pub open spec fn face_vis_index(slot: int) -> u32 {
    if slot == 0 {
        VIS_XN
    } else if slot == 1 {
        VIS_XP
    } else if slot == 2 {
        VIS_YN
    } else if slot == 3 {
        VIS_YP
    } else if slot == 4 {
        VIS_ZN
    } else {
        VIS_ZP
    }
}

/// The flat normal of the face of emission slot `slot`: the cross product of
/// two edge vectors of the unit-cube face, which is a unit axis vector.
pub open spec fn face_normal(slot: int) -> (int, int, int) {
    if slot == 0 {
        (1, 0, 0)
    } else if slot == 1 {
        (-1, 0, 0)
    } else if slot == 2 {
        (0, 1, 0)
    } else if slot == 3 {
        (0, -1, 0)
    } else if slot == 4 {
        (0, 0, 1)
    } else {
        (0, 0, -1)
    }
}

/// Vertex `k` of the face of emission slot `slot` of the cell `(x, y, z)`.
pub open spec fn face_vertex(x: int, y: int, z: int, slot: int, k: int, col: u32) -> Vertex {
    let c = face_corners(slot)[k];
    Vertex {
        px: (x + corner_x(c)) as i64,
        py: (y + corner_y(c)) as i64,
        pz: (z + corner_z(c)) as i64,
        nx: face_normal(slot).0 as i64,
        ny: face_normal(slot).1 as i64,
        nz: face_normal(slot).2 as i64,
        color: col,
    }
}

/// The six vertices of one face.
pub open spec fn face_vertices(x: int, y: int, z: int, slot: int, col: u32) -> Seq<Vertex> {
    Seq::new(6, |k: int| face_vertex(x, y, z, slot, k, col))
}

/// The vertices emitted for the first `s` face slots of one cell.
pub open spec fn cell_vertices_upto(vis: u8, x: int, y: int, z: int, col: u32, s: nat) -> Seq<
    Vertex,
>
    decreases s,
{
    if s == 0 {
        Seq::empty()
    } else {
        cell_vertices_upto(vis, x, y, z, col, (s - 1) as nat) + (if bit8(
            vis,
            face_vis_index(s - 1),
        ) {
            face_vertices(x, y, z, (s - 1) as int, col)
        } else {
            Seq::empty()
        })
    }
}

/// The vertices emitted for one cell: its visible faces if it is occupied,
/// nothing otherwise.
pub open spec fn cell_vertices(occupied: bool, vis: u8, x: int, y: int, z: int, col: u32) -> Seq<
    Vertex,
> {
    if occupied {
        cell_vertices_upto(vis, x, y, z, col, 6)
    } else {
        Seq::empty()
    }
}

/// The vertices emitted for the first `n` cells in row-major order.
pub open spec fn mesh_vertices_upto(
    mask: Seq<bool>,
    vis: Seq<u8>,
    col: Seq<u32>,
    e: int,
    n: nat,
) -> Seq<Vertex>
    decreases n,
{
    if n == 0 {
        Seq::empty()
    } else {
        let m = (n - 1) as int;
        mesh_vertices_upto(mask, vis, col, e, (n - 1) as nat) + cell_vertices(
            mask[m],
            vis[m],
            delin_x(e, m),
            delin_y(e, m),
            delin_z(e, m),
            col[m],
        )
    }
}

/// The whole vertex buffer of a chunk mesh.
pub open spec fn mesh_vertices(mask: Seq<bool>, vis: Seq<u8>, col: Seq<u32>, e: int) -> Seq<
    Vertex,
> {
    mesh_vertices_upto(mask, vis, col, e, (e * e * e) as nat)
}

fn corner_exec(c: u32) -> (r: (i64, i64, i64))
    requires
        c < 8,
    ensures
        r.0 == corner_x(c as int),
        r.1 == corner_y(c as int),
        r.2 == corner_z(c as int),
{
    (
        if c == 1 || c == 3 || c == 5 || c == 7 {
            1
        } else {
            0
        },
        if c == 2 || c == 3 || c == 6 || c == 7 {
            1
        } else {
            0
        },
        if c == 4 || c == 5 || c == 6 || c == 7 {
            1
        } else {
            0
        },
    )
}

fn face_corner_exec(slot: u32, k: u32) -> (c: u32)
    requires
        slot < 6,
        k < 6,
    ensures
        c < 8,
        c as int == face_corners(slot as int)[k as int],
{
    let table: [u32; 6] = if slot == 0 {
        [6, 2, 0, 6, 0, 4]
    } else if slot == 1 {
        [5, 1, 3, 5, 3, 7]
    } else if slot == 2 {
        [4, 0, 1, 4, 1, 5]
    } else if slot == 3 {
        [7, 3, 2, 7, 2, 6]
    } else if slot == 4 {
        [0, 2, 3, 0, 3, 1]
    } else {
        [4, 5, 7, 4, 7, 6]
    };
    table[k as usize]
}

fn face_vis_index_exec(slot: u32) -> (i: u32)
    requires
        slot < 6,
    ensures
        i == face_vis_index(slot as int),
        i < 6,
{
    if slot == 0 {
        VIS_XN
    } else if slot == 1 {
        VIS_XP
    } else if slot == 2 {
        VIS_YN
    } else if slot == 3 {
        VIS_YP
    } else if slot == 4 {
        VIS_ZN
    } else {
        VIS_ZP
    }
}

fn face_normal_exec(slot: u32) -> (r: (i64, i64, i64))
    requires
        slot < 6,
    ensures
        r.0 == face_normal(slot as int).0,
        r.1 == face_normal(slot as int).1,
        r.2 == face_normal(slot as int).2,
{
    if slot == 0 {
        (1, 0, 0)
    } else if slot == 1 {
        (-1, 0, 0)
    } else if slot == 2 {
        (0, 1, 0)
    } else if slot == 3 {
        (0, -1, 0)
    } else if slot == 4 {
        (0, 0, 1)
    } else {
        (0, 0, -1)
    }
}

impl VoxelMesh {
    /// Number of vertices in the buffer.
    pub fn count(&self) -> (n: usize)
        ensures
            n == self.vertices@.len(),
    {
        self.vertices.len()
    }

    /// Build the culled mesh of one chunk: walk the shell occupancy field in
    /// row-major order and emit two triangles for every face flagged visible
    /// of every occupied cell.
    pub fn new(
        mask: &Field<bool>,
        vis: &Field<u8>,
        color: &Field<u32>,
        translation: (i64, i64, i64),
        scale: u64,
    ) -> (r: VoxelMesh)
        requires
            mask.wf(),
            vis.wf(),
            color.wf(),
            vis.ext() == mask.ext(),
            color.ext() == mask.ext(),
        ensures
            r.vertices@ == mesh_vertices(
                mask.contents(),
                vis.contents(),
                color.contents(),
                mask.ext(),
            ),
            r.symmetry.tx == translation.0,
            r.symmetry.ty == translation.1,
            r.symmetry.tz == translation.2,
            r.symmetry.scale == scale,
    {
        let e = mask.extent();
        let ghost ei = mask.ext();
        let ghost gm = mask.contents();
        let ghost gv = vis.contents();
        let ghost gc = color.contents();
        let mut vertices: Vec<Vertex> = Vec::new();
        let mut x: usize = 0;
        while x < e
            invariant
                x <= e,
                mask.wf(),
                vis.wf(),
                color.wf(),
                vis.ext() == mask.ext(),
                color.ext() == mask.ext(),
                e == ei,
                ei == mask.ext(),
                gm == mask.contents(),
                gv == vis.contents(),
                gc == color.contents(),
                vertices@ == mesh_vertices_upto(gm, gv, gc, ei, lin(ei, x as int, 0, 0) as nat),
            decreases e - x,
        {
            let mut y: usize = 0;
            while y < e
                invariant
                    x < e,
                    y <= e,
                    mask.wf(),
                    vis.wf(),
                    color.wf(),
                    vis.ext() == mask.ext(),
                    color.ext() == mask.ext(),
                    e == ei,
                    ei == mask.ext(),
                    gm == mask.contents(),
                    gv == vis.contents(),
                    gc == color.contents(),
                    vertices@ == mesh_vertices_upto(
                        gm,
                        gv,
                        gc,
                        ei,
                        lin(ei, x as int, y as int, 0) as nat,
                    ),
                decreases e - y,
            {
                let mut z: usize = 0;
                while z < e
                    invariant
                        x < e,
                        y < e,
                        z <= e,
                        mask.wf(),
                        vis.wf(),
                        color.wf(),
                        vis.ext() == mask.ext(),
                        color.ext() == mask.ext(),
                        e == ei,
                        ei == mask.ext(),
                        gm == mask.contents(),
                        gv == vis.contents(),
                        gc == color.contents(),
                        vertices@ == mesh_vertices_upto(
                            gm,
                            gv,
                            gc,
                            ei,
                            lin(ei, x as int, y as int, z as int) as nat,
                        ),
                    decreases e - z,
                {
                    proof {
                        lemma_lin_delin(ei, x as int, y as int, z as int);
                    }
                    let ghost n0 = lin(ei, x as int, y as int, z as int);
                    let occupied = *mask.at(x, y, z);
                    let vmask = *vis.at(x, y, z);
                    let col = *color.at(x, y, z);
                    if occupied {
                        let mut slot: u32 = 0;
                        while slot < 6
                            invariant
                                slot <= 6,
                                x < e,
                                y < e,
                                z < e,
                                e <= 1024,
                                vmask == gv[n0],
                                col == gc[n0],
                                vertices@ == mesh_vertices_upto(gm, gv, gc, ei, n0 as nat)
                                    + cell_vertices_upto(
                                    vmask,
                                    x as int,
                                    y as int,
                                    z as int,
                                    col,
                                    slot as nat,
                                ),
                            decreases 6 - slot,
                        {
                            let vi = face_vis_index_exec(slot);
                            if test_bit8(vmask, vi) {
                                let (nxv, nyv, nzv) = face_normal_exec(slot);
                                let ghost base = vertices@;
                                let mut k: u32 = 0;
                                while k < 6
                                    invariant
                                        k <= 6,
                                        x < e,
                                        y < e,
                                        z < e,
                                        e <= 1024,
                                        slot < 6,
                                        nxv == face_normal(slot as int).0,
                                        nyv == face_normal(slot as int).1,
                                        nzv == face_normal(slot as int).2,
                                        vertices@ == base + face_vertices(
                                            x as int,
                                            y as int,
                                            z as int,
                                            slot as int,
                                            col,
                                        ).take(k as int),
                                    decreases 6 - k,
                                {
                                    let c = face_corner_exec(slot, k);
                                    let (cx, cy, cz) = corner_exec(c);
                                    let v = Vertex {
                                        px: x as i64 + cx,
                                        py: y as i64 + cy,
                                        pz: z as i64 + cz,
                                        nx: nxv,
                                        ny: nyv,
                                        nz: nzv,
                                        color: col,
                                    };
                                    vertices.push(v);
                                    proof {
                                        let fv = face_vertices(
                                            x as int,
                                            y as int,
                                            z as int,
                                            slot as int,
                                            col,
                                        );
                                        assert(v == fv[k as int]);
                                        assert(fv.take(k as int + 1) =~= fv.take(k as int).push(
                                            fv[k as int],
                                        ));
                                    }
                                    k += 1;
                                }
                                proof {
                                    let fv = face_vertices(
                                        x as int,
                                        y as int,
                                        z as int,
                                        slot as int,
                                        col,
                                    );
                                    assert(fv.take(6) =~= fv);
                                }
                            }
                            slot += 1;
                        }
                        proof {
                            assert(vertices@ == mesh_vertices_upto(gm, gv, gc, ei, (n0 + 1) as nat));
                        }
                    } else {
                        proof {
                            assert(cell_vertices(gm[n0], gv[n0], x as int, y as int, z as int,
                                gc[n0]) =~= Seq::<Vertex>::empty());
                            assert(vertices@ =~= mesh_vertices_upto(gm, gv, gc, ei, (n0 + 1) as nat));
                        }
                    }
                    z += 1;
                }
                proof {
                    assert(lin(ei, x as int, y as int, ei) == lin(ei, x as int, y as int + 1, 0))
                        by (nonlinear_arith);
                }
                y += 1;
            }
            proof {
                assert(lin(ei, x as int, ei, 0) == lin(ei, x as int + 1, 0, 0))
                    by (nonlinear_arith);
            }
            x += 1;
        }
        proof {
            assert(lin(ei, ei, 0, 0) == ei * ei * ei) by (nonlinear_arith);
        }
        VoxelMesh {
            vertices,
            symmetry: Placement {
                tx: translation.0,
                ty: translation.1,
                tz: translation.2,
                scale,
            },
        }
    }
}

} // verus!
