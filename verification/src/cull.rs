use vstd::prelude::*;

verus! {

// Visibility culling. Per chunk, the renderer extracts five clip-space
// half-planes from the combined model-view-projection matrix: left, right,
// bottom, top and near. There is no far plane, because the far extent is
// already bounded by the generation radius. A chunk is culled only when some
// single plane has all eight corners of its axis-aligned bounding box on the
// non-positive side; the test is conservative and never rejects a chunk any
// part of which lies strictly inside the frustum.

/// One half-space in homogeneous coordinates: the set of points `(x, y, z)`
/// with `a*x + b*y + c*z + d > 0`.
#[derive(Clone, Copy, PartialEq, Eq, Structural, Debug)]
pub struct Plane {
    pub a: i64,
    pub b: i64,
    pub c: i64,
    pub d: i64,
}

/// Largest plane coefficient magnitude the culling test accepts.
pub const MAX_COEFF: i64 = 0x2000_0000;

/// Largest bounding-box extent the culling test accepts.
pub const MAX_BOX: i64 = 0x2000_0000;

pub open spec fn plane_in_range(p: Plane) -> bool {
    &&& -MAX_COEFF <= p.a <= MAX_COEFF
    &&& -MAX_COEFF <= p.b <= MAX_COEFF
    &&& -MAX_COEFF <= p.c <= MAX_COEFF
    &&& -MAX_COEFF <= p.d <= MAX_COEFF
}

/// Signed distance (up to scale) of a point from a plane.
pub open spec fn plane_dot(p: Plane, x: int, y: int, z: int) -> int {
    p.a * x + p.b * y + p.c * z + p.d
}

/// Whether every corner of the box `[0, m]^3` lies on the non-positive side
/// of the plane.
pub open spec fn box_outside_plane(p: Plane, m: int) -> bool {
    &&& plane_dot(p, 0, 0, 0) <= 0
    &&& plane_dot(p, m, 0, 0) <= 0
    &&& plane_dot(p, 0, m, 0) <= 0
    &&& plane_dot(p, m, m, 0) <= 0
    &&& plane_dot(p, 0, 0, m) <= 0
    &&& plane_dot(p, m, 0, m) <= 0
    &&& plane_dot(p, 0, m, m) <= 0
    &&& plane_dot(p, m, m, m) <= 0
}

/// Whether the chunk survives culling: no plane of the frustum has the whole
/// bounding box on its non-positive side.
pub open spec fn chunk_visible(planes: Seq<Plane>, m: int) -> bool {
    forall|i: int| 0 <= i < planes.len() ==> !box_outside_plane(#[trigger] planes[i], m)
}

fn dot(p: &Plane, x: i64, y: i64, z: i64) -> (r: i64)
    requires
        plane_in_range(*p),
        0 <= x <= MAX_BOX,
        0 <= y <= MAX_BOX,
        0 <= z <= MAX_BOX,
    ensures
        r == plane_dot(*p, x as int, y as int, z as int),
{
    proof {
        assert(-0x1000_0000_0000_0000 <= p.a * x <= 0x1000_0000_0000_0000 && -0x1000_0000_0000_0000
            <= p.b * y <= 0x1000_0000_0000_0000 && -0x1000_0000_0000_0000 <= p.c * z
            <= 0x1000_0000_0000_0000) by (nonlinear_arith)
            requires
                -0x2000_0000 <= p.a <= 0x2000_0000,
                -0x2000_0000 <= p.b <= 0x2000_0000,
                -0x2000_0000 <= p.c <= 0x2000_0000,
                0 <= x <= 0x2000_0000,
                0 <= y <= 0x2000_0000,
                0 <= z <= 0x2000_0000,
        ;
    }
    p.a * x + p.b * y + p.c * z + p.d
}

/// Whether every corner of the box `[0, m]^3` is on the non-positive side of
/// the plane.
pub fn box_fully_outside(p: &Plane, m: i64) -> (r: bool)
    requires
        plane_in_range(*p),
        0 <= m <= MAX_BOX,
    ensures
        r == box_outside_plane(*p, m as int),
{
    dot(p, 0, 0, 0) <= 0 && dot(p, m, 0, 0) <= 0 && dot(p, 0, m, 0) <= 0 && dot(p, m, m, 0) <= 0
        && dot(p, 0, 0, m) <= 0 && dot(p, m, 0, m) <= 0 && dot(p, 0, m, m) <= 0 && dot(p, m, m, m)
        <= 0
}

/// Test one chunk's bounding box against the frustum planes: the chunk is
/// rendered unless some plane has all eight corners on its non-positive
/// side.
pub fn is_visible(planes: &Vec<Plane>, m: i64) -> (r: bool)
    requires
        forall|i: int| 0 <= i < planes@.len() ==> plane_in_range(#[trigger] planes@[i]),
        0 <= m <= MAX_BOX,
    ensures
        r == chunk_visible(planes@, m as int),
{
    let n = planes.len();
    let mut i: usize = 0;
    while i < n
        invariant
            i <= n,
            n == planes@.len(),
            0 <= m <= MAX_BOX,
            forall|j: int| 0 <= j < n ==> plane_in_range(#[trigger] planes@[j]),
            forall|j: int| 0 <= j < i ==> !box_outside_plane(#[trigger] planes@[j], m as int),
        decreases n - i,
    {
        if box_fully_outside(&planes[i], m) {
            return false;
        }
        i += 1;
    }
    true
}

/// Statistics of one culling pass.
#[derive(Clone, Copy, PartialEq, Eq, Structural, Debug, Default)]
pub struct RenderStats {
    pub chunk_count: usize,
}

/// Cull a batch of chunks: for each chunk its five frustum planes in its own
/// model space, and the extent of its bounding box. Returns one flag per
/// chunk and the number of chunks that survived.
pub fn cull(chunk_planes: &Vec<Vec<Plane>>, m: i64) -> (r: (Vec<bool>, RenderStats))
    requires
        forall|i: int, j: int|
            0 <= i < chunk_planes@.len() && 0 <= j < chunk_planes@[i]@.len() ==> plane_in_range(
                #[trigger] chunk_planes@[i]@[j],
            ),
        0 <= m <= MAX_BOX,
    ensures
        r.0@.len() == chunk_planes@.len(),
        forall|i: int|
            0 <= i < chunk_planes@.len() ==> r.0@[i] == chunk_visible(
                #[trigger] chunk_planes@[i]@,
                m as int,
            ),
        r.1.chunk_count <= chunk_planes@.len(),
{
    let n = chunk_planes.len();
    let mut flags: Vec<bool> = Vec::new();
    let mut count: usize = 0;
    let mut i: usize = 0;
    while i < n
        invariant
            i <= n,
            n == chunk_planes@.len(),
            0 <= m <= MAX_BOX,
            forall|a: int, b: int|
                0 <= a < n && 0 <= b < chunk_planes@[a]@.len() ==> plane_in_range(
                    #[trigger] chunk_planes@[a]@[b],
                ),
            flags@.len() == i,
            count <= i,
            forall|a: int|
                0 <= a < i ==> flags@[a] == chunk_visible(#[trigger] chunk_planes@[a]@, m as int),
        decreases n - i,
    {
        let v = is_visible(&chunk_planes[i], m);
        if v {
            count += 1;
        }
        flags.push(v);
        i += 1;
    }
    (flags, RenderStats { chunk_count: count })
}

/// Conservativeness of the culling test: if any point of the bounding box
/// lies strictly inside every frustum plane, the chunk is never culled. In
/// particular a chunk whose box contains the camera position is rendered
/// whenever the camera is strictly inside its own frustum; a camera lying
/// exactly on one of its frustum planes is the one boundary case left out.
pub proof fn lemma_cull_conservative(planes: Seq<Plane>, m: int, px: int, py: int, pz: int)
    requires
        0 <= px <= m,
        0 <= py <= m,
        0 <= pz <= m,
        forall|i: int| 0 <= i < planes.len() ==> plane_dot(#[trigger] planes[i], px, py, pz) > 0,
    ensures
        chunk_visible(planes, m),
{
    assert forall|i: int| 0 <= i < planes.len() implies !box_outside_plane(
        #[trigger] planes[i],
        m,
    ) by {
        let p = planes[i];
        let cx: int = if p.a >= 0 {
            m
        } else {
            0
        };
        let cy: int = if p.b >= 0 {
            m
        } else {
            0
        };
        let cz: int = if p.c >= 0 {
            m
        } else {
            0
        };
        assert(plane_dot(p, cx, cy, cz) >= plane_dot(p, px, py, pz)) by (nonlinear_arith)
            requires
                0 <= px <= m,
                0 <= py <= m,
                0 <= pz <= m,
                cx == (if p.a >= 0 {
                    m
                } else {
                    0
                }),
                cy == (if p.b >= 0 {
                    m
                } else {
                    0
                }),
                cz == (if p.c >= 0 {
                    m
                } else {
                    0
                }),
        ;
        assert(plane_dot(p, cx, cy, cz) > 0);
    }
}

} // verus!
