use vstd::prelude::*;

verus! {

use vstd::arithmetic::div_mod::{
    lemma_fundamental_div_mod_converse,
    lemma_mod_multiples_vanish,
    lemma_small_mod,
};

/// Largest supported field extent. Keeps every linear index comfortably inside
/// `usize` on all platforms.
pub const MAX_EXTENT: usize = 1024;

/// Row-major linearization of a 3-coordinate into a flat buffer of extent `e`.
pub open spec fn lin(e: int, x: int, y: int, z: int) -> int {
    (x * e + y) * e + z
}

/// First coordinate of the cell at linear index `n`.
pub open spec fn delin_x(e: int, n: int) -> int {
    n / (e * e)
}

/// Second coordinate of the cell at linear index `n`.
pub open spec fn delin_y(e: int, n: int) -> int {
    (n / e) % e
}

/// Third coordinate of the cell at linear index `n`.
pub open spec fn delin_z(e: int, n: int) -> int {
    n % e
}

/// Linearization maps each in-range coordinate to a distinct slot of the
/// buffer, and de-linearization recovers the coordinate.
pub proof fn lemma_lin_delin(e: int, x: int, y: int, z: int)
    requires
        0 < e,
        0 <= x < e,
        0 <= y < e,
        0 <= z < e,
    ensures
        0 <= lin(e, x, y, z) < e * e * e,
        delin_x(e, lin(e, x, y, z)) == x,
        delin_y(e, lin(e, x, y, z)) == y,
        delin_z(e, lin(e, x, y, z)) == z,
{
    let n = lin(e, x, y, z);
    assert(0 <= y * e + z < e * e && n == x * (e * e) + (y * e + z) && 0 <= n < e * e * e)
        by (nonlinear_arith)
        requires
            0 < e,
            0 <= x < e,
            0 <= y < e,
            0 <= z < e,
            n == (x * e + y) * e + z,
    ;
    lemma_fundamental_div_mod_converse(n, e * e, x, y * e + z);
    lemma_fundamental_div_mod_converse(n, e, x * e + y, z);
    lemma_mod_multiples_vanish(x, y, e);
    lemma_small_mod(y as nat, e as nat);
}

/// Dense cubical voxel grid: a flat buffer of `extent^3` cells addressed by a
/// row-major linearization of `(x, y, z)` coordinates. Built once by bulk
/// generation; derived grids are produced by pure mapping.
pub struct Field<T> {
    voxels: Vec<T>,
    extent: usize,
}

impl<T> Field<T> {
    /// The flat cell buffer, in row-major coordinate order.
    pub closed spec fn contents(self) -> Seq<T> {
        self.voxels@
    }

    /// Number of cells along each axis.
    pub closed spec fn ext(self) -> int {
        self.extent as int
    }

    pub open spec fn wf(self) -> bool {
        &&& self.contents().len() == self.ext() * self.ext() * self.ext()
        &&& 0 <= self.ext() <= MAX_EXTENT
    }

    pub open spec fn in_bounds(self, x: int, y: int, z: int) -> bool {
        &&& 0 <= x < self.ext()
        &&& 0 <= y < self.ext()
        &&& 0 <= z < self.ext()
    }

    /// The cell at coordinate `(x, y, z)`.
    pub open spec fn at_spec(self, x: int, y: int, z: int) -> T {
        self.contents()[lin(self.ext(), x, y, z)]
    }

    /// Wrap an already-filled buffer whose length matches the extent.
    pub fn from_data(voxels: Vec<T>, extent: usize) -> (r: Field<T>)
        requires
            extent <= MAX_EXTENT,
            voxels@.len() == extent * extent * extent,
        ensures
            r.wf(),
            r.ext() == extent,
            r.contents() == voxels@,
    {
        Field { voxels, extent }
    }

    pub fn extent(&self) -> (e: usize)
        ensures
            e == self.ext(),
    {
        self.extent
    }

    /// Read one cell. Indexing out of range is a programming error and is
    /// excluded by precondition.
    pub fn at(&self, x: usize, y: usize, z: usize) -> (r: &T)
        requires
            self.wf(),
            self.in_bounds(x as int, y as int, z as int),
        ensures
            *r == self.at_spec(x as int, y as int, z as int),
    {
        proof {
            lemma_lin_delin(self.ext(), x as int, y as int, z as int);
            assert(x * self.extent + y < self.extent * self.extent && (x * self.extent + y)
                * self.extent + z < self.extent * self.extent * self.extent && self.extent
                * self.extent <= 0x4000_0000 && self.extent * self.extent * self.extent
                <= 0x4000_0000) by (nonlinear_arith)
                requires
                    x < self.extent,
                    y < self.extent,
                    z < self.extent,
                    self.extent <= 1024,
            ;
        }
        let i = (x * self.extent + y) * self.extent + z;
        &self.voxels[i]
    }

    /// Read one cell by its linear (row-major) index.
    pub fn at_index(&self, n: usize) -> (r: &T)
        requires
            n < self.contents().len(),
        ensures
            *r == self.contents()[n as int],
    {
        &self.voxels[n]
    }

    /// Build a field of the given extent by evaluating `f` at every coordinate
    /// in row-major (lexicographic) order.
    pub fn new<F: Fn(usize, usize, usize) -> T>(extent: usize, f: F) -> (r: Field<T>)
        requires
            extent <= MAX_EXTENT,
            forall|x: usize, y: usize, z: usize|
                x < extent && y < extent && z < extent ==> call_requires(f, (x, y, z)),
        ensures
            r.wf(),
            r.ext() == extent,
            forall|x: int, y: int, z: int|
                r.in_bounds(x, y, z) ==> call_ensures(
                    f,
                    (x as usize, y as usize, z as usize),
                    #[trigger] r.at_spec(x, y, z),
                ),
    {
        let e = extent;
        let ghost ei = e as int;
        let mut voxels: Vec<T> = Vec::new();
        let mut x: usize = 0;
        while x < e
            invariant
                x <= e,
                e <= MAX_EXTENT,
                voxels@.len() == lin(ei, x as int, 0, 0),
                ei == e as int,
                forall|x0: usize, y0: usize, z0: usize|
                    x0 < e && y0 < e && z0 < e ==> call_requires(f, (x0, y0, z0)),
                forall|n: int|
                    0 <= n < voxels@.len() ==> call_ensures(
                        f,
                        (
                            delin_x(ei, n) as usize,
                            delin_y(ei, n) as usize,
                            delin_z(ei, n) as usize,
                        ),
                        #[trigger] voxels@[n],
                    ),
            decreases e - x,
        {
            let mut y: usize = 0;
            while y < e
                invariant
                    x < e,
                    y <= e,
                    e <= MAX_EXTENT,
                    voxels@.len() == lin(ei, x as int, y as int, 0),
                    ei == e as int,
                    forall|x0: usize, y0: usize, z0: usize|
                        x0 < e && y0 < e && z0 < e ==> call_requires(f, (x0, y0, z0)),
                    forall|n: int|
                        0 <= n < voxels@.len() ==> call_ensures(
                            f,
                            (
                                delin_x(ei, n) as usize,
                                delin_y(ei, n) as usize,
                                delin_z(ei, n) as usize,
                            ),
                            #[trigger] voxels@[n],
                        ),
                decreases e - y,
            {
                let mut z: usize = 0;
                while z < e
                    invariant
                        x < e,
                        y < e,
                        z <= e,
                        e <= MAX_EXTENT,
                        voxels@.len() == lin(ei, x as int, y as int, z as int),
                        ei == e as int,
                        forall|x0: usize, y0: usize, z0: usize|
                            x0 < e && y0 < e && z0 < e ==> call_requires(f, (x0, y0, z0)),
                        forall|n: int|
                            0 <= n < voxels@.len() ==> call_ensures(
                                f,
                                (
                                    delin_x(ei, n) as usize,
                                    delin_y(ei, n) as usize,
                                    delin_z(ei, n) as usize,
                                ),
                                #[trigger] voxels@[n],
                            ),
                    decreases e - z,
                {
                    proof {
                        lemma_lin_delin(ei, x as int, y as int, z as int);
                    }
                    let v = f(x, y, z);
                    voxels.push(v);
                    z += 1;
                }
                proof {
                    assert(lin(ei, x as int, y as int, ei) == lin(ei, x as int, y as int + 1, 0))
                        by (nonlinear_arith);
                }
                y += 1;
            }
            proof {
                assert(lin(ei, x as int, ei, 0) == lin(ei, x as int + 1, 0, 0))
                    by (nonlinear_arith);
            }
            x += 1;
        }
        proof {
            assert(lin(ei, ei, 0, 0) == ei * ei * ei) by (nonlinear_arith);
        }
        let r = Field { voxels, extent };
        proof {
            assert forall|x0: int, y0: int, z0: int| r.in_bounds(x0, y0, z0) implies call_ensures(
                f,
                (x0 as usize, y0 as usize, z0 as usize),
                #[trigger] r.at_spec(x0, y0, z0),
            ) by {
                lemma_lin_delin(ei, x0, y0, z0);
            }
        }
        r
    }

    /// The coordinates of this field in row-major enumeration order.
    pub fn coordinates(&self) -> (r: Vec<(usize, usize, usize)>)
        requires
            self.wf(),
        ensures
            r@.len() == self.ext() * self.ext() * self.ext(),
            forall|x: int, y: int, z: int|
                self.in_bounds(x, y, z) ==> r@[lin(self.ext(), x, y, z)] == (
                    x as usize,
                    y as usize,
                    z as usize,
                ),
    {
        coordinates(self.extent)
    }
}

impl<T: Copy> Field<T> {
    /// Derive a field of equal extent by applying a pure function per cell.
    pub fn map<R, F: Fn(T) -> R>(&self, f: F) -> (r: Field<R>)
        requires
            self.wf(),
            forall|i: int|
                0 <= i < self.contents().len() ==> call_requires(f, (self.contents()[i],)),
        ensures
            r.wf(),
            r.ext() == self.ext(),
            forall|i: int|
                0 <= i < self.contents().len() ==> call_ensures(
                    f,
                    (self.contents()[i],),
                    #[trigger] r.contents()[i],
                ),
    {
        let mut voxels: Vec<R> = Vec::new();
        let n = self.voxels.len();
        let mut i: usize = 0;
        while i < n
            invariant
                i <= n,
                n == self.contents().len(),
                voxels@.len() == i,
                forall|j: int|
                    0 <= j < self.contents().len() ==> call_requires(f, (self.contents()[j],)),
                forall|j: int|
                    0 <= j < i ==> call_ensures(
                        f,
                        (self.contents()[j],),
                        #[trigger] voxels@[j],
                    ),
            decreases n - i,
        {
            let v = f(self.voxels[i]);
            voxels.push(v);
            i += 1;
        }
        Field { voxels, extent: self.extent }
    }

    /// Derive a field of equal extent by applying a pure function per cell,
    /// fed the cell's own coordinate.
    pub fn map_with_coordinate<R, F: Fn(T, usize, usize, usize) -> R>(&self, f: F) -> (r: Field<R>)
        requires
            self.wf(),
            forall|x: usize, y: usize, z: usize|
                x < self.ext() && y < self.ext() && z < self.ext() ==> call_requires(
                    f,
                    (self.at_spec(x as int, y as int, z as int), x, y, z),
                ),
        ensures
            r.wf(),
            r.ext() == self.ext(),
            forall|x: usize, y: usize, z: usize|
                x < self.ext() && y < self.ext() && z < self.ext() ==> call_ensures(
                    f,
                    (self.at_spec(x as int, y as int, z as int), x, y, z),
                    #[trigger] r.at_spec(x as int, y as int, z as int),
                ),
    {
        let e = self.extent;
        let ghost ei = e as int;
        let mut voxels: Vec<R> = Vec::new();
        let mut x: usize = 0;
        while x < e
            invariant
                x <= e,
                self.wf(),
                e == self.ext(),
                voxels@.len() == lin(ei, x as int, 0, 0),
                ei == e as int,
                forall|x0: usize, y0: usize, z0: usize|
                    x0 < e && y0 < e && z0 < e ==> call_requires(
                        f,
                        (self.at_spec(x0 as int, y0 as int, z0 as int), x0, y0, z0),
                    ),
                forall|n: int|
                    0 <= n < voxels@.len() ==> call_ensures(
                        f,
                        (
                            self.at_spec(delin_x(ei, n), delin_y(ei, n), delin_z(ei, n)),
                            delin_x(ei, n) as usize,
                            delin_y(ei, n) as usize,
                            delin_z(ei, n) as usize,
                        ),
                        #[trigger] voxels@[n],
                    ),
            decreases e - x,
        {
            let mut y: usize = 0;
            while y < e
                invariant
                    x < e,
                    y <= e,
                    self.wf(),
                    e == self.ext(),
                    voxels@.len() == lin(ei, x as int, y as int, 0),
                    ei == e as int,
                    forall|x0: usize, y0: usize, z0: usize|
                    x0 < e && y0 < e && z0 < e ==> call_requires(
                        f,
                        (self.at_spec(x0 as int, y0 as int, z0 as int), x0, y0, z0),
                    ),
                    forall|n: int|
                        0 <= n < voxels@.len() ==> call_ensures(
                            f,
                            (
                                self.at_spec(delin_x(ei, n), delin_y(ei, n), delin_z(ei, n)),
                                delin_x(ei, n) as usize,
                                delin_y(ei, n) as usize,
                                delin_z(ei, n) as usize,
                            ),
                            #[trigger] voxels@[n],
                        ),
                decreases e - y,
            {
                let mut z: usize = 0;
                while z < e
                    invariant
                        x < e,
                        y < e,
                        z <= e,
                        self.wf(),
                        e == self.ext(),
                        voxels@.len() == lin(ei, x as int, y as int, z as int),
                        ei == e as int,
                        forall|x0: usize, y0: usize, z0: usize|
                    x0 < e && y0 < e && z0 < e ==> call_requires(
                        f,
                        (self.at_spec(x0 as int, y0 as int, z0 as int), x0, y0, z0),
                    ),
                        forall|n: int|
                            0 <= n < voxels@.len() ==> call_ensures(
                                f,
                                (
                                    self.at_spec(delin_x(ei, n), delin_y(ei, n), delin_z(ei, n)),
                                    delin_x(ei, n) as usize,
                                    delin_y(ei, n) as usize,
                                    delin_z(ei, n) as usize,
                                ),
                                #[trigger] voxels@[n],
                            ),
                    decreases e - z,
                {
                    proof {
                        lemma_lin_delin(ei, x as int, y as int, z as int);
                    }
                    let v = f(*self.at(x, y, z), x, y, z);
                    voxels.push(v);
                    z += 1;
                }
                proof {
                    assert(lin(ei, x as int, y as int, ei) == lin(ei, x as int, y as int + 1, 0))
                        by (nonlinear_arith);
                }
                y += 1;
            }
            proof {
                assert(lin(ei, x as int, ei, 0) == lin(ei, x as int + 1, 0, 0))
                    by (nonlinear_arith);
            }
            x += 1;
        }
        proof {
            assert(lin(ei, ei, 0, 0) == ei * ei * ei) by (nonlinear_arith);
        }
        let r = Field { voxels, extent: self.extent };
        proof {
            assert forall|x0: usize, y0: usize, z0: usize|
                x0 < self.ext() && y0 < self.ext() && z0 < self.ext() implies call_ensures(
                    f,
                    (self.at_spec(x0 as int, y0 as int, z0 as int), x0, y0, z0),
                    #[trigger] r.at_spec(x0 as int, y0 as int, z0 as int),
                ) by {
                lemma_lin_delin(ei, x0 as int, y0 as int, z0 as int);
            }
        }
        r
    }
}

/// All coordinates of a cubical grid of the given extent, in row-major
/// (lexicographic) enumeration order.
pub fn coordinates(extent: usize) -> (r: Vec<(usize, usize, usize)>)
    requires
        extent <= MAX_EXTENT,
    ensures
        r@.len() == extent * extent * extent,
        forall|x: int, y: int, z: int|
            0 <= x < extent && 0 <= y < extent && 0 <= z < extent ==> r@[lin(
                extent as int,
                x,
                y,
                z,
            )] == (x as usize, y as usize, z as usize),
{
    let e = extent;
    let ghost ei = e as int;
    let mut out: Vec<(usize, usize, usize)> = Vec::new();
    let mut x: usize = 0;
    while x < e
        invariant
            x <= e,
            e <= MAX_EXTENT,
            out@.len() == lin(ei, x as int, 0, 0),
            ei == e as int,
            forall|n: int|
                0 <= n < out@.len() ==> #[trigger] out@[n] == (
                    delin_x(ei, n) as usize,
                    delin_y(ei, n) as usize,
                    delin_z(ei, n) as usize,
                ),
        decreases e - x,
    {
        let mut y: usize = 0;
        while y < e
            invariant
                x < e,
                y <= e,
                e <= MAX_EXTENT,
                out@.len() == lin(ei, x as int, y as int, 0),
                ei == e as int,
                forall|n: int|
                    0 <= n < out@.len() ==> #[trigger] out@[n] == (
                        delin_x(ei, n) as usize,
                        delin_y(ei, n) as usize,
                        delin_z(ei, n) as usize,
                    ),
            decreases e - y,
        {
            let mut z: usize = 0;
            while z < e
                invariant
                    x < e,
                    y < e,
                    z <= e,
                    e <= MAX_EXTENT,
                    out@.len() == lin(ei, x as int, y as int, z as int),
                    ei == e as int,
                    forall|n: int|
                        0 <= n < out@.len() ==> #[trigger] out@[n] == (
                            delin_x(ei, n) as usize,
                            delin_y(ei, n) as usize,
                            delin_z(ei, n) as usize,
                        ),
                decreases e - z,
            {
                proof {
                    lemma_lin_delin(ei, x as int, y as int, z as int);
                }
                out.push((x, y, z));
                z += 1;
            }
            proof {
                assert(lin(ei, x as int, y as int, ei) == lin(ei, x as int, y as int + 1, 0))
                    by (nonlinear_arith);
            }
            y += 1;
        }
        proof {
            assert(lin(ei, x as int, ei, 0) == lin(ei, x as int + 1, 0, 0)) by (nonlinear_arith);
        }
        x += 1;
    }
    proof {
        assert(lin(ei, ei, 0, 0) == ei * ei * ei) by (nonlinear_arith);
        assert forall|x0: int, y0: int, z0: int|
            0 <= x0 < extent && 0 <= y0 < extent && 0 <= z0 < extent implies out@[lin(
            ei,
            x0,
            y0,
            z0,
        )] == (x0 as usize, y0 as usize, z0 as usize) by {
            lemma_lin_delin(ei, x0, y0, z0);
        }
    }
    out
}

} // verus!
