use vstd::prelude::*;

verus! {

use crate::bits::{
    bit32, bit8, mask32, lemma_mask32_bits, lemma_mask32_bound, lemma_mask_narrow,
    lemma_env_full, lemma_env_full_bits, ENV_FULL, ENV_PZZ, ENV_NZZ, ENV_ZPZ, ENV_ZNZ, ENV_ZZP,
    ENV_ZZN, VIS_XP, VIS_XN, VIS_YP, VIS_YN, VIS_ZP, VIS_ZN,
};
use crate::field::{Field, lin, delin_x, delin_y, delin_z, lemma_lin_delin};

// The environment mask records, per cell, which of the 27 cells of the 3x3x3
// stencil around it are occupied. Bit `i` speaks of the neighbour at offset
// `(env_dx(i), env_dy(i), env_dz(i))`; neighbours outside the field count as
// unoccupied.

/// Offset component encoded by one base-3 digit of an environment bit index.
pub open spec fn env_code(d: int) -> int {
    if d == 0 {
        0
    } else if d == 1 {
        1
    } else {
        -1
    }
}

pub open spec fn env_dx(i: int) -> int {
    env_code(i / 9)
}

pub open spec fn env_dy(i: int) -> int {
    env_code((i / 3) % 3)
}

pub open spec fn env_dz(i: int) -> int {
    env_code(i % 3)
}

/// Whether environment bit `i` is set for the cell `(x, y, z)` of the
/// occupancy field `occ` with extent `e`.
pub open spec fn env_bit(occ: Seq<bool>, e: int, x: int, y: int, z: int, i: int) -> bool {
    let nx = x + env_dx(i);
    let ny = y + env_dy(i);
    let nz = z + env_dz(i);
    0 <= nx < e && 0 <= ny < e && 0 <= nz < e && occ[lin(e, nx, ny, nz)]
}

/// The 27-bit environment mask of the cell `(x, y, z)`.
pub open spec fn env_mask(occ: Seq<bool>, e: int, x: int, y: int, z: int) -> u32 {
    mask32(Seq::new(27, |i: int| env_bit(occ, e, x, y, z, i)), 27)
}

/// The environment masks of every cell, in row-major order.
pub open spec fn env_contents(occ: Seq<bool>, e: int) -> Seq<u32> {
    Seq::new(
        (e * e * e) as nat,
        |n: int| env_mask(occ, e, delin_x(e, n), delin_y(e, n), delin_z(e, n)),
    )
}

pub proof fn lemma_env_mask_bits(occ: Seq<bool>, e: int, x: int, y: int, z: int, i: u32)
    requires
        i < 27,
    ensures
        bit32(env_mask(occ, e, x, y, z), i) == env_bit(occ, e, x, y, z, i as int),
{
    lemma_mask32_bits(Seq::new(27, |j: int| env_bit(occ, e, x, y, z, j)), 27, i);
}

// The visibility mask records, per cell, which of its six axis-aligned faces
// are exposed: the face neighbour is unoccupied and the face does not lie on
// the outer boundary of the field. Bit `i` speaks of the face towards offset
// `(face_dx(i), face_dy(i), face_dz(i))`.

pub open spec fn face_dx(i: int) -> int {
    if i == VIS_XP {
        1
    } else if i == VIS_XN {
        -1
    } else {
        0
    }
}

pub open spec fn face_dy(i: int) -> int {
    if i == VIS_YP {
        1
    } else if i == VIS_YN {
        -1
    } else {
        0
    }
}

pub open spec fn face_dz(i: int) -> int {
    if i == VIS_ZP {
        1
    } else if i == VIS_ZN {
        -1
    } else {
        0
    }
}

/// The environment bit that records the face neighbour of face `i`.
pub open spec fn face_env_index(i: int) -> u32 {
    if i == VIS_XP {
        ENV_PZZ
    } else if i == VIS_XN {
        ENV_NZZ
    } else if i == VIS_YP {
        ENV_ZPZ
    } else if i == VIS_YN {
        ENV_ZNZ
    } else if i == VIS_ZP {
        ENV_ZZP
    } else {
        ENV_ZZN
    }
}

/// Whether face `i` of the cell `(x, y, z)` is visible, given the field of
/// environment masks `env` with extent `e`.
pub open spec fn vis_bit(env: Seq<u32>, e: int, x: int, y: int, z: int, i: int) -> bool {
    let nx = x + face_dx(i);
    let ny = y + face_dy(i);
    let nz = z + face_dz(i);
    0 <= nx < e && 0 <= ny < e && 0 <= nz < e && !bit32(env[lin(e, x, y, z)], face_env_index(i))
}

/// The 6-bit visibility mask of the cell `(x, y, z)`.
pub open spec fn vis_mask(env: Seq<u32>, e: int, x: int, y: int, z: int) -> u8 {
    mask32(Seq::new(6, |i: int| vis_bit(env, e, x, y, z, i)), 6) as u8
}

/// The visibility masks of every cell, in row-major order.
pub open spec fn vis_contents(env: Seq<u32>, e: int) -> Seq<u8> {
    Seq::new(
        (e * e * e) as nat,
        |n: int| vis_mask(env, e, delin_x(e, n), delin_y(e, n), delin_z(e, n)),
    )
}

pub proof fn lemma_vis_mask_bits(env: Seq<u32>, e: int, x: int, y: int, z: int, i: u32)
    requires
        i < 6,
    ensures
        bit8(vis_mask(env, e, x, y, z), i) == vis_bit(env, e, x, y, z, i as int),
{
    let bits = Seq::new(6, |j: int| vis_bit(env, e, x, y, z, j));
    lemma_mask32_bits(bits, 6, i);
    lemma_mask32_bound(bits, 6);
    assert((1u32 << 6u32) == 64) by (bit_vector);
    lemma_mask_narrow(mask32(bits, 6));
}

/// The occupancy field with fully surrounded (interior) cells pruned: a cell
/// stays occupied exactly when it was occupied and its environment mask is
/// not full.
pub open spec fn shell_contents(occ: Seq<bool>, env: Seq<u32>) -> Seq<bool> {
    Seq::new(occ.len(), |n: int| occ[n] && env[n] != ENV_FULL)
}

impl Field<bool> {
    /// Compute the direct neighbourhood of each voxel.
    pub fn environment(&self) -> (r: Field<u32>)
        requires
            self.wf(),
        ensures
            r.wf(),
            r.ext() == self.ext(),
            r.contents() == env_contents(self.contents(), self.ext()),
    {
        let e = self.extent();
        let ghost ei = self.ext();
        let ghost occ = self.contents();
        let mut voxels: Vec<u32> = Vec::new();
        let mut x: usize = 0;
        while x < e
            invariant
                x <= e,
                self.wf(),
                e == ei,
                ei == self.ext(),
                occ == self.contents(),
                voxels@.len() == lin(ei, x as int, 0, 0),
                forall|n: int|
                    0 <= n < voxels@.len() ==> voxels@[n] == env_contents(occ, ei)[n],
            decreases e - x,
        {
            let mut y: usize = 0;
            while y < e
                invariant
                    x < e,
                    y <= e,
                    self.wf(),
                    e == ei,
                    ei == self.ext(),
                    occ == self.contents(),
                    voxels@.len() == lin(ei, x as int, y as int, 0),
                    forall|n: int|
                        0 <= n < voxels@.len() ==> voxels@[n] == env_contents(occ, ei)[n],
                decreases e - y,
            {
                let mut z: usize = 0;
                while z < e
                    invariant
                        x < e,
                        y < e,
                        z <= e,
                        self.wf(),
                        e == ei,
                        ei == self.ext(),
                        occ == self.contents(),
                        voxels@.len() == lin(ei, x as int, y as int, z as int),
                        forall|n: int|
                            0 <= n < voxels@.len() ==> voxels@[n] == env_contents(occ, ei)[n],
                    decreases e - z,
                {
                    proof {
                        lemma_lin_delin(ei, x as int, y as int, z as int);
                    }
                    let ghost bits = Seq::new(
                        27,
                        |i: int| env_bit(occ, ei, x as int, y as int, z as int, i),
                    );
                    let mut m: u32 = 0;
                    let mut i: u32 = 0;
                    while i < 27
                        invariant
                            i <= 27,
                            x < e,
                            y < e,
                            z < e,
                            self.wf(),
                            e == ei,
                            ei == self.ext(),
                            occ == self.contents(),
                            bits == Seq::new(
                                27,
                                |j: int| env_bit(occ, ei, x as int, y as int, z as int, j),
                            ),
                            m == mask32(bits, i as nat),
                        decreases 27 - i,
                    {
                        let (dx, dy, dz) = env_offset(i);
                        let nx = x as i64 + dx;
                        let ny = y as i64 + dy;
                        let nz = z as i64 + dz;
                        let inb = 0 <= nx && nx < e as i64 && 0 <= ny && ny < e as i64 && 0 <= nz
                            && nz < e as i64;
                        let b = inb && *self.at(nx as usize, ny as usize, nz as usize);
                        if b {
                            m = m | (1u32 << i);
                        }
                        i += 1;
                    }
                    proof {
                        assert(m == env_mask(occ, ei, x as int, y as int, z as int));
                    }
                    voxels.push(m);
                    z += 1;
                }
                proof {
                    assert(lin(ei, x as int, y as int, ei) == lin(ei, x as int, y as int + 1, 0))
                        by (nonlinear_arith);
                }
                y += 1;
            }
            proof {
                assert(lin(ei, x as int, ei, 0) == lin(ei, x as int + 1, 0, 0))
                    by (nonlinear_arith);
            }
            x += 1;
        }
        proof {
            assert(lin(ei, ei, 0, 0) == ei * ei * ei) by (nonlinear_arith);
            assert(voxels@ =~= env_contents(occ, ei));
        }
        Field::from_data(voxels, e)
    }

    /// Prune cells that are invisible regardless of rendering: a cell whose
    /// environment mask is full is interior and is cleared in the output.
    pub fn shell(&self, env: &Field<u32>) -> (r: Field<bool>)
        requires
            self.wf(),
            env.wf(),
            env.ext() == self.ext(),
        ensures
            r.wf(),
            r.ext() == self.ext(),
            r.contents() == shell_contents(self.contents(), env.contents()),
    {
        proof {
            assert(self.ext() * self.ext() <= 0x4000_0000 && self.ext() * self.ext() * self.ext()
                <= 0x4000_0000) by (nonlinear_arith)
                requires
                    0 <= self.ext() <= 1024,
            ;
        }
        let count = self.extent() * self.extent() * self.extent();
        let mut voxels: Vec<bool> = Vec::new();
        let mut n: usize = 0;
        while n < count
            invariant
                n <= count,
                self.wf(),
                env.wf(),
                env.ext() == self.ext(),
                count == self.contents().len(),
                voxels@.len() == n,
                forall|j: int|
                    0 <= j < n ==> voxels@[j] == shell_contents(self.contents(), env.contents())[j],
            decreases count - n,
        {
            let occupied = *self.at_index(n);
            let mask = *env.at_index(n);
            voxels.push(occupied && mask != ENV_FULL);
            n += 1;
        }
        proof {
            assert(voxels@ =~= shell_contents(self.contents(), env.contents()));
        }
        Field::from_data(voxels, self.extent())
    }
}

impl Field<u32> {
    /// Compute visible faces of each voxel, i.e. faces that are not internal.
    /// Faces at the field boundary are not considered to be visible.
    pub fn visibility(&self) -> (r: Field<u8>)
        requires
            self.wf(),
        ensures
            r.wf(),
            r.ext() == self.ext(),
            r.contents() == vis_contents(self.contents(), self.ext()),
    {
        let e = self.extent();
        let ghost ei = self.ext();
        let ghost env = self.contents();
        let mut voxels: Vec<u8> = Vec::new();
        let mut x: usize = 0;
        while x < e
            invariant
                x <= e,
                self.wf(),
                e == ei,
                ei == self.ext(),
                env == self.contents(),
                voxels@.len() == lin(ei, x as int, 0, 0),
                forall|n: int|
                    0 <= n < voxels@.len() ==> voxels@[n] == vis_contents(env, ei)[n],
            decreases e - x,
        {
            let mut y: usize = 0;
            while y < e
                invariant
                    x < e,
                    y <= e,
                    self.wf(),
                    e == ei,
                    ei == self.ext(),
                    env == self.contents(),
                    voxels@.len() == lin(ei, x as int, y as int, 0),
                    forall|n: int|
                        0 <= n < voxels@.len() ==> voxels@[n] == vis_contents(env, ei)[n],
                decreases e - y,
            {
                let mut z: usize = 0;
                while z < e
                    invariant
                        x < e,
                        y < e,
                        z <= e,
                        self.wf(),
                        e == ei,
                        ei == self.ext(),
                        env == self.contents(),
                        voxels@.len() == lin(ei, x as int, y as int, z as int),
                        forall|n: int|
                            0 <= n < voxels@.len() ==> voxels@[n] == vis_contents(env, ei)[n],
                    decreases e - z,
                {
                    proof {
                        lemma_lin_delin(ei, x as int, y as int, z as int);
                    }
                    let ghost bits = Seq::new(
                        6,
                        |i: int| vis_bit(env, ei, x as int, y as int, z as int, i),
                    );
                    let own = *self.at(x, y, z);
                    let mut m: u32 = 0;
                    let mut i: u32 = 0;
                    while i < 6
                        invariant
                            i <= 6,
                            x < e,
                            y < e,
                            z < e,
                            self.wf(),
                            e == ei,
                            ei == self.ext(),
                            env == self.contents(),
                            own == env[lin(ei, x as int, y as int, z as int)],
                            0 <= lin(ei, x as int, y as int, z as int) < env.len(),
                            bits == Seq::new(
                                6,
                                |j: int| vis_bit(env, ei, x as int, y as int, z as int, j),
                            ),
                            m == mask32(bits, i as nat),
                        decreases 6 - i,
                    {
                        let (dx, dy, dz) = face_offset(i);
                        let nx = x as i64 + dx;
                        let ny = y as i64 + dy;
                        let nz = z as i64 + dz;
                        let inb = 0 <= nx && nx < e as i64 && 0 <= ny && ny < e as i64 && 0 <= nz
                            && nz < e as i64;
                        let b = inb && !crate::bits::test_bit32(own, face_env_index_exec(i));
                        if b {
                            m = m | (1u32 << i);
                        }
                        i += 1;
                    }
                    proof {
                        lemma_mask32_bound(bits, 6);
                        assert((1u32 << 6u32) == 64) by (bit_vector);
                        lemma_mask_narrow(m);
                        assert(m as u8 == vis_mask(env, ei, x as int, y as int, z as int));
                    }
                    voxels.push(m as u8);
                    z += 1;
                }
                proof {
                    assert(lin(ei, x as int, y as int, ei) == lin(ei, x as int, y as int + 1, 0))
                        by (nonlinear_arith);
                }
                y += 1;
            }
            proof {
                assert(lin(ei, x as int, ei, 0) == lin(ei, x as int + 1, 0, 0))
                    by (nonlinear_arith);
            }
            x += 1;
        }
        proof {
            assert(lin(ei, ei, 0, 0) == ei * ei * ei) by (nonlinear_arith);
            assert(voxels@ =~= vis_contents(env, ei));
        }
        Field::from_data(voxels, e)
    }
}

/// The stencil offset recorded by environment bit `i`.
fn env_offset(i: u32) -> (r: (i64, i64, i64))
    requires
        i < 27,
    ensures
        r.0 == env_dx(i as int),
        r.1 == env_dy(i as int),
        r.2 == env_dz(i as int),
{
    (env_code_exec(i / 9), env_code_exec((i / 3) % 3), env_code_exec(i % 3))
}

fn env_code_exec(d: u32) -> (r: i64)
    requires
        d <= 2,
    ensures
        r == env_code(d as int),
{
    if d == 0 {
        0
    } else if d == 1 {
        1
    } else {
        -1
    }
}

/// The outward offset of face `i`.
fn face_offset(i: u32) -> (r: (i64, i64, i64))
    requires
        i < 6,
    ensures
        r.0 == face_dx(i as int),
        r.1 == face_dy(i as int),
        r.2 == face_dz(i as int),
{
    if i == VIS_XP {
        (1, 0, 0)
    } else if i == VIS_XN {
        (-1, 0, 0)
    } else if i == VIS_YP {
        (0, 1, 0)
    } else if i == VIS_YN {
        (0, -1, 0)
    } else if i == VIS_ZP {
        (0, 0, 1)
    } else {
        (0, 0, -1)
    }
}

fn face_env_index_exec(i: u32) -> (r: u32)
    requires
        i < 6,
    ensures
        r == face_env_index(i as int),
        r < 27,
{
    if i == VIS_XP {
        ENV_PZZ
    } else if i == VIS_XN {
        ENV_NZZ
    } else if i == VIS_YP {
        ENV_ZPZ
    } else if i == VIS_YN {
        ENV_ZNZ
    } else if i == VIS_ZP {
        ENV_ZZP
    } else {
        ENV_ZZN
    }
}

/// Boundary rule for visibility masks: a cell lying on the outer boundary of
/// the field never reports the outward face on that axis as visible,
/// regardless of occupancy.
pub proof fn lemma_visibility_boundary(env: Seq<u32>, e: int, x: int, y: int, z: int, i: u32)
    requires
        0 < e,
        0 <= x < e,
        0 <= y < e,
        0 <= z < e,
        i < 6,
        (i == VIS_XN && x == 0) || (i == VIS_XP && x == e - 1) || (i == VIS_YN && y == 0) || (i
            == VIS_YP && y == e - 1) || (i == VIS_ZN && z == 0) || (i == VIS_ZP && z == e - 1),
    ensures
        !bit8(vis_contents(env, e)[lin(e, x, y, z)], i),
{
    lemma_lin_delin(e, x, y, z);
    lemma_vis_mask_bits(env, e, x, y, z, i);
}

/// Shell idempotence: pruning an already-pruned occupancy field (after
/// recomputing its environment) changes nothing, because a pruned field has
/// no interior cells left.
pub proof fn lemma_shell_idempotent(occ: Seq<bool>, e: int)
    requires
        0 < e <= 1024,
        occ.len() == e * e * e,
    ensures
        ({
            let s1 = shell_contents(occ, env_contents(occ, e));
            shell_contents(s1, env_contents(s1, e)) == s1
        }),
{
    let env1 = env_contents(occ, e);
    let s1 = shell_contents(occ, env1);
    let env2 = env_contents(s1, e);
    let s2 = shell_contents(s1, env2);
    assert forall|n: int| 0 <= n < s1.len() implies s2[n] == s1[n] by {
        if s1[n] {
            let x = delin_x(e, n);
            let y = delin_y(e, n);
            let z = delin_z(e, n);
            lemma_delin_bounds(e, n);
            assert(env2[n] == env_mask(s1, e, x, y, z));
            assert(env1[n] == env_mask(occ, e, x, y, z));
            if env2[n] == ENV_FULL {
                // Every neighbour of the cell is inside the field and kept
                // by the shell, hence occupied before pruning; so the first
                // environment was already full, contradicting the cell
                // having survived the first pruning.
                let bits1 = Seq::new(27, |i: int| env_bit(occ, e, x, y, z, i));
                assert forall|i: int| 0 <= i < 27 implies bits1[i] by {
                    lemma_env_mask_bits(s1, e, x, y, z, i as u32);
                    lemma_env_full_bits(i as u32);
                    assert(env_bit(s1, e, x, y, z, i));
                    let nx = x + env_dx(i);
                    let ny = y + env_dy(i);
                    let nz = z + env_dz(i);
                    lemma_lin_delin(e, nx, ny, nz);
                    assert(s1[lin(e, nx, ny, nz)]);
                    assert(occ[lin(e, nx, ny, nz)]);
                }
                lemma_env_full(bits1);
                assert(env_mask(occ, e, x, y, z) == ENV_FULL);
                assert(false);
            }
        }
    }
    assert(s2 =~= s1);
}

/// Sum and count of the neighbour values that take part in smoothing the
/// cell `(x, y, z)`: the neighbours whose environment bit below `i` is set.
/// Bit 0 (the cell itself) never takes part.
pub open spec fn smooth_acc(
    vals: Seq<i64>,
    m: u32,
    e: int,
    x: int,
    y: int,
    z: int,
    i: nat,
) -> (int, int)
    decreases i,
{
    if i <= 1 {
        (0, 0)
    } else {
        let prev = smooth_acc(vals, m, e, x, y, z, (i - 1) as nat);
        let b = (i - 1) as int;
        if bit32(m, (i - 1) as u32) {
            (prev.0 + vals[lin(e, x + env_dx(b), y + env_dy(b), z + env_dz(b))], prev.1 + 1)
        } else {
            prev
        }
    }
}

/// The smoothed value of one cell: the mean of the cell and its occupied
/// neighbours if the cell is masked in, the cell's own value otherwise.
pub open spec fn smooth_cell(
    vals: Seq<i64>,
    mask: Seq<bool>,
    env: Seq<u32>,
    e: int,
    x: int,
    y: int,
    z: int,
) -> i64 {
    let n = lin(e, x, y, z);
    if mask[n] {
        let acc = smooth_acc(vals, env[n], e, x, y, z, 27);
        ((vals[n] + acc.0) / (1 + acc.1)) as i64
    } else {
        vals[n]
    }
}

/// The smoothed field, in row-major order.
pub open spec fn smooth_contents(vals: Seq<i64>, mask: Seq<bool>, env: Seq<u32>, e: int) -> Seq<
    i64,
> {
    Seq::new(
        (e * e * e) as nat,
        |n: int| smooth_cell(vals, mask, env, e, delin_x(e, n), delin_y(e, n), delin_z(e, n)),
    )
}

/// Bound on the partial sums of smoothing: at most `i - 1` neighbours, each
/// within the value bound.
proof fn lemma_smooth_acc_bounds(
    vals: Seq<i64>,
    m: u32,
    e: int,
    x: int,
    y: int,
    z: int,
    i: nat,
)
    requires
        0 < e,
        vals.len() == e * e * e,
        forall|j: int| 0 <= j < vals.len() ==> 0 <= #[trigger] vals[j] <= 0xFFFF_FFFF,
        forall|b: int|
            1 <= b < 27 && #[trigger] bit32(m, b as u32) ==> 0 <= lin(
                e,
                x + env_dx(b),
                y + env_dy(b),
                z + env_dz(b),
            ) < vals.len(),
        i <= 27,
    ensures
        0 <= smooth_acc(vals, m, e, x, y, z, i).1 <= i,
        0 <= smooth_acc(vals, m, e, x, y, z, i).0 <= i * 0xFFFF_FFFF,
    decreases i,
{
    if i > 1 {
        lemma_smooth_acc_bounds(vals, m, e, x, y, z, (i - 1) as nat);
    }
}

impl Field<i64> {
    /// Blur a field of values over the immediate neighbourhood: every masked
    /// cell becomes the mean of itself and its neighbours recorded occupied
    /// in its environment mask. `env` must be the environment of `mask`, and
    /// values must be non-negative and fit in 32 bits.
    pub fn smooth(&self, mask: &Field<bool>, env: &Field<u32>) -> (r: Field<i64>)
        requires
            self.wf(),
            mask.wf(),
            env.wf(),
            mask.ext() == self.ext(),
            env.ext() == self.ext(),
            env.contents() == env_contents(mask.contents(), self.ext()),
            forall|j: int|
                0 <= j < self.contents().len() ==> 0 <= #[trigger] self.contents()[j]
                    <= 0xFFFF_FFFF,
        ensures
            r.wf(),
            r.ext() == self.ext(),
            r.contents() == smooth_contents(
                self.contents(),
                mask.contents(),
                env.contents(),
                self.ext(),
            ),
    {
        let e = self.extent();
        let ghost ei = self.ext();
        let ghost vals = self.contents();
        let ghost gm = mask.contents();
        let ghost genv = env.contents();
        let mut voxels: Vec<i64> = Vec::new();
        let mut x: usize = 0;
        while x < e
            invariant
                x <= e,
                self.wf(),
                mask.wf(),
                env.wf(),
                mask.ext() == self.ext(),
                env.ext() == self.ext(),
                e == ei,
                ei == self.ext(),
                vals == self.contents(),
                gm == mask.contents(),
                genv == env.contents(),
                genv == env_contents(gm, ei),
                forall|j: int| 0 <= j < vals.len() ==> 0 <= #[trigger] vals[j] <= 0xFFFF_FFFF,
                voxels@.len() == lin(ei, x as int, 0, 0),
                forall|n: int|
                    0 <= n < voxels@.len() ==> voxels@[n] == smooth_contents(vals, gm, genv, ei)[n],
            decreases e - x,
        {
            let mut y: usize = 0;
            while y < e
                invariant
                    x < e,
                    y <= e,
                    self.wf(),
                    mask.wf(),
                    env.wf(),
                    mask.ext() == self.ext(),
                    env.ext() == self.ext(),
                    e == ei,
                    ei == self.ext(),
                    vals == self.contents(),
                    gm == mask.contents(),
                    genv == env.contents(),
                    genv == env_contents(gm, ei),
                    forall|j: int| 0 <= j < vals.len() ==> 0 <= #[trigger] vals[j] <= 0xFFFF_FFFF,
                    voxels@.len() == lin(ei, x as int, y as int, 0),
                    forall|n: int|
                        0 <= n < voxels@.len() ==> voxels@[n] == smooth_contents(
                            vals,
                            gm,
                            genv,
                            ei,
                        )[n],
                decreases e - y,
            {
                let mut z: usize = 0;
                while z < e
                    invariant
                        x < e,
                        y < e,
                        z <= e,
                        self.wf(),
                        mask.wf(),
                        env.wf(),
                        mask.ext() == self.ext(),
                        env.ext() == self.ext(),
                        e == ei,
                        ei == self.ext(),
                        vals == self.contents(),
                        gm == mask.contents(),
                        genv == env.contents(),
                        genv == env_contents(gm, ei),
                        forall|j: int|
                            0 <= j < vals.len() ==> 0 <= #[trigger] vals[j] <= 0xFFFF_FFFF,
                        voxels@.len() == lin(ei, x as int, y as int, z as int),
                        forall|n: int|
                            0 <= n < voxels@.len() ==> voxels@[n] == smooth_contents(
                                vals,
                                gm,
                                genv,
                                ei,
                            )[n],
                    decreases e - z,
                {
                    proof {
                        lemma_lin_delin(ei, x as int, y as int, z as int);
                    }
                    let ghost n0 = lin(ei, x as int, y as int, z as int);
                    let v = *self.at(x, y, z);
                    let masked = *mask.at(x, y, z);
                    let out: i64;
                    if masked {
                        let m = *env.at(x, y, z);
                        proof {
                            assert forall|b: u32|
                                1 <= b < 27 && #[trigger] bit32(m, b) implies env_bit(
                                gm,
                                ei,
                                x as int,
                                y as int,
                                z as int,
                                b as int,
                            ) && 0 <= lin(
                                ei,
                                x as int + env_dx(b as int),
                                y as int + env_dy(b as int),
                                z as int + env_dz(b as int),
                            ) < vals.len() by {
                                lemma_env_mask_bits(gm, ei, x as int, y as int, z as int, b);
                                assert(env_bit(gm, ei, x as int, y as int, z as int, b as int));
                                lemma_lin_delin(
                                    ei,
                                    x as int + env_dx(b as int),
                                    y as int + env_dy(b as int),
                                    z as int + env_dz(b as int),
                                );
                            }
                        }
                        let mut sum: i64 = 0;
                        let mut count: i64 = 1;
                        let mut i: u32 = 1;
                        while i < 27
                            invariant
                                1 <= i <= 27,
                                x < e,
                                y < e,
                                z < e,
                                self.wf(),
                                mask.wf(),
                                env.wf(),
                                mask.ext() == self.ext(),
                                env.ext() == self.ext(),
                                e == ei,
                                ei == self.ext(),
                                vals == self.contents(),
                                gm == mask.contents(),
                                genv == env.contents(),
                                genv == env_contents(gm, ei),
                                forall|j: int|
                                    0 <= j < vals.len() ==> 0 <= #[trigger] vals[j] <= 0xFFFF_FFFF,
                                m == genv[lin(ei, x as int, y as int, z as int)],
                                0 <= lin(ei, x as int, y as int, z as int) < genv.len(),
                                forall|b: u32|
                                    1 <= b < 27 && #[trigger] bit32(m, b) ==> env_bit(
                                        gm,
                                        ei,
                                        x as int,
                                        y as int,
                                        z as int,
                                        b as int,
                                    ) && 0 <= lin(
                                        ei,
                                        x as int + env_dx(b as int),
                                        y as int + env_dy(b as int),
                                        z as int + env_dz(b as int),
                                    ) < vals.len(),
                                sum == smooth_acc(
                                    vals,
                                    m,
                                    ei,
                                    x as int,
                                    y as int,
                                    z as int,
                                    i as nat,
                                ).0,
                                count == 1 + smooth_acc(
                                    vals,
                                    m,
                                    ei,
                                    x as int,
                                    y as int,
                                    z as int,
                                    i as nat,
                                ).1,
                            decreases 27 - i,
                        {
                            proof {
                                lemma_smooth_acc_bounds(
                                    vals,
                                    m,
                                    ei,
                                    x as int,
                                    y as int,
                                    z as int,
                                    i as nat,
                                );
                            }
                            if crate::bits::test_bit32(m, i) {
                                let (dx, dy, dz) = env_offset(i);
                                let nx = x as i64 + dx;
                                let ny = y as i64 + dy;
                                let nz = z as i64 + dz;
                                let nv = *self.at(nx as usize, ny as usize, nz as usize);
                                sum = sum + nv;
                                count = count + 1;
                            }
                            i += 1;
                        }
                        proof {
                            lemma_smooth_acc_bounds(
                                vals,
                                m,
                                ei,
                                x as int,
                                y as int,
                                z as int,
                                27,
                            );
                            vstd::arithmetic::div_mod::lemma_div_pos_is_pos(
                                (v + sum) as int,
                                count as int,
                            );
                            vstd::arithmetic::div_mod::lemma_div_nonincreasing(
                                (v + sum) as int,
                                count as int,
                            );
                        }
                        out = (((v + sum) as u64) / (count as u64)) as i64;
                    } else {
                        out = v;
                    }
                    voxels.push(out);
                    z += 1;
                }
                proof {
                    assert(lin(ei, x as int, y as int, ei) == lin(ei, x as int, y as int + 1, 0))
                        by (nonlinear_arith);
                }
                y += 1;
            }
            proof {
                assert(lin(ei, x as int, ei, 0) == lin(ei, x as int + 1, 0, 0))
                    by (nonlinear_arith);
            }
            x += 1;
        }
        proof {
            assert(lin(ei, ei, 0, 0) == ei * ei * ei) by (nonlinear_arith);
            assert(voxels@ =~= smooth_contents(vals, gm, genv, ei));
        }
        Field::from_data(voxels, e)
    }
}

/// De-linearized coordinates of an index inside the buffer are in range.
pub proof fn lemma_delin_bounds(e: int, n: int)
    requires
        0 < e,
        0 <= n < e * e * e,
    ensures
        0 <= delin_x(e, n) < e,
        0 <= delin_y(e, n) < e,
        0 <= delin_z(e, n) < e,
        lin(e, delin_x(e, n), delin_y(e, n), delin_z(e, n)) == n,
{
    let x = delin_x(e, n);
    let y = delin_y(e, n);
    let z = delin_z(e, n);
    let q = n / e;
    assert(0 < e * e && e * (e * e) == e * e * e) by (nonlinear_arith)
        requires
            0 < e,
    ;
    vstd::arithmetic::div_mod::lemma_mod_division_less_than_divisor(n, e);
    vstd::arithmetic::div_mod::lemma_div_pos_is_pos(n, e);
    vstd::arithmetic::div_mod::lemma_fundamental_div_mod(n, e);
    vstd::arithmetic::div_mod::lemma_mod_division_less_than_divisor(q, e);
    vstd::arithmetic::div_mod::lemma_fundamental_div_mod(q, e);
    vstd::arithmetic::div_mod::lemma_div_denominator(n, e, e);
    vstd::arithmetic::div_mod::lemma_div_pos_is_pos(n, e * e);
    vstd::arithmetic::div_mod::lemma_multiply_divide_lt(n, e * e, e);
    assert(x == q / e && q == e * x + y && n == e * q + z);
    assert(e * (e * x + y) + z == (x * e + y) * e + z) by (nonlinear_arith);
}

} // verus!
