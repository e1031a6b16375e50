use vstd::prelude::*;

verus! {

// Bit positions in the 27-bit environment mask. Each name spells the offset of
// the neighbour it records, one letter per axis in x, y, z order: Z for zero,
// P for plus one, N for minus one. The position of bit `XYZ` is
// `9 * code(X) + 3 * code(Y) + code(Z)` with `code(Z) = 0`, `code(P) = 1`,
// `code(N) = 2`.
pub const ENV_ZZZ: u32 = 0;
pub const ENV_ZZP: u32 = 1;
pub const ENV_ZZN: u32 = 2;
pub const ENV_ZPZ: u32 = 3;
pub const ENV_ZPP: u32 = 4;
pub const ENV_ZPN: u32 = 5;
pub const ENV_ZNZ: u32 = 6;
pub const ENV_ZNP: u32 = 7;
pub const ENV_ZNN: u32 = 8;
pub const ENV_PZZ: u32 = 9;
pub const ENV_PZP: u32 = 10;
pub const ENV_PZN: u32 = 11;
pub const ENV_PPZ: u32 = 12;
pub const ENV_PPP: u32 = 13;
pub const ENV_PPN: u32 = 14;
pub const ENV_PNZ: u32 = 15;
pub const ENV_PNP: u32 = 16;
pub const ENV_PNN: u32 = 17;
pub const ENV_NZZ: u32 = 18;
pub const ENV_NZP: u32 = 19;
pub const ENV_NZN: u32 = 20;
pub const ENV_NPZ: u32 = 21;
pub const ENV_NPP: u32 = 22;
pub const ENV_NPN: u32 = 23;
pub const ENV_NNZ: u32 = 24;
pub const ENV_NNP: u32 = 25;
pub const ENV_NNN: u32 = 26;

/// Number of bits in an environment mask: the cell itself plus its 26
/// neighbours in the 3x3x3 stencil.
pub const ENV_BITS: u32 = 27;

/// The environment mask of a fully surrounded cell: all 27 bits set.
pub const ENV_FULL: u32 = 0x07FF_FFFF;

// Bit positions in the 6-bit visibility mask, one per axis-aligned face.
pub const VIS_XP: u32 = 0;
pub const VIS_XN: u32 = 1;
pub const VIS_YP: u32 = 2;
pub const VIS_YN: u32 = 3;
pub const VIS_ZP: u32 = 4;
pub const VIS_ZN: u32 = 5;

/// Number of bits in a visibility mask.
pub const VIS_BITS: u32 = 6;

/// Whether bit `i` of `m` is set.
pub open spec fn bit32(m: u32, i: u32) -> bool {
    i < 32 && (m >> i) & 1 == 1
}

/// Whether bit `i` of the narrow mask `m` is set.
pub open spec fn bit8(m: u8, i: u32) -> bool {
    bit32(m as u32, i)
}

/// The mask whose bit `i` is set exactly when `i < n` and `bits[i]` holds.
pub open spec fn mask32(bits: Seq<bool>, n: nat) -> u32
    decreases n,
{
    if n == 0 {
        0u32
    } else {
        let m = mask32(bits, (n - 1) as nat);
        if bits[n - 1] {
            m | (1u32 << ((n - 1) as u32))
        } else {
            m
        }
    }
}

pub proof fn lemma_bit32_zero(j: u32)
    ensures
        !bit32(0u32, j),
{
    assert((0u32 >> j) & 1 == 0) by (bit_vector);
}

pub proof fn lemma_bit32_or(m: u32, i: u32, j: u32)
    requires
        i < 32,
        j < 32,
    ensures
        bit32(m | (1u32 << i), j) == (j == i || bit32(m, j)),
{
    assert(((m | (1u32 << i)) >> j) & 1 == (if j == i {
        1u32
    } else {
        (m >> j) & 1
    })) by (bit_vector)
        requires
            i < 32u32,
            j < 32u32,
    ;
}

pub proof fn lemma_mask32_bits(bits: Seq<bool>, n: nat, j: u32)
    requires
        n <= 32,
        j < 32,
    ensures
        bit32(mask32(bits, n), j) == (j < n && bits[j as int]),
    decreases n,
{
    if n == 0 {
        lemma_bit32_zero(j);
    } else {
        lemma_mask32_bits(bits, (n - 1) as nat, j);
        if bits[n - 1] {
            lemma_bit32_or(mask32(bits, (n - 1) as nat), (n - 1) as u32, j);
        }
    }
}

pub proof fn lemma_mask32_bound(bits: Seq<bool>, n: nat)
    requires
        n <= 31,
    ensures
        mask32(bits, n) < (1u32 << (n as u32)),
    decreases n,
{
    if n == 0 {
        assert(0u32 < (1u32 << 0u32)) by (bit_vector);
    } else {
        lemma_mask32_bound(bits, (n - 1) as nat);
        let m = mask32(bits, (n - 1) as nat);
        let k = (n - 1) as u32;
        assert(k < 31 && m < (1u32 << k) ==> (m | (1u32 << k)) < (1u32 << (k + 1)) && m < (1u32 << (
        k + 1))) by (bit_vector);
    }
}

/// A 27-bit mask with every bit set equals `ENV_FULL`.
pub proof fn lemma_env_full(bits: Seq<bool>)
    requires
        forall|i: int| 0 <= i < 27 ==> bits[i],
    ensures
        mask32(bits, 27) == ENV_FULL,
{
    let m = mask32(bits, 27);
    assert forall|j: u32| j < 27 implies (m >> j) & 1 == 1 by {
        lemma_mask32_bits(bits, 27, j);
    }
    lemma_mask32_bound(bits, 27);
    assert(m == 0x07FF_FFFFu32) by (bit_vector)
        requires
            m < (1u32 << 27u32),
            (m >> 0u32) & 1 == 1,
            (m >> 1u32) & 1 == 1,
            (m >> 2u32) & 1 == 1,
            (m >> 3u32) & 1 == 1,
            (m >> 4u32) & 1 == 1,
            (m >> 5u32) & 1 == 1,
            (m >> 6u32) & 1 == 1,
            (m >> 7u32) & 1 == 1,
            (m >> 8u32) & 1 == 1,
            (m >> 9u32) & 1 == 1,
            (m >> 10u32) & 1 == 1,
            (m >> 11u32) & 1 == 1,
            (m >> 12u32) & 1 == 1,
            (m >> 13u32) & 1 == 1,
            (m >> 14u32) & 1 == 1,
            (m >> 15u32) & 1 == 1,
            (m >> 16u32) & 1 == 1,
            (m >> 17u32) & 1 == 1,
            (m >> 18u32) & 1 == 1,
            (m >> 19u32) & 1 == 1,
            (m >> 20u32) & 1 == 1,
            (m >> 21u32) & 1 == 1,
            (m >> 22u32) & 1 == 1,
            (m >> 23u32) & 1 == 1,
            (m >> 24u32) & 1 == 1,
            (m >> 25u32) & 1 == 1,
            (m >> 26u32) & 1 == 1,
    ;
}

/// Every one of the 27 environment bits is set in `ENV_FULL`.
pub proof fn lemma_env_full_bits(j: u32)
    requires
        j < 27,
    ensures
        bit32(ENV_FULL, j),
{
    assert((0x07FF_FFFFu32 >> j) & 1 == 1) by (bit_vector)
        requires
            j < 27u32,
    ;
}

/// A mask built from fewer than eight bits survives narrowing to `u8`.
pub proof fn lemma_mask_narrow(m: u32)
    requires
        m < 64,
    ensures
        (m as u8) as u32 == m,
{
    assert(m < 64 ==> (m as u8) as u32 == m) by (bit_vector);
}

/// Whether bit `i` of `m` is set.
pub fn test_bit32(m: u32, i: u32) -> (b: bool)
    requires
        i < 32,
    ensures
        b == bit32(m, i),
{
    (m >> i) & 1 == 1
}

/// Whether bit `i` of the narrow mask `m` is set.
pub fn test_bit8(m: u8, i: u32) -> (b: bool)
    requires
        i < 8,
    ensures
        b == bit8(m, i),
{
    ((m as u32) >> i) & 1 == 1
}

} // verus!
