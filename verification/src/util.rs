use vstd::prelude::*;

verus! {

use vstd::wrapping::u32_specs;
use vstd::arithmetic::div_mod::{
    lemma_fundamental_div_mod,
    lemma_mod_division_less_than_divisor,
    lemma_div_pos_is_pos,
    lemma_div_nonincreasing,
};
use vstd::arithmetic::mul::lemma_mul_is_commutative;

/// Multiplier of the multiplicative hash step.
pub const KNUTH: u32 = 2654435769;

pub open spec fn rotl11(x: u32) -> u32 {
    (x << 11u32) | (x >> 21u32)
}

pub open spec fn rotr17(x: u32) -> u32 {
    (x >> 17u32) | (x << 15u32)
}

/// One step of the xoshiro128 pseudo-random state transition.
pub open spec fn xoshiro_state(s: Seq<u32>) -> Seq<u32> {
    let t = s[1] << 9u32;
    let s2 = s[2] ^ s[0];
    let s3 = s[3] ^ s[1];
    let s1 = s[1] ^ s2;
    let s0 = s[0] ^ s3;
    seq![s0, s1, s2 ^ t, rotl11(s3)]
}

/// The output drawn from a xoshiro128 state.
pub open spec fn xoshiro_out(s: Seq<u32>) -> u32 {
    u32_specs::wrapping_add(s[0], s[3])
}

/// Advance the xoshiro128 state in place and return the output drawn from
/// the state as it was on entry.
pub fn xoshiro128(s: &mut [u32; 4]) -> (r: u32)
    ensures
        final(s)@ == xoshiro_state(old(s)@),
        r == xoshiro_out(old(s)@),
{
    let result = s[0].wrapping_add(s[3]);
    let t = s[1] << 9;
    let s2 = s[2] ^ s[0];
    let s3 = s[3] ^ s[1];
    let s1 = s[1] ^ s2;
    let s0 = s[0] ^ s3;
    let s2 = s2 ^ t;
    let s3 = (s3 << 11) | (s3 >> 21);
    *s = [s0, s1, s2, s3];
    proof {
        assert(s@ =~= xoshiro_state(old(s)@));
    }
    result
}

/// Multiplicative hashing of one word.
pub open spec fn knuth_spec(n: u32) -> u32 {
    rotr17(u32_specs::wrapping_mul(n, KNUTH))
}

pub fn knuth(n: u32) -> (r: u32)
    ensures
        r == knuth_spec(n),
{
    let m = n.wrapping_mul(KNUTH);
    (m >> 17) | (m << 15)
}

/// Folding a sequence of keys into one word by iterated multiplicative
/// hashing.
pub open spec fn hash_accum(keys: Seq<u32>) -> u32
    decreases keys.len(),
{
    if keys.len() == 0 {
        0u32
    } else {
        knuth_spec(hash_accum(keys.drop_last()) ^ keys.last())
    }
}

/// The hash of a sequence of keys: the folded word seeds a four-word
/// xoshiro128 state, which is stirred three times before one output is
/// drawn.
pub open spec fn hash_spec(keys: Seq<u32>) -> u32 {
    let h = hash_accum(keys);
    xoshiro_out(xoshiro_state(xoshiro_state(xoshiro_state(seq![h, h, h, h]))))
}

/// Hash the given keys into one well-mixed word.
pub fn hash(keys: &Vec<u32>) -> (r: u32)
    ensures
        r == hash_spec(keys@),
{
    let mut h: u32 = 0;
    let n = keys.len();
    let mut i: usize = 0;
    while i < n
        invariant
            i <= n,
            n == keys@.len(),
            h == hash_accum(keys@.take(i as int)),
        decreases n - i,
    {
        h = knuth(h ^ keys[i]);
        proof {
            assert(keys@.take(i + 1).drop_last() =~= keys@.take(i as int));
            assert(keys@.take(i + 1).last() == keys@[i as int]);
        }
        i += 1;
    }
    proof {
        assert(keys@.take(n as int) =~= keys@);
    }
    let mut state: [u32; 4] = [h, h, h, h];
    proof {
        assert(state@ =~= seq![h, h, h, h]);
    }
    xoshiro128(&mut state);
    xoshiro128(&mut state);
    xoshiro128(&mut state);
    state[0].wrapping_add(state[3])
}

/// Round `x` up to the next multiple of `alignment`.
pub fn align(x: usize, alignment: usize) -> (r: usize)
    requires
        alignment >= 1,
        x + alignment - 1 <= usize::MAX,
    ensures
        r == ((x + alignment - 1) as int / alignment as int) * alignment,
        r as int % alignment as int == 0,
        x <= r < x + alignment,
{
    let sum = x + (alignment - 1);
    let q = sum / alignment;
    proof {
        let a = alignment as int;
        let s = sum as int;
        lemma_fundamental_div_mod(s, a);
        lemma_mod_division_less_than_divisor(s, a);
        lemma_div_pos_is_pos(s, a);
        lemma_mul_is_commutative(a, s / a);
        assert((s / a) * a == s - s % a);
        vstd::arithmetic::div_mod::lemma_mod_multiples_basic(s / a, a);
    }
    q * alignment
}

/// Spacing between consecutive elements of an array of `T`: the size of `T`
/// rounded up to its alignment. Rust already guarantees that a type's size
/// is a multiple of its alignment, so the rounding is the identity.
pub fn stride_of<T>() -> (r: usize)
    ensures
        r as nat == vstd::layout::size_of::<T>(),
        r as nat % vstd::layout::align_of::<T>() == 0,
        vstd::layout::align_of::<T>() >= 1,
{
    vstd::layout::layout_for_type_is_valid::<T>();
    core::mem::size_of::<T>()
}

/// Map `x` linearly from the span `from` to the span `to`, rounding the
/// result towards the start of the target span.
pub fn rescale(x: i64, from: (i64, i64), to: (i64, i64)) -> (r: i64)
    requires
        from.0 <= x <= from.1,
        from.0 < from.1,
        to.0 <= to.1,
        -0x10_0000 <= from.0,
        from.1 <= 0x10_0000,
        -0x10_0000 <= to.0,
        to.1 <= 0x10_0000,
    ensures
        r == (x - from.0) * (to.1 - to.0) / (from.1 - from.0) + to.0,
{
    let span_from = from.1 - from.0;
    let span_to = to.1 - to.0;
    let offset = x - from.0;
    proof {
        assert(0 <= offset * span_to <= 0x4000_0000_0000) by (nonlinear_arith)
            requires
                0 <= offset <= 0x20_0000,
                0 <= span_to <= 0x20_0000,
        ;
    }
    let num = offset * span_to;
    let q = (num as u64) / (span_from as u64);
    proof {
        lemma_div_nonincreasing(num as int, span_from as int);
        lemma_div_pos_is_pos(num as int, span_from as int);
    }
    q as i64 + to.0
}

} // verus!
