//! The pseudo-random source of the generator: the xorshift generator
//! of `rand_xorshift`, and what this library relies on of it.

use rand::rngs::ThreadRng;
use rand::{Rng, SeedableRng};
use rand_xorshift::XorShiftRng;
use vstd::bytes::spec_u32_from_le_bytes;
use vstd::prelude::*;

verus! {

/// `XorShiftRng` of `rand_xorshift`, carried as it is: what the library
/// knows of a generator it knows through `xorshift_state`.
#[verifier::external_type_specification]
#[verifier::external_body]
pub struct ExXorShiftRng(XorShiftRng);

/// `ThreadRng` of `rand`, carried as it is.
#[verifier::external_type_specification]
#[verifier::external_body]
pub struct ExThreadRng(ThreadRng);

/// The four words that an xorshift generator holds.
pub struct XorShiftState {
    pub x: u32,
    pub y: u32,
    pub z: u32,
    pub w: u32,
}

/// The four words that `rng` holds: the fields `x`, `y`, `z` and `w` of
/// `XorShiftRng`, which make up the whole of the generator.
pub uninterp spec fn xorshift_state(rng: XorShiftRng) -> XorShiftState;

/// The state after one step of the generator. The word that the step
/// gives out is the `w` of the new state.
pub open spec fn xorshift_step(s: XorShiftState) -> XorShiftState {
    let t = s.x ^ (s.x << 11);
    XorShiftState { x: s.y, y: s.z, z: s.w, w: s.w ^ (s.w >> 19) ^ (t ^ (t >> 8)) }
}

/// The state after `n` steps.
pub open spec fn xorshift_steps(s: XorShiftState, n: nat) -> XorShiftState
    decreases n,
{
    if n == 0 {
        s
    } else {
        xorshift_step(xorshift_steps(s, (n - 1) as nat))
    }
}

/// The word that stands in for a seed of nothing but zeros.
pub const ZERO_SEED_WORD: u32 = 0x0BAD_5EED;

/// The state that a seed of sixteen bytes gives: its four words, each
/// read least byte first. A seed of nothing but zeros gives four times
/// the stand-in word.
pub open spec fn xorshift_seeded(seed: Seq<u8>) -> XorShiftState {
    let x = spec_u32_from_le_bytes(seed.subrange(0, 4));
    let y = spec_u32_from_le_bytes(seed.subrange(4, 8));
    let z = spec_u32_from_le_bytes(seed.subrange(8, 12));
    let w = spec_u32_from_le_bytes(seed.subrange(12, 16));
    if x == 0 && y == 0 && z == 0 && w == 0 {
        XorShiftState { x: ZERO_SEED_WORD, y: ZERO_SEED_WORD, z: ZERO_SEED_WORD, w: ZERO_SEED_WORD }
    } else {
        XorShiftState { x, y, z, w }
    }
}

/// `XorShiftRng::from_seed` of `rand_xorshift`. The new generator holds the
/// four words of the seed, read least byte first, or four times
/// `0xBAD_5EED` where the seed is all zeros.
#[verifier::external_body]
pub(crate) fn rng_from_seed(seed: [u8; 16]) -> (rng: XorShiftRng)
    ensures
        xorshift_state(rng) == xorshift_seeded(seed@),
{
    XorShiftRng::from_seed(seed)
}

/// `Rng::gen::<u32>` of `rand` on an `XorShiftRng`: the standard sampler
/// takes `next_u32`, which makes one step and gives out the new `w`.
#[verifier::external_body]
pub(crate) fn rng_gen_u32(rng: &mut XorShiftRng) -> (value: u32)
    ensures
        xorshift_state(*final(rng)) == xorshift_step(xorshift_state(*old(rng))),
        value == xorshift_state(*final(rng)).w,
{
    rng.gen::<u32>()
}

/// `Rng::gen::<u64>` of `rand` on an `XorShiftRng`: the standard sampler
/// takes `next_u64`, which makes two steps and gives out the word of the
/// first as the low half and the word of the second as the high half.
#[verifier::external_body]
pub(crate) fn rng_gen_u64(rng: &mut XorShiftRng) -> (value: u64)
    ensures
        xorshift_state(*final(rng)) == xorshift_steps(xorshift_state(*old(rng)), 2),
        value == xorshift_steps(xorshift_state(*old(rng)), 2).w * 0x1_0000_0000
            + xorshift_steps(xorshift_state(*old(rng)), 1).w,
{
    rng.gen::<u64>()
}

/// `rand::thread_rng`: a handle to the generator of the current thread.
/// Nothing is known of what it will give.
#[verifier::external_body]
pub(crate) fn thread_rng() -> ThreadRng {
    rand::thread_rng()
}

/// `Rng::gen::<u32>` of `rand` on the generator of a thread: any word may come.
#[verifier::external_body]
pub(crate) fn thread_gen_u32(rng: &mut ThreadRng) -> u32 {
    rng.gen::<u32>()
}

} // verus!
