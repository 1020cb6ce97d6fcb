use vstd::prelude::*;
use vstd::wrapping::u64_specs::wrapping_mul;
use crate::color::Color;

verus! {

/// First multiplier of the mixing function.
pub const MIX_A: u64 = 0xbf58476d1ce4e5b9;
/// Second multiplier of the mixing function.
pub const MIX_B: u64 = 0x94d049bb133111eb;
/// Offset that spreads consecutive keys apart before mixing.
pub const GAMMA: u64 = 0x9e3779b97f4a7c15;

/// The splitmix64 finaliser applied to `x`.
pub open spec fn mix(x: u64) -> u64 {
    let a = wrapping_mul(x ^ (x >> 30u64), MIX_A);
    let b = wrapping_mul(a ^ (a >> 27u64), MIX_B);
    b ^ (b >> 31u64)
}

/// The Zobrist value of a stone of colour `c` on vertex `p`: one entry of a
/// fixed 2 x 441 table of pseudo-random words.
pub open spec fn zobrist_value(c: Color, p: int) -> u64 {
    mix(wrapping_mul((c.index_spec() * 441 + p + 1) as u64, GAMMA))
}

/// Returns the Zobrist value of a stone of colour `c` on vertex `p`.
pub fn value(c: Color, p: usize) -> (r: u64)
    requires
        p < 441,
    ensures
        r == zobrist_value(c, p as int),
{
    let key: u64 = (c.index() * 441 + p + 1) as u64;
    let x: u64 = key.wrapping_mul(GAMMA);
    let a: u64 = (x ^ (x >> 30u64)).wrapping_mul(MIX_A);
    let b: u64 = (a ^ (a >> 27u64)).wrapping_mul(MIX_B);
    b ^ (b >> 31u64)
}

} // verus!
