//! Stateless coordinate hashing for order-independent procedural features.

use vstd::prelude::*;

use vstd::wrapping::u64_specs::wrapping_mul;

verus! {

/// The SplitMix64 finaliser: every input bit affects every output bit.
pub open spec fn spec_avalanche(value: u64) -> u64 {
    let first = wrapping_mul(value ^ (value >> 30u64), 0xBF58_476D_1CE4_E5B9);
    let second = wrapping_mul(first ^ (first >> 27u64), 0x94D0_49BB_1331_11EB);
    second ^ (second >> 31u64)
}

/// Hash of a seed and a horizontal world coordinate.
pub open spec fn spec_hash_2d(seed: u64, x: i64, z: i64) -> u64 {
    spec_avalanche(
        seed ^ wrapping_mul(x as u64, 0x9E37_79B9_7F4A_7C15) ^ wrapping_mul(
            z as u64,
            0xC2B2_AE3D_27D4_EB4F,
        ),
    )
}

/// Hash of a seed and a world coordinate.
pub open spec fn spec_hash_3d(seed: u64, x: i64, y: i64, z: i64) -> u64 {
    spec_avalanche(
        seed ^ wrapping_mul(x as u64, 0x9E37_79B9_7F4A_7C15) ^ wrapping_mul(
            y as u64,
            0xD6E8_FEB8_6659_FD93,
        ) ^ wrapping_mul(z as u64, 0xC2B2_AE3D_27D4_EB4F),
    )
}

/// SplitMix64: one golden-ratio step, then the avalanche finaliser.
pub open spec fn spec_splitmix64(value: u64) -> u64 {
    spec_avalanche(vstd::wrapping::u64_specs::wrapping_add(value, 0x9E37_79B9_7F4A_7C15))
}

pub fn splitmix64(value: u64) -> (r: u64)
    ensures
        r == spec_splitmix64(value),
{
    avalanche(value.wrapping_add(0x9E37_79B9_7F4A_7C15))
}

fn avalanche(value: u64) -> (r: u64)
    ensures
        r == spec_avalanche(value),
{
    let first = (value ^ (value >> 30u64)).wrapping_mul(0xBF58_476D_1CE4_E5B9);
    let second = (first ^ (first >> 27u64)).wrapping_mul(0x94D0_49BB_1331_11EB);
    second ^ (second >> 31u64)
}

pub fn hash_2d(seed: u64, x: i64, z: i64) -> (r: u64)
    ensures
        r == spec_hash_2d(seed, x, z),
{
    avalanche(
        seed ^ (x as u64).wrapping_mul(0x9E37_79B9_7F4A_7C15) ^ (z as u64).wrapping_mul(
            0xC2B2_AE3D_27D4_EB4F,
        ),
    )
}

pub fn hash_3d(seed: u64, x: i64, y: i64, z: i64) -> (r: u64)
    ensures
        r == spec_hash_3d(seed, x, y, z),
{
    avalanche(
        seed ^ (x as u64).wrapping_mul(0x9E37_79B9_7F4A_7C15) ^ (y as u64).wrapping_mul(
            0xD6E8_FEB8_6659_FD93,
        ) ^ (z as u64).wrapping_mul(0xC2B2_AE3D_27D4_EB4F),
    )
}

} // verus!
