//! Identity hashing: a SplitMix64-style avalanche over an identity value.

use vstd::prelude::*;

verus! {

pub const MIX_A: u64 = 0xff51afd7ed558ccd;

pub const MIX_B: u64 = 0xc4ceb9fe1a85ec53;

/// The hash of an identity: xor-shift by 33, multiply, xor-shift, multiply, xor-shift.
pub open spec fn spec_hash_pointer(key: u64) -> u64 {
    let h1 = key ^ (key >> 33u64);
    let h2 = vstd::wrapping::u64_specs::wrapping_mul(h1, MIX_A);
    let h3 = h2 ^ (h2 >> 33u64);
    let h4 = vstd::wrapping::u64_specs::wrapping_mul(h3, MIX_B);
    h4 ^ (h4 >> 33u64)
}

/// Computes the hash of an identity, once per identity and logical operation.
pub fn hash_pointer(key: u64) -> (r: u64)
    ensures
        r == spec_hash_pointer(key),
{
    let mut h: u64 = key;
    h = h ^ (h >> 33u64);
    h = h.wrapping_mul(MIX_A);
    h = h ^ (h >> 33u64);
    h = h.wrapping_mul(MIX_B);
    h = h ^ (h >> 33u64);
    h
}

} // verus!
