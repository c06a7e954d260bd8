//! The engine's source of auxiliary randomness: a linear congruential
//! generator that every request starts from the next seed.

use crate::bytes::copy_range;
use vstd::bytes::{lemma_auto_spec_u64_to_from_le_bytes, spec_u64_to_le_bytes, u64_to_le_bytes};
use vstd::prelude::*;

verus! {

/// The first seed of the in-memory file system.
pub const TVM_SEED: u64 = 0x9E3779B97F4A7C15;

/// The first seed of the file system with a backend.
pub const OPFS_SEED: u64 = 0xA1B2C3D4E5F60718;

/// The generator's step.
pub open spec fn step(s: u64) -> u64 {
    s.wrapping_mul(0x5DEECE66Du64).wrapping_add(0xBu64)
}

/// The generator's state after `n` steps.
pub open spec fn steps(s: u64, n: nat) -> u64
    decreases n,
{
    if n == 0 {
        s
    } else {
        step(steps(s, (n - 1) as nat))
    }
}

/// Byte `i` of what the seed `s` gives: every step yields eight bytes.
pub open spec fn random_byte(s: u64, i: int) -> u8 {
    spec_u64_to_le_bytes(steps(s, (i / 8 + 1) as nat))[i % 8]
}

/// Fills `out` and moves the seed on by one. The result is how many bytes were
/// given.
pub fn vfs_randomness(seed: &mut u64, out: &mut [u8]) -> (r: usize)
    ensures
        r == old(out)@.len(),
        final(out)@.len() == old(out)@.len(),
        if old(out)@.len() == 0 {
            *final(seed) == *old(seed)
        } else {
            *final(seed) == old(seed).wrapping_add(1)
        },
        forall|i: int|
            0 <= i < old(out)@.len() ==> #[trigger] final(out)@[i] == random_byte(*old(seed), i),
{
    let n: usize = out.len();
    if n == 0 {
        return 0;
    }
    let ghost s0 = *seed;
    let mut s: u64 = *seed;
    *seed = s.wrapping_add(1);
    let mut at: usize = 0;
    let ghost mut k: nat = 0;
    while at < n
        invariant
            n == out.len(),
            out@.len() == old(out)@.len(),
            s0 == *old(seed),
            *seed == s0.wrapping_add(1),
            s == steps(s0, k),
            at <= n,
            at == 8 * k || at == n,
            forall|i: int| 0 <= i < at ==> #[trigger] out@[i] == random_byte(s0, i),
        decreases n - at,
    {
        s = s.wrapping_mul(0x5DEECE66D).wrapping_add(0xB);
        proof {
            k = k + 1;
            lemma_auto_spec_u64_to_from_le_bytes();
        }
        let src: Vec<u8> = u64_to_le_bytes(s);
        let take: usize = if n - at < 8 {
            n - at
        } else {
            8
        };
        let ghost before = out@;
        copy_range(out, at, src.as_slice(), 0, take);
        proof {
            assert forall|i: int| 0 <= i < at + take implies #[trigger] out@[i] == random_byte(
                s0,
                i,
            ) by {
                if i < at {
                    assert(out@[i] == before[i]);
                } else {
                    assert(i / 8 == k - 1);
                    assert(i % 8 == i - at);
                    assert(out@[i] == src@[i - at]);
                }
            }
        }
        at = at + take;
    }
    n
}

} // verus!
