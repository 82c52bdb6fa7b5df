//! The sequence-number-to-partition bijection used by the boot selector, and
//! the CRC-guarded decoding of a stored sequence number.

use crate::crc32::{calc_crc32, crc32_of};
use vstd::arithmetic::div_mod::{
    lemma_fundamental_div_mod, lemma_fundamental_div_mod_converse_mod, lemma_mod_bound,
};
use vstd::bytes::{spec_u32_from_le_bytes, u32_from_le_bytes};
use vstd::prelude::*;

verus! {

/// The partition index implied by a boot-record sequence number, for a table
/// of `n` partitions: `(n - 1) - (seq mod n)`.
pub open spec fn spec_seq_to_part(seq: int, n: int) -> int
    recommends
        n >= 1,
{
    (n - 1) - seq % n
}

/// Maps a boot-record sequence number to the partition index it selects.
pub fn seq_to_part(seq: u32, n: usize) -> (r: usize)
    requires
        n >= 1,
    ensures
        r == spec_seq_to_part(seq as int, n as int),
        r < n,
{
    proof {
        lemma_mod_bound(seq as int, n as int);
    }
    (n - 1) - (seq as usize % n)
}

/// Decodes a little-endian sequence number, accepting it only when `crc`
/// equals the CRC32 (seed 0xFFFFFFFF) of its four bytes; otherwise `default`.
pub fn seq_or_default(seq: &[u8], crc: u32, default: u32) -> (r: u32)
    requires
        seq@.len() == 4,
    ensures
        r == (if crc32_of(seq@, 0xFFFFFFFFu32) == crc {
            spec_u32_from_le_bytes(seq@)
        } else {
            default
        }),
{
    let crc_calc = calc_crc32(seq, 0xFFFFFFFF);
    if crc == crc_calc {
        u32_from_le_bytes(seq)
    } else {
        default
    }
}

/// Within any window of `n` consecutive sequence numbers, distinct sequence
/// numbers select distinct partitions.
pub proof fn lemma_seq_to_part_injective(n: int, s1: int, s2: int)
    requires
        n >= 1,
        0 <= s1,
        s1 < s2 < s1 + n,
    ensures
        spec_seq_to_part(s1, n) != spec_seq_to_part(s2, n),
{
    lemma_fundamental_div_mod(s1, n);
    lemma_mod_bound(s1, n);
    let q1 = s1 / n;
    let r1 = s1 % n;
    let d = s2 - s1;
    assert(q1 * n == n * q1) by (nonlinear_arith);
    if r1 + d < n {
        lemma_fundamental_div_mod_converse_mod(s2, n, q1, r1 + d);
    } else {
        assert((q1 + 1) * n == q1 * n + n) by (nonlinear_arith);
        lemma_fundamental_div_mod_converse_mod(s2, n, q1 + 1, r1 + d - n);
    }
}

/// Within any window of `n` consecutive sequence numbers, every partition
/// index `0 <= k < n` is selected by some sequence number; together with
/// injectivity, by exactly one.
pub proof fn lemma_seq_to_part_surjective(n: int, base: int, k: int)
    requires
        n >= 1,
        0 <= base,
        0 <= k < n,
    ensures
        exists|s: int|
            base <= s < base + n && #[trigger] spec_seq_to_part(s, n) == k,
{
    let r_target = n - 1 - k;
    let e = r_target - base;
    lemma_mod_bound(e, n);
    lemma_fundamental_div_mod(e, n);
    let s = base + e % n;
    assert((-(e / n)) * n == -(n * (e / n))) by (nonlinear_arith);
    lemma_fundamental_div_mod_converse_mod(s, n, -(e / n), r_target);
    assert(spec_seq_to_part(s, n) == k);
}

} // verus!
