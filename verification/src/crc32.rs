//! Incremental CRC32 engine (reflected polynomial 0xEDB88320), compatible with
//! the checksum the platform bootloader uses over boot records and images.
//!
//! The computation is seedable: feeding a buffer in pieces, each call seeded
//! with the previous result, yields the same checksum as one call over the
//! whole buffer (`lemma_crc32_concat`).

use vstd::prelude::*;

verus! {

/// One shift-and-conditionally-xor round of the bitwise CRC32 update.
pub open spec fn crc32_step(c: u32) -> u32 {
    if c & 1 == 1 {
        (c >> 1) ^ 0xEDB88320u32
    } else {
        c >> 1
    }
}

/// `crc32_step` applied `n` times.
pub open spec fn spec_rounds(c: u32, n: nat) -> u32
    decreases n,
{
    if n == 0 {
        c
    } else {
        crc32_step(spec_rounds(c, (n - 1) as nat))
    }
}

/// Folds one byte into the internal CRC state: xor it in, then run the eight
/// bit rounds.
pub open spec fn crc32_push_byte(c: u32, b: u8) -> u32 {
    spec_rounds(c ^ (b as u32), 8)
}

/// Internal CRC state after folding in every byte of `s`, starting from state `c`.
pub open spec fn crc32_state(s: Seq<u8>, c: u32) -> u32
    decreases s.len(),
{
    if s.len() == 0 {
        c
    } else {
        crc32_push_byte(crc32_state(s.drop_last(), c), s.last())
    }
}

/// CRC32 of `s` with the given seed. A seed of 0 gives the standard CRC32;
/// the output of one call can seed the next to continue the same stream.
pub open spec fn crc32_of(s: Seq<u8>, seed: u32) -> u32 {
    !crc32_state(s, !seed)
}

fn crc32_round(c: u32) -> (r: u32)
    ensures
        r == crc32_step(c),
{
    if c & 1 == 1 {
        (c >> 1) ^ 0xEDB88320u32
    } else {
        c >> 1
    }
}

/// Computes the seedable CRC32 of `data`.
pub fn calc_crc32(data: &[u8], seed: u32) -> (r: u32)
    ensures
        r == crc32_of(data@, seed),
{
    let mut crc: u32 = !seed;
    let mut i: usize = 0;
    while i < data.len()
        invariant
            i <= data@.len(),
            crc == crc32_state(data@.take(i as int), !seed),
        decreases data@.len() - i,
    {
        let mut c = crc ^ (data[i] as u32);
        let mut round: usize = 0;
        while round < 8
            invariant
                round <= 8,
                c == spec_rounds(crc ^ (data@[i as int] as u32), round as nat),
            decreases 8 - round,
        {
            c = crc32_round(c);
            round += 1;
        }
        proof {
            assert(c == crc32_push_byte(crc, data@[i as int]));
            assert(data@.take(i + 1).drop_last() =~= data@.take(i as int));
            assert(data@.take(i + 1).last() == data@[i as int]);
        }
        crc = c;
        i += 1;
    }
    proof {
        assert(data@.take(data@.len() as int) =~= data@);
    }
    !crc
}

/// A CRC over no bytes returns its seed unchanged.
pub proof fn lemma_crc32_empty(seed: u32)
    ensures
        crc32_of(Seq::<u8>::empty(), seed) == seed,
{
    let x = seed;
    assert(!(!x) == x) by (bit_vector);
}

proof fn lemma_crc32_state_concat(a: Seq<u8>, b: Seq<u8>, c: u32)
    ensures
        crc32_state(a + b, c) == crc32_state(b, crc32_state(a, c)),
    decreases b.len(),
{
    if b.len() == 0 {
        assert(a + b =~= a);
    } else {
        lemma_crc32_state_concat(a, b.drop_last(), c);
        assert((a + b).drop_last() =~= a + b.drop_last());
        assert((a + b).last() == b.last());
    }
}

/// Chunk boundaries never affect the result: checksumming `a + b` in one pass
/// equals checksumming `b` seeded with the checksum of `a`.
pub proof fn lemma_crc32_concat(a: Seq<u8>, b: Seq<u8>, seed: u32)
    ensures
        crc32_of(a + b, seed) == crc32_of(b, crc32_of(a, seed)),
{
    lemma_crc32_state_concat(a, b, !seed);
    let x = crc32_state(a, !seed);
    assert(!(!x) == x) by (bit_vector);
}

} // verus!
