//! The fingerprint of a bundle for the extraction cache.

use vstd::prelude::*;

verus! {

/// Where an FNV-1a hash of 64 bits begins.
pub const FNV_OFFSET: u64 = 0xcbf2_9ce4_8422_2325;

/// What an FNV-1a hash of 64 bits is multiplied by at each byte.
pub const FNV_PRIME: u64 = 0x0000_0100_0000_01b3;

/// The FNV-1a hash of 64 bits: each byte is mixed in, then the hash is
/// multiplied modulo two to the power of 64.
pub open spec fn fnv1a(data: Seq<u8>) -> u64
    decreases data.len(),
{
    if data.len() == 0 {
        FNV_OFFSET
    } else {
        (((fnv1a(data.drop_last()) ^ (data.last() as u64)) * FNV_PRIME) % 0x1_0000_0000_0000_0000) as u64
    }
}

/// FNV-1a hash of 64 bits, used to fingerprint the bundle for the extraction
/// cache.
pub fn hash64(data: &[u8]) -> (h: u64)
    ensures
        h == fnv1a(data@),
{
    let mut h: u64 = FNV_OFFSET;
    let mut i: usize = 0;
    while i < data.len()
        invariant
            i <= data.len(),
            h == fnv1a(data@.take(i as int)),
        decreases data.len() - i,
    {
        assert(data@.take(i + 1).drop_last() == data@.take(i as int));
        h = (h ^ (data[i] as u64)).wrapping_mul(FNV_PRIME);
        i += 1;
    }
    assert(data@.take(i as int) == data@);
    h
}

/// The hash begins at the offset of FNV, and one byte more is mixed into it before
/// it is multiplied by the prime of FNV, modulo two to the power of 64.
pub proof fn law_hash_takes_one_byte_after_the_other(data: Seq<u8>, byte: u8)
    ensures
        fnv1a(Seq::empty()) == 0xcbf2_9ce4_8422_2325,
        fnv1a(data.push(byte)) == ((fnv1a(data) ^ (byte as u64)) * 0x100_0000_01b3)
            % 0x1_0000_0000_0000_0000,
{
    assert(data.push(byte).drop_last() == data);
    assert(data.push(byte).last() == byte);
}

} // verus!
