//! The hash that identifies a source text.

use vstd::prelude::*;

verus! {

/// The 64-bit FNV-1a hash of a byte string.
pub open spec fn fnv1a(bytes: Seq<u8>) -> u64
    decreases bytes.len(),
{
    if bytes.len() == 0 {
        0xcbf2_9ce4_8422_2325
    } else {
        fnv1a_step(fnv1a(bytes.drop_last()), bytes.last())
    }
}

/// The hash of a byte string from the hash of all its bytes but the last.
pub open spec fn fnv1a_step(hash: u64, byte: u8) -> u64 {
    (((hash ^ (byte as u64)) * 0x0000_0100_0000_01b3) % 0x1_0000_0000_0000_0000) as u64
}

/// The hash of a text: that of its UTF-8 bytes.
pub fn stable_hash(value: &str) -> (r: u64)
    ensures
        r == fnv1a(vstd::utf8::encode_utf8(value@)),
{
    let bytes = value.as_bytes();
    let mut hash: u64 = 0xcbf2_9ce4_8422_2325;
    let mut i: usize = 0;
    while i < bytes.len()
        invariant
            i <= bytes.len(),
            hash == fnv1a(bytes@.take(i as int)),
        decreases bytes.len() - i,
    {
        hash = (hash ^ (bytes[i] as u64)).wrapping_mul(0x0000_0100_0000_01b3);
        i = i + 1;
        assert(bytes@.take(i as int).drop_last() =~= bytes@.take(i - 1));
    }
    assert(bytes@.take(i as int) =~= bytes@);
    hash
}

} // verus!
