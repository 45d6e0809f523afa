use vstd::prelude::*;

verus! {

/// Initial accumulator value of the byte-at-a-time hash.
pub const HASH_SEED: u32 = 0x1436781;

/// Odd multiplier applied to the accumulator after each byte.
pub const HASH_MULTIPLIER: u32 = 0x5bd1e995;

/// One round of the mix: fold in a byte, multiply modulo 2^32, then xor the
/// accumulator with itself shifted right by 15 bits.
pub open spec fn mix_byte(acc: u32, c: u8) -> u32 {
    let x = (acc ^ (c as u32)).wrapping_mul(HASH_MULTIPLIER);
    x ^ (x >> 15u32)
}

/// The hash of a byte string: the seed, mixed with each byte in order.
pub open spec fn hash_bytes(bytes: Seq<u8>) -> u32
    decreases bytes.len(),
{
    if bytes.len() == 0 {
        HASH_SEED
    } else {
        mix_byte(hash_bytes(bytes.drop_last()), bytes.last())
    }
}

/// The hash of a text value, taken over its UTF-8 encoding.
pub open spec fn hash_text(s: Seq<char>) -> u32 {
    hash_bytes(vstd::utf8::encode_utf8(s))
}

/// Hashes the UTF-8 bytes of `x` one at a time with a Murmur-style mix.
pub fn murmur_oaat(x: &String) -> (r: u32)
    ensures
        r == hash_text(x@),
{
    let bytes: &[u8] = x.as_str().as_bytes();
    let mut hash: u32 = HASH_SEED;
    let mut i: usize = 0;
    while i < bytes.len()
        invariant
            i <= bytes@.len(),
            bytes@ == vstd::utf8::encode_utf8(x@),
            hash == hash_bytes(bytes@.subrange(0, i as int)),
        decreases bytes@.len() - i,
    {
        let c = bytes[i];
        hash ^= c as u32;
        hash = hash.wrapping_mul(HASH_MULTIPLIER);
        hash ^= hash >> 15u32;
        proof {
            let next = bytes@.subrange(0, i + 1);
            assert(next.drop_last() =~= bytes@.subrange(0, i as int));
        }
        i += 1;
    }
    proof {
        assert(bytes@.subrange(0, i as int) =~= bytes@);
    }
    hash
}

} // verus!
