//! Block hashes and their byte form.

use vstd::prelude::*;

verus! {

/// A 256-bit block hash, held as its two 128-bit halves.
///
/// `hi` holds the first sixteen bytes of the digest read as a big-endian
/// number, `lo` the last sixteen. Hashes are only ever compared for equality.
#[derive(Clone, Copy, Debug, PartialEq, Eq, Hash, Structural)]
pub struct BlockHash {
    pub hi: u128,
    pub lo: u128,
}

/// Byte `i` of `x`, counted from the most significant one.
pub open spec fn limb_byte(x: u128, i: int) -> u8 {
    ((x >> (((15 - i) * 8) as u128)) & 0xff) as u8
}

impl BlockHash {
    pub fn new(hi: u128, lo: u128) -> (hash: BlockHash)
        ensures
            hash == (BlockHash { hi, lo }),
    {
        BlockHash { hi, lo }
    }

    /// The hash as its thirty-two bytes, first byte first.
    pub open spec fn bytes(self) -> Seq<u8> {
        Seq::new(
            32,
            |i: int|
                if i < 16 {
                    limb_byte(self.hi, i)
                } else {
                    limb_byte(self.lo, i - 16)
                },
        )
    }

    /// The thirty-two bytes of the hash, first byte first.
    pub fn to_bytes(&self) -> (out: [u8; 32])
        ensures
            out@ == self.bytes(),
    {
        let mut out = [0u8; 32];
        let mut i: usize = 0;
        while i < 16
            invariant
                0 <= i <= 16,
                forall|j: int| 0 <= j < i ==> out@[j] == limb_byte(self.hi, j),
                forall|j: int| 0 <= j < i ==> out@[16 + j] == limb_byte(self.lo, j),
            decreases 16 - i,
        {
            let shift: u128 = ((15 - i) * 8) as u128;
            out[i] = ((self.hi >> shift) & 0xff) as u8;
            out[16 + i] = ((self.lo >> shift) & 0xff) as u8;
            i = i + 1;
        }
        assert(out@ =~= self.bytes());
        out
    }

    /// The hash with the given thirty-two bytes, first byte first.
    pub fn from_bytes(bytes: &[u8; 32]) -> (hash: BlockHash)
        ensures
            hash.bytes() == bytes@,
    {
        let hash = BlockHash { hi: limb_from_bytes(bytes, 0), lo: limb_from_bytes(bytes, 16) };
        assert(hash.bytes() =~= bytes@);
        hash
    }
}

/// Reads the sixteen bytes from `offset` on as one big-endian number.
fn limb_from_bytes(bytes: &[u8; 32], offset: usize) -> (x: u128)
    requires
        offset <= 16,
    ensures
        forall|j: int| 0 <= j < 16 ==> limb_byte(x, j) == bytes@[offset + j],
{
    let mut x: u128 = 0;
    let mut i: usize = 0;
    while i < 16
        invariant
            0 <= i <= 16,
            offset <= 16,
            forall|j: int| 0 <= j < i ==> #[trigger] byte_below(x, i as int, j) == bytes@[offset + j],
        decreases 16 - i,
    {
        let byte: u128 = bytes[offset + i] as u128;
        let next: u128 = (x << 8) | byte;
        proof {
            assert forall|j: int| 0 <= j < i + 1 implies #[trigger] byte_below(next, i + 1, j)
                == bytes@[offset + j] by {
                if j < i {
                    assert(byte_below(x, i as int, j) == bytes@[offset + j]);
                    lemma_shift_in(x, byte, ((i - 1 - j) * 8) as u128);
                } else {
                    lemma_shift_in_low(x, byte);
                }
            }
        }
        x = next;
        i = i + 1;
    }
    proof {
        assert forall|j: int| 0 <= j < 16 implies limb_byte(x, j) == bytes@[offset + j] by {
            assert(byte_below(x, 16, j) == bytes@[offset + j]);
        }
    }
    x
}

/// Of a number read from `i` bytes, the one that was read as byte `j`.
spec fn byte_below(x: u128, i: int, j: int) -> u128 {
    (x >> (((i - 1 - j) * 8) as u128)) & 0xff
}

/// The bytes of `x` move up by one place when a byte is shifted in.
proof fn lemma_shift_in(x: u128, byte: u128, s: u128)
    by (bit_vector)
    requires
        byte < 256,
        s <= 112,
    ensures
        (((x << 8) | byte) >> (s + 8)) & 0xff == (x >> s) & 0xff,
{
}

/// A byte that is shifted in becomes the lowest byte.
proof fn lemma_shift_in_low(x: u128, byte: u128)
    by (bit_vector)
    requires
        byte < 256,
    ensures
        (((x << 8) | byte) >> 0) & 0xff == byte,
{
}

/// A number is known by its sixteen bytes.
proof fn lemma_limb_by_bytes(x: u128, y: u128)
    by (bit_vector)
    requires
        (x >> 120) & 0xff == (y >> 120) & 0xff,
        (x >> 112) & 0xff == (y >> 112) & 0xff,
        (x >> 104) & 0xff == (y >> 104) & 0xff,
        (x >> 96) & 0xff == (y >> 96) & 0xff,
        (x >> 88) & 0xff == (y >> 88) & 0xff,
        (x >> 80) & 0xff == (y >> 80) & 0xff,
        (x >> 72) & 0xff == (y >> 72) & 0xff,
        (x >> 64) & 0xff == (y >> 64) & 0xff,
        (x >> 56) & 0xff == (y >> 56) & 0xff,
        (x >> 48) & 0xff == (y >> 48) & 0xff,
        (x >> 40) & 0xff == (y >> 40) & 0xff,
        (x >> 32) & 0xff == (y >> 32) & 0xff,
        (x >> 24) & 0xff == (y >> 24) & 0xff,
        (x >> 16) & 0xff == (y >> 16) & 0xff,
        (x >> 8) & 0xff == (y >> 8) & 0xff,
        (x >> 0) & 0xff == (y >> 0) & 0xff,
    ensures
        x == y,
{
}

/// The low byte of a number is below 256.
proof fn lemma_low_byte(v: u128)
    by (bit_vector)
    ensures
        v & 0xff < 256,
{
}

/// Two numbers with the same byte at place `i` agree on those eight bits.
proof fn lemma_same_byte(x: u128, y: u128, i: int)
    requires
        0 <= i < 16,
        limb_byte(x, i) == limb_byte(y, i),
    ensures
        (x >> (((15 - i) * 8) as u128)) & 0xff == (y >> (((15 - i) * 8) as u128)) & 0xff,
{
    lemma_low_byte(x >> (((15 - i) * 8) as u128));
    lemma_low_byte(y >> (((15 - i) * 8) as u128));
}

/// Two hashes with the same bytes are the same hash.
pub proof fn lemma_bytes_injective(a: BlockHash, b: BlockHash)
    requires
        a.bytes() == b.bytes(),
    ensures
        a == b,
{
    assert forall|i: int| 0 <= i < 16 implies limb_byte(a.hi, i) == limb_byte(b.hi, i)
        && limb_byte(a.lo, i) == limb_byte(b.lo, i) by {
        assert(a.bytes()[i] == limb_byte(a.hi, i));
        assert(b.bytes()[i] == limb_byte(b.hi, i));
        assert(a.bytes()[i + 16] == limb_byte(a.lo, i));
        assert(b.bytes()[i + 16] == limb_byte(b.lo, i));
    }
    lemma_limb_injective(a.hi, b.hi);
    lemma_limb_injective(a.lo, b.lo);
}

/// Two numbers with the same sixteen bytes are the same number.
proof fn lemma_limb_injective(x: u128, y: u128)
    requires
        forall|i: int| 0 <= i < 16 ==> limb_byte(x, i) == limb_byte(y, i),
    ensures
        x == y,
{
    lemma_same_byte(x, y, 0);
    lemma_same_byte(x, y, 1);
    lemma_same_byte(x, y, 2);
    lemma_same_byte(x, y, 3);
    lemma_same_byte(x, y, 4);
    lemma_same_byte(x, y, 5);
    lemma_same_byte(x, y, 6);
    lemma_same_byte(x, y, 7);
    lemma_same_byte(x, y, 8);
    lemma_same_byte(x, y, 9);
    lemma_same_byte(x, y, 10);
    lemma_same_byte(x, y, 11);
    lemma_same_byte(x, y, 12);
    lemma_same_byte(x, y, 13);
    lemma_same_byte(x, y, 14);
    lemma_same_byte(x, y, 15);
    lemma_limb_by_bytes(x, y);
}

} // verus!
