//! The digest computed outside the circuit: the XOR of all preimage bytes.

use vstd::prelude::*;

verus! {

/// Number of bytes in a preimage.
pub const INPUT_SIZE: usize = 32;

/// XOR of all bytes of a sequence, folded from the left, starting from zero.
pub open spec fn xor_fold(bytes: Seq<u8>) -> u8 {
    bytes.fold_left(0u8, |acc: u8, b: u8| acc ^ b)
}

/// Bit `i` of a byte, counted from the least significant one.
pub open spec fn bit_of(byte: u8, i: int) -> bool {
    (byte >> (i as u8)) & 1u8 == 1u8
}

/// The 8 bits of a byte, the least significant one first.
pub open spec fn byte_bits(byte: u8) -> Seq<bool> {
    Seq::new(8, |i: int| bit_of(byte, i))
}

/// Bit `i` of a byte, counted from the least significant one.
pub fn bit_at(byte: u8, i: usize) -> (bit: bool)
    requires
        i < 8,
    ensures
        bit == bit_of(byte, i as int),
{
    let shift: u8 = i as u8;
    (byte >> shift) & 1u8 == 1u8
}

/// A bit of the XOR of two bytes is set exactly when the bits of the two
/// bytes at that position differ.
pub proof fn lemma_bit_of_xor(a: u8, b: u8, i: int)
    requires
        0 <= i < 8,
    ensures
        bit_of(a ^ b, i) == (bit_of(a, i) != bit_of(b, i)),
{
    let t = i as u8;
    assert((((a ^ b) >> t) & 1u8 == 1u8) == (((a >> t) & 1u8 == 1u8) != ((b >> t) & 1u8 == 1u8)))
        by (bit_vector)
        requires
            t < 8,
    ;
}

/// No bit of the zero byte is set.
pub proof fn lemma_bit_of_zero(i: int)
    requires
        0 <= i < 8,
    ensures
        !bit_of(0u8, i),
{
    let t = i as u8;
    assert(!((0u8 >> t) & 1u8 == 1u8)) by (bit_vector)
        requires
            t < 8,
    ;
}

/// Folding one more byte XORs it into the digest of the bytes before it.
pub proof fn lemma_xor_fold_push(bytes: Seq<u8>, b: u8)
    ensures
        xor_fold(bytes.push(b)) == xor_fold(bytes) ^ b,
{
    assert(bytes.push(b).drop_last() == bytes);
}

/// The digest of a preimage: the XOR of its 32 bytes.
pub fn native_xor_sum(data: &[u8]) -> (digest: u8)
    requires
        data@.len() == INPUT_SIZE,
    ensures
        digest == xor_fold(data@),
{
    let mut acc: u8 = 0;
    let mut i: usize = 0;
    while i < data.len()
        invariant
            i <= data@.len(),
            acc == xor_fold(data@.take(i as int)),
        decreases data@.len() - i,
    {
        proof {
            lemma_xor_fold_push(data@.take(i as int), data@[i as int]);
            assert(data@.take(i as int).push(data@[i as int]) == data@.take(i + 1));
        }
        acc = acc ^ data[i];
        i += 1;
    }
    proof {
        assert(data@.take(i as int) == data@);
    }
    acc
}

/// The digest does not depend on the order of the bytes: two sequences that
/// hold the same bytes, each as often as the other, have the same digest.
pub proof fn lemma_xor_fold_permutation(a: Seq<u8>, b: Seq<u8>)
    requires
        a.to_multiset() == b.to_multiset(),
    ensures
        xor_fold(a) == xor_fold(b),
{
    let f = |acc: u8, x: u8| acc ^ x;
    assert forall|x: u8, y: u8, v: u8| #[trigger] f(f(v, x), y) == f(f(v, y), x) by {
        assert((v ^ x) ^ y == (v ^ y) ^ x) by (bit_vector);
    }
    vstd::seq_lib::lemma_fold_left_permutation(a, b, f, 0u8);
}

} // verus!
