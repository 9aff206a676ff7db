//! Elements of the BLS12-381 scalar field, held as canonical little-endian
//! bytes. The arithmetic itself is done by `bls12_381`; this module states what
//! it computes.

use bls12_381::Scalar;
use vstd::prelude::*;

verus! {

/// The order of the BLS12-381 scalar field.
pub open spec fn modulus() -> nat {
    0x73eda753299d7d483339d80809a1d80553bda402fffe5bfeffffffff00000001nat
}

/// The number of bits that every field element can hold without wrapping
/// around the modulus: any value below `2^CAPACITY` is a canonical element.
pub const CAPACITY: usize = 254;

/// The number that a sequence of bytes spells in little-endian order.
pub open spec fn le_value(bytes: Seq<u8>) -> nat
    decreases bytes.len(),
{
    if bytes.len() == 0 {
        0
    } else {
        bytes[0] as nat + 256 * le_value(bytes.drop_first())
    }
}

/// A sequence of zero bytes spells zero.
pub proof fn lemma_le_value_zeros(bytes: Seq<u8>)
    requires
        forall|i: int| 0 <= i < bytes.len() ==> bytes[i] == 0,
    ensures
        le_value(bytes) == 0,
    decreases bytes.len(),
{
    if bytes.len() > 0 {
        lemma_le_value_zeros(bytes.drop_first());
    }
}

/// Two sequences of bytes of one length that spell the same number are the
/// same sequence.
pub proof fn lemma_le_value_injective(a: Seq<u8>, b: Seq<u8>)
    requires
        a.len() == b.len(),
        le_value(a) == le_value(b),
    ensures
        a == b,
    decreases a.len(),
{
    if a.len() > 0 {
        let x = le_value(a.drop_first());
        let y = le_value(b.drop_first());
        assert(a[0] as nat + 256 * x == b[0] as nat + 256 * y);
        assert(a[0] == b[0] && x == y) by {
            if x < y {
                assert(256 * x + 256 <= 256 * y);
            } else if y < x {
                assert(256 * y + 256 <= 256 * x);
            }
        }
        lemma_le_value_injective(a.drop_first(), b.drop_first());
        assert(a =~= seq![a[0]] + a.drop_first());
        assert(b =~= seq![b[0]] + b.drop_first());
    }
    assert(a =~= b);
}

/// An element of the scalar field. It is well formed when its bytes spell a
/// number below the modulus.
#[derive(Clone, Copy, Debug)]
pub struct FieldElement {
    pub(crate) bytes: [u8; 32],
}

impl FieldElement {
    /// The number in `0..modulus()` that this element stands for.
    pub closed spec fn value(&self) -> nat {
        le_value(self.bytes@)
    }

    /// The bytes are canonical: they spell a number below the modulus.
    pub open spec fn wf(&self) -> bool {
        self.value() < modulus()
    }

    /// The additive identity.
    pub fn zero() -> (e: FieldElement)
        ensures
            e.wf(),
            e.value() == 0,
    {
        let bytes: [u8; 32] = [0u8; 32];
        proof {
            lemma_le_value_zeros(bytes@);
        }
        FieldElement { bytes }
    }

    /// The multiplicative identity.
    pub fn one() -> (e: FieldElement)
        ensures
            e.wf(),
            e.value() == 1,
    {
        let mut bytes: [u8; 32] = [0u8; 32];
        bytes[0] = 1;
        proof {
            lemma_le_value_zeros(bytes@.drop_first());
        }
        FieldElement { bytes }
    }

    /// Whether two elements are the same element of the field.
    pub fn same_as(&self, other: &FieldElement) -> (same: bool)
        ensures
            same == (self.value() == other.value()),
    {
        let mut i: usize = 0;
        while i < 32
            invariant
                i <= 32,
                forall|j: int| 0 <= j < i ==> self.bytes@[j] == other.bytes@[j],
            decreases 32 - i,
        {
            if self.bytes[i] != other.bytes[i] {
                proof {
                    if self.value() == other.value() {
                        lemma_le_value_injective(self.bytes@, other.bytes@);
                    }
                }
                return false;
            }
            i += 1;
        }
        assert(self.bytes@ =~= other.bytes@);
        true
    }

    /// The canonical little-endian bytes of the element.
    pub fn to_bytes(&self) -> (bytes: [u8; 32])
        ensures
            le_value(bytes@) == self.value(),
    {
        self.bytes
    }
}

/// The field element that stands for a bit: one for `true`, zero for `false`.
pub open spec fn bit_value(bit: bool) -> nat {
    if bit {
        1
    } else {
        0
    }
}

/// `Scalar::add` of `bls12_381`: the sum of two field elements, reduced by the
/// modulus. The elements go in through `Scalar::from_bytes`, which accepts
/// exactly the canonical encodings, and the sum comes back through
/// `Scalar::to_bytes`, which always yields a canonical encoding.
#[verifier::external_body]
pub(crate) fn field_add(a: &FieldElement, b: &FieldElement) -> (sum: FieldElement)
    requires
        a.wf(),
        b.wf(),
    ensures
        sum.wf(),
        sum.value() == (a.value() + b.value()) % modulus(),
{
    let x = Scalar::from_bytes(&a.bytes).unwrap();
    let y = Scalar::from_bytes(&b.bytes).unwrap();
    FieldElement { bytes: x.add(&y).to_bytes() }
}

/// `Scalar::double` of `bls12_381`: twice a field element, reduced by the
/// modulus.
#[verifier::external_body]
pub(crate) fn field_double(a: &FieldElement) -> (twice: FieldElement)
    requires
        a.wf(),
    ensures
        twice.wf(),
        twice.value() == (2 * a.value()) % modulus(),
{
    let x = Scalar::from_bytes(&a.bytes).unwrap();
    FieldElement { bytes: x.double().to_bytes() }
}

/// `Scalar::neg` of `bls12_381`: the additive inverse of a field element, which
/// is zero for zero and the modulus less the element otherwise.
#[verifier::external_body]
pub(crate) fn field_neg(a: &FieldElement) -> (negated: FieldElement)
    requires
        a.wf(),
    ensures
        negated.wf(),
        negated.value() == (modulus() - a.value()) % (modulus() as int),
{
    let x = Scalar::from_bytes(&a.bytes).unwrap();
    FieldElement { bytes: x.neg().to_bytes() }
}


/// `Scalar::mul` of `bls12_381`: the product of two field elements, reduced by
/// the modulus.
#[verifier::external_body]
pub(crate) fn field_mul(a: &FieldElement, b: &FieldElement) -> (product: FieldElement)
    requires
        a.wf(),
        b.wf(),
    ensures
        product.wf(),
        product.value() == (a.value() * b.value()) % modulus(),
{
    let x = Scalar::from_bytes(&a.bytes).unwrap();
    let y = Scalar::from_bytes(&b.bytes).unwrap();
    FieldElement { bytes: x.mul(&y).to_bytes() }
}

} // verus!
