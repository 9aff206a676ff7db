//! Packing bits into field elements: in the circuit, where each packed element
//! becomes a public input, and outside it, where the verifier computes the
//! same elements from the digest.
//!
//! Bits are packed in chunks of `CAPACITY`, the first bit of a chunk lowest:
//! a chunk stands for the sum of `2^i` over its bits `i` that are set.

use crate::boolean::{all_allocated, Boolean};
use crate::digest::{bit_of, byte_bits};
use crate::error::PipelineError;
use crate::field::{field_add, field_double, modulus, FieldElement, CAPACITY};
use crate::ledger::{
    lc_within, value_view, ConstraintSystem, ConstraintView, Label, Ledger, LinearCombination,
    TermView, Variable,
};
use bls12_381::Scalar;
use vstd::prelude::*;

verus! {

/// The weight of bit `i` of a chunk: one, doubled `i` times in the field.
pub open spec fn pack_coeff(i: nat) -> nat
    decreases i,
{
    if i == 0 {
        1
    } else {
        (2 * pack_coeff((i - 1) as nat)) % modulus()
    }
}

/// The field element that a chunk of plain bits packs into: the sum of the
/// weights of the bits that are set.
pub open spec fn pack_bits(bits: Seq<bool>) -> nat
    decreases bits.len(),
{
    if bits.len() == 0 {
        0
    } else if bits.last() {
        (pack_bits(bits.drop_last()) + pack_coeff((bits.len() - 1) as nat)) % modulus()
    } else {
        pack_bits(bits.drop_last())
    }
}

/// The assignment of the public input that a chunk of booleans packs into: as
/// for plain bits, and unknown as soon as one of the booleans is.
pub open spec fn packed_value(bits: Seq<Boolean>) -> Option<nat>
    decreases bits.len(),
{
    if bits.len() == 0 {
        Some(0nat)
    } else {
        match (packed_value(bits.drop_last()), bits.last().value()) {
            (Some(v), Some(b)) => Some(
                if b {
                    (v + pack_coeff((bits.len() - 1) as nat)) % modulus()
                } else {
                    v
                },
            ),
            _ => None,
        }
    }
}

/// The linear combination that evaluates to the packing of a chunk: the terms
/// of each boolean, weighted by its position, in the order of the chunk.
pub open spec fn packed_terms(bits: Seq<Boolean>) -> Seq<TermView>
    decreases bits.len(),
{
    if bits.len() == 0 {
        Seq::empty()
    } else {
        packed_terms(bits.drop_last()) + bits.last().terms(pack_coeff((bits.len() - 1) as nat))
    }
}

/// The constraint `packing * 1 = input`.
pub open spec fn packing_constraint(bits: Seq<Boolean>, input: Variable) -> ConstraintView {
    ConstraintView {
        a: packed_terms(bits),
        b: seq![TermView { variable: Ledger::one(), coeff: 1 }],
        c: seq![TermView { variable: input, coeff: 1 }],
    }
}

/// How many chunks a number of bits fills.
pub open spec fn chunk_count(len: nat) -> nat {
    ((len + CAPACITY - 1) / (CAPACITY as int)) as nat
}

/// Chunk `i` of a sequence of bits.
pub open spec fn chunk_of<T>(bits: Seq<T>, i: int) -> Seq<T> {
    bits.subrange(
        i * CAPACITY,
        if (i + 1) * CAPACITY <= bits.len() {
            (i + 1) * CAPACITY
        } else {
            bits.len() as int
        },
    )
}

/// The ledger after chunk `i` was packed: one new public input that holds the
/// packing, and one constraint that ties it to the bits.
pub open spec fn pack_chunk(l: Ledger, chunk: Seq<Boolean>, i: int) -> Ledger {
    l.allocate_input(Label::Input(i as usize), packed_value(chunk)).enforce(
        Label::PackingConstraint(i as usize),
        packing_constraint(chunk, Variable::Input(l.inputs.len() as usize)),
    )
}

/// The ledger after the first `n` chunks were packed, in their order.
pub open spec fn pack_chunks(l: Ledger, bits: Seq<Boolean>, n: nat) -> Ledger
    decreases n,
{
    if n == 0 {
        l
    } else {
        pack_chunk(pack_chunks(l, bits, (n - 1) as nat), chunk_of(bits, n - 1), n - 1)
    }
}

/// Packing adds one public input and one constraint for each chunk and leaves
/// the auxiliary variables and the open namespace as they were.
pub proof fn lemma_pack_chunks_counts(l: Ledger, bits: Seq<Boolean>, n: nat)
    ensures
        pack_chunks(l, bits, n).inputs.len() == l.inputs.len() + n,
        pack_chunks(l, bits, n).constraints.len() == l.constraints.len() + n,
        pack_chunks(l, bits, n).aux == l.aux,
        pack_chunks(l, bits, n).aux_paths == l.aux_paths,
        pack_chunks(l, bits, n).namespace == l.namespace,
    decreases n,
{
    if n > 0 {
        lemma_pack_chunks_counts(l, bits, (n - 1) as nat);
    }
}

/// Exposes a sequence of booleans as public inputs, as few as the field
/// allows: each chunk of `CAPACITY` booleans becomes one public input, tied to
/// its bits by one constraint.
///
/// The ledger rejects the packing as a whole, and stays as it is, if it does
/// not hold the variable of one of the booleans.
pub fn pack_into_inputs(cs: &mut ConstraintSystem, bits: &[Boolean]) -> (r: Result<
    (),
    PipelineError,
>)
    requires
        old(cs).wf(),
    ensures
        r is Ok <==> all_allocated(bits@, old(cs)@),
        r is Ok ==> final(cs)@ == pack_chunks(old(cs)@, bits@, chunk_count(bits@.len())),
        r matches Err(e) ==> e == PipelineError::AllocationFailure && final(cs)@ == old(cs)@,
        final(cs).wf(),
{
    let mut k: usize = 0;
    while k < bits.len()
        invariant
            k <= bits@.len(),
            cs.wf(),
            cs@ == old(cs)@,
            all_allocated(bits@.take(k as int), cs@),
        decreases bits@.len() - k,
    {
        if !bits[k].is_allocated_in(cs) {
            return Err(PipelineError::AllocationFailure);
        }
        k += 1;
        assert forall|i: int| 0 <= i < k implies (#[trigger] bits@.take(k as int)[i]).allocated_in(
            cs@,
        ) by {
            if i < k - 1 {
                assert(bits@.take(k as int)[i] == bits@.take(k - 1)[i]);
            }
        }
    }
    assert(bits@.take(k as int) =~= bits@);
    let ghost start = cs@;
    let mut from: usize = 0;
    let mut i: usize = 0;
    while from < bits.len()
        invariant
            start == old(cs)@,
            cs.wf(),
            i <= from <= bits@.len(),
            from == i * CAPACITY || (from == bits@.len() && i * CAPACITY >= from),
            i == 0 || (i - 1) * CAPACITY < bits@.len(),
            cs@ == pack_chunks(start, bits@, i as nat),
            all_allocated(bits@, cs@),
        decreases bits@.len() - from,
    {
        let to = if bits.len() - from > CAPACITY {
            from + CAPACITY
        } else {
            bits.len()
        };
        let ghost chunk = chunk_of(bits@, i as int);
        assert(chunk =~= bits@.subrange(from as int, to as int));
        let mut lc = LinearCombination::zero();
        let mut value = Some(FieldElement::zero());
        let mut coeff = FieldElement::one();
        let mut p: usize = from;
        assert(chunk.take(0) =~= Seq::<Boolean>::empty());
        while p < to
            invariant
                from <= p <= to <= bits@.len(),
                chunk == bits@.subrange(from as int, to as int),
                all_allocated(bits@, cs@),
                cs.wf(),
                lc.wf(),
                coeff.wf(),
                value matches Some(v) ==> v.wf(),
                coeff.value() == pack_coeff((p - from) as nat),
                lc@ == packed_terms(chunk.take(p - from)),
                value_view(value) == packed_value(chunk.take(p - from)),
                lc_within(lc@, cs@.inputs.len(), cs@.aux.len()),
            decreases to - p,
        {
            let bit = bits[p];
            proof {
                assert(chunk.take(p - from + 1).drop_last() =~= chunk.take(p - from));
                assert(chunk.take(p - from + 1).last() == bits@[p as int]);
                assert(bit.allocated_in(cs@));
            }
            value = match (value, bit.get_value()) {
                (Some(v), Some(b)) => Some(
                    if b {
                        field_add(&v, &coeff)
                    } else {
                        v
                    },
                ),
                _ => None,
            };
            lc = lc.plus_lc(&bit.lc(coeff));
            coeff = field_double(&coeff);
            p += 1;
        }
        assert(chunk.take(to - from) =~= chunk);
        let input = cs.allocate_input(Label::Input(i), value);
        let one = FieldElement::one();
        let unit = LinearCombination::zero().plus(one, ConstraintSystem::one());
        let packed = LinearCombination::zero().plus(one, input);
        proof {
            assert(unit@ =~= packing_constraint(chunk, input).b);
            assert(packed@ =~= packing_constraint(chunk, input).c);
        }
        let enforced = cs.enforce(Label::PackingConstraint(i), lc, unit, packed);
        assert(enforced is Ok);
        from = to;
        i += 1;
    }
    Ok(())
}


/// `bellman::gadgets::multipack::bytes_to_bits_le`: the bits of each byte, in
/// the order of the bytes, the least significant bit of a byte first.
#[verifier::external_body]
fn bytes_to_bits_le(bytes: &[u8]) -> (bits: Vec<bool>)
    requires
        bytes@.len() * 8 <= isize::MAX,
    ensures
        bits@.len() == 8 * bytes@.len(),
        forall|j: int| 0 <= j < bits@.len() ==> bits@[j] == bit_of(bytes@[j / 8], j % 8),
{
    bellman::gadgets::multipack::bytes_to_bits_le(bytes)
}

/// `bellman::gadgets::multipack::compute_multipacking` over the BLS12-381
/// scalar field: one field element for each chunk of `CAPACITY` bits, the sum
/// of the weights of the bits of the chunk that are set, where the weight of
/// the first bit is one and each further weight is twice the one before. Each
/// element comes back through `Scalar::to_bytes`, which yields its canonical
/// encoding.
#[verifier::external_body]
fn compute_multipacking(bits: &[bool]) -> (packed: Vec<FieldElement>)
    ensures
        packed@.len() == chunk_count(bits@.len()),
        forall|i: int|
            0 <= i < packed@.len() ==> (#[trigger] packed@[i]).wf() && packed@[i].value()
                == pack_bits(chunk_of(bits@, i)),
{
    let packed: Vec<Scalar> = bellman::gadgets::multipack::compute_multipacking(bits);
    packed.iter().map(|e| FieldElement { bytes: e.to_bytes() }).collect()
}

/// Booleans whose values are known pack, in the circuit, into the element
/// that their values pack into outside it.
pub proof fn lemma_packed_value_known(bits: Seq<Boolean>, plain: Seq<bool>)
    requires
        bits.len() == plain.len(),
        forall|i: int| 0 <= i < bits.len() ==> (#[trigger] bits[i]).value() == Some(plain[i]),
    ensures
        packed_value(bits) == Some(pack_bits(plain)),
    decreases bits.len(),
{
    if bits.len() > 0 {
        lemma_packed_value_known(bits.drop_last(), plain.drop_last());
    }
}

/// The packing of a byte outside the circuit and the packing, in the circuit,
/// of 8 booleans that hold its bits are the same field element: the number of
/// the byte.
pub proof fn lemma_packing_agrees(byte: u8, bits: Seq<Boolean>)
    requires
        bits.len() == 8,
        forall|i: int| 0 <= i < 8 ==> (#[trigger] bits[i]).value() == Some(bit_of(byte, i)),
    ensures
        packed_value(bits) == Some(pack_bits(byte_bits(byte))),
        packed_value(bits) == Some(byte as nat),
{
    lemma_packed_value_known(bits, byte_bits(byte));
    lemma_pack_byte(byte);
}

/// The weights of the 8 bits of a byte are the powers of two below 256.
proof fn lemma_pack_coeff_byte()
    ensures
        pack_coeff(0) == 1,
        pack_coeff(1) == 2,
        pack_coeff(2) == 4,
        pack_coeff(3) == 8,
        pack_coeff(4) == 16,
        pack_coeff(5) == 32,
        pack_coeff(6) == 64,
        pack_coeff(7) == 128,
{
    reveal_with_fuel(pack_coeff, 9);
}

/// Packing one more bit adds its weight if the bit is set.
proof fn lemma_pack_bits_step(bits: Seq<bool>, k: nat)
    requires
        k < bits.len(),
    ensures
        pack_bits(bits.take(k as int + 1)) == if bits[k as int] {
            (pack_bits(bits.take(k as int)) + pack_coeff(k)) % modulus()
        } else {
            pack_bits(bits.take(k as int))
        },
{
    assert(bits.take(k as int + 1).drop_last() =~= bits.take(k as int));
}

/// A byte is the sum of the powers of two at the positions of its set bits.
proof fn lemma_byte_is_sum_of_bits(byte: u8)
    ensures
        byte as nat == bit_weight(byte, 0) + bit_weight(byte, 1) + bit_weight(byte, 2)
            + bit_weight(byte, 3) + bit_weight(byte, 4) + bit_weight(byte, 5) + bit_weight(byte, 6)
            + bit_weight(byte, 7),
{
    lemma_pack_coeff_byte();
    assert(bit_of(byte, 0) == ((byte >> 0u8) & 1u8 == 1u8));
    assert(bit_of(byte, 1) == ((byte >> 1u8) & 1u8 == 1u8));
    assert(bit_of(byte, 2) == ((byte >> 2u8) & 1u8 == 1u8));
    assert(bit_of(byte, 3) == ((byte >> 3u8) & 1u8 == 1u8));
    assert(bit_of(byte, 4) == ((byte >> 4u8) & 1u8 == 1u8));
    assert(bit_of(byte, 5) == ((byte >> 5u8) & 1u8 == 1u8));
    assert(bit_of(byte, 6) == ((byte >> 6u8) & 1u8 == 1u8));
    assert(bit_of(byte, 7) == ((byte >> 7u8) & 1u8 == 1u8));
    assert(byte == (if (byte >> 0u8) & 1u8 == 1u8 { 1u8 } else { 0u8 }) + (if (byte >> 1u8) & 1u8
        == 1u8 { 2u8 } else { 0u8 }) + (if (byte >> 2u8) & 1u8 == 1u8 { 4u8 } else { 0u8 }) + (if (
    byte >> 3u8) & 1u8 == 1u8 { 8u8 } else { 0u8 }) + (if (byte >> 4u8) & 1u8 == 1u8 { 16u8 } else {
        0u8
    }) + (if (byte >> 5u8) & 1u8 == 1u8 { 32u8 } else { 0u8 }) + (if (byte >> 6u8) & 1u8 == 1u8 {
        64u8
    } else {
        0u8
    }) + (if (byte >> 7u8) & 1u8 == 1u8 { 128u8 } else { 0u8 })) by (bit_vector);
}

/// The weight that bit `i` of a byte adds to the number of the byte.
pub open spec fn bit_weight(byte: u8, i: nat) -> nat {
    if bit_of(byte, i as int) {
        pack_coeff(i)
    } else {
        0
    }
}

/// The 8 bits of a byte pack into the number of the byte.
pub proof fn lemma_pack_byte(byte: u8)
    ensures
        pack_bits(byte_bits(byte)) == byte as nat,
{
    let s = byte_bits(byte);
    lemma_pack_coeff_byte();
    lemma_byte_is_sum_of_bits(byte);
    assert(s.take(0) =~= Seq::<bool>::empty());
    assert(pack_bits(s.take(0)) == 0);
    lemma_pack_bits_step(s, 0);
    assert(pack_bits(s.take(1)) == bit_weight(byte, 0));
    lemma_pack_bits_step(s, 1);
    assert(pack_bits(s.take(2)) == pack_bits(s.take(1)) + bit_weight(byte, 1));
    lemma_pack_bits_step(s, 2);
    assert(pack_bits(s.take(3)) == pack_bits(s.take(2)) + bit_weight(byte, 2));
    lemma_pack_bits_step(s, 3);
    assert(pack_bits(s.take(4)) == pack_bits(s.take(3)) + bit_weight(byte, 3));
    lemma_pack_bits_step(s, 4);
    assert(pack_bits(s.take(5)) == pack_bits(s.take(4)) + bit_weight(byte, 4));
    lemma_pack_bits_step(s, 5);
    assert(pack_bits(s.take(6)) == pack_bits(s.take(5)) + bit_weight(byte, 5));
    lemma_pack_bits_step(s, 6);
    assert(pack_bits(s.take(7)) == pack_bits(s.take(6)) + bit_weight(byte, 6));
    lemma_pack_bits_step(s, 7);
    assert(pack_bits(s.take(8)) == pack_bits(s.take(7)) + bit_weight(byte, 7));
    assert(s.take(8) =~= s);
}

/// The public inputs that stand for a digest: its 8 bits, the least
/// significant one first, packed into one field element, which is the number
/// of the digest. A verifier computes them from the digest alone.
pub fn pack_digest(digest: u8) -> (inputs: Vec<FieldElement>)
    ensures
        inputs@.len() == 1,
        inputs@[0].wf(),
        inputs@[0].value() == pack_bits(byte_bits(digest)),
        inputs@[0].value() == digest as nat,
{
    let mut bytes: Vec<u8> = Vec::new();
    bytes.push(digest);
    let bits = bytes_to_bits_le(bytes.as_slice());
    let inputs = compute_multipacking(bits.as_slice());
    proof {
        assert(bits@ =~= byte_bits(digest));
        assert(chunk_of(bits@, 0) =~= bits@);
        lemma_pack_byte(digest);
    }
    inputs
}

} // verus!
