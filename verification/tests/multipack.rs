use bellman::gadgets::multipack::{bytes_to_bits_le, compute_multipacking};
use bls12_381::Scalar;
use xor_sum_proof::boolean::{AllocatedBit, Boolean};
use xor_sum_proof::digest::bit_at;
use xor_sum_proof::error::PipelineError;
use xor_sum_proof::field::{FieldElement, CAPACITY};
use xor_sum_proof::ledger::{ConstraintSystem, Label, LinearCombination, Variable};
use xor_sum_proof::multipack::{pack_digest, pack_into_inputs};

fn scalar_of(e: &FieldElement) -> Scalar {
    Scalar::from_bytes(&e.to_bytes()).unwrap()
}

fn terms_of(lc: &LinearCombination) -> Vec<(Variable, Scalar)> {
    (0..lc.len()).map(|i| (lc.term(i).variable, scalar_of(&lc.term(i).coeff))).collect()
}

fn allocate_all(cs: &mut ConstraintSystem, bits: &[bool]) -> Vec<Boolean> {
    bits.iter().map(|b| Boolean::Is(AllocatedBit::allocate(cs, Some(*b)))).collect()
}

#[test]
fn capacity_is_that_of_the_scalar_field() {
    assert_eq!(CAPACITY as u32, <Scalar as ff::PrimeField>::CAPACITY);
}

#[test]
fn a_digest_packs_into_its_own_number() {
    for digest in [0u8, 1, 2, 22, 0x80, 0xb2, 0xff] {
        let inputs = pack_digest(digest);
        assert_eq!(inputs.len(), 1);
        let mut expected = [0u8; 32];
        expected[0] = digest;
        assert_eq!(inputs[0].to_bytes(), expected);
        assert_eq!(scalar_of(&inputs[0]), Scalar::from(digest as u64));
    }
}

#[test]
fn a_digest_packs_as_bellman_packs_its_bits() {
    for digest in 0..=255u8 {
        let expected = compute_multipacking::<Scalar>(&bytes_to_bits_le(&[digest]));
        let inputs: Vec<Scalar> = pack_digest(digest).iter().map(scalar_of).collect();
        assert_eq!(inputs, expected);
    }
}

#[test]
fn packing_in_the_circuit_agrees_with_packing_outside() {
    for digest in [0u8, 1, 22, 0x5a, 0x80, 0xb2, 0xff] {
        let mut cs = ConstraintSystem::new();
        let plain: Vec<bool> = (0..8).map(|i| bit_at(digest, i)).collect();
        let bits = allocate_all(&mut cs, &plain);
        assert_eq!(pack_into_inputs(&mut cs, &bits), Ok(()));
        assert_eq!(cs.num_inputs(), 2);
        assert_eq!(cs.num_aux(), 8);
        assert_eq!(cs.num_constraints(), 9);
        let packed = cs.input_value(1).unwrap();
        assert!(packed.same_as(&pack_digest(digest)[0]));
        assert_eq!(scalar_of(&packed), Scalar::from(digest as u64));
        assert!(cs.is_satisfied());
    }
}

#[test]
fn the_packing_constraint_weighs_each_bit_by_its_position() {
    let mut cs = ConstraintSystem::new();
    let bits = allocate_all(&mut cs, &[true, false, true, true]);
    cs.push_namespace(Label::PackHash);
    assert_eq!(pack_into_inputs(&mut cs, &bits), Ok(()));
    cs.pop_namespace();
    let c = cs.constraint(4);
    assert_eq!(
        terms_of(&c.a),
        vec![
            (Variable::Aux(0), Scalar::from(1)),
            (Variable::Aux(1), Scalar::from(2)),
            (Variable::Aux(2), Scalar::from(4)),
            (Variable::Aux(3), Scalar::from(8)),
        ]
    );
    assert_eq!(terms_of(&c.b), vec![(Variable::Input(0), Scalar::one())]);
    assert_eq!(terms_of(&c.c), vec![(Variable::Input(1), Scalar::one())]);
    assert_eq!(scalar_of(&cs.input_value(1).unwrap()), Scalar::from(13));
    assert_eq!(cs.input_path(1), vec![Label::PackHash, Label::Input(0)]);
    assert_eq!(cs.constraint_path(4), vec![Label::PackHash, Label::PackingConstraint(0)]);
    assert!(cs.is_satisfied());
}

#[test]
fn packing_reads_constants_and_negations() {
    let mut cs = ConstraintSystem::new();
    let x = AllocatedBit::allocate(&mut cs, Some(false));
    let bits = [Boolean::Constant(true), Boolean::Constant(false), Boolean::Not(x), Boolean::Is(x)];
    assert_eq!(pack_into_inputs(&mut cs, &bits), Ok(()));
    let c = cs.constraint(1);
    assert_eq!(
        terms_of(&c.a),
        vec![
            (Variable::Input(0), Scalar::from(1)),
            (Variable::Input(0), Scalar::from(4)),
            (Variable::Aux(0), -Scalar::from(4)),
            (Variable::Aux(0), Scalar::from(8)),
        ]
    );
    assert_eq!(scalar_of(&cs.input_value(1).unwrap()), Scalar::from(5));
    assert!(cs.is_satisfied());
}

#[test]
fn packing_without_values_makes_the_same_structure() {
    let mut cs = ConstraintSystem::new();
    let bits: Vec<Boolean> =
        (0..8).map(|_| Boolean::Is(AllocatedBit::allocate(&mut cs, None))).collect();
    assert_eq!(pack_into_inputs(&mut cs, &bits), Ok(()));
    assert_eq!(cs.num_inputs(), 2);
    assert_eq!(cs.num_constraints(), 9);
    assert!(cs.input_value(1).is_none());
    assert_eq!(cs.constraint(8).a.len(), 8);
}

#[test]
fn packing_nothing_changes_nothing() {
    let mut cs = ConstraintSystem::new();
    assert_eq!(pack_into_inputs(&mut cs, &[]), Ok(()));
    assert_eq!(cs.num_inputs(), 1);
    assert_eq!(cs.num_constraints(), 0);
}

#[test]
fn packing_fills_one_input_for_each_chunk_of_capacity() {
    for len in [1usize, 253, 254, 255, 508, 509] {
        let plain: Vec<bool> = (0..len).map(|i| (i * 7 + i / 3) % 5 < 2).collect();
        let mut cs = ConstraintSystem::new();
        let bits = allocate_all(&mut cs, &plain);
        assert_eq!(pack_into_inputs(&mut cs, &bits), Ok(()));
        let expected = compute_multipacking::<Scalar>(&plain);
        assert_eq!(expected.len(), (len + 253) / 254);
        assert_eq!(cs.num_inputs(), 1 + expected.len());
        assert_eq!(cs.num_constraints(), len + expected.len());
        for (i, e) in expected.iter().enumerate() {
            assert_eq!(scalar_of(&cs.input_value(1 + i).unwrap()), *e);
            assert_eq!(cs.input_path(1 + i), vec![Label::Input(i)]);
            let c = cs.constraint(len + i);
            let chunk = if (i + 1) * 254 <= len { 254 } else { len - i * 254 };
            assert_eq!(c.a.len(), chunk);
            assert_eq!(terms_of(&c.c), vec![(Variable::Input(1 + i), Scalar::one())]);
        }
        assert!(cs.is_satisfied());
    }
}

#[test]
fn packing_rejects_a_bit_from_elsewhere_and_leaves_the_ledger() {
    let mut cs = ConstraintSystem::new();
    let mut bits = allocate_all(&mut cs, &[true, false, true]);
    bits.push(Boolean::Not(AllocatedBit { variable: Variable::Aux(3), value: Some(true) }));
    assert_eq!(pack_into_inputs(&mut cs, &bits), Err(PipelineError::AllocationFailure));
    assert_eq!(cs.num_inputs(), 1);
    assert_eq!(cs.num_aux(), 3);
    assert_eq!(cs.num_constraints(), 3);
}
