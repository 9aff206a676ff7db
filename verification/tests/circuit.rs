use bellman::gadgets::boolean::{AllocatedBit as GadgetBit, Boolean as GadgetBoolean};
use bellman::gadgets::multipack;
use bellman::gadgets::test::TestConstraintSystem;
use bellman::ConstraintSystem as _;
use bellman::{LinearCombination as GadgetCombination, SynthesisError};
use bls12_381::Scalar;
use std::collections::HashSet;
use xor_sum_proof::boolean::{AllocatedBit, Boolean};
use xor_sum_proof::circuit::{xor_sum, MyCircuit};
use xor_sum_proof::digest::{bit_at, native_xor_sum, INPUT_SIZE};
use xor_sum_proof::error::PipelineError;
use xor_sum_proof::field::FieldElement;
use xor_sum_proof::ledger::{ConstraintSystem, Label, LinearCombination, Variable};
use xor_sum_proof::multipack::pack_digest;

const DEMO: [u8; INPUT_SIZE] = *b"da confusion of da highest orda!";

fn scalar_of(e: &FieldElement) -> Scalar {
    Scalar::from_bytes(&e.to_bytes()).unwrap()
}

fn terms_of(lc: &LinearCombination) -> Vec<(Variable, Scalar)> {
    (0..lc.len()).map(|i| (lc.term(i).variable, scalar_of(&lc.term(i).coeff))).collect()
}

fn synthesized(preimage: Option<[u8; INPUT_SIZE]>) -> ConstraintSystem {
    let mut cs = ConstraintSystem::new();
    assert_eq!(MyCircuit { preimage }.synthesize(&mut cs), Ok(()));
    cs
}

fn allocate_bytes(cs: &mut ConstraintSystem, bytes: &[u8; INPUT_SIZE]) -> Vec<Boolean> {
    let mut bits = Vec::new();
    for byte in bytes {
        for i in 0..8 {
            bits.push(Boolean::Is(AllocatedBit::allocate(cs, Some(bit_at(*byte, i)))));
        }
    }
    bits
}

fn gadget_terms(
    mut lc: GadgetCombination<Scalar>,
    ours: &LinearCombination,
    inputs: &[bellman::Variable],
    aux: &[bellman::Variable],
) -> GadgetCombination<Scalar> {
    for i in 0..ours.len() {
        let term = ours.term(i);
        let variable = match term.variable {
            Variable::Input(k) => inputs[k],
            Variable::Aux(k) => aux[k],
        };
        lc = lc + (scalar_of(&term.coeff), variable);
    }
    lc
}

fn text_of(label: &Label) -> String {
    match label {
        Label::PreimageBit(i) => format!("preimage bit {}", i),
        Label::XorSum => "xor_sum(preimage)".to_string(),
        Label::Xor(byte, bit) => format!("xor [{}] bit {}", byte, bit),
        Label::PackHash => "pack hash".to_string(),
        Label::Boolean => "boolean".to_string(),
        Label::BooleanConstraint => "boolean constraint".to_string(),
        Label::XorResult => "xor result".to_string(),
        Label::XorConstraint => "xor constraint".to_string(),
        Label::Input(i) => format!("input {}", i),
        Label::PackingConstraint(i) => format!("packing constraint {}", i),
    }
}

fn name_of(path: &[Label]) -> String {
    path.iter().map(text_of).collect::<Vec<String>>().join(".")
}

/// The ledger, entry by entry and under its own names, in a constraint system
/// of bellman, which panics when a name is given twice.
fn replayed(ledger: &ConstraintSystem) -> TestConstraintSystem<Scalar> {
    let mut cs = TestConstraintSystem::<Scalar>::new();
    let mut inputs = vec![TestConstraintSystem::<Scalar>::one()];
    for i in 1..ledger.num_inputs() {
        let value = ledger.input_value(i).map(|e| scalar_of(&e));
        let made = cs.alloc_input(
            || name_of(&ledger.input_path(i)),
            || value.ok_or(SynthesisError::AssignmentMissing),
        );
        inputs.push(made.unwrap());
    }
    let mut aux = Vec::new();
    for i in 0..ledger.num_aux() {
        let value = ledger.aux_value(i).map(|e| scalar_of(&e));
        let made = cs.alloc(
            || name_of(&ledger.aux_path(i)),
            || value.ok_or(SynthesisError::AssignmentMissing),
        );
        aux.push(made.unwrap());
    }
    for k in 0..ledger.num_constraints() {
        let c = ledger.constraint(k);
        cs.enforce(
            || name_of(&ledger.constraint_path(k)),
            |lc| gadget_terms(lc, &c.a, &inputs, &aux),
            |lc| gadget_terms(lc, &c.b, &inputs, &aux),
            |lc| gadget_terms(lc, &c.c, &inputs, &aux),
        );
    }
    cs
}

/// The same statement built from the gadgets of bellman, each XOR in a
/// namespace of its own.
fn gadget_circuit(preimage: [u8; INPUT_SIZE]) -> TestConstraintSystem<Scalar> {
    let mut cs = TestConstraintSystem::<Scalar>::new();
    let mut bits = Vec::new();
    for j in 0..INPUT_SIZE * 8 {
        let value = Some((preimage[j / 8] >> (j % 8)) & 1u8 == 1u8);
        let bit = GadgetBit::alloc(cs.namespace(|| format!("preimage bit {}", j)), value).unwrap();
        bits.push(GadgetBoolean::from(bit));
    }
    let mut byte = vec![GadgetBoolean::Constant(false); 8];
    for (i, chunk) in bits.chunks(8).enumerate() {
        for (k, (a, b)) in byte.iter_mut().zip(chunk.iter()).enumerate() {
            *a = GadgetBoolean::xor(cs.namespace(|| format!("xor [{}] {}", i, k)), a, b).unwrap();
        }
    }
    multipack::pack_into_inputs(cs.namespace(|| "pack hash"), &byte).unwrap();
    cs
}

#[test]
fn the_circuit_has_its_size_with_and_without_a_witness() {
    for preimage in [None, Some(DEMO), Some([0u8; INPUT_SIZE]), Some([0xff; INPUT_SIZE])] {
        let cs = synthesized(preimage);
        assert_eq!(cs.num_inputs(), 2);
        assert_eq!(cs.num_aux(), 504);
        assert_eq!(cs.num_constraints(), 505);
    }
}

#[test]
fn the_structure_does_not_depend_on_the_witness() {
    let bare = synthesized(None);
    for preimage in [DEMO, [0u8; INPUT_SIZE], [0xff; INPUT_SIZE]] {
        let witnessed = synthesized(Some(preimage));
        assert_eq!(bare.num_inputs(), witnessed.num_inputs());
        assert_eq!(bare.num_aux(), witnessed.num_aux());
        assert_eq!(bare.num_constraints(), witnessed.num_constraints());
        for k in 0..bare.num_constraints() {
            let (x, y) = (bare.constraint(k), witnessed.constraint(k));
            assert_eq!(terms_of(&x.a), terms_of(&y.a));
            assert_eq!(terms_of(&x.b), terms_of(&y.b));
            assert_eq!(terms_of(&x.c), terms_of(&y.c));
            assert_eq!(bare.constraint_path(k), witnessed.constraint_path(k));
        }
        for i in 0..bare.num_aux() {
            assert_eq!(bare.aux_path(i), witnessed.aux_path(i));
            assert!(bare.aux_value(i).is_none());
            assert!(witnessed.aux_value(i).is_some());
        }
        assert_eq!(bare.input_path(1), witnessed.input_path(1));
        assert!(bare.input_value(1).is_none());
    }
}

#[test]
fn the_public_input_is_the_digest() {
    let mut other = DEMO;
    other[31] ^= 0x40;
    for preimage in [DEMO, other, [0u8; INPUT_SIZE], [0xff; INPUT_SIZE], [0x80; INPUT_SIZE]] {
        let cs = synthesized(Some(preimage));
        let digest = native_xor_sum(&preimage);
        let input = cs.input_value(1).unwrap();
        assert_eq!(scalar_of(&input), Scalar::from(digest as u64));
        assert!(input.same_as(&pack_digest(digest)[0]));
    }
    assert_eq!(scalar_of(&synthesized(Some(DEMO)).input_value(1).unwrap()), Scalar::from(22));
}

#[test]
fn the_witness_satisfies_the_circuit() {
    assert!(synthesized(Some(DEMO)).is_satisfied());
    assert!(synthesized(Some([0u8; INPUT_SIZE])).is_satisfied());
    assert!(synthesized(Some([0xa7; INPUT_SIZE])).is_satisfied());
    assert!(!synthesized(None).is_satisfied());
}

#[test]
fn a_permuted_preimage_gives_the_same_public_input() {
    let mut swapped = DEMO;
    swapped.swap(3, 13);
    let mut reversed = DEMO;
    reversed.reverse();
    let expected = synthesized(Some(DEMO)).input_value(1).unwrap();
    for preimage in [swapped, reversed] {
        let cs = synthesized(Some(preimage));
        assert!(cs.input_value(1).unwrap().same_as(&expected));
        assert!(cs.is_satisfied());
    }
}

#[test]
fn entries_of_the_circuit_carry_their_names() {
    let cs = synthesized(None);
    assert_eq!(cs.input_path(0), vec![]);
    assert_eq!(cs.input_path(1), vec![Label::PackHash, Label::Input(0)]);
    assert_eq!(cs.aux_path(0), vec![Label::PreimageBit(0), Label::Boolean]);
    assert_eq!(cs.aux_path(255), vec![Label::PreimageBit(255), Label::Boolean]);
    assert_eq!(cs.constraint_path(255), vec![Label::PreimageBit(255), Label::BooleanConstraint]);
    assert_eq!(cs.aux_path(256), vec![Label::XorSum, Label::Xor(1, 0), Label::XorResult]);
    assert_eq!(cs.aux_path(257), vec![Label::XorSum, Label::Xor(1, 1), Label::XorResult]);
    assert_eq!(cs.aux_path(263), vec![Label::XorSum, Label::Xor(1, 7), Label::XorResult]);
    assert_eq!(cs.aux_path(264), vec![Label::XorSum, Label::Xor(2, 0), Label::XorResult]);
    assert_eq!(cs.aux_path(503), vec![Label::XorSum, Label::Xor(31, 7), Label::XorResult]);
    assert_eq!(
        cs.constraint_path(256),
        vec![Label::XorSum, Label::Xor(1, 0), Label::XorConstraint]
    );
    assert_eq!(
        cs.constraint_path(503),
        vec![Label::XorSum, Label::Xor(31, 7), Label::XorConstraint]
    );
    assert_eq!(cs.constraint_path(504), vec![Label::PackHash, Label::PackingConstraint(0)]);
}

#[test]
fn no_two_entries_of_the_circuit_share_a_name() {
    for preimage in [None, Some(DEMO)] {
        let cs = synthesized(preimage);
        let mut names = HashSet::new();
        for i in 0..cs.num_inputs() {
            assert!(names.insert(cs.input_path(i)), "input {}", i);
        }
        for i in 0..cs.num_aux() {
            assert!(names.insert(cs.aux_path(i)), "variable {}", i);
        }
        for k in 0..cs.num_constraints() {
            assert!(names.insert(cs.constraint_path(k)), "constraint {}", k);
        }
        assert_eq!(names.len(), 2 + 504 + 505);
    }
}

#[test]
fn synthesis_appends_to_a_ledger_that_is_in_use() {
    let mut cs = ConstraintSystem::new();
    AllocatedBit::allocate(&mut cs, Some(true));
    cs.allocate_input(Label::Input(7), Some(FieldElement::one()));
    assert_eq!(MyCircuit { preimage: Some(DEMO) }.synthesize(&mut cs), Ok(()));
    assert_eq!(cs.num_inputs(), 3);
    assert_eq!(cs.num_aux(), 505);
    assert_eq!(cs.num_constraints(), 506);
    assert_eq!(scalar_of(&cs.input_value(2).unwrap()), Scalar::from(22));
    assert!(cs.is_satisfied());
}

#[test]
fn xor_sum_folds_bytes_into_the_bits_of_their_xor() {
    let mut cs = ConstraintSystem::new();
    let bits = allocate_bytes(&mut cs, &DEMO);
    let folded = xor_sum(&mut cs, &bits).unwrap();
    assert_eq!(folded.len(), 8);
    let digest = native_xor_sum(&DEMO);
    for (i, bit) in folded.iter().enumerate() {
        assert_eq!(bit.get_value(), Some(bit_at(digest, i)));
        assert_eq!(
            *bit,
            Boolean::Is(AllocatedBit {
                variable: Variable::Aux(256 + 240 + i),
                value: Some(bit_at(digest, i)),
            })
        );
    }
    assert_eq!(cs.num_aux(), 256 + 248);
    assert_eq!(cs.num_constraints(), 256 + 248);
    assert_eq!(cs.aux_path(256), vec![Label::Xor(1, 0), Label::XorResult]);
    assert_eq!(cs.aux_path(257), vec![Label::Xor(1, 1), Label::XorResult]);
    assert!(cs.is_satisfied());
}

#[test]
fn xor_sum_of_constants_costs_nothing() {
    let mut cs = ConstraintSystem::new();
    let mut bits = Vec::new();
    for byte in DEMO {
        for i in 0..8 {
            bits.push(Boolean::Constant(bit_at(byte, i)));
        }
    }
    let folded = xor_sum(&mut cs, &bits).unwrap();
    let digest = native_xor_sum(&DEMO);
    for (i, bit) in folded.iter().enumerate() {
        assert_eq!(*bit, Boolean::Constant(bit_at(digest, i)));
    }
    assert_eq!(cs.num_aux(), 0);
    assert_eq!(cs.num_constraints(), 0);
}

#[test]
fn xor_sum_stops_at_the_first_step_that_the_ledger_rejects() {
    let mut cs = ConstraintSystem::new();
    let mut bits = allocate_bytes(&mut cs, &DEMO);
    // Bit 3 of byte 2 comes from elsewhere: steps 0..19 are taken, step 19 is not.
    bits[19] = Boolean::Is(AllocatedBit { variable: Variable::Aux(4000), value: Some(true) });
    assert_eq!(xor_sum(&mut cs, &bits), Err(PipelineError::AllocationFailure));
    assert_eq!(cs.num_aux(), 256 + 11);
    assert_eq!(cs.num_constraints(), 256 + 11);
    // In the first byte a bit from elsewhere meets the constant `false` and is handed on;
    // the ledger rejects it when the next byte is folded in.
    let mut cs = ConstraintSystem::new();
    let mut bits = allocate_bytes(&mut cs, &DEMO);
    bits[5] = Boolean::Is(AllocatedBit { variable: Variable::Aux(4000), value: Some(true) });
    assert_eq!(xor_sum(&mut cs, &bits), Err(PipelineError::AllocationFailure));
    assert_eq!(cs.num_aux(), 256 + 5);
}

#[test]
fn the_gadgets_of_bellman_make_the_same_constraint_system() {
    let mut other = DEMO;
    other.swap(3, 13);
    for preimage in [DEMO, other, [0x3c; INPUT_SIZE], [0u8; INPUT_SIZE]] {
        let ledger = synthesized(Some(preimage));
        let ours = replayed(&ledger);
        let mut theirs = gadget_circuit(preimage);
        assert_eq!(ours.num_inputs(), theirs.num_inputs());
        assert_eq!(ours.num_constraints(), theirs.num_constraints());
        assert_eq!(ours.hash(), theirs.hash());
        assert!(ours.is_satisfied());
        assert!(theirs.is_satisfied());
        for j in 0..256 {
            let path = format!("preimage bit {}/boolean", j);
            assert_eq!(scalar_of(&ledger.aux_value(j).unwrap()), theirs.get(&path));
        }
        for i in 1..32 {
            for k in 0..8 {
                let path = format!("xor [{}] {}/xor result", i, k);
                let ours = ledger.aux_value(256 + (i - 1) * 8 + k).unwrap();
                assert_eq!(scalar_of(&ours), theirs.get(&path));
            }
        }
        let input = theirs.get_input(1, "pack hash/input 0");
        assert_eq!(scalar_of(&ledger.input_value(1).unwrap()), input);
        let expected: Vec<Scalar> =
            pack_digest(native_xor_sum(&preimage)).iter().map(scalar_of).collect();
        assert!(ours.verify(&expected));
        assert!(theirs.verify(&expected));
    }
}

#[test]
fn a_replayed_ledger_rejects_another_digest() {
    let ledger = synthesized(Some(DEMO));
    let mut cs = replayed(&ledger);
    assert!(cs.is_satisfied());
    assert_eq!(cs.get("xor_sum(preimage).xor [1] bit 0.xor result"), Scalar::one());
    assert_eq!(cs.get("preimage bit 1.boolean"), Scalar::zero());
    assert_eq!(cs.get("preimage bit 2.boolean"), Scalar::one());
    cs.set("pack hash.input 0", Scalar::from(23));
    assert_eq!(cs.which_is_unsatisfied(), Some("pack hash.packing constraint 0"));
}

#[test]
fn the_constraints_fix_every_xor_result_and_the_digest() {
    let ledger = synthesized(Some(DEMO));
    // Any other value of one XOR result violates the constraint of that step.
    for (byte, bit) in [(1usize, 0usize), (1, 7), (17, 3), (31, 7)] {
        let mut cs = replayed(&ledger);
        let name = format!("xor_sum(preimage).xor [{}] bit {}.xor result", byte, bit);
        let honest = cs.get(&name);
        let index = 256 + (byte - 1) * 8 + bit;
        assert_eq!(honest, scalar_of(&ledger.aux_value(index).unwrap()));
        for other in [Scalar::one() - honest, Scalar::from(2), -Scalar::one()] {
            cs.set(&name, other);
            let broken = format!("xor_sum(preimage).xor [{}] bit {}.xor constraint", byte, bit);
            assert_eq!(cs.which_is_unsatisfied(), Some(broken.as_str()));
        }
        cs.set(&name, honest);
        assert!(cs.is_satisfied());
    }
    // With the preimage bits and the XOR results as they are, any other public input
    // violates the packing constraint.
    let mut cs = replayed(&ledger);
    for other in [Scalar::zero(), Scalar::from(23), Scalar::from(22 + 256), -Scalar::from(22)] {
        cs.set("pack hash.input 0", other);
        assert_eq!(cs.which_is_unsatisfied(), Some("pack hash.packing constraint 0"));
    }
    cs.set("pack hash.input 0", Scalar::from(22));
    assert!(cs.is_satisfied());
}
