use bls12_381::Scalar;
use xor_sum_proof::boolean::{AllocatedBit, Boolean};
use xor_sum_proof::error::PipelineError;
use xor_sum_proof::field::FieldElement;
use xor_sum_proof::ledger::{ConstraintSystem, Label, LinearCombination, Variable};

fn scalar_of(e: &FieldElement) -> Scalar {
    Scalar::from_bytes(&e.to_bytes()).unwrap()
}

fn terms_of(lc: &LinearCombination) -> Vec<(Variable, Scalar)> {
    (0..lc.len()).map(|i| (lc.term(i).variable, scalar_of(&lc.term(i).coeff))).collect()
}

#[test]
fn allocating_a_bit_costs_one_variable_and_one_constraint() {
    let mut cs = ConstraintSystem::new();
    let bit = AllocatedBit::allocate(&mut cs, Some(true));
    assert_eq!(bit, AllocatedBit { variable: Variable::Aux(0), value: Some(true) });
    assert_eq!(cs.num_aux(), 1);
    assert_eq!(cs.num_inputs(), 1);
    assert_eq!(cs.num_constraints(), 1);
    assert_eq!(scalar_of(&cs.aux_value(0).unwrap()), Scalar::one());
    let c = cs.constraint(0);
    assert_eq!(
        terms_of(&c.a),
        vec![(Variable::Input(0), Scalar::one()), (Variable::Aux(0), -Scalar::one())]
    );
    assert_eq!(terms_of(&c.b), vec![(Variable::Aux(0), Scalar::one())]);
    assert_eq!(terms_of(&c.c), vec![]);
    assert_eq!(cs.aux_path(0), vec![Label::Boolean]);
    assert_eq!(cs.constraint_path(0), vec![Label::BooleanConstraint]);
    assert!(cs.is_satisfied());
    let zero = AllocatedBit::allocate(&mut cs, Some(false));
    assert_eq!(zero.variable, Variable::Aux(1));
    assert_eq!(scalar_of(&cs.aux_value(1).unwrap()), Scalar::zero());
    assert!(cs.is_satisfied());
}

#[test]
fn allocating_a_bit_without_a_value_makes_the_same_structure() {
    let mut cs = ConstraintSystem::new();
    let bit = AllocatedBit::allocate(&mut cs, None);
    assert_eq!(bit, AllocatedBit { variable: Variable::Aux(0), value: None });
    assert_eq!(cs.num_aux(), 1);
    assert_eq!(cs.num_constraints(), 1);
    assert!(cs.aux_value(0).is_none());
    let c = cs.constraint(0);
    assert_eq!(
        terms_of(&c.a),
        vec![(Variable::Input(0), Scalar::one()), (Variable::Aux(0), -Scalar::one())]
    );
    assert_eq!(terms_of(&c.b), vec![(Variable::Aux(0), Scalar::one())]);
    assert!(!cs.is_satisfied());
}

#[test]
fn the_bit_constraint_rejects_other_values() {
    let mut cs = ConstraintSystem::new();
    let two = cs.eval(
        &LinearCombination::zero()
            .plus(FieldElement::one(), ConstraintSystem::one())
            .plus(FieldElement::one(), ConstraintSystem::one()),
    );
    let v = cs.allocate_variable(Label::Boolean, Some(two));
    let one = FieldElement::one();
    let r = cs.enforce(
        Label::BooleanConstraint,
        LinearCombination::zero().plus(one, ConstraintSystem::one()).minus(one, v),
        LinearCombination::zero().plus(one, v),
        LinearCombination::zero(),
    );
    assert_eq!(r, Ok(()));
    assert!(!cs.is_satisfied());
}

#[test]
fn negation_is_a_view_of_the_same_variable() {
    let bit = AllocatedBit { variable: Variable::Aux(3), value: Some(true) };
    assert_eq!(Boolean::Is(bit).not(), Boolean::Not(bit));
    assert_eq!(Boolean::Not(bit).not(), Boolean::Is(bit));
    assert_eq!(Boolean::Constant(true).not(), Boolean::Constant(false));
    assert_eq!(Boolean::constant(false).not(), Boolean::Constant(true));
    assert_eq!(Boolean::Is(bit).get_value(), Some(true));
    assert_eq!(Boolean::Not(bit).get_value(), Some(false));
    assert_eq!(Boolean::Constant(false).get_value(), Some(false));
    let unknown = AllocatedBit { variable: Variable::Aux(3), value: None };
    assert_eq!(Boolean::Is(unknown).get_value(), None);
    assert_eq!(Boolean::Not(unknown).get_value(), None);
}

#[test]
fn linear_combination_of_each_kind_of_boolean() {
    let bit = AllocatedBit { variable: Variable::Aux(2), value: None };
    let one = FieldElement::one();
    assert_eq!(terms_of(&Boolean::Constant(false).lc(one)), vec![]);
    assert_eq!(
        terms_of(&Boolean::Constant(true).lc(one)),
        vec![(Variable::Input(0), Scalar::one())]
    );
    assert_eq!(terms_of(&Boolean::Is(bit).lc(one)), vec![(Variable::Aux(2), Scalar::one())]);
    assert_eq!(
        terms_of(&Boolean::Not(bit).lc(one)),
        vec![(Variable::Input(0), Scalar::one()), (Variable::Aux(2), -Scalar::one())]
    );
}

#[test]
fn xor_of_two_constants_folds_into_a_constant() {
    for a in [false, true] {
        for b in [false, true] {
            let mut cs = ConstraintSystem::new();
            let r = Boolean::xor(&mut cs, &Boolean::Constant(a), &Boolean::Constant(b));
            assert_eq!(r, Ok(Boolean::Constant(a ^ b)));
            assert_eq!(cs.num_aux(), 0);
            assert_eq!(cs.num_constraints(), 0);
        }
    }
}

#[test]
fn xor_with_false_hands_the_other_operand_on() {
    let mut cs = ConstraintSystem::new();
    let bit = AllocatedBit::allocate(&mut cs, Some(true));
    for x in [Boolean::Is(bit), Boolean::Not(bit)] {
        assert_eq!(Boolean::xor(&mut cs, &Boolean::Constant(false), &x), Ok(x));
        assert_eq!(Boolean::xor(&mut cs, &x, &Boolean::Constant(false)), Ok(x));
    }
    assert_eq!(cs.num_aux(), 1);
    assert_eq!(cs.num_constraints(), 1);
}

#[test]
fn xor_with_true_negates_the_other_operand() {
    let mut cs = ConstraintSystem::new();
    let bit = AllocatedBit::allocate(&mut cs, Some(true));
    assert_eq!(
        Boolean::xor(&mut cs, &Boolean::Constant(true), &Boolean::Is(bit)),
        Ok(Boolean::Not(bit))
    );
    assert_eq!(
        Boolean::xor(&mut cs, &Boolean::Not(bit), &Boolean::Constant(true)),
        Ok(Boolean::Is(bit))
    );
    assert_eq!(cs.num_aux(), 1);
    assert_eq!(cs.num_constraints(), 1);
}

#[test]
fn xor_of_two_witnessed_bits_costs_one_variable_and_one_constraint() {
    for a in [false, true] {
        for b in [false, true] {
            let mut cs = ConstraintSystem::new();
            let x = AllocatedBit::allocate(&mut cs, Some(a));
            let y = AllocatedBit::allocate(&mut cs, Some(b));
            let r = Boolean::xor(&mut cs, &Boolean::Is(x), &Boolean::Is(y)).unwrap();
            assert_eq!(
                r,
                Boolean::Is(AllocatedBit { variable: Variable::Aux(2), value: Some(a ^ b) })
            );
            assert_eq!(cs.num_aux(), 3);
            assert_eq!(cs.num_constraints(), 3);
            let expected = if a ^ b { Scalar::one() } else { Scalar::zero() };
            assert_eq!(scalar_of(&cs.aux_value(2).unwrap()), expected);
            let c = cs.constraint(2);
            assert_eq!(
                terms_of(&c.a),
                vec![(x.variable, Scalar::one()), (x.variable, Scalar::one())]
            );
            assert_eq!(terms_of(&c.b), vec![(y.variable, Scalar::one())]);
            assert_eq!(
                terms_of(&c.c),
                vec![
                    (x.variable, Scalar::one()),
                    (y.variable, Scalar::one()),
                    (Variable::Aux(2), -Scalar::one()),
                ]
            );
            assert_eq!(cs.aux_path(2), vec![Label::XorResult]);
            assert_eq!(cs.constraint_path(2), vec![Label::XorConstraint]);
            assert!(cs.is_satisfied());
        }
    }
}

#[test]
fn xor_reads_a_negated_operand_as_one_minus_its_variable() {
    for a in [false, true] {
        for b in [false, true] {
            let mut cs = ConstraintSystem::new();
            let x = AllocatedBit::allocate(&mut cs, Some(a));
            let y = AllocatedBit::allocate(&mut cs, Some(b));
            let r = Boolean::xor(&mut cs, &Boolean::Not(x), &Boolean::Is(y)).unwrap();
            assert_eq!(r.get_value(), Some(!a ^ b));
            assert_eq!(
                r,
                Boolean::Is(AllocatedBit { variable: Variable::Aux(2), value: Some(!a ^ b) })
            );
            let c = cs.constraint(2);
            assert_eq!(
                terms_of(&c.a),
                vec![
                    (Variable::Input(0), Scalar::one()),
                    (x.variable, -Scalar::one()),
                    (Variable::Input(0), Scalar::one()),
                    (x.variable, -Scalar::one()),
                ]
            );
            assert!(cs.is_satisfied());
            let s = Boolean::xor(&mut cs, &Boolean::Not(y), &Boolean::Not(x)).unwrap();
            assert_eq!(s.get_value(), Some(a ^ b));
            assert_eq!(cs.num_aux(), 4);
            assert_eq!(cs.num_constraints(), 4);
            assert!(cs.is_satisfied());
        }
    }
}

#[test]
fn xor_of_unknown_bits_is_unknown() {
    let mut cs = ConstraintSystem::new();
    let x = AllocatedBit::allocate(&mut cs, None);
    let y = AllocatedBit::allocate(&mut cs, Some(true));
    let r = Boolean::xor(&mut cs, &Boolean::Is(x), &Boolean::Is(y)).unwrap();
    assert_eq!(r, Boolean::Is(AllocatedBit { variable: Variable::Aux(2), value: None }));
    assert!(cs.aux_value(2).is_none());
    assert_eq!(cs.num_constraints(), 3);
}

#[test]
fn xor_rejects_a_witnessed_operand_from_elsewhere() {
    let mut cs = ConstraintSystem::new();
    let x = AllocatedBit::allocate(&mut cs, Some(true));
    let foreign = Boolean::Is(AllocatedBit { variable: Variable::Aux(9), value: Some(false) });
    assert!(!foreign.is_allocated_in(&cs));
    assert!(Boolean::Is(x).is_allocated_in(&cs));
    assert_eq!(
        Boolean::xor(&mut cs, &Boolean::Is(x), &foreign),
        Err(PipelineError::AllocationFailure)
    );
    assert_eq!(
        Boolean::xor(&mut cs, &foreign, &Boolean::Not(x)),
        Err(PipelineError::AllocationFailure)
    );
    assert_eq!(cs.num_aux(), 1);
    assert_eq!(cs.num_constraints(), 1);
    // With a constant nothing is enforced, so nothing is rejected.
    assert_eq!(Boolean::xor(&mut cs, &Boolean::Constant(false), &foreign), Ok(foreign));
}
