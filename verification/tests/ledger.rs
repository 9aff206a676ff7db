use bls12_381::Scalar;
use xor_sum_proof::error::PipelineError;
use xor_sum_proof::field::FieldElement;
use xor_sum_proof::ledger::{ConstraintSystem, Label, LinearCombination, Variable};

fn scalar(e: &FieldElement) -> Scalar {
    Scalar::from_bytes(&e.to_bytes()).unwrap()
}

#[test]
fn zero_and_one_are_canonical() {
    assert_eq!(FieldElement::zero().to_bytes(), [0u8; 32]);
    let mut one = [0u8; 32];
    one[0] = 1;
    assert_eq!(FieldElement::one().to_bytes(), one);
    assert_eq!(scalar(&FieldElement::zero()), Scalar::zero());
    assert_eq!(scalar(&FieldElement::one()), Scalar::one());
    assert!(FieldElement::one().same_as(&FieldElement::one()));
    assert!(!FieldElement::one().same_as(&FieldElement::zero()));
}

#[test]
fn new_ledger_holds_the_constant_one() {
    let cs = ConstraintSystem::new();
    assert_eq!(cs.num_inputs(), 1);
    assert_eq!(cs.num_aux(), 0);
    assert_eq!(cs.num_constraints(), 0);
    assert_eq!(scalar(&cs.input_value(0).unwrap()), Scalar::one());
    assert_eq!(cs.input_path(0), Vec::<Label>::new());
    assert_eq!(ConstraintSystem::one(), Variable::Input(0));
    assert!(cs.is_satisfied());
}

#[test]
fn allocation_counts_up_and_accepts_missing_values() {
    let mut cs = ConstraintSystem::new();
    let a = cs.allocate_variable(Label::Boolean, None);
    let b = cs.allocate_variable(Label::XorResult, Some(FieldElement::one()));
    let i = cs.allocate_input(Label::Input(0), None);
    assert_eq!(a, Variable::Aux(0));
    assert_eq!(b, Variable::Aux(1));
    assert_eq!(i, Variable::Input(1));
    assert_eq!(cs.num_aux(), 2);
    assert_eq!(cs.num_inputs(), 2);
    assert!(cs.aux_value(0).is_none());
    assert_eq!(scalar(&cs.aux_value(1).unwrap()), Scalar::one());
    assert!(cs.input_value(1).is_none());
    assert!(cs.has(a) && cs.has(b) && cs.has(i));
    assert!(!cs.has(Variable::Aux(2)));
    assert!(!cs.has(Variable::Input(2)));
    assert!(!cs.is_satisfied());
}

#[test]
fn entries_are_filed_under_the_open_namespace() {
    let mut cs = ConstraintSystem::new();
    cs.push_namespace(Label::XorSum);
    cs.push_namespace(Label::Xor(3, 5));
    cs.allocate_variable(Label::XorResult, None);
    cs.pop_namespace();
    cs.allocate_variable(Label::Boolean, None);
    cs.pop_namespace();
    cs.allocate_input(Label::Input(0), None);
    assert_eq!(cs.aux_path(0), vec![Label::XorSum, Label::Xor(3, 5), Label::XorResult]);
    assert_eq!(cs.aux_path(1), vec![Label::XorSum, Label::Boolean]);
    assert_eq!(cs.input_path(1), vec![Label::Input(0)]);
}

#[test]
fn enforce_rejects_a_variable_that_was_never_allocated() {
    let mut cs = ConstraintSystem::new();
    let v = cs.allocate_variable(Label::Boolean, Some(FieldElement::one()));
    let one = FieldElement::one();
    let foreign = LinearCombination::zero().plus(one, Variable::Aux(5));
    let r = cs.enforce(
        Label::BooleanConstraint,
        LinearCombination::zero().plus(one, v),
        foreign,
        LinearCombination::zero(),
    );
    assert_eq!(r, Err(PipelineError::AllocationFailure));
    assert_eq!(cs.num_constraints(), 0);
    let foreign_input = LinearCombination::zero().plus(one, Variable::Input(1));
    let r = cs.enforce(
        Label::BooleanConstraint,
        LinearCombination::zero(),
        LinearCombination::zero(),
        foreign_input,
    );
    assert_eq!(r, Err(PipelineError::AllocationFailure));
    assert_eq!(cs.num_constraints(), 0);
    let r = cs.enforce(
        Label::BooleanConstraint,
        LinearCombination::zero().plus(one, v),
        LinearCombination::zero().plus(one, ConstraintSystem::one()),
        LinearCombination::zero().plus(one, v),
    );
    assert_eq!(r, Ok(()));
    assert_eq!(cs.num_constraints(), 1);
    assert_eq!(cs.constraint_path(0), vec![Label::BooleanConstraint]);
}

#[test]
fn linear_combinations_keep_their_terms_in_order() {
    let one = FieldElement::one();
    let lc = LinearCombination::zero()
        .plus(one, Variable::Input(0))
        .minus(one, Variable::Aux(4));
    assert_eq!(lc.len(), 2);
    assert_eq!(lc.term(0).variable, Variable::Input(0));
    assert_eq!(scalar(&lc.term(0).coeff), Scalar::one());
    assert_eq!(lc.term(1).variable, Variable::Aux(4));
    assert_eq!(scalar(&lc.term(1).coeff), -Scalar::one());
    let minus_one: [u8; 32] = [
        0x00, 0x00, 0x00, 0x00, 0xff, 0xff, 0xff, 0xff, 0xfe, 0x5b, 0xfe, 0xff, 0x02, 0xa4, 0xbd,
        0x53, 0x05, 0xd8, 0xa1, 0x09, 0x08, 0xd8, 0x39, 0x33, 0x48, 0x7d, 0x9d, 0x29, 0x53, 0xa7,
        0xed, 0x73,
    ];
    assert_eq!(lc.term(1).coeff.to_bytes(), minus_one);
    let zero = LinearCombination::zero().minus(FieldElement::zero(), Variable::Aux(0));
    assert_eq!(zero.term(0).coeff.to_bytes(), [0u8; 32]);
    let both = LinearCombination::zero().plus(one, Variable::Aux(1)).plus_lc(&lc);
    assert_eq!(both.len(), 3);
    assert_eq!(both.term(0).variable, Variable::Aux(1));
    assert_eq!(both.term(1).variable, Variable::Input(0));
    assert_eq!(both.term(2).variable, Variable::Aux(4));
}

#[test]
fn evaluation_and_satisfaction_follow_the_field() {
    let mut cs = ConstraintSystem::new();
    let one = FieldElement::one();
    // x = 1, y = -1 (as 0 - 1), product = -1
    let x = cs.allocate_variable(Label::Boolean, Some(one));
    let minus_one = LinearCombination::zero().minus(one, x).term(0).coeff;
    let y = cs.allocate_variable(Label::Boolean, Some(minus_one));
    // (x + x) * y = -x - x  holds: 2 * -1 = -2
    let r = cs.enforce(
        Label::XorConstraint,
        LinearCombination::zero().plus(one, x).plus(one, x),
        LinearCombination::zero().plus(one, y),
        LinearCombination::zero().minus(one, x).minus(one, x),
    );
    assert_eq!(r, Ok(()));
    let twice = cs.eval(&LinearCombination::zero().plus(one, x).plus(one, x));
    assert_eq!(scalar(&twice), Scalar::from(2));
    let sum = cs.eval(&LinearCombination::zero().plus(one, y).minus(one, x));
    assert_eq!(scalar(&sum), -Scalar::from(2));
    let product = cs.eval(&LinearCombination::zero().plus(minus_one, y));
    assert_eq!(scalar(&product), Scalar::one());
    assert!(cs.is_satisfied());
    // y * y = x holds: -1 * -1 = 1
    let r = cs.enforce(
        Label::XorConstraint,
        LinearCombination::zero().plus(one, y),
        LinearCombination::zero().plus(one, y),
        LinearCombination::zero().plus(one, x),
    );
    assert_eq!(r, Ok(()));
    assert!(cs.is_satisfied());
    // x * x = y does not hold: 1 * 1 != -1
    let r = cs.enforce(
        Label::XorConstraint,
        LinearCombination::zero().plus(one, x),
        LinearCombination::zero().plus(one, x),
        LinearCombination::zero().plus(one, y),
    );
    assert_eq!(r, Ok(()));
    assert!(!cs.is_satisfied());
}
