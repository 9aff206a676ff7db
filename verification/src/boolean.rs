//! Bits of the circuit: allocated bits, and the boolean values built on them.
//!
//! A boolean is a constant, a witnessed bit, or the negation of a witnessed
//! bit. The negation is a second reading of the same variable, `1 - bit`, and
//! costs neither a variable nor a constraint.

use crate::error::PipelineError;
use crate::field::{bit_value, FieldElement};
use crate::ledger::{
    neg_value, ConstraintSystem, ConstraintView, Label, Ledger, LinearCombination, TermView,
    Variable,
};
use vstd::prelude::*;

verus! {

/// The assignment of a bit whose value may be unknown.
pub open spec fn bit_assignment(value: Option<bool>) -> Option<nat> {
    match value {
        Some(b) => Some(bit_value(b)),
        None => None,
    }
}

/// The XOR of two bits, known where both are.
pub open spec fn xor_value(a: Option<bool>, b: Option<bool>) -> Option<bool> {
    match (a, b) {
        (Some(x), Some(y)) => Some(x != y),
        _ => None,
    }
}

/// The constraint `(1 - v) * v = 0`, which holds exactly when `v` is zero or
/// one.
pub open spec fn boolean_constraint(v: Variable) -> ConstraintView {
    ConstraintView {
        a: seq![
            TermView { variable: Ledger::one(), coeff: 1 },
            TermView { variable: v, coeff: neg_value(1) },
        ],
        b: seq![TermView { variable: v, coeff: 1 }],
        c: Seq::empty(),
    }
}

/// The ledger after a bit was allocated: one new auxiliary variable, and the
/// one constraint that holds it to zero or one.
pub open spec fn allocate_bit(l: Ledger, value: Option<bool>) -> Ledger {
    l.allocate_variable(Label::Boolean, bit_assignment(value)).enforce(
        Label::BooleanConstraint,
        boolean_constraint(Variable::Aux(l.aux.len() as usize)),
    )
}

/// The constraint `(a + a) * b = a + b - out`, which holds for bits `a` and `b`
/// exactly when `out` is their XOR: it says `out = a + b - 2ab`. A negated
/// operand enters as `1 - v`.
pub open spec fn xor_constraint(a: Boolean, b: Boolean, out: Variable) -> ConstraintView {
    ConstraintView {
        a: a.terms(1) + a.terms(1),
        b: b.terms(1),
        c: (a.terms(1) + b.terms(1)).push(TermView { variable: out, coeff: neg_value(1) }),
    }
}

/// Whether the ledger lets two booleans be XORed: with a constant operand
/// nothing is enforced and nothing can be rejected; two witnessed operands must
/// both have their variables in the ledger.
pub open spec fn xor_admitted(l: Ledger, a: Boolean, b: Boolean) -> bool {
    a.is_constant() || b.is_constant() || (a.allocated_in(l) && b.allocated_in(l))
}

/// The XOR of two booleans. Two constants fold into a constant; with one
/// constant operand the other is handed on, negated if the constant is `true`;
/// two witnessed operands give a new bit, which will be the next auxiliary
/// variable of the ledger.
pub open spec fn xor_output(l: Ledger, a: Boolean, b: Boolean) -> Boolean {
    match (a, b) {
        (Boolean::Constant(x), Boolean::Constant(y)) => Boolean::Constant(x != y),
        (Boolean::Constant(x), _) => if x {
            b.negated()
        } else {
            b
        },
        (_, Boolean::Constant(y)) => if y {
            a.negated()
        } else {
            a
        },
        _ => Boolean::Is(
            AllocatedBit {
                variable: Variable::Aux(l.aux.len() as usize),
                value: xor_value(a.value(), b.value()),
            },
        ),
    }
}

/// The ledger after two booleans were XORed: unchanged if either is a
/// constant, else longer by one auxiliary variable and one constraint.
pub open spec fn xor_ledger(l: Ledger, a: Boolean, b: Boolean) -> Ledger {
    if a.is_constant() || b.is_constant() {
        l
    } else {
        l.allocate_variable(
            Label::XorResult,
            bit_assignment(xor_value(a.value(), b.value())),
        ).enforce(
            Label::XorConstraint,
            xor_constraint(a, b, Variable::Aux(l.aux.len() as usize)),
        )
    }
}

/// The value of the XOR of two booleans is the XOR of their values, and is
/// known where both are.
pub proof fn lemma_xor_output_value(l: Ledger, a: Boolean, b: Boolean)
    ensures
        xor_output(l, a, b).value() == xor_value(a.value(), b.value()),
{
}

/// Whether a ledger bears every boolean of a sequence out.
pub open spec fn all_consistent(bits: Seq<Boolean>, l: Ledger) -> bool {
    forall|i: int| 0 <= i < bits.len() ==> (#[trigger] bits[i]).consistent_in(l)
}

/// Whether every boolean that has a variable has it in the ledger.
pub open spec fn all_allocated(bits: Seq<Boolean>, l: Ledger) -> bool {
    forall|i: int| 0 <= i < bits.len() ==> (#[trigger] bits[i]).allocated_in(l)
}

/// A variable of the constraint system that is held to zero or one, with its
/// value where a witness is known.
#[derive(Clone, Copy, Debug, PartialEq, Eq)]
pub struct AllocatedBit {
    pub variable: Variable,
    pub value: Option<bool>,
}

/// A boolean value of the circuit.
#[derive(Clone, Copy, Debug, PartialEq, Eq)]
pub enum Boolean {
    /// A witnessed bit, read as it is.
    Is(AllocatedBit),
    /// A witnessed bit, read negated.
    Not(AllocatedBit),
    /// A constant, which has no variable.
    Constant(bool),
}

/// The field element of a bit whose value may be unknown.
fn bit_element(value: Option<bool>) -> (e: Option<FieldElement>)
    ensures
        crate::ledger::value_view(e) == bit_assignment(value),
        e matches Some(x) ==> x.wf(),
{
    match value {
        Some(true) => Some(FieldElement::one()),
        Some(false) => Some(FieldElement::zero()),
        None => None,
    }
}

impl AllocatedBit {
    /// Allocates a bit: a new auxiliary variable that holds the value, where it
    /// is known, and one constraint that holds the variable to zero or one
    /// whether it is known or not.
    pub fn allocate(cs: &mut ConstraintSystem, value: Option<bool>) -> (bit: AllocatedBit)
        requires
            old(cs).wf(),
        ensures
            final(cs)@ == allocate_bit(old(cs)@, value),
            bit == (AllocatedBit { variable: Variable::Aux(old(cs)@.aux.len() as usize), value }),
            final(cs).wf(),
    {
        let variable = cs.allocate_variable(Label::Boolean, bit_element(value));
        let one = FieldElement::one();
        let a = LinearCombination::zero().plus(one, ConstraintSystem::one()).minus(one, variable);
        let b = LinearCombination::zero().plus(one, variable);
        let c = LinearCombination::zero();
        proof {
            assert(a@ =~= boolean_constraint(variable).a);
            assert(b@ =~= boolean_constraint(variable).b);
            assert(c@ =~= boolean_constraint(variable).c);
        }
        let enforced = cs.enforce(Label::BooleanConstraint, a, b, c);
        assert(enforced is Ok);
        AllocatedBit { variable, value }
    }
}

impl Boolean {
    /// The value of the boolean, where it is known.
    pub open spec fn value(self) -> Option<bool> {
        match self {
            Boolean::Constant(c) => Some(c),
            Boolean::Is(bit) => bit.value,
            Boolean::Not(bit) => match bit.value {
                Some(b) => Some(!b),
                None => None,
            },
        }
    }

    /// Whether the boolean has no variable.
    pub open spec fn is_constant(self) -> bool {
        self is Constant
    }

    /// Whether the variable of the boolean, if it has one, has been allocated
    /// in a ledger.
    pub open spec fn allocated_in(self, l: Ledger) -> bool {
        match self {
            Boolean::Constant(_) => true,
            Boolean::Is(bit) => l.has(bit.variable),
            Boolean::Not(bit) => l.has(bit.variable),
        }
    }

    /// The boolean without its witness: the same constant, or the same
    /// reading of the same variable with the value unknown.
    pub open spec fn erased(self) -> Boolean {
        match self {
            Boolean::Constant(c) => Boolean::Constant(c),
            Boolean::Is(bit) => Boolean::Is(AllocatedBit { variable: bit.variable, value: None }),
            Boolean::Not(bit) => Boolean::Not(AllocatedBit { variable: bit.variable, value: None }),
        }
    }

    /// Whether a ledger bears the boolean out: a witnessed bit has a known
    /// value, and its variable is assigned that value in the ledger.
    pub open spec fn consistent_in(self, l: Ledger) -> bool {
        match self {
            Boolean::Constant(_) => true,
            Boolean::Is(bit) => bit.value is Some && l.assignment(bit.variable) == bit_assignment(
                bit.value,
            ),
            Boolean::Not(bit) => bit.value is Some && l.assignment(bit.variable) == bit_assignment(
                bit.value,
            ),
        }
    }

    /// The boolean as a number: one for `true`, zero for `false` and where
    /// the value is unknown.
    pub open spec fn truth(self) -> nat {
        match self.value() {
            Some(v) => bit_value(v),
            None => 0,
        }
    }

    /// The negation of the boolean: a constant is flipped, a witnessed bit is
    /// read the other way round.
    pub open spec fn negated(self) -> Boolean {
        match self {
            Boolean::Constant(c) => Boolean::Constant(!c),
            Boolean::Is(bit) => Boolean::Not(bit),
            Boolean::Not(bit) => Boolean::Is(bit),
        }
    }

    /// The terms that evaluate to `coeff` times the boolean: nothing for
    /// `false`, `coeff * 1` for `true`, `coeff * v` for a bit `v`, and
    /// `coeff * 1 - coeff * v` for its negation.
    pub open spec fn terms(self, coeff: nat) -> Seq<TermView> {
        match self {
            Boolean::Constant(c) => if c {
                seq![TermView { variable: Ledger::one(), coeff }]
            } else {
                Seq::empty()
            },
            Boolean::Is(bit) => seq![TermView { variable: bit.variable, coeff }],
            Boolean::Not(bit) => seq![
                TermView { variable: Ledger::one(), coeff },
                TermView { variable: bit.variable, coeff: neg_value(coeff) },
            ],
        }
    }

    /// A boolean from a known constant.
    pub fn constant(b: bool) -> (r: Boolean)
        ensures
            r == Boolean::Constant(b),
    {
        Boolean::Constant(b)
    }

    /// The value of the boolean, where it is known.
    pub fn get_value(&self) -> (v: Option<bool>)
        ensures
            v == self.value(),
    {
        match *self {
            Boolean::Constant(c) => Some(c),
            Boolean::Is(bit) => bit.value,
            Boolean::Not(bit) => match bit.value {
                Some(b) => Some(!b),
                None => None,
            },
        }
    }

    /// The negation of the boolean. No variable and no constraint is made.
    pub fn not(&self) -> (r: Boolean)
        ensures
            r == self.negated(),
    {
        match *self {
            Boolean::Constant(c) => Boolean::Constant(!c),
            Boolean::Is(bit) => Boolean::Not(bit),
            Boolean::Not(bit) => Boolean::Is(bit),
        }
    }

    /// Whether the variable of the boolean, if it has one, has been allocated
    /// in a constraint system.
    pub fn is_allocated_in(&self, cs: &ConstraintSystem) -> (known: bool)
        ensures
            known == self.allocated_in(cs@),
    {
        match *self {
            Boolean::Constant(_) => true,
            Boolean::Is(bit) => cs.has(bit.variable),
            Boolean::Not(bit) => cs.has(bit.variable),
        }
    }

    /// The XOR of two booleans.
    ///
    /// Two constants fold into a constant. With one constant operand the result
    /// is the other operand, negated if the constant is `true`. In both cases
    /// the ledger stays as it is. Two witnessed operands cost one new bit and
    /// one constraint, `(a + a) * b = a + b - out`; the ledger rejects them,
    /// and stays as it is, if it does not hold the variable of either.
    pub fn xor(cs: &mut ConstraintSystem, a: &Boolean, b: &Boolean) -> (r: Result<
        Boolean,
        PipelineError,
    >)
        requires
            old(cs).wf(),
        ensures
            r is Ok <==> xor_admitted(old(cs)@, *a, *b),
            r matches Ok(out) ==> out == xor_output(old(cs)@, *a, *b) && final(cs)@ == xor_ledger(
                old(cs)@,
                *a,
                *b,
            ),
            r matches Err(e) ==> e == PipelineError::AllocationFailure && final(cs)@ == old(cs)@,
            final(cs).wf(),
    {
        match (*a, *b) {
            (Boolean::Constant(x), Boolean::Constant(y)) => Ok(Boolean::Constant(x != y)),
            (Boolean::Constant(x), _) => Ok(
                if x {
                    b.not()
                } else {
                    *b
                },
            ),
            (_, Boolean::Constant(y)) => Ok(
                if y {
                    a.not()
                } else {
                    *a
                },
            ),
            _ => {
                if !(a.is_allocated_in(cs) && b.is_allocated_in(cs)) {
                    return Err(PipelineError::AllocationFailure);
                }
                let value = match (a.get_value(), b.get_value()) {
                    (Some(x), Some(y)) => Some(x != y),
                    _ => None,
                };
                let out = cs.allocate_variable(Label::XorResult, bit_element(value));
                let one = FieldElement::one();
                let twice = a.lc(one).plus_lc(&a.lc(one));
                let other = b.lc(one);
                let sum = a.lc(one).plus_lc(&b.lc(one)).minus(one, out);
                proof {
                    assert(twice@ =~= xor_constraint(*a, *b, out).a);
                    assert(other@ =~= xor_constraint(*a, *b, out).b);
                    assert(sum@ =~= xor_constraint(*a, *b, out).c);
                }
                let enforced = cs.enforce(Label::XorConstraint, twice, other, sum);
                assert(enforced is Ok);
                Ok(Boolean::Is(AllocatedBit { variable: out, value }))
            },
        }
    }

    /// The linear combination that evaluates to `coeff` times the boolean.
    pub fn lc(&self, coeff: FieldElement) -> (lc: LinearCombination)
        requires
            coeff.wf(),
        ensures
            lc@ == self.terms(coeff.value()),
            lc.wf(),
    {
        let lc = match *self {
            Boolean::Constant(c) => {
                if c {
                    LinearCombination::zero().plus(coeff, ConstraintSystem::one())
                } else {
                    LinearCombination::zero()
                }
            },
            Boolean::Is(bit) => LinearCombination::zero().plus(coeff, bit.variable),
            Boolean::Not(bit) => LinearCombination::zero().plus(
                coeff,
                ConstraintSystem::one(),
            ).minus(coeff, bit.variable),
        };
        assert(lc@ =~= self.terms(coeff.value()));
        lc
    }
}

} // verus!
