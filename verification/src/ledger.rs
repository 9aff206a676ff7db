//! The constraint system: an append-only ledger of variables, their
//! assignments where a witness is known, and rank-1 constraints over them.
//!
//! A constraint is a triple of linear combinations `(A, B, C)` and asserts that
//! `A * B = C` in the scalar field. Every entry of the ledger is filed under
//! the namespace that was open when it was made. The names change nothing
//! about what the ledger asserts; they tell entries apart for a reader, as
//! long as whoever fills the ledger opens each namespace once.

use crate::error::PipelineError;
use crate::field::{field_add, field_mul, modulus, FieldElement};
use vstd::prelude::*;

verus! {

/// A handle of a variable of the ledger: the position of a public input or of
/// an auxiliary (witness) variable. Input 0 is the constant one.
#[derive(Clone, Copy, Debug, PartialEq, Eq, Hash, Structural)]
pub enum Variable {
    Input(usize),
    Aux(usize),
}

/// One segment of a namespace path, or the name of an entry within its
/// namespace.
#[derive(Clone, Copy, Debug, PartialEq, Eq, Hash, Structural)]
pub enum Label {
    /// The namespace of the preimage bit with the given position.
    PreimageBit(usize),
    /// The namespace of the XOR reduction of the preimage.
    XorSum,
    /// The namespace of the XOR that folds in one bit of one byte: the
    /// position of the byte among the bytes, then that of the bit in the byte.
    Xor(usize, usize),
    /// The namespace in which the digest is packed into public inputs.
    PackHash,
    /// The variable of an allocated bit.
    Boolean,
    /// The constraint that holds an allocated bit to zero or one.
    BooleanConstraint,
    /// The variable that holds the XOR of two witnessed bits.
    XorResult,
    /// The constraint that ties an XOR result to its operands.
    XorConstraint,
    /// The public input that packs the chunk of bits with the given position.
    Input(usize),
    /// The constraint that ties a packed public input to its bits.
    PackingConstraint(usize),
}

/// The model of one term of a linear combination: a coefficient times a
/// variable.
#[verifier::ext_equal]
pub struct TermView {
    pub variable: Variable,
    pub coeff: nat,
}

/// The model of a constraint `A * B = C`.
#[verifier::ext_equal]
pub struct ConstraintView {
    pub a: Seq<TermView>,
    pub b: Seq<TermView>,
    pub c: Seq<TermView>,
}

/// Whether a term has a canonical coefficient and names a variable among the
/// first `inputs` public inputs or the first `aux` auxiliary variables.
pub open spec fn term_within(t: TermView, inputs: nat, aux: nat) -> bool {
    &&& t.coeff < modulus()
    &&& match t.variable {
        Variable::Input(i) => i < inputs,
        Variable::Aux(i) => i < aux,
    }
}

/// Whether every term of a linear combination is within the given counts.
pub open spec fn lc_within(lc: Seq<TermView>, inputs: nat, aux: nat) -> bool {
    forall|i: int| 0 <= i < lc.len() ==> term_within(#[trigger] lc[i], inputs, aux)
}

/// Whether every coefficient of a linear combination is canonical.
pub open spec fn lc_canonical(lc: Seq<TermView>) -> bool {
    forall|i: int| 0 <= i < lc.len() ==> (#[trigger] lc[i]).coeff < modulus()
}

/// The model of an optional assignment.
pub open spec fn value_view(value: Option<FieldElement>) -> Option<nat> {
    match value {
        Some(e) => Some(e.value()),
        None => None,
    }
}

/// The mathematical model of the constraint system.
#[verifier::ext_equal]
pub struct Ledger {
    /// The assignment of each public input, where it is known.
    pub inputs: Seq<Option<nat>>,
    /// The assignment of each auxiliary variable, where it is known.
    pub aux: Seq<Option<nat>>,
    /// The constraints, in the order in which they were enforced.
    pub constraints: Seq<ConstraintView>,
    /// The full name of each public input.
    pub input_paths: Seq<Seq<Label>>,
    /// The full name of each auxiliary variable.
    pub aux_paths: Seq<Seq<Label>>,
    /// The full name of each constraint.
    pub constraint_paths: Seq<Seq<Label>>,
    /// The namespace that is open, outermost segment first.
    pub namespace: Seq<Label>,
}

/// The structure of a ledger: everything but the assignments. Two ledgers of
/// the same structure have the same variables, under the same names, and the
/// same constraints in the same order.
#[verifier::ext_equal]
pub struct Structure {
    /// The number of public inputs.
    pub inputs: nat,
    /// The number of auxiliary variables.
    pub aux: nat,
    /// The constraints, in the order in which they were enforced.
    pub constraints: Seq<ConstraintView>,
    /// The full name of each public input.
    pub input_paths: Seq<Seq<Label>>,
    /// The full name of each auxiliary variable.
    pub aux_paths: Seq<Seq<Label>>,
    /// The full name of each constraint.
    pub constraint_paths: Seq<Seq<Label>>,
    /// The namespace that is open.
    pub namespace: Seq<Label>,
}

/// The assignment of a variable among those given: zero where it is unknown
/// or the variable is not among them.
pub open spec fn assigned(v: Variable, inputs: Seq<Option<nat>>, aux: Seq<Option<nat>>) -> nat {
    match v {
        Variable::Input(i) => if i < inputs.len() {
            match inputs[i as int] {
                Some(x) => x,
                None => 0,
            }
        } else {
            0
        },
        Variable::Aux(i) => if i < aux.len() {
            match aux[i as int] {
                Some(x) => x,
                None => 0,
            }
        } else {
            0
        },
    }
}

/// The number that a linear combination evaluates to under an assignment: the
/// sum of its coefficients, each times the assignment of its variable. The sum
/// is taken over the integers; a constraint compares such sums modulo the
/// order of the field.
pub open spec fn eval_terms(
    lc: Seq<TermView>,
    inputs: Seq<Option<nat>>,
    aux: Seq<Option<nat>>,
) -> nat
    decreases lc.len(),
{
    if lc.len() == 0 {
        0
    } else {
        eval_terms(lc.drop_last(), inputs, aux) + lc.last().coeff * assigned(
            lc.last().variable,
            inputs,
            aux,
        )
    }
}

impl ConstraintView {
    /// Whether all three linear combinations are within the given counts.
    pub open spec fn within(self, inputs: nat, aux: nat) -> bool {
        &&& lc_within(self.a, inputs, aux)
        &&& lc_within(self.b, inputs, aux)
        &&& lc_within(self.c, inputs, aux)
    }
}

impl Ledger {
    /// The ledger before anything was allocated: it holds the constant one as
    /// public input 0 and nothing else.
    pub open spec fn empty() -> Ledger {
        Ledger {
            inputs: seq![Some(1nat)],
            aux: Seq::empty(),
            constraints: Seq::empty(),
            input_paths: seq![Seq::empty()],
            aux_paths: Seq::empty(),
            constraint_paths: Seq::empty(),
            namespace: Seq::empty(),
        }
    }

    /// The variable that always holds one.
    pub open spec fn one() -> Variable {
        Variable::Input(0)
    }

    /// The structure of the ledger.
    pub open spec fn structure(self) -> Structure {
        Structure {
            inputs: self.inputs.len(),
            aux: self.aux.len(),
            constraints: self.constraints,
            input_paths: self.input_paths,
            aux_paths: self.aux_paths,
            constraint_paths: self.constraint_paths,
            namespace: self.namespace,
        }
    }

    /// Whether a variable has been allocated in this ledger.
    pub open spec fn has(self, v: Variable) -> bool {
        match v {
            Variable::Input(i) => i < self.inputs.len(),
            Variable::Aux(i) => i < self.aux.len(),
        }
    }

    /// Whether the ledger accepts a constraint: its coefficients are canonical
    /// and each of its variables has been allocated.
    pub open spec fn admits(self, c: ConstraintView) -> bool {
        c.within(self.inputs.len(), self.aux.len())
    }

    /// The ledger after a new auxiliary variable was allocated under the open
    /// namespace.
    pub open spec fn allocate_variable(self, label: Label, value: Option<nat>) -> Ledger {
        Ledger {
            aux: self.aux.push(value),
            aux_paths: self.aux_paths.push(self.namespace.push(label)),
            ..self
        }
    }

    /// The ledger after a new public input was allocated under the open
    /// namespace.
    pub open spec fn allocate_input(self, label: Label, value: Option<nat>) -> Ledger {
        Ledger {
            inputs: self.inputs.push(value),
            input_paths: self.input_paths.push(self.namespace.push(label)),
            ..self
        }
    }

    /// The ledger after a constraint was enforced under the open namespace.
    pub open spec fn enforce(self, label: Label, c: ConstraintView) -> Ledger {
        Ledger {
            constraints: self.constraints.push(c),
            constraint_paths: self.constraint_paths.push(self.namespace.push(label)),
            ..self
        }
    }

    /// The ledger after a namespace was opened within the open one.
    pub open spec fn push_namespace(self, label: Label) -> Ledger {
        Ledger { namespace: self.namespace.push(label), ..self }
    }

    /// The ledger after the innermost namespace was closed.
    pub open spec fn pop_namespace(self) -> Ledger {
        Ledger { namespace: self.namespace.drop_last(), ..self }
    }

    /// The number that a linear combination evaluates to under the assignment
    /// of the ledger.
    pub open spec fn eval(self, lc: Seq<TermView>) -> nat {
        eval_terms(lc, self.inputs, self.aux)
    }

    /// Whether the assignment of the ledger meets a constraint: `A * B` and
    /// `C` are the same element of the field.
    pub open spec fn holds(self, c: ConstraintView) -> bool {
        (self.eval(c.a) * self.eval(c.b)) % modulus() == self.eval(c.c) % modulus()
    }

    /// Whether every variable of the ledger has an assignment.
    pub open spec fn fully_assigned(self) -> bool {
        &&& forall|i: int| 0 <= i < self.inputs.len() ==> (#[trigger] self.inputs[i]) is Some
        &&& forall|i: int| 0 <= i < self.aux.len() ==> (#[trigger] self.aux[i]) is Some
    }

    /// Whether the ledger holds a witness that meets every constraint.
    pub open spec fn satisfied(self) -> bool {
        &&& self.fully_assigned()
        &&& forall|k: int|
            0 <= k < self.constraints.len() ==> self.holds(#[trigger] self.constraints[k])
    }

    /// The assignment of a variable: unknown where the variable was allocated
    /// without a value, or was not allocated at all.
    pub open spec fn assignment(self, v: Variable) -> Option<nat> {
        match v {
            Variable::Input(i) => if i < self.inputs.len() {
                self.inputs[i as int]
            } else {
                None
            },
            Variable::Aux(i) => if i < self.aux.len() {
                self.aux[i as int]
            } else {
                None
            },
        }
    }

    /// Whether an optional assignment is canonical.
    pub open spec fn canonical(value: Option<nat>) -> bool {
        value matches Some(x) ==> x < modulus()
    }

    /// The invariant of the ledger: input 0 holds one, the variables can be
    /// counted in a `usize`, every entry has a name, every assignment is
    /// canonical, and every constraint speaks of allocated variables with
    /// canonical coefficients.
    pub open spec fn wf(self) -> bool {
        &&& 1 <= self.inputs.len() <= usize::MAX
        &&& self.aux.len() <= usize::MAX
        &&& self.inputs[0] == Some(1nat)
        &&& self.input_paths.len() == self.inputs.len()
        &&& self.aux_paths.len() == self.aux.len()
        &&& self.constraint_paths.len() == self.constraints.len()
        &&& forall|i: int| 0 <= i < self.inputs.len() ==> Self::canonical(#[trigger] self.inputs[i])
        &&& forall|i: int| 0 <= i < self.aux.len() ==> Self::canonical(#[trigger] self.aux[i])
        &&& forall|k: int|
            0 <= k < self.constraints.len() ==> self.admits(#[trigger] self.constraints[k])
    }
}


/// The coefficient that subtracts: the additive inverse of `a` in the field.
pub open spec fn neg_value(a: nat) -> nat {
    ((modulus() - a) % (modulus() as int)) as nat
}

/// One term of a linear combination: a coefficient times a variable.
#[derive(Clone, Copy, Debug)]
pub struct Term {
    pub variable: Variable,
    pub coeff: FieldElement,
}

impl View for Term {
    type V = TermView;

    open spec fn view(&self) -> TermView {
        TermView { variable: self.variable, coeff: self.coeff.value() }
    }
}

/// The model of a sequence of terms.
pub open spec fn terms_view(terms: Seq<Term>) -> Seq<TermView> {
    Seq::new(terms.len(), |i: int| terms[i]@)
}

/// A linear combination of variables with coefficients in the field. Its terms
/// are kept in the order in which they were added; equal variables are not
/// merged.
#[derive(Debug)]
pub struct LinearCombination {
    terms: Vec<Term>,
}

impl View for LinearCombination {
    type V = Seq<TermView>;

    closed spec fn view(&self) -> Seq<TermView> {
        terms_view(self.terms@)
    }
}

impl LinearCombination {
    /// Every coefficient is canonical.
    pub open spec fn wf(&self) -> bool {
        lc_canonical(self@)
    }

    /// The linear combination without terms, which evaluates to zero.
    pub fn zero() -> (lc: LinearCombination)
        ensures
            lc@ == Seq::<TermView>::empty(),
            lc.wf(),
    {
        let lc = LinearCombination { terms: Vec::new() };
        assert(lc@ =~= Seq::<TermView>::empty());
        lc
    }

    /// Appends the term `coeff * variable`.
    pub fn plus(self, coeff: FieldElement, variable: Variable) -> (lc: LinearCombination)
        requires
            self.wf(),
            coeff.wf(),
        ensures
            lc@ == self@.push(TermView { variable, coeff: coeff.value() }),
            lc.wf(),
    {
        let mut terms = self.terms;
        terms.push(Term { variable, coeff });
        let lc = LinearCombination { terms };
        assert(lc@ =~= self@.push(TermView { variable, coeff: coeff.value() }));
        lc
    }

    /// Appends the term `-coeff * variable`.
    pub fn minus(self, coeff: FieldElement, variable: Variable) -> (lc: LinearCombination)
        requires
            self.wf(),
            coeff.wf(),
        ensures
            lc@ == self@.push(TermView { variable, coeff: neg_value(coeff.value()) }),
            lc.wf(),
    {
        let negated = crate::field::field_neg(&coeff);
        self.plus(negated, variable)
    }

    /// Appends the terms of another linear combination, in their order.
    pub fn plus_lc(self, other: &LinearCombination) -> (lc: LinearCombination)
        requires
            self.wf(),
            other.wf(),
        ensures
            lc@ == self@ + other@,
            lc.wf(),
    {
        let mut terms = self.terms;
        let mut i: usize = 0;
        while i < other.terms.len()
            invariant
                i <= other.terms@.len(),
                terms_view(terms@) == self@ + other@.take(i as int),
                other@ == terms_view(other.terms@),
            decreases other.terms@.len() - i,
        {
            let ghost before = terms@;
            terms.push(other.terms[i]);
            proof {
                assert(other@.take(i + 1) =~= other@.take(i as int).push(other@[i as int]));
                assert(terms_view(terms@) =~= terms_view(before).push(other.terms@[i as int]@));
            }
            i += 1;
        }
        assert(other@.take(i as int) =~= other@);
        LinearCombination { terms }
    }

    /// The number of terms.
    pub fn len(&self) -> (n: usize)
        ensures
            n == self@.len(),
    {
        self.terms.len()
    }

    /// The term at a position.
    pub fn term(&self, i: usize) -> (t: Term)
        requires
            i < self@.len(),
        ensures
            t@ == self@[i as int],
            self.wf() ==> t.coeff.wf(),
    {
        assert(self@[i as int] == self.terms@[i as int]@);
        self.terms[i]
    }
}

/// A constraint `A * B = C`.
#[derive(Debug)]
pub struct Constraint {
    pub a: LinearCombination,
    pub b: LinearCombination,
    pub c: LinearCombination,
}

impl View for Constraint {
    type V = ConstraintView;

    open spec fn view(&self) -> ConstraintView {
        ConstraintView { a: self.a@, b: self.b@, c: self.c@ }
    }
}


/// The model of a sequence of optional assignments.
pub open spec fn values_view(values: Seq<Option<FieldElement>>) -> Seq<Option<nat>> {
    Seq::new(values.len(), |i: int| value_view(values[i]))
}

/// The model of a sequence of constraints.
pub open spec fn constraints_view(constraints: Seq<Constraint>) -> Seq<ConstraintView> {
    Seq::new(constraints.len(), |i: int| constraints[i]@)
}

/// The model of a sequence of names.
pub open spec fn paths_view(paths: Seq<Vec<Label>>) -> Seq<Seq<Label>> {
    Seq::new(paths.len(), |i: int| paths[i]@)
}

/// A copy of a name.
fn copy_path(path: &Vec<Label>) -> (copy: Vec<Label>)
    ensures
        copy@ == path@,
{
    let mut copy: Vec<Label> = Vec::new();
    let mut i: usize = 0;
    while i < path.len()
        invariant
            i <= path@.len(),
            copy@ == path@.take(i as int),
        decreases path@.len() - i,
    {
        copy.push(path[i]);
        i += 1;
        assert(copy@ =~= path@.take(i as int));
    }
    assert(path@.take(i as int) =~= path@);
    copy
}

/// The constraint system that a circuit is synthesised into.
#[derive(Debug)]
pub struct ConstraintSystem {
    inputs: Vec<Option<FieldElement>>,
    aux: Vec<Option<FieldElement>>,
    constraints: Vec<Constraint>,
    input_paths: Vec<Vec<Label>>,
    aux_paths: Vec<Vec<Label>>,
    constraint_paths: Vec<Vec<Label>>,
    namespace: Vec<Label>,
}

impl View for ConstraintSystem {
    type V = Ledger;

    closed spec fn view(&self) -> Ledger {
        Ledger {
            inputs: values_view(self.inputs@),
            aux: values_view(self.aux@),
            constraints: constraints_view(self.constraints@),
            input_paths: paths_view(self.input_paths@),
            aux_paths: paths_view(self.aux_paths@),
            constraint_paths: paths_view(self.constraint_paths@),
            namespace: self.namespace@,
        }
    }
}

impl ConstraintSystem {
    /// The invariant of the constraint system: that of its model.
    pub open spec fn wf(&self) -> bool {
        self@.wf()
    }

    /// A constraint system that holds the constant one and nothing else.
    pub fn new() -> (cs: ConstraintSystem)
        ensures
            cs@ == Ledger::empty(),
            cs.wf(),
    {
        let mut inputs: Vec<Option<FieldElement>> = Vec::new();
        inputs.push(Some(FieldElement::one()));
        let mut input_paths: Vec<Vec<Label>> = Vec::new();
        input_paths.push(Vec::new());
        let cs = ConstraintSystem {
            inputs,
            aux: Vec::new(),
            constraints: Vec::new(),
            input_paths,
            aux_paths: Vec::new(),
            constraint_paths: Vec::new(),
            namespace: Vec::new(),
        };
        proof {
            assert(cs@.input_paths[0] =~= Seq::<Label>::empty());
            assert(cs@ =~~= Ledger::empty());
        }
        cs
    }

    /// The variable that always holds one.
    pub fn one() -> (v: Variable)
        ensures
            v == Ledger::one(),
    {
        Variable::Input(0)
    }

    /// Allocates an auxiliary variable under the open namespace. Without a
    /// value the variable is part of the structure only.
    pub fn allocate_variable(&mut self, label: Label, value: Option<FieldElement>) -> (v: Variable)
        requires
            old(self).wf(),
            value matches Some(e) ==> e.wf(),
        ensures
            final(self)@ == old(self)@.allocate_variable(label, value_view(value)),
            v == Variable::Aux(old(self)@.aux.len() as usize),
            final(self).wf(),
    {
        let index = self.aux.len();
        let mut path = copy_path(&self.namespace);
        path.push(label);
        self.aux.push(value);
        self.aux_paths.push(path);
        proof {
            assert(self.aux.len() == self.aux@.len());
            assert(self@ =~~= old(self)@.allocate_variable(label, value_view(value)));
        }
        Variable::Aux(index)
    }

    /// Allocates a public input under the open namespace. Without a value the
    /// input is part of the structure only.
    pub fn allocate_input(&mut self, label: Label, value: Option<FieldElement>) -> (v: Variable)
        requires
            old(self).wf(),
            value matches Some(e) ==> e.wf(),
        ensures
            final(self)@ == old(self)@.allocate_input(label, value_view(value)),
            v == Variable::Input(old(self)@.inputs.len() as usize),
            final(self).wf(),
    {
        let index = self.inputs.len();
        let mut path = copy_path(&self.namespace);
        path.push(label);
        self.inputs.push(value);
        self.input_paths.push(path);
        proof {
            assert(self.inputs.len() == self.inputs@.len());
            assert(self@ =~~= old(self)@.allocate_input(label, value_view(value)));
        }
        Variable::Input(index)
    }

    /// Whether every variable of a linear combination has been allocated.
    fn covers(&self, lc: &LinearCombination) -> (ok: bool)
        requires
            lc.wf(),
        ensures
            ok == lc_within(lc@, self@.inputs.len(), self@.aux.len()),
    {
        let mut i: usize = 0;
        while i < lc.len()
            invariant
                i <= lc@.len(),
                lc.wf(),
                lc_within(lc@.take(i as int), self@.inputs.len(), self@.aux.len()),
            decreases lc@.len() - i,
        {
            let t = lc.term(i);
            let known = match t.variable {
                Variable::Input(k) => k < self.inputs.len(),
                Variable::Aux(k) => k < self.aux.len(),
            };
            if !known {
                assert(!term_within(lc@[i as int], self@.inputs.len(), self@.aux.len()));
                return false;
            }
            i += 1;
            assert forall|j: int| 0 <= j < i implies term_within(
                #[trigger] lc@.take(i as int)[j],
                self@.inputs.len(),
                self@.aux.len(),
            ) by {
                if j < i - 1 {
                    assert(lc@.take(i as int)[j] == lc@.take(i - 1)[j]);
                }
            }
        }
        assert(lc@.take(i as int) =~= lc@);
        true
    }

    /// Enforces the constraint `a * b = c` under the open namespace. The
    /// ledger rejects a constraint that names a variable it never allocated,
    /// and is then left as it was.
    pub fn enforce(
        &mut self,
        label: Label,
        a: LinearCombination,
        b: LinearCombination,
        c: LinearCombination,
    ) -> (r: Result<(), PipelineError>)
        requires
            old(self).wf(),
            a.wf(),
            b.wf(),
            c.wf(),
        ensures
            r is Ok <==> old(self)@.admits(ConstraintView { a: a@, b: b@, c: c@ }),
            r is Ok ==> final(self)@ == old(self)@.enforce(
                label,
                ConstraintView { a: a@, b: b@, c: c@ },
            ),
            r is Err ==> r == Err::<(), PipelineError>(PipelineError::AllocationFailure)
                && final(self)@ == old(self)@,
            final(self).wf(),
    {
        if !(self.covers(&a) && self.covers(&b) && self.covers(&c)) {
            return Err(PipelineError::AllocationFailure);
        }
        let mut path = copy_path(&self.namespace);
        path.push(label);
        self.constraints.push(Constraint { a, b, c });
        self.constraint_paths.push(path);
        proof {
            assert(self@ =~~= old(self)@.enforce(label, ConstraintView { a: a@, b: b@, c: c@ }));
        }
        Ok(())
    }

    /// Whether a variable has been allocated in this constraint system.
    pub fn has(&self, v: Variable) -> (known: bool)
        ensures
            known == self@.has(v),
    {
        match v {
            Variable::Input(i) => i < self.inputs.len(),
            Variable::Aux(i) => i < self.aux.len(),
        }
    }

    /// The number of public inputs, the constant one counted.
    pub fn num_inputs(&self) -> (n: usize)
        ensures
            n == self@.inputs.len(),
    {
        self.inputs.len()
    }

    /// The number of auxiliary variables.
    pub fn num_aux(&self) -> (n: usize)
        ensures
            n == self@.aux.len(),
    {
        self.aux.len()
    }

    /// The number of constraints.
    pub fn num_constraints(&self) -> (n: usize)
        ensures
            n == self@.constraints.len(),
    {
        self.constraints.len()
    }

    /// The assignment of a public input, where it is known.
    pub fn input_value(&self, i: usize) -> (value: Option<FieldElement>)
        requires
            self.wf(),
            i < self@.inputs.len(),
        ensures
            value_view(value) == self@.inputs[i as int],
            value matches Some(e) ==> e.wf(),
    {
        assert(Ledger::canonical(self@.inputs[i as int]));
        self.inputs[i]
    }

    /// The assignment of an auxiliary variable, where it is known.
    pub fn aux_value(&self, i: usize) -> (value: Option<FieldElement>)
        requires
            self.wf(),
            i < self@.aux.len(),
        ensures
            value_view(value) == self@.aux[i as int],
            value matches Some(e) ==> e.wf(),
    {
        assert(Ledger::canonical(self@.aux[i as int]));
        self.aux[i]
    }

    /// The constraint at a position.
    pub fn constraint(&self, k: usize) -> (c: &Constraint)
        requires
            self.wf(),
            k < self@.constraints.len(),
        ensures
            c@ == self@.constraints[k as int],
            c.a.wf(),
            c.b.wf(),
            c.c.wf(),
    {
        assert(self@.admits(self@.constraints[k as int]));
        &self.constraints[k]
    }

    /// The full name of a public input.
    pub fn input_path(&self, i: usize) -> (path: Vec<Label>)
        requires
            self.wf(),
            i < self@.inputs.len(),
        ensures
            path@ == self@.input_paths[i as int],
    {
        copy_path(&self.input_paths[i])
    }

    /// The full name of an auxiliary variable.
    pub fn aux_path(&self, i: usize) -> (path: Vec<Label>)
        requires
            self.wf(),
            i < self@.aux.len(),
        ensures
            path@ == self@.aux_paths[i as int],
    {
        copy_path(&self.aux_paths[i])
    }

    /// The full name of a constraint.
    pub fn constraint_path(&self, k: usize) -> (path: Vec<Label>)
        requires
            self.wf(),
            k < self@.constraints.len(),
        ensures
            path@ == self@.constraint_paths[k as int],
    {
        copy_path(&self.constraint_paths[k])
    }

    /// The assignment of a variable as a field element: zero where it is
    /// unknown or the variable was never allocated.
    fn value_of(&self, v: Variable) -> (e: FieldElement)
        requires
            self.wf(),
        ensures
            e.wf(),
            e.value() == assigned(v, self@.inputs, self@.aux),
    {
        let known = match v {
            Variable::Input(i) => if i < self.inputs.len() {
                self.input_value(i)
            } else {
                None
            },
            Variable::Aux(i) => if i < self.aux.len() {
                self.aux_value(i)
            } else {
                None
            },
        };
        match known {
            Some(e) => e,
            None => FieldElement::zero(),
        }
    }

    /// The element of the field that a linear combination evaluates to under
    /// the assignment of the constraint system.
    pub fn eval(&self, lc: &LinearCombination) -> (e: FieldElement)
        requires
            self.wf(),
            lc.wf(),
        ensures
            e.wf(),
            e.value() == self@.eval(lc@) % modulus(),
    {
        let mut sum = FieldElement::zero();
        let mut i: usize = 0;
        assert(lc@.take(0) =~= Seq::<TermView>::empty());
        while i < lc.len()
            invariant
                i <= lc@.len(),
                self.wf(),
                lc.wf(),
                sum.wf(),
                sum.value() == self@.eval(lc@.take(i as int)) % modulus(),
            decreases lc@.len() - i,
        {
            let t = lc.term(i);
            let x = self.value_of(t.variable);
            let product = field_mul(&t.coeff, &x);
            let ghost before = self@.eval(lc@.take(i as int));
            let ghost term = t.coeff.value() * x.value();
            proof {
                assert(lc@.take(i + 1).drop_last() =~= lc@.take(i as int));
                assert(lc@.take(i + 1).last() == lc@[i as int]);
                assert(self@.eval(lc@.take(i + 1)) == before + term);
                vstd::arithmetic::div_mod::lemma_add_mod_noop(
                    before as int,
                    term as int,
                    modulus() as int,
                );
            }
            sum = field_add(&sum, &product);
            i += 1;
        }
        assert(lc@.take(i as int) =~= lc@);
        sum
    }

    /// Whether every variable has an assignment.
    fn is_fully_assigned(&self) -> (full: bool)
        requires
            self.wf(),
        ensures
            full == self@.fully_assigned(),
    {
        let mut i: usize = 0;
        while i < self.inputs.len()
            invariant
                i <= self@.inputs.len(),
                self.wf(),
                forall|j: int| 0 <= j < i ==> (#[trigger] self@.inputs[j]) is Some,
            decreases self@.inputs.len() - i,
        {
            if self.input_value(i).is_none() {
                return false;
            }
            i += 1;
        }
        let mut k: usize = 0;
        while k < self.aux.len()
            invariant
                k <= self@.aux.len(),
                self.wf(),
                forall|j: int| 0 <= j < self@.inputs.len() ==> (#[trigger] self@.inputs[j]) is Some,
                forall|j: int| 0 <= j < k ==> (#[trigger] self@.aux[j]) is Some,
            decreases self@.aux.len() - k,
        {
            if self.aux_value(k).is_none() {
                return false;
            }
            k += 1;
        }
        true
    }

    /// Whether the constraint system holds a witness that meets every
    /// constraint: every variable is assigned, and for each constraint `A * B`
    /// and `C` evaluate to the same element of the field.
    pub fn is_satisfied(&self) -> (ok: bool)
        requires
            self.wf(),
        ensures
            ok == self@.satisfied(),
    {
        if !self.is_fully_assigned() {
            return false;
        }
        let mut k: usize = 0;
        while k < self.constraints.len()
            invariant
                k <= self@.constraints.len(),
                self.wf(),
                self@.fully_assigned(),
                forall|j: int| 0 <= j < k ==> self@.holds(#[trigger] self@.constraints[j]),
            decreases self@.constraints.len() - k,
        {
            let c = self.constraint(k);
            let a = self.eval(&c.a);
            let b = self.eval(&c.b);
            let product = field_mul(&a, &b);
            let expected = self.eval(&c.c);
            proof {
                vstd::arithmetic::div_mod::lemma_mul_mod_noop_general(
                    self@.eval(c@.a) as int,
                    self@.eval(c@.b) as int,
                    modulus() as int,
                );
            }
            if !product.same_as(&expected) {
                assert(!self@.holds(self@.constraints[k as int]));
                return false;
            }
            k += 1;
        }
        true
    }

    /// Opens a namespace within the open one.
    pub fn push_namespace(&mut self, label: Label)
        requires
            old(self).wf(),
        ensures
            final(self)@ == old(self)@.push_namespace(label),
            final(self).wf(),
    {
        self.namespace.push(label);
        proof {
            assert(self@ =~~= old(self)@.push_namespace(label));
        }
    }

    /// Closes the innermost namespace.
    pub fn pop_namespace(&mut self)
        requires
            old(self).wf(),
            old(self)@.namespace.len() > 0,
        ensures
            final(self)@ == old(self)@.pop_namespace(),
            final(self).wf(),
    {
        self.namespace.pop();
        proof {
            assert(self@ =~~= old(self)@.pop_namespace());
        }
    }
}

} // verus!
