//! What the constraints assert: a ledger is satisfied when its assignment
//! meets every constraint. Synthesis with a preimage yields a satisfied
//! ledger. The other way round, the preimage bits fix every other variable:
//! an assignment that satisfies the circuit holds the XOR results that
//! synthesis computes and, as its public input, the digest of the preimage.

use crate::boolean::{
    all_consistent, allocate_bit, boolean_constraint, xor_constraint, xor_ledger, xor_output,
    AllocatedBit, Boolean,
};
use crate::circuit::{
    allocate_bits, allocated_bits, circuit_fold, fold_steps, lemma_allocate_bits_counts,
    lemma_circuit_computes_digest, lemma_fold_admits, step_scope, synthesized,
};
use crate::digest::{bit_of, xor_fold, INPUT_SIZE};
use crate::field::{bit_value, modulus};
use crate::ledger::{
    assigned, eval_terms, lc_within, neg_value, term_within, ConstraintView, Label, Ledger,
    TermView, Variable,
};
use crate::multipack::{
    chunk_count, chunk_of, lemma_pack_chunks_counts, pack_chunk, pack_chunks, pack_coeff,
    packed_terms, packed_value, packing_constraint,
};
use crate::structure::lemma_circuit_size;
use vstd::prelude::*;

verus! {

/// Whether two assignments give every variable of a linear combination the
/// same value.
pub open spec fn agree_on(
    lc: Seq<TermView>,
    inputs1: Seq<Option<nat>>,
    aux1: Seq<Option<nat>>,
    inputs2: Seq<Option<nat>>,
    aux2: Seq<Option<nat>>,
) -> bool {
    forall|i: int|
        0 <= i < lc.len() ==> assigned((#[trigger] lc[i]).variable, inputs1, aux1) == assigned(
            lc[i].variable,
            inputs2,
            aux2,
        )
}

/// A linear combination evaluates to the same number under two assignments
/// that agree on its variables.
pub proof fn lemma_eval_agree(
    lc: Seq<TermView>,
    inputs1: Seq<Option<nat>>,
    aux1: Seq<Option<nat>>,
    inputs2: Seq<Option<nat>>,
    aux2: Seq<Option<nat>>,
)
    requires
        agree_on(lc, inputs1, aux1, inputs2, aux2),
    ensures
        eval_terms(lc, inputs1, aux1) == eval_terms(lc, inputs2, aux2),
    decreases lc.len(),
{
    if lc.len() > 0 {
        let rest = lc.drop_last();
        assert forall|i: int| 0 <= i < rest.len() implies assigned(
            (#[trigger] rest[i]).variable,
            inputs1,
            aux1,
        ) == assigned(rest[i].variable, inputs2, aux2) by {
            assert(rest[i] == lc[i]);
        }
        lemma_eval_agree(rest, inputs1, aux1, inputs2, aux2);
        assert(lc.last() == lc[lc.len() - 1]);
    }
}

/// Two linear combinations, one after the other, evaluate to the sum of what
/// each evaluates to.
pub proof fn lemma_eval_concat(
    x: Seq<TermView>,
    y: Seq<TermView>,
    inputs: Seq<Option<nat>>,
    aux: Seq<Option<nat>>,
)
    ensures
        eval_terms(x + y, inputs, aux) == eval_terms(x, inputs, aux) + eval_terms(y, inputs, aux),
    decreases y.len(),
{
    if y.len() == 0 {
        assert(x + y =~= x);
    } else {
        assert((x + y).drop_last() =~= x + y.drop_last());
        assert((x + y).last() == y.last());
        lemma_eval_concat(x, y.drop_last(), inputs, aux);
    }
}

/// A single term evaluates to its coefficient times the assignment of its
/// variable.
pub proof fn lemma_eval_one(t: TermView, inputs: Seq<Option<nat>>, aux: Seq<Option<nat>>)
    ensures
        eval_terms(seq![t], inputs, aux) == t.coeff * assigned(t.variable, inputs, aux),
{
    reveal_with_fuel(eval_terms, 2);
    assert(seq![t].drop_last() =~= Seq::<TermView>::empty());
    assert(seq![t].last() == t);
}

/// One term after a linear combination adds its value to it.
pub proof fn lemma_eval_push(
    x: Seq<TermView>,
    t: TermView,
    inputs: Seq<Option<nat>>,
    aux: Seq<Option<nat>>,
)
    ensures
        eval_terms(x.push(t), inputs, aux) == eval_terms(x, inputs, aux) + t.coeff * assigned(
            t.variable,
            inputs,
            aux,
        ),
{
    assert(x.push(t).drop_last() =~= x);
    assert(x.push(t).last() == t);
}

/// Whether a ledger holds every variable of another with the same assignment.
pub open spec fn extends(later: Ledger, earlier: Ledger) -> bool {
    &&& earlier.inputs.len() <= later.inputs.len()
    &&& earlier.aux.len() <= later.aux.len()
    &&& forall|i: int| 0 <= i < earlier.inputs.len() ==> later.inputs[i] == earlier.inputs[i]
    &&& forall|i: int| 0 <= i < earlier.aux.len() ==> later.aux[i] == earlier.aux[i]
}

/// A constraint over the variables of a ledger holds in a ledger that extends
/// it exactly when it holds in the ledger itself.
pub proof fn lemma_holds_extends(later: Ledger, earlier: Ledger, c: ConstraintView)
    requires
        extends(later, earlier),
        earlier.admits(c),
    ensures
        later.holds(c) == earlier.holds(c),
{
    lemma_eval_agree(c.a, later.inputs, later.aux, earlier.inputs, earlier.aux);
    lemma_eval_agree(c.b, later.inputs, later.aux, earlier.inputs, earlier.aux);
    lemma_eval_agree(c.c, later.inputs, later.aux, earlier.inputs, earlier.aux);
}

/// A ledger that extends a satisfied one by assigned variables and by
/// constraints that hold is satisfied.
pub proof fn lemma_extension_satisfied(later: Ledger, earlier: Ledger)
    requires
        earlier.wf(),
        earlier.satisfied(),
        extends(later, earlier),
        later.fully_assigned(),
        earlier.constraints.len() <= later.constraints.len(),
        forall|k: int|
            0 <= k < earlier.constraints.len() ==> later.constraints[k] == earlier.constraints[k],
        forall|k: int|
            earlier.constraints.len() <= k < later.constraints.len() ==> later.holds(
                #[trigger] later.constraints[k],
            ),
    ensures
        later.satisfied(),
{
    assert forall|k: int| 0 <= k < later.constraints.len() implies later.holds(
        #[trigger] later.constraints[k],
    ) by {
        if k < earlier.constraints.len() {
            assert(earlier.admits(earlier.constraints[k]));
            assert(earlier.holds(earlier.constraints[k]));
            lemma_holds_extends(later, earlier, earlier.constraints[k]);
        }
    }
}


/// A boolean that a ledger bears out is borne out by every ledger that
/// extends it.
pub proof fn lemma_consistent_extends(b: Boolean, later: Ledger, earlier: Ledger)
    requires
        b.consistent_in(earlier),
        extends(later, earlier),
    ensures
        b.consistent_in(later),
{
}

/// A number times a bit is the number or zero.
proof fn lemma_mul_bit(c: nat, x: nat)
    by (nonlinear_arith)
    requires
        x == 0 || x == 1,
    ensures
        c * x == if x == 1 {
            c
        } else {
            0
        },
        x * c == c * x,
{
}

/// The terms of a boolean with the coefficient `coeff` evaluate to `coeff`
/// times the boolean, up to one multiple of the order of the field.
pub proof fn lemma_terms_eval(b: Boolean, coeff: nat, l: Ledger)
    requires
        b.consistent_in(l),
        l.inputs.len() >= 1,
        l.inputs[0] == Some(1nat),
        coeff < modulus(),
    ensures
        l.eval(b.terms(coeff)) == coeff * b.truth() || l.eval(b.terms(coeff)) == coeff * b.truth()
            + modulus(),
{
    assert(assigned(Ledger::one(), l.inputs, l.aux) == 1);
    lemma_mul_bit(coeff, 1);
    lemma_mul_bit(coeff, b.truth());
    match b {
        Boolean::Constant(c) => {
            if c {
                lemma_eval_one(TermView { variable: Ledger::one(), coeff }, l.inputs, l.aux);
                assert(l.eval(b.terms(coeff)) == coeff * 1);
            } else {
                assert(l.eval(b.terms(coeff)) == 0);
                assert(coeff * b.truth() == 0);
            }
        },
        Boolean::Is(bit) => {
            lemma_eval_one(TermView { variable: bit.variable, coeff }, l.inputs, l.aux);
            assert(assigned(bit.variable, l.inputs, l.aux) == b.truth());
        },
        Boolean::Not(bit) => {
            let first = TermView { variable: Ledger::one(), coeff };
            let second = TermView { variable: bit.variable, coeff: neg_value(coeff) };
            lemma_eval_one(first, l.inputs, l.aux);
            lemma_eval_push(seq![first], second, l.inputs, l.aux);
            assert(seq![first].push(second) =~= b.terms(coeff));
            let x = assigned(bit.variable, l.inputs, l.aux);
            assert(x == 1 - b.truth());
            lemma_mul_bit(neg_value(coeff), x);
            assert(l.eval(b.terms(coeff)) == coeff * 1 + neg_value(coeff) * x);
            if x == 0 {
                assert(neg_value(coeff) * x == 0);
                assert(coeff * b.truth() == coeff);
            } else {
                assert(neg_value(coeff) * x == neg_value(coeff));
                assert(coeff * b.truth() == 0);
                if coeff == 0 {
                    assert(neg_value(coeff) == 0);
                } else {
                    assert(neg_value(coeff) == modulus() - coeff);
                }
            }
        },
    }
}

/// The constraint of a bit holds where the variable is assigned zero or one.
pub proof fn lemma_boolean_constraint_holds(l: Ledger, v: Variable, value: bool)
    requires
        l.inputs.len() >= 1,
        l.inputs[0] == Some(1nat),
        l.assignment(v) == Some(bit_value(value)),
    ensures
        l.holds(boolean_constraint(v)),
{
    let c = boolean_constraint(v);
    let first = TermView { variable: Ledger::one(), coeff: 1 };
    let second = TermView { variable: v, coeff: neg_value(1) };
    lemma_eval_one(first, l.inputs, l.aux);
    lemma_eval_push(seq![first], second, l.inputs, l.aux);
    assert(seq![first].push(second) =~= c.a);
    lemma_eval_one(TermView { variable: v, coeff: 1 }, l.inputs, l.aux);
    assert(c.c =~= Seq::<TermView>::empty());
    assert(l.eval(c.c) == 0);
    assert(neg_value(1) == modulus() - 1);
    assert(assigned(Ledger::one(), l.inputs, l.aux) == 1);
    let x = assigned(v, l.inputs, l.aux);
    assert(x == bit_value(value));
    lemma_mul_bit(neg_value(1), x);
    lemma_mul_bit(1, x);
    lemma_mul_bit(1, 1);
    assert(l.eval(c.a) == 1 * 1 + neg_value(1) * x);
    assert(l.eval(c.b) == 1 * x);
    if value {
        assert(neg_value(1) * x == neg_value(1));
        assert(l.eval(c.a) == modulus());
        assert(l.eval(c.b) == 1);
        assert(l.eval(c.a) * l.eval(c.b) == modulus());
    } else {
        assert(l.eval(c.b) == 0);
        assert(l.eval(c.a) * l.eval(c.b) == 0);
    }
}

/// Allocating a bit with a value keeps a satisfied ledger satisfied, and the
/// ledger bears the new bit out.
pub proof fn lemma_allocate_bit_satisfied(l: Ledger, value: bool)
    requires
        l.wf(),
        l.satisfied(),
        l.aux.len() < usize::MAX,
    ensures
        allocate_bit(l, Some(value)).wf(),
        allocate_bit(l, Some(value)).satisfied(),
        extends(allocate_bit(l, Some(value)), l),
        Boolean::Is(
            AllocatedBit { variable: Variable::Aux(l.aux.len() as usize), value: Some(value) },
        ).consistent_in(allocate_bit(l, Some(value))),
{
    let later = allocate_bit(l, Some(value));
    let v = Variable::Aux(l.aux.len() as usize);
    assert(neg_value(1) < modulus());
    lemma_boolean_constraint_holds(later, v, value);
    lemma_extension_satisfied(later, l);
    assert forall|k: int| 0 <= k < later.constraints.len() implies later.admits(
        #[trigger] later.constraints[k],
    ) by {
        if k < l.constraints.len() {
            assert(l.admits(l.constraints[k]));
        }
    }
}

/// The XOR constraint holds where the ledger bears both operands out and
/// assigns their XOR to the result.
pub proof fn lemma_xor_constraint_holds(l: Ledger, a: Boolean, b: Boolean, out: Variable)
    requires
        a.consistent_in(l),
        b.consistent_in(l),
        l.inputs.len() >= 1,
        l.inputs[0] == Some(1nat),
        l.assignment(out) == Some(bit_value(a.truth() != b.truth())),
    ensures
        l.holds(xor_constraint(a, b, out)),
{
    let c = xor_constraint(a, b, out);
    let ea = l.eval(a.terms(1));
    let eb = l.eval(b.terms(1));
    let o = bit_value(a.truth() != b.truth());
    let m = modulus();
    lemma_terms_eval(a, 1, l);
    lemma_terms_eval(b, 1, l);
    lemma_eval_concat(a.terms(1), a.terms(1), l.inputs, l.aux);
    lemma_eval_concat(a.terms(1), b.terms(1), l.inputs, l.aux);
    lemma_eval_push(
        a.terms(1) + b.terms(1),
        TermView { variable: out, coeff: neg_value(1) },
        l.inputs,
        l.aux,
    );
    assert(neg_value(1) == m - 1);
    assert(l.eval(c.a) == ea + ea);
    assert(l.eval(c.b) == eb);
    assert(l.eval(c.c) == ea + eb + neg_value(1) * o);
    let ta = a.truth();
    let tb = b.truth();
    assert(ta == 0 || ta == 1);
    assert(tb == 0 || tb == 1);
    lemma_xor_arithmetic(ta, tb, ea, eb);
}

/// The arithmetic behind the XOR constraint: for bits `ta` and `tb`, given up
/// to one multiple of the order of the field as `ea` and `eb`, `2 * ea * eb`
/// and `ea + eb - (ta xor tb)` are the same element of the field.
proof fn lemma_xor_arithmetic(ta: nat, tb: nat, ea: nat, eb: nat)
    requires
        ta == 0 || ta == 1,
        tb == 0 || tb == 1,
        ea == ta || ea == ta + modulus(),
        eb == tb || eb == tb + modulus(),
    ensures
        ((ea + ea) * eb) % modulus() == (ea + eb + neg_value(1) * bit_value(ta != tb))
            % modulus(),
{
    let m = modulus() as int;
    let o = bit_value(ta != tb);
    let ka: int = if ea == ta { 0 } else { 1 };
    let kb: int = if eb == tb { 0 } else { 1 };
    // The left side is `2 * ta * tb` in the field.
    let base = (2 * ta) * tb;
    lemma_mul_bit(2 * ta, tb);
    vstd::arithmetic::div_mod::lemma_mod_multiples_vanish(2 * ka, (2 * ta) as int, m);
    vstd::arithmetic::div_mod::lemma_mod_multiples_vanish(kb, tb as int, m);
    vstd::arithmetic::div_mod::lemma_small_mod(2 * ta, modulus());
    vstd::arithmetic::div_mod::lemma_small_mod(tb, modulus());
    assert((ea + ea) % (m as nat) == 2 * ta);
    assert(eb % (m as nat) == tb);
    vstd::arithmetic::div_mod::lemma_mul_mod_noop_general((ea + ea) as int, eb as int, m);
    assert(((ea + ea) * eb) % (m as nat) == base % (m as nat));
    // The right side is `ta + tb - (ta xor tb)`, which is the same number.
    assert(neg_value(1) == m - 1);
    lemma_mul_bit(neg_value(1), o);
    assert(base == ta + tb - o);
    assert(ea + eb + neg_value(1) * o == m * (ka + kb + o) + base);
    vstd::arithmetic::div_mod::lemma_mod_multiples_vanish(ka + kb + o, base as int, m);
}

/// An XOR keeps a satisfied ledger satisfied where the ledger bears both
/// operands out, and the ledger then bears the result out.
pub proof fn lemma_xor_satisfied(l: Ledger, a: Boolean, b: Boolean)
    requires
        l.wf(),
        l.satisfied(),
        a.consistent_in(l),
        b.consistent_in(l),
        xor_ledger(l, a, b).aux.len() <= usize::MAX,
    ensures
        xor_ledger(l, a, b).wf(),
        xor_ledger(l, a, b).satisfied(),
        extends(xor_ledger(l, a, b), l),
        xor_output(l, a, b).consistent_in(xor_ledger(l, a, b)),
{
    if !(a.is_constant() || b.is_constant()) {
        let later = xor_ledger(l, a, b);
        let out = Variable::Aux(l.aux.len() as usize);
        lemma_consistent_extends(a, later, l);
        lemma_consistent_extends(b, later, l);
        lemma_xor_constraint_holds(later, a, b, out);
        lemma_extension_satisfied(later, l);
        assert(neg_value(1) < modulus());
        assert(later.admits(xor_constraint(a, b, out)));
        assert forall|k: int| 0 <= k < later.constraints.len() implies later.admits(
            #[trigger] later.constraints[k],
        ) by {
            if k < l.constraints.len() {
                assert(l.admits(l.constraints[k]));
            }
        }
    }
}


/// Allocating preimage bits from a preimage keeps a satisfied ledger
/// satisfied, and the ledger bears every allocated bit out.
pub proof fn lemma_allocate_bits_satisfied(l: Ledger, preimage: Seq<u8>, n: nat)
    requires
        l.wf(),
        l.satisfied(),
        l.aux.len() + n <= usize::MAX,
    ensures
        allocate_bits(l, Some(preimage), n).wf(),
        allocate_bits(l, Some(preimage), n).satisfied(),
        extends(allocate_bits(l, Some(preimage), n), l),
        all_consistent(
            allocated_bits(l, Some(preimage), n),
            allocate_bits(l, Some(preimage), n),
        ),
    decreases n,
{
    if n > 0 {
        let witness = Some(preimage);
        let j = (n - 1) as int;
        lemma_allocate_bits_satisfied(l, preimage, (n - 1) as nat);
        lemma_allocate_bits_counts(l, witness, (n - 1) as nat);
        let prev = allocate_bits(l, witness, (n - 1) as nat);
        let scoped = prev.push_namespace(Label::PreimageBit(j as usize));
        let value = bit_of(preimage[j / 8], j % 8);
        assert(scoped.wf());
        assert(scoped.satisfied());
        lemma_allocate_bit_satisfied(scoped, value);
        let next = allocate_bits(l, witness, n);
        assert(next == allocate_bit(scoped, Some(value)).pop_namespace());
        assert(next.wf());
        assert(next.satisfied());
        assert forall|i: int| 0 <= i < n implies (#[trigger] allocated_bits(
            l,
            witness,
            n,
        )[i]).consistent_in(next) by {
            if i < n - 1 {
                assert(allocated_bits(l, witness, n)[i] == allocated_bits(
                    l,
                    witness,
                    (n - 1) as nat,
                )[i]);
                lemma_consistent_extends(allocated_bits(l, witness, n)[i], next, prev);
            }
        }
    }
}

/// The XOR reduction keeps a satisfied ledger satisfied where the ledger
/// bears the data out, and the ledger then bears the folded bits out.
pub proof fn lemma_fold_satisfied(l: Ledger, data: Seq<Boolean>, n: nat)
    requires
        l.wf(),
        l.satisfied(),
        all_consistent(data, l),
        n <= data.len(),
        fold_steps(l, data, n).ledger.aux.len() <= usize::MAX,
    ensures
        fold_steps(l, data, n).ledger.wf(),
        fold_steps(l, data, n).ledger.satisfied(),
        extends(fold_steps(l, data, n).ledger, l),
        fold_steps(l, data, n).acc.len() == 8,
        all_consistent(fold_steps(l, data, n).acc, fold_steps(l, data, n).ledger),
    decreases n,
{
    if n > 0 {
        let j = (n - 1) as int;
        let prev = fold_steps(l, data, (n - 1) as nat);
        let next = fold_steps(l, data, n);
        let scoped = step_scope(prev, j);
        let a = prev.acc[j % 8];
        let b = data[j];
        assert(prev.ledger.aux.len() <= next.ledger.aux.len());
        lemma_fold_satisfied(l, data, (n - 1) as nat);
        assert(scoped.wf());
        assert(scoped.satisfied());
        assert(a.consistent_in(prev.ledger));
        assert(b.consistent_in(l));
        lemma_consistent_extends(b, scoped, l);
        lemma_xor_satisfied(scoped, a, b);
        let made = xor_ledger(scoped, a, b);
        assert(next.ledger == made.pop_namespace());
        assert(next.ledger.wf());
        assert(next.ledger.satisfied());
        assert forall|t: int| 0 <= t < 8 implies (#[trigger] next.acc[t]).consistent_in(
            next.ledger,
        ) by {
            if t != j % 8 {
                assert(prev.acc[t].consistent_in(prev.ledger));
                lemma_consistent_extends(prev.acc[t], next.ledger, prev.ledger);
            }
        }
    }
}

/// Every weight is a canonical field element.
pub proof fn lemma_pack_coeff_canonical(i: nat)
    ensures
        pack_coeff(i) < modulus(),
{
}

/// The linear combination that packs a chunk evaluates, in the field, to the
/// value that the chunk packs into, where the ledger bears the booleans out.
pub proof fn lemma_packed_eval(bits: Seq<Boolean>, l: Ledger)
    requires
        all_consistent(bits, l),
        l.inputs.len() >= 1,
        l.inputs[0] == Some(1nat),
    ensures
        packed_value(bits) is Some,
        packed_value(bits)->0 < modulus(),
        l.eval(packed_terms(bits)) % modulus() == packed_value(bits)->0,
    decreases bits.len(),
{
    if bits.len() > 0 {
        let rest = bits.drop_last();
        let last = bits.last();
        let c = pack_coeff((bits.len() - 1) as nat);
        let m = modulus();
        assert forall|i: int| 0 <= i < rest.len() implies (#[trigger] rest[i]).consistent_in(l) by {
            assert(rest[i] == bits[i]);
        }
        lemma_packed_eval(rest, l);
        assert(last == bits[bits.len() - 1]);
        assert(last.consistent_in(l));
        lemma_pack_coeff_canonical((bits.len() - 1) as nat);
        lemma_terms_eval(last, c, l);
        lemma_eval_concat(packed_terms(rest), last.terms(c), l.inputs, l.aux);
        lemma_mul_bit(c, last.truth());
        let before = l.eval(packed_terms(rest));
        let e = l.eval(last.terms(c));
        assert(l.eval(packed_terms(bits)) == before + e);
        if last.truth() == 1 {
            vstd::arithmetic::div_mod::lemma_add_mod_noop(before as int, c as int, m as int);
            vstd::arithmetic::div_mod::lemma_small_mod(c, m);
            if e == c + m {
                vstd::arithmetic::div_mod::lemma_mod_multiples_vanish(
                    1,
                    (before + c) as int,
                    m as int,
                );
            }
        } else {
            if e == m {
                vstd::arithmetic::div_mod::lemma_mod_multiples_vanish(1, before as int, m as int);
            }
        }
    } else {
        assert(l.eval(packed_terms(bits)) == 0);
    }
}

/// The linear combination that packs a chunk speaks only of the constant one
/// and of the variables of its booleans.
pub proof fn lemma_packed_terms_within(bits: Seq<Boolean>, l: Ledger)
    requires
        all_consistent(bits, l),
        l.inputs.len() >= 1,
    ensures
        lc_within(packed_terms(bits), l.inputs.len(), l.aux.len()),
    decreases bits.len(),
{
    if bits.len() > 0 {
        let rest = bits.drop_last();
        let last = bits.last();
        let c = pack_coeff((bits.len() - 1) as nat);
        assert forall|i: int| 0 <= i < rest.len() implies (#[trigger] rest[i]).consistent_in(l) by {
            assert(rest[i] == bits[i]);
        }
        lemma_packed_terms_within(rest, l);
        assert(last == bits[bits.len() - 1]);
        assert(last.consistent_in(l));
        assert(lc_within(last.terms(c), l.inputs.len(), l.aux.len()));
        let whole = packed_terms(bits);
        assert forall|i: int| 0 <= i < whole.len() implies term_within(
            #[trigger] whole[i],
            l.inputs.len(),
            l.aux.len(),
        ) by {
            if i < packed_terms(rest).len() {
                assert(whole[i] == packed_terms(rest)[i]);
            } else {
                assert(whole[i] == last.terms(c)[i - packed_terms(rest).len()]);
            }
        }
    }
}

/// The packing constraint of a chunk holds in the ledger that packing the
/// chunk makes, where the ledger before it bears the booleans out.
pub proof fn lemma_pack_chunk_satisfied(l: Ledger, chunk: Seq<Boolean>, i: int)
    requires
        l.wf(),
        l.satisfied(),
        all_consistent(chunk, l),
        l.inputs.len() < usize::MAX,
    ensures
        pack_chunk(l, chunk, i).wf(),
        pack_chunk(l, chunk, i).satisfied(),
        extends(pack_chunk(l, chunk, i), l),
{
    let later = pack_chunk(l, chunk, i);
    let input = Variable::Input(l.inputs.len() as usize);
    let c = packing_constraint(chunk, input);
    lemma_packed_eval(chunk, l);
    lemma_packed_terms_within(chunk, l);
    lemma_eval_agree(c.a, later.inputs, later.aux, l.inputs, l.aux);
    lemma_eval_one(TermView { variable: Ledger::one(), coeff: 1 }, later.inputs, later.aux);
    lemma_eval_one(TermView { variable: input, coeff: 1 }, later.inputs, later.aux);
    lemma_mul_bit(1, 1);
    let value = packed_value(chunk)->0;
    assert(assigned(input, later.inputs, later.aux) == value);
    assert(later.eval(c.b) == 1);
    vstd::arithmetic::mul::lemma_mul_basics(value as int);
    vstd::arithmetic::mul::lemma_mul_basics(later.eval(c.a) as int);
    assert(later.eval(c.c) == value);
    vstd::arithmetic::div_mod::lemma_small_mod(value, modulus());
    assert(later.holds(c));
    lemma_extension_satisfied(later, l);
    assert(later.admits(c));
    assert forall|k: int| 0 <= k < later.constraints.len() implies later.admits(
        #[trigger] later.constraints[k],
    ) by {
        if k < l.constraints.len() {
            assert(l.admits(l.constraints[k]));
        }
    }
}

/// Packing keeps a satisfied ledger satisfied where the ledger bears the
/// booleans out.
pub proof fn lemma_pack_satisfied(l: Ledger, bits: Seq<Boolean>, n: nat)
    requires
        l.wf(),
        l.satisfied(),
        all_consistent(bits, l),
        n <= chunk_count(bits.len()),
        l.inputs.len() + n <= usize::MAX,
    ensures
        pack_chunks(l, bits, n).wf(),
        pack_chunks(l, bits, n).satisfied(),
        extends(pack_chunks(l, bits, n), l),
    decreases n,
{
    if n > 0 {
        lemma_pack_satisfied(l, bits, (n - 1) as nat);
        lemma_pack_chunks_counts(l, bits, (n - 1) as nat);
        let prev = pack_chunks(l, bits, (n - 1) as nat);
        let chunk = chunk_of(bits, n - 1);
        assert((n - 1) * crate::field::CAPACITY < bits.len());
        assert forall|i: int| 0 <= i < chunk.len() implies (#[trigger] chunk[i]).consistent_in(
            prev,
        ) by {
            assert(chunk[i] == bits[(n - 1) * crate::field::CAPACITY + i]);
            lemma_consistent_extends(chunk[i], prev, l);
        }
        lemma_pack_chunk_satisfied(prev, chunk, n - 1);
    }
}

/// The ledger in which the circuit packs its folded bits: after the preimage
/// bits were allocated and folded, with the namespace `PackHash` open.
pub open spec fn packing_ledger(l: Ledger, preimage: Option<Seq<u8>>) -> Ledger {
    circuit_fold(l, preimage).ledger.pop_namespace().push_namespace(Label::PackHash)
}

/// Allocating and folding the bits of a preimage keeps a satisfied ledger
/// satisfied, and the ledger then bears the folded bits out.
pub proof fn lemma_circuit_fold_satisfied(l: Ledger, preimage: Seq<u8>)
    requires
        l.wf(),
        l.satisfied(),
        preimage.len() == INPUT_SIZE,
        l.aux.len() + 504 <= usize::MAX,
    ensures
        packing_ledger(l, Some(preimage)).wf(),
        packing_ledger(l, Some(preimage)).satisfied(),
        extends(packing_ledger(l, Some(preimage)), l),
        packing_ledger(l, Some(preimage)).inputs == l.inputs,
        circuit_fold(l, Some(preimage)).acc.len() == 8,
        all_consistent(circuit_fold(l, Some(preimage)).acc, packing_ledger(l, Some(preimage))),
{
    let witness = Some(preimage);
    let bits = allocated_bits(l, witness, 256);
    let allocated = allocate_bits(l, witness, 256);
    lemma_allocate_bits_satisfied(l, preimage, 256);
    lemma_allocate_bits_counts(l, witness, 256);
    let scoped = allocated.push_namespace(Label::XorSum);
    assert(scoped.wf());
    assert(scoped.satisfied());
    assert(all_consistent(bits, scoped));
    lemma_circuit_size(l, witness);
    let folded = circuit_fold(l, witness);
    let packing = packing_ledger(l, witness);
    lemma_pack_chunks_counts(packing, folded.acc, chunk_count(8));
    lemma_fold_satisfied(scoped, bits, 256);
    assert(crate::boolean::all_allocated(bits, scoped));
    lemma_fold_admits(scoped, bits, 256);
    assert(packing.wf());
    assert(packing.satisfied());
    assert(all_consistent(folded.acc, packing));
}

/// Synthesis with a preimage keeps a satisfied ledger satisfied: the witness
/// that the circuit computes from the preimage meets every constraint that
/// the circuit enforces.
pub proof fn lemma_synthesis_satisfied(l: Ledger, preimage: Seq<u8>)
    requires
        l.wf(),
        l.satisfied(),
        preimage.len() == INPUT_SIZE,
        l.aux.len() + 504 <= usize::MAX,
        l.inputs.len() < usize::MAX,
    ensures
        synthesized(l, Some(preimage)).wf(),
        synthesized(l, Some(preimage)).satisfied(),
        extends(synthesized(l, Some(preimage)), l),
{
    let witness = Some(preimage);
    let folded = circuit_fold(l, witness);
    let packing = packing_ledger(l, witness);
    lemma_circuit_fold_satisfied(l, preimage);
    lemma_pack_satisfied(packing, folded.acc, chunk_count(8));
    let packed = pack_chunks(packing, folded.acc, chunk_count(8));
    assert(synthesized(l, witness) == packed.pop_namespace());
}

/// The ledger with another assignment of one public input.
pub open spec fn with_input(l: Ledger, i: int, value: nat) -> Ledger {
    Ledger { inputs: l.inputs.update(i, Some(value)), ..l }
}

/// The public input binds the digest: the witness that the circuit computes
/// from a preimage does not satisfy the ledger once the public input holds
/// any field element but the digest of that preimage.
pub proof fn lemma_other_digest_violates(l: Ledger, preimage: Seq<u8>, claimed: nat)
    requires
        l.wf(),
        l.satisfied(),
        preimage.len() == INPUT_SIZE,
        l.aux.len() + 504 <= usize::MAX,
        l.inputs.len() < usize::MAX,
        claimed < modulus(),
        claimed != xor_fold(preimage) as nat,
    ensures
        !with_input(synthesized(l, Some(preimage)), l.inputs.len() as int, claimed).satisfied(),
{
    let witness = Some(preimage);
    let folded = circuit_fold(l, witness);
    let packing = packing_ledger(l, witness);
    let honest = synthesized(l, witness);
    let index = l.inputs.len() as int;
    let forged = with_input(honest, index, claimed);
    let input = Variable::Input(index as usize);
    let c = packing_constraint(folded.acc, input);
    lemma_circuit_fold_satisfied(l, preimage);
    lemma_circuit_computes_digest(l, preimage);
    crate::multipack::lemma_pack_byte(xor_fold(preimage));
    lemma_packed_eval(folded.acc, packing);
    lemma_packed_terms_within(folded.acc, packing);
    assert(chunk_count(8) == 1);
    assert(chunk_of(folded.acc, 0) =~= folded.acc);
    let packed = pack_chunks(packing, folded.acc, 1);
    assert(packed == pack_chunk(pack_chunks(packing, folded.acc, 0), chunk_of(folded.acc, 0), 0));
    assert(honest == packed.pop_namespace());
    let last = honest.constraints.len() - 1;
    assert(forged.constraints[last] == c);
    assert(agree_on(c.a, forged.inputs, forged.aux, packing.inputs, packing.aux)) by {
        assert forall|i: int| 0 <= i < c.a.len() implies assigned(
            (#[trigger] c.a[i]).variable,
            forged.inputs,
            forged.aux,
        ) == assigned(c.a[i].variable, packing.inputs, packing.aux) by {
            assert(term_within(c.a[i], packing.inputs.len(), packing.aux.len()));
        }
    }
    lemma_eval_agree(c.a, forged.inputs, forged.aux, packing.inputs, packing.aux);
    lemma_eval_one(TermView { variable: Ledger::one(), coeff: 1 }, forged.inputs, forged.aux);
    lemma_eval_one(TermView { variable: input, coeff: 1 }, forged.inputs, forged.aux);
    lemma_mul_bit(1, 1);
    assert(assigned(Ledger::one(), forged.inputs, forged.aux) == 1);
    assert(assigned(input, forged.inputs, forged.aux) == claimed);
    assert(forged.eval(c.b) == 1);
    vstd::arithmetic::mul::lemma_mul_basics(claimed as int);
    vstd::arithmetic::mul::lemma_mul_basics(forged.eval(c.a) as int);
    assert(forged.eval(c.c) == claimed);
    vstd::arithmetic::div_mod::lemma_small_mod(claimed, modulus());
    if forged.satisfied() {
        assert(forged.holds(forged.constraints[last]));
        assert(false);
    }
}


/// The arithmetic by which the XOR constraint fixes its result: for bits `ta`
/// and `tb`, given up to one multiple of the order of the field as `ea` and
/// `eb`, a canonical `o` for which `2 * ea * eb` and `ea + eb - o` are the
/// same element of the field is the XOR of the two bits.
proof fn lemma_xor_arithmetic_fixes(ta: nat, tb: nat, ea: nat, eb: nat, o: nat)
    requires
        ta == 0 || ta == 1,
        tb == 0 || tb == 1,
        ea == ta || ea == ta + modulus(),
        eb == tb || eb == tb + modulus(),
        o < modulus(),
        ((ea + ea) * eb) % modulus() == (ea + eb + neg_value(1) * o) % modulus(),
    ensures
        o == bit_value(ta != tb),
{
    let m = modulus() as int;
    let ka: int = if ea == ta { 0 } else { 1 };
    let kb: int = if eb == tb { 0 } else { 1 };
    // The left side is `2 * ta * tb` in the field.
    let base = (2 * ta) * tb;
    lemma_mul_bit(2 * ta, tb);
    vstd::arithmetic::div_mod::lemma_mod_multiples_vanish(2 * ka, (2 * ta) as int, m);
    vstd::arithmetic::div_mod::lemma_mod_multiples_vanish(kb, tb as int, m);
    vstd::arithmetic::div_mod::lemma_small_mod(2 * ta, modulus());
    vstd::arithmetic::div_mod::lemma_small_mod(tb, modulus());
    assert((ea + ea) % (m as nat) == 2 * ta);
    assert(eb % (m as nat) == tb);
    vstd::arithmetic::div_mod::lemma_mul_mod_noop_general((ea + ea) as int, eb as int, m);
    vstd::arithmetic::div_mod::lemma_small_mod(base, modulus());
    assert(((ea + ea) * eb) % (m as nat) == base);
    // The right side is `ta + tb - o` in the field.
    assert(neg_value(1) == m - 1);
    let rest = ta + tb - o;
    assert(neg_value(1) * o == m * o - o) by (nonlinear_arith)
        requires
            neg_value(1) == m - 1,
    ;
    assert(ea + eb + neg_value(1) * o == m * (ka + kb + o) + rest);
    vstd::arithmetic::div_mod::lemma_mod_multiples_vanish(ka + kb + o, rest, m);
    assert(rest % m == base);
    if rest >= 0 {
        vstd::arithmetic::div_mod::lemma_small_mod(rest as nat, modulus());
    } else {
        vstd::arithmetic::div_mod::lemma_mod_multiples_vanish(1, rest, m);
        vstd::arithmetic::div_mod::lemma_small_mod((rest + m) as nat, modulus());
        assert(m * 1 + rest == rest + m);
    }
}

/// The XOR constraint fixes its result: where the ledger bears both operands
/// out and the constraint holds, the result is assigned their XOR.
pub proof fn lemma_xor_determined(l: Ledger, a: Boolean, b: Boolean, out: Variable, o: nat)
    requires
        a.consistent_in(l),
        b.consistent_in(l),
        l.inputs.len() >= 1,
        l.inputs[0] == Some(1nat),
        l.assignment(out) == Some(o),
        o < modulus(),
        l.holds(xor_constraint(a, b, out)),
    ensures
        o == bit_value(a.truth() != b.truth()),
{
    let c = xor_constraint(a, b, out);
    let ea = l.eval(a.terms(1));
    let eb = l.eval(b.terms(1));
    lemma_terms_eval(a, 1, l);
    lemma_terms_eval(b, 1, l);
    lemma_eval_concat(a.terms(1), a.terms(1), l.inputs, l.aux);
    lemma_eval_concat(a.terms(1), b.terms(1), l.inputs, l.aux);
    lemma_eval_push(
        a.terms(1) + b.terms(1),
        TermView { variable: out, coeff: neg_value(1) },
        l.inputs,
        l.aux,
    );
    assert(assigned(out, l.inputs, l.aux) == o);
    assert(l.eval(c.a) == ea + ea);
    assert(l.eval(c.b) == eb);
    assert(l.eval(c.c) == ea + eb + neg_value(1) * o);
    let ta = a.truth();
    let tb = b.truth();
    assert(ta == 0 || ta == 1);
    assert(tb == 0 || tb == 1);
    lemma_mul_bit(1, ta);
    lemma_mul_bit(1, tb);
    lemma_xor_arithmetic_fixes(ta, tb, ea, eb, o);
}

/// Whether a ledger assigns a canonical value to each of its auxiliary
/// variables.
pub open spec fn aux_assigned(l: Ledger) -> bool {
    forall|i: int|
        0 <= i < l.aux.len() ==> (#[trigger] l.aux[i]) is Some && l.aux[i]->0 < modulus()
}

/// The XOR reduction fixes the assignment of its results. Let `alt` assign
/// the public inputs and the auxiliary variables of `l` as `l` does, and give
/// the variables that the reduction allocates any canonical values. If the
/// constraints of the reduction hold under `alt`, then `alt` assigns to each
/// result what the reduction itself computes.
pub proof fn lemma_fold_determined(l: Ledger, data: Seq<Boolean>, n: nat, alt: Ledger)
    requires
        l.wf(),
        l.satisfied(),
        all_consistent(data, l),
        n <= data.len(),
        fold_steps(l, data, n).ledger.aux.len() <= usize::MAX,
        alt.inputs == l.inputs,
        alt.aux.len() == fold_steps(l, data, n).ledger.aux.len(),
        forall|i: int| 0 <= i < l.aux.len() ==> alt.aux[i] == l.aux[i],
        aux_assigned(alt),
        forall|k: int|
            l.constraints.len() <= k < fold_steps(l, data, n).ledger.constraints.len()
                ==> alt.holds(#[trigger] fold_steps(l, data, n).ledger.constraints[k]),
    ensures
        alt.aux == fold_steps(l, data, n).ledger.aux,
    decreases n,
{
    if n == 0 {
        assert(alt.aux =~= l.aux);
    } else {
        let j = (n - 1) as int;
        let prev = fold_steps(l, data, (n - 1) as nat);
        let next = fold_steps(l, data, n);
        let before = prev.ledger;
        let after = next.ledger;
        let scoped = step_scope(prev, j);
        let a = prev.acc[j % 8];
        let b = data[j];
        let m = before.aux.len() as int;
        assert(before.aux.len() <= after.aux.len());
        lemma_fold_satisfied(l, data, (n - 1) as nat);
        assert(crate::boolean::all_allocated(data, l)) by {
            assert forall|i: int| 0 <= i < data.len() implies (#[trigger] data[i]).allocated_in(
                l,
            ) by {
                assert(data[i].consistent_in(l));
            }
        }
        lemma_fold_admits(l, data, (n - 1) as nat);
        let cut = Ledger { aux: alt.aux.take(m), ..alt };
        assert(extends(alt, cut));
        assert forall|k: int| l.constraints.len() <= k < before.constraints.len() implies cut.holds(
            #[trigger] before.constraints[k],
        ) by {
            assert(after.constraints[k] == before.constraints[k]);
            assert(before.admits(before.constraints[k]));
            lemma_holds_extends(alt, cut, before.constraints[k]);
        }
        assert(aux_assigned(cut)) by {
            assert forall|i: int| 0 <= i < cut.aux.len() implies (#[trigger] cut.aux[i]) is Some
                && cut.aux[i]->0 < modulus() by {
                assert(cut.aux[i] == alt.aux[i]);
            }
        }
        lemma_fold_determined(l, data, (n - 1) as nat, cut);
        assert(cut.aux == before.aux);
        if a.is_constant() || b.is_constant() {
            assert(alt.aux =~= cut.aux);
        } else {
            let out = Variable::Aux(m as usize);
            let made = xor_ledger(scoped, a, b);
            assert(after == made.pop_namespace());
            let c = xor_constraint(a, b, out);
            assert(after.constraints[before.constraints.len() as int] == c);
            assert(alt.holds(after.constraints[before.constraints.len() as int]));
            assert(a.consistent_in(before));
            assert(b.consistent_in(l));
            lemma_consistent_extends(b, before, l);
            assert(extends(alt, before)) by {
                assert forall|i: int| 0 <= i < before.aux.len() implies alt.aux[i]
                    == before.aux[i] by {
                    assert(cut.aux[i] == alt.aux[i]);
                }
            }
            lemma_consistent_extends(a, alt, before);
            lemma_consistent_extends(b, alt, before);
            let o = alt.aux[m]->0;
            assert(alt.aux[m] is Some && o < modulus());
            lemma_xor_determined(alt, a, b, out, o);
            assert(after.aux[m] == Some(o));
            assert(alt.aux =~= after.aux) by {
                assert forall|i: int| 0 <= i < alt.aux.len() implies alt.aux[i] == after.aux[i] by {
                    if i < m {
                        assert(cut.aux[i] == alt.aux[i]);
                    }
                }
            }
        }
    }
}

/// The constraints of the circuit bind the digest to the preimage bits. Let
/// `alt` be any ledger with the constraints of the circuit, synthesised into
/// an empty ledger, and with as many variables. If `alt` is satisfied and its
/// first 256 auxiliary variables hold the bits of a preimage, the least
/// significant bit of each byte first, then its public input holds the digest
/// of that preimage, and every other variable holds what synthesis computes.
/// So no assignment with these preimage bits satisfies the circuit under any
/// other digest.
pub proof fn lemma_digest_determined(preimage: Seq<u8>, alt: Ledger)
    requires
        preimage.len() == INPUT_SIZE,
        alt.wf(),
        alt.satisfied(),
        alt.constraints == synthesized(Ledger::empty(), Some(preimage)).constraints,
        alt.inputs.len() == 2,
        alt.aux.len() == 504,
        forall|j: int|
            0 <= j < 256 ==> #[trigger] alt.aux[j] == Some(
                bit_value(bit_of(preimage[j / 8], j % 8)),
            ),
    ensures
        alt.inputs[1] == Some(xor_fold(preimage) as nat),
        alt.inputs == synthesized(Ledger::empty(), Some(preimage)).inputs,
        alt.aux == synthesized(Ledger::empty(), Some(preimage)).aux,
{
    let l = Ledger::empty();
    let witness = Some(preimage);
    let bits = allocate_bits(l, witness, 256);
    let data = allocated_bits(l, witness, 256);
    let scoped = bits.push_namespace(Label::XorSum);
    let folded = circuit_fold(l, witness);
    let packing = packing_ledger(l, witness);
    let packed = pack_chunks(packing, folded.acc, 1);
    let honest = synthesized(l, witness);
    lemma_allocate_bits_satisfied(l, preimage, 256);
    lemma_allocate_bits_counts(l, witness, 256);
    lemma_circuit_size(l, witness);
    lemma_circuit_fold_satisfied(l, preimage);
    lemma_circuit_computes_digest(l, preimage);
    crate::multipack::lemma_pack_byte(xor_fold(preimage));
    assert(scoped.wf());
    assert(scoped.satisfied());
    assert(all_consistent(data, scoped));
    assert(crate::boolean::all_allocated(data, scoped));
    lemma_fold_admits(scoped, data, 256);
    lemma_fold_satisfied(scoped, data, 256);
    lemma_pack_chunks_counts(packing, folded.acc, 1);
    assert(chunk_count(8) == 1);
    assert(chunk_of(folded.acc, 0) =~= folded.acc);
    assert(packed == pack_chunk(pack_chunks(packing, folded.acc, 0), chunk_of(folded.acc, 0), 0));
    assert(honest == packed.pop_namespace());
    let input = Variable::Input(1);
    let c = packing_constraint(folded.acc, input);
    assert(honest.constraints == folded.ledger.constraints.push(c));
    // The XOR results are fixed by the preimage bits.
    let cut = Ledger { inputs: alt.inputs.take(1), ..alt };
    assert(cut.inputs =~= scoped.inputs);
    assert(extends(alt, cut));
    assert forall|i: int| 0 <= i < scoped.aux.len() implies cut.aux[i] == scoped.aux[i] by {
        assert(data[i].consistent_in(scoped));
        assert(alt.aux[i] == Some(bit_value(bit_of(preimage[i / 8], i % 8))));
    }
    assert(aux_assigned(cut)) by {
        assert forall|i: int| 0 <= i < cut.aux.len() implies (#[trigger] cut.aux[i]) is Some
            && cut.aux[i]->0 < modulus() by {
            assert(Ledger::canonical(alt.aux[i]));
        }
    }
    assert forall|k: int|
        scoped.constraints.len() <= k < folded.ledger.constraints.len() implies cut.holds(
        #[trigger] folded.ledger.constraints[k],
    ) by {
        assert(alt.constraints[k] == folded.ledger.constraints[k]);
        assert(alt.holds(alt.constraints[k]));
        assert(folded.ledger.admits(folded.ledger.constraints[k]));
        lemma_holds_extends(alt, cut, folded.ledger.constraints[k]);
    }
    lemma_fold_determined(scoped, data, 256, cut);
    assert(alt.aux == folded.ledger.aux);
    assert(alt.aux == honest.aux);
    // The packing constraint fixes the public input.
    lemma_packed_eval(folded.acc, packing);
    lemma_packed_terms_within(folded.acc, packing);
    assert(alt.constraints[504] == c);
    assert(alt.holds(alt.constraints[504]));
    assert(agree_on(c.a, alt.inputs, alt.aux, packing.inputs, packing.aux)) by {
        assert forall|i: int| 0 <= i < c.a.len() implies assigned(
            (#[trigger] c.a[i]).variable,
            alt.inputs,
            alt.aux,
        ) == assigned(c.a[i].variable, packing.inputs, packing.aux) by {
            assert(term_within(c.a[i], packing.inputs.len(), packing.aux.len()));
        }
    }
    lemma_eval_agree(c.a, alt.inputs, alt.aux, packing.inputs, packing.aux);
    lemma_eval_one(TermView { variable: Ledger::one(), coeff: 1 }, alt.inputs, alt.aux);
    lemma_eval_one(TermView { variable: input, coeff: 1 }, alt.inputs, alt.aux);
    lemma_mul_bit(1, 1);
    assert(Ledger::canonical(alt.inputs[1]));
    assert(alt.inputs[1] is Some);
    let claimed = alt.inputs[1]->0;
    assert(assigned(Ledger::one(), alt.inputs, alt.aux) == 1);
    assert(assigned(input, alt.inputs, alt.aux) == claimed);
    assert(alt.eval(c.b) == 1);
    vstd::arithmetic::mul::lemma_mul_basics(claimed as int);
    vstd::arithmetic::mul::lemma_mul_basics(alt.eval(c.a) as int);
    assert(alt.eval(c.c) == claimed);
    vstd::arithmetic::div_mod::lemma_small_mod(claimed, modulus());
    assert(claimed == xor_fold(preimage) as nat);
    assert(alt.inputs =~= honest.inputs);
}

} // verus!
