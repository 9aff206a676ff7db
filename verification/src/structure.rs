//! The structure of the circuit does not depend on the witness: synthesis with
//! and without a preimage makes the same variables and the same constraints,
//! so parameters generated without a witness serve every proof.

use crate::boolean::{all_allocated, xor_admitted, xor_ledger, xor_output, Boolean};
use crate::circuit::{
    allocate_bits, allocated_bits, circuit_fold, fold_steps, lemma_allocate_bits_counts,
    lemma_fold_admits, step_scope, synthesized,
};
use crate::field::CAPACITY;
use crate::ledger::{Label, Ledger};
use crate::multipack::{
    chunk_count, chunk_of, lemma_pack_chunks_counts, pack_chunks, packed_terms,
};
use vstd::prelude::*;

verus! {

/// Whether two sequences of booleans differ in their witness at most.
pub open spec fn same_structure(a: Seq<Boolean>, b: Seq<Boolean>) -> bool {
    &&& a.len() == b.len()
    &&& forall|i: int| 0 <= i < a.len() ==> (#[trigger] a[i]).erased() == b[i].erased()
}

/// An XOR makes the same variable and the same constraint whatever the values
/// of its operands are.
pub proof fn lemma_xor_structure(
    l1: Ledger,
    a1: Boolean,
    b1: Boolean,
    l2: Ledger,
    a2: Boolean,
    b2: Boolean,
)
    requires
        l1.structure() == l2.structure(),
        a1.erased() == a2.erased(),
        b1.erased() == b2.erased(),
    ensures
        xor_admitted(l1, a1, b1) == xor_admitted(l2, a2, b2),
        xor_ledger(l1, a1, b1).structure() == xor_ledger(l2, a2, b2).structure(),
        xor_output(l1, a1, b1).erased() == xor_output(l2, a2, b2).erased(),
{
    assert(a1.terms(1) == a2.terms(1));
    assert(b1.terms(1) == b2.terms(1));
}

/// The XOR reduction makes the same variables and constraints whatever the
/// values of the data are.
pub proof fn lemma_fold_structure(
    l1: Ledger,
    data1: Seq<Boolean>,
    l2: Ledger,
    data2: Seq<Boolean>,
    n: nat,
)
    requires
        l1.structure() == l2.structure(),
        same_structure(data1, data2),
        n <= data1.len(),
    ensures
        fold_steps(l1, data1, n).ledger.structure() == fold_steps(l2, data2, n).ledger.structure(),
        same_structure(fold_steps(l1, data1, n).acc, fold_steps(l2, data2, n).acc),
        fold_steps(l1, data1, n).acc.len() == 8,
    decreases n,
{
    if n > 0 {
        let j = (n - 1) as int;
        lemma_fold_structure(l1, data1, l2, data2, (n - 1) as nat);
        let s1 = fold_steps(l1, data1, (n - 1) as nat);
        let s2 = fold_steps(l2, data2, (n - 1) as nat);
        let scope1 = step_scope(s1, j);
        let scope2 = step_scope(s2, j);
        assert(s1.acc[j % 8].erased() == s2.acc[j % 8].erased());
        assert(data1[j].erased() == data2[j].erased());
        lemma_xor_structure(scope1, s1.acc[j % 8], data1[j], scope2, s2.acc[j % 8], data2[j]);
        let t1 = fold_steps(l1, data1, n);
        let t2 = fold_steps(l2, data2, n);
        assert forall|i: int| 0 <= i < 8 implies (#[trigger] t1.acc[i]).erased()
            == t2.acc[i].erased() by {
            if i != j % 8 {
                assert(s1.acc[i].erased() == s2.acc[i].erased());
            }
        }
    }
}

/// Allocating the preimage bits makes the same variables and constraints with
/// and without a preimage.
pub proof fn lemma_allocate_bits_structure(
    l: Ledger,
    w1: Option<Seq<u8>>,
    w2: Option<Seq<u8>>,
    n: nat,
)
    ensures
        allocate_bits(l, w1, n).structure() == allocate_bits(l, w2, n).structure(),
    decreases n,
{
    if n > 0 {
        lemma_allocate_bits_structure(l, w1, w2, (n - 1) as nat);
    }
}

/// The linear combination that packs a chunk does not depend on the values of
/// its booleans.
pub proof fn lemma_packed_terms_structure(bits1: Seq<Boolean>, bits2: Seq<Boolean>)
    requires
        same_structure(bits1, bits2),
    ensures
        packed_terms(bits1) == packed_terms(bits2),
    decreases bits1.len(),
{
    if bits1.len() > 0 {
        lemma_packed_terms_structure(bits1.drop_last(), bits2.drop_last());
        assert(bits1.last().erased() == bits2.last().erased());
    }
}

/// Packing makes the same public inputs and constraints whatever the values of
/// the booleans are.
pub proof fn lemma_pack_structure(
    l1: Ledger,
    bits1: Seq<Boolean>,
    l2: Ledger,
    bits2: Seq<Boolean>,
    n: nat,
)
    requires
        l1.structure() == l2.structure(),
        same_structure(bits1, bits2),
        n <= chunk_count(bits1.len()),
    ensures
        pack_chunks(l1, bits1, n).structure() == pack_chunks(l2, bits2, n).structure(),
    decreases n,
{
    if n > 0 {
        lemma_pack_structure(l1, bits1, l2, bits2, (n - 1) as nat);
        let c1 = chunk_of(bits1, n - 1);
        let c2 = chunk_of(bits2, n - 1);
        assert((n - 1) * CAPACITY < bits1.len());
        assert(same_structure(c1, c2));
        lemma_packed_terms_structure(c1, c2);
    }
}

/// Synthesis with any preimage, or with none, makes ledgers of the same
/// structure: the same numbers of public inputs and auxiliary variables under
/// the same names, and the same constraints in the same order. Only the
/// assignments differ.
pub proof fn lemma_structure_ignores_witness(l: Ledger, w1: Option<Seq<u8>>, w2: Option<Seq<u8>>)
    ensures
        synthesized(l, w1).structure() == synthesized(l, w2).structure(),
        synthesized(l, w1).inputs.len() == synthesized(l, w2).inputs.len(),
        synthesized(l, w1).aux.len() == synthesized(l, w2).aux.len(),
        synthesized(l, w1).constraints == synthesized(l, w2).constraints,
{
    lemma_allocate_bits_structure(l, w1, w2, 256);
    let d1 = allocated_bits(l, w1, 256);
    let d2 = allocated_bits(l, w2, 256);
    assert(same_structure(d1, d2));
    let s1 = allocate_bits(l, w1, 256).push_namespace(Label::XorSum);
    let s2 = allocate_bits(l, w2, 256).push_namespace(Label::XorSum);
    lemma_fold_structure(s1, d1, s2, d2, 256);
    let f1 = circuit_fold(l, w1);
    let f2 = circuit_fold(l, w2);
    let packing1 = f1.ledger.pop_namespace().push_namespace(Label::PackHash);
    let packing2 = f2.ledger.pop_namespace().push_namespace(Label::PackHash);
    lemma_pack_structure(packing1, f1.acc, packing2, f2.acc, chunk_count(8));
}


/// The cost of the XOR reduction over witnessed bits: the first 8 steps meet
/// the constant `false` and cost nothing; each later step costs one auxiliary
/// variable and one constraint.
pub proof fn lemma_fold_size(l: Ledger, data: Seq<Boolean>, n: nat)
    requires
        n <= data.len(),
        forall|j: int| 0 <= j < data.len() ==> !(#[trigger] data[j]).is_constant(),
    ensures
        fold_steps(l, data, n).acc.len() == 8,
        forall|t: int|
            0 <= t < 8 ==> if t < n {
                !(#[trigger] fold_steps(l, data, n).acc[t]).is_constant()
            } else {
                fold_steps(l, data, n).acc[t] == Boolean::Constant(false)
            },
        fold_steps(l, data, n).ledger.inputs.len() == l.inputs.len(),
        fold_steps(l, data, n).ledger.aux.len() == l.aux.len() + if n <= 8 {
            0
        } else {
            n - 8
        },
        fold_steps(l, data, n).ledger.constraints.len() == l.constraints.len() + if n <= 8 {
            0
        } else {
            n - 8
        },
    decreases n,
{
    if n > 0 {
        let j = (n - 1) as int;
        lemma_fold_size(l, data, (n - 1) as nat);
        let s = fold_steps(l, data, (n - 1) as nat);
        let next = fold_steps(l, data, n);
        assert(!data[j].is_constant());
        if n <= 8 {
            assert(s.acc[j % 8] == Boolean::Constant(false));
        } else {
            assert(!s.acc[j % 8].is_constant());
        }
        assert forall|t: int| 0 <= t < 8 implies if t < n {
            !(#[trigger] next.acc[t]).is_constant()
        } else {
            next.acc[t] == Boolean::Constant(false)
        } by {
            if t != j % 8 {
                assert(next.acc[t] == s.acc[t]);
                if t < n {
                    assert(!s.acc[t].is_constant());
                }
            }
        }
    }
}

/// The size of the circuit: synthesis adds one public input, 504 auxiliary
/// variables (256 preimage bits and 248 XOR results) and 505 constraints (one
/// for each of those, and one for the packing), with and without a preimage.
pub proof fn lemma_circuit_size(l: Ledger, witness: Option<Seq<u8>>)
    ensures
        synthesized(l, witness).inputs.len() == l.inputs.len() + 1,
        synthesized(l, witness).aux.len() == l.aux.len() + 504,
        synthesized(l, witness).constraints.len() == l.constraints.len() + 505,
        synthesized(l, witness).namespace == l.namespace,
{
    lemma_allocate_bits_counts(l, witness, 256);
    let scoped = allocate_bits(l, witness, 256).push_namespace(Label::XorSum);
    lemma_fold_size(scoped, allocated_bits(l, witness, 256), 256);
    let folded = circuit_fold(l, witness);
    assert(all_allocated(allocated_bits(l, witness, 256), scoped));
    lemma_fold_admits(scoped, allocated_bits(l, witness, 256), 256);
    let packing = folded.ledger.pop_namespace().push_namespace(Label::PackHash);
    lemma_pack_chunks_counts(packing, folded.acc, chunk_count(8));
    assert(synthesized(l, witness).namespace =~= l.namespace);
}


/// The full name of the variable of preimage bit `j`, allocated with the
/// namespace `ns` open.
pub open spec fn bit_name(ns: Seq<Label>, j: int) -> Seq<Label> {
    ns.push(Label::PreimageBit(j as usize)).push(Label::Boolean)
}

/// The full name of the constraint of preimage bit `j`.
pub open spec fn bit_constraint_name(ns: Seq<Label>, j: int) -> Seq<Label> {
    ns.push(Label::PreimageBit(j as usize)).push(Label::BooleanConstraint)
}

/// The full name of the result of step `j` of the XOR reduction, taken with
/// the namespace `ns` open.
pub open spec fn xor_name(ns: Seq<Label>, j: int) -> Seq<Label> {
    ns.push(Label::Xor((j / 8) as usize, (j % 8) as usize)).push(Label::XorResult)
}

/// The full name of the constraint of step `j` of the XOR reduction.
pub open spec fn xor_constraint_name(ns: Seq<Label>, j: int) -> Seq<Label> {
    ns.push(Label::Xor((j / 8) as usize, (j % 8) as usize)).push(Label::XorConstraint)
}

/// Whether a sequence of names begins with another.
pub open spec fn keeps_names(later: Seq<Seq<Label>>, earlier: Seq<Seq<Label>>) -> bool {
    &&& earlier.len() <= later.len()
    &&& forall|i: int| 0 <= i < earlier.len() ==> later[i] == earlier[i]
}

/// The names that allocating the preimage bits gives: bit `j` and its
/// constraint are filed in the namespace of that bit.
pub proof fn lemma_allocate_bits_names(l: Ledger, w: Option<Seq<u8>>, n: nat)
    ensures
        allocate_bits(l, w, n).aux_paths.len() == l.aux_paths.len() + n,
        allocate_bits(l, w, n).constraint_paths.len() == l.constraint_paths.len() + n,
        keeps_names(allocate_bits(l, w, n).aux_paths, l.aux_paths),
        keeps_names(allocate_bits(l, w, n).constraint_paths, l.constraint_paths),
        forall|j: int|
            0 <= j < n ==> #[trigger] allocate_bits(l, w, n).aux_paths[l.aux_paths.len() + j]
                == bit_name(l.namespace, j),
        forall|j: int|
            0 <= j < n ==> #[trigger] allocate_bits(l, w, n).constraint_paths[l.constraint_paths.len()
                + j] == bit_constraint_name(l.namespace, j),
    decreases n,
{
    if n > 0 {
        lemma_allocate_bits_names(l, w, (n - 1) as nat);
        lemma_allocate_bits_counts(l, w, (n - 1) as nat);
    }
}

/// The names that the XOR reduction over witnessed bits gives: the result of
/// each step from the ninth on, and its constraint, are filed in the
/// namespace of that step.
pub proof fn lemma_fold_names(l: Ledger, data: Seq<Boolean>, n: nat)
    requires
        n <= data.len(),
        forall|j: int| 0 <= j < data.len() ==> !(#[trigger] data[j]).is_constant(),
    ensures
        fold_steps(l, data, n).ledger.namespace == l.namespace,
        fold_steps(l, data, n).ledger.input_paths == l.input_paths,
        fold_steps(l, data, n).ledger.aux_paths.len() == l.aux_paths.len() + if n <= 8 {
            0
        } else {
            n - 8
        },
        fold_steps(l, data, n).ledger.constraint_paths.len() == l.constraint_paths.len() + if n
            <= 8 {
            0
        } else {
            n - 8
        },
        keeps_names(fold_steps(l, data, n).ledger.aux_paths, l.aux_paths),
        keeps_names(fold_steps(l, data, n).ledger.constraint_paths, l.constraint_paths),
        forall|j: int|
            8 <= j < n ==> #[trigger] fold_steps(l, data, n).ledger.aux_paths[l.aux_paths.len() + j
                - 8] == xor_name(l.namespace, j),
        forall|j: int|
            8 <= j < n ==> #[trigger] fold_steps(
                l,
                data,
                n,
            ).ledger.constraint_paths[l.constraint_paths.len() + j - 8] == xor_constraint_name(
                l.namespace,
                j,
            ),
    decreases n,
{
    if n > 0 {
        let j = (n - 1) as int;
        lemma_fold_names(l, data, (n - 1) as nat);
        lemma_fold_size(l, data, (n - 1) as nat);
        let s = fold_steps(l, data, (n - 1) as nat);
        assert(!data[j].is_constant());
        assert(fold_steps(l, data, n).ledger.namespace =~= l.namespace);
        if n <= 8 {
            assert(s.acc[j % 8] == Boolean::Constant(false));
        } else {
            assert(!s.acc[j % 8].is_constant());
        }
    }
}

/// The names that packing gives: the public input of chunk `i` and its
/// constraint are filed under the position of the chunk.
pub proof fn lemma_pack_names(l: Ledger, bits: Seq<Boolean>, n: nat)
    ensures
        pack_chunks(l, bits, n).input_paths.len() == l.input_paths.len() + n,
        pack_chunks(l, bits, n).constraint_paths.len() == l.constraint_paths.len() + n,
        keeps_names(pack_chunks(l, bits, n).input_paths, l.input_paths),
        keeps_names(pack_chunks(l, bits, n).constraint_paths, l.constraint_paths),
        forall|i: int|
            0 <= i < n ==> #[trigger] pack_chunks(l, bits, n).input_paths[l.input_paths.len() + i]
                == l.namespace.push(Label::Input(i as usize)),
        forall|i: int|
            0 <= i < n ==> #[trigger] pack_chunks(l, bits, n).constraint_paths[
                l.constraint_paths.len() + i] == l.namespace.push(
                Label::PackingConstraint(i as usize),
            ),
    decreases n,
{
    if n > 0 {
        lemma_pack_names(l, bits, (n - 1) as nat);
        lemma_pack_chunks_counts(l, bits, (n - 1) as nat);
    }
}

/// Whether no two entries of a ledger share a full name: no two variables, no
/// two constraints, and no variable and constraint.
pub open spec fn names_distinct(l: Ledger) -> bool {
    &&& forall|i: int, j: int|
        0 <= i < j < l.input_paths.len() ==> #[trigger] l.input_paths[i]
            != #[trigger] l.input_paths[j]
    &&& forall|i: int, j: int|
        0 <= i < j < l.aux_paths.len() ==> #[trigger] l.aux_paths[i] != #[trigger] l.aux_paths[j]
    &&& forall|i: int, j: int|
        0 <= i < j < l.constraint_paths.len() ==> #[trigger] l.constraint_paths[i]
            != #[trigger] l.constraint_paths[j]
    &&& forall|i: int, j: int|
        0 <= i < l.input_paths.len() && 0 <= j < l.aux_paths.len() ==> #[trigger] l.input_paths[i]
            != #[trigger] l.aux_paths[j]
    &&& forall|i: int, j: int|
        0 <= i < l.input_paths.len() && 0 <= j < l.constraint_paths.len()
            ==> #[trigger] l.input_paths[i] != #[trigger] l.constraint_paths[j]
    &&& forall|i: int, j: int|
        0 <= i < l.aux_paths.len() && 0 <= j < l.constraint_paths.len()
            ==> #[trigger] l.aux_paths[i] != #[trigger] l.constraint_paths[j]
}

/// The names of the circuit, synthesised into an empty ledger, with or
/// without a preimage: the preimage bits and their constraints come first,
/// then the results of the XOR steps from the ninth on and their constraints,
/// then the packing constraint; the one public input is the packed digest.
pub proof fn lemma_circuit_names(w: Option<Seq<u8>>)
    ensures
        synthesized(Ledger::empty(), w).input_paths.len() == 2,
        synthesized(Ledger::empty(), w).aux_paths.len() == 504,
        synthesized(Ledger::empty(), w).constraint_paths.len() == 505,
        synthesized(Ledger::empty(), w).input_paths[0] == Seq::<Label>::empty(),
        synthesized(Ledger::empty(), w).input_paths[1] == seq![Label::PackHash, Label::Input(0)],
        forall|j: int|
            0 <= j < 256 ==> #[trigger] synthesized(Ledger::empty(), w).aux_paths[j] == bit_name(
                Seq::empty(),
                j,
            ),
        forall|j: int|
            0 <= j < 256 ==> #[trigger] synthesized(Ledger::empty(), w).constraint_paths[j]
                == bit_constraint_name(Seq::empty(), j),
        forall|j: int|
            8 <= j < 256 ==> #[trigger] synthesized(Ledger::empty(), w).aux_paths[248 + j]
                == xor_name(seq![Label::XorSum], j),
        forall|j: int|
            8 <= j < 256 ==> #[trigger] synthesized(Ledger::empty(), w).constraint_paths[248 + j]
                == xor_constraint_name(seq![Label::XorSum], j),
        synthesized(Ledger::empty(), w).constraint_paths[504] == seq![
            Label::PackHash,
            Label::PackingConstraint(0),
        ],
{
    let l = Ledger::empty();
    let bits = allocate_bits(l, w, 256);
    let data = allocated_bits(l, w, 256);
    let scoped = bits.push_namespace(Label::XorSum);
    let folded = circuit_fold(l, w);
    let packing = folded.ledger.pop_namespace().push_namespace(Label::PackHash);
    let packed = pack_chunks(packing, folded.acc, chunk_count(8));
    let made = synthesized(l, w);
    lemma_allocate_bits_names(l, w, 256);
    lemma_allocate_bits_counts(l, w, 256);
    lemma_fold_names(scoped, data, 256);
    lemma_pack_names(packing, folded.acc, chunk_count(8));
    lemma_pack_chunks_counts(packing, folded.acc, chunk_count(8));
    assert(chunk_count(8) == 1);
    assert(scoped.namespace =~= seq![Label::XorSum]);
    assert(packing.namespace =~= seq![Label::PackHash]);
    assert(made.aux_paths == folded.ledger.aux_paths);
    assert(made.input_paths == packed.input_paths);
    assert(made.constraint_paths == packed.constraint_paths);
    assert(made.input_paths[1] =~= seq![Label::PackHash, Label::Input(0)]);
    assert(made.constraint_paths[504] =~= seq![Label::PackHash, Label::PackingConstraint(0)]);
    assert forall|j: int| 0 <= j < 256 implies #[trigger] made.aux_paths[j] == bit_name(
        Seq::empty(),
        j,
    ) by {
        assert(bits.aux_paths[0 + j] == bit_name(l.namespace, j));
    }
    assert forall|j: int| 0 <= j < 256 implies #[trigger] made.constraint_paths[j]
        == bit_constraint_name(Seq::empty(), j) by {
        assert(bits.constraint_paths[0 + j] == bit_constraint_name(l.namespace, j));
        assert(folded.ledger.constraint_paths[j] == bits.constraint_paths[j]);
    }
    assert forall|j: int| 8 <= j < 256 implies #[trigger] made.aux_paths[248 + j] == xor_name(
        seq![Label::XorSum],
        j,
    ) by {
        assert(folded.ledger.aux_paths[256 + j - 8] == xor_name(scoped.namespace, j));
    }
    assert forall|j: int| 8 <= j < 256 implies #[trigger] made.constraint_paths[248 + j]
        == xor_constraint_name(seq![Label::XorSum], j) by {
        assert(folded.ledger.constraint_paths[256 + j - 8] == xor_constraint_name(
            scoped.namespace,
            j,
        ));
        assert(packed.constraint_paths[248 + j] == folded.ledger.constraint_paths[248 + j]);
    }
}


/// The full names of the circuit tell its entries apart: synthesised into an
/// empty ledger, with or without a preimage, no two variables, no two
/// constraints, and no variable and constraint share a full name.
pub proof fn lemma_circuit_names_distinct(w: Option<Seq<u8>>)
    ensures
        names_distinct(synthesized(Ledger::empty(), w)),
{
    let made = synthesized(Ledger::empty(), w);
    let none = Seq::<Label>::empty();
    let sum = seq![Label::XorSum];
    lemma_circuit_names(w);
    // What each name looks like: its length and its labels.
    assert(made.input_paths[0].len() == 0);
    assert(made.input_paths[1].len() == 2 && made.input_paths[1][1] == Label::Input(0));
    assert(made.constraint_paths[504].len() == 2 && made.constraint_paths[504][1]
        == Label::PackingConstraint(0));
    assert forall|j: int| 0 <= j < 256 implies (#[trigger] made.aux_paths[j]).len() == 2
        && made.aux_paths[j][0] == Label::PreimageBit(j as usize) && made.aux_paths[j][1]
        == Label::Boolean by {
        assert(made.aux_paths[j] == bit_name(none, j));
    }
    assert forall|j: int| 0 <= j < 256 implies (#[trigger] made.constraint_paths[j]).len() == 2
        && made.constraint_paths[j][0] == Label::PreimageBit(j as usize)
        && made.constraint_paths[j][1] == Label::BooleanConstraint by {
        assert(made.constraint_paths[j] == bit_constraint_name(none, j));
    }
    assert forall|k: int| 256 <= k < 504 implies (#[trigger] made.aux_paths[k]).len() == 3
        && made.aux_paths[k][1] == Label::Xor(((k - 248) / 8) as usize, ((k - 248) % 8) as usize)
        && made.aux_paths[k][2] == Label::XorResult by {
        assert(made.aux_paths[248 + (k - 248)] == xor_name(sum, k - 248));
    }
    assert forall|k: int| 256 <= k < 504 implies (#[trigger] made.constraint_paths[k]).len() == 3
        && made.constraint_paths[k][1] == Label::Xor(
        ((k - 248) / 8) as usize,
        ((k - 248) % 8) as usize,
    ) && made.constraint_paths[k][2] == Label::XorConstraint by {
        assert(made.constraint_paths[248 + (k - 248)] == xor_constraint_name(sum, k - 248));
    }
    // Two names differ where their lengths or one of their labels differ.
    assert forall|i: int, j: int| 0 <= i < j < made.aux_paths.len() implies #[trigger] made.aux_paths[i]
        != #[trigger] made.aux_paths[j] by {
        lemma_names_differ(made.aux_paths[i], made.aux_paths[j], 0);
        lemma_names_differ(made.aux_paths[i], made.aux_paths[j], 1);
    }
    assert forall|i: int, j: int|
        0 <= i < j < made.constraint_paths.len() implies #[trigger] made.constraint_paths[i]
        != #[trigger] made.constraint_paths[j] by {
        lemma_names_differ(made.constraint_paths[i], made.constraint_paths[j], 0);
        lemma_names_differ(made.constraint_paths[i], made.constraint_paths[j], 1);
    }
    assert forall|i: int, j: int|
        0 <= i < made.input_paths.len() && 0 <= j < made.aux_paths.len()
        implies #[trigger] made.input_paths[i] != #[trigger] made.aux_paths[j] by {
        lemma_names_differ(made.input_paths[i], made.aux_paths[j], 1);
    }
    assert forall|i: int, j: int|
        0 <= i < made.input_paths.len() && 0 <= j < made.constraint_paths.len()
        implies #[trigger] made.input_paths[i] != #[trigger] made.constraint_paths[j] by {
        lemma_names_differ(made.input_paths[i], made.constraint_paths[j], 1);
    }
    assert forall|i: int, j: int|
        0 <= i < made.aux_paths.len() && 0 <= j < made.constraint_paths.len()
        implies #[trigger] made.aux_paths[i] != #[trigger] made.constraint_paths[j] by {
        lemma_names_differ(made.aux_paths[i], made.constraint_paths[j], 1);
        lemma_names_differ(made.aux_paths[i], made.constraint_paths[j], 2);
    }
}

/// Two names are different names if one is longer than the other or they
/// differ in one label.
proof fn lemma_names_differ(a: Seq<Label>, b: Seq<Label>, k: int)
    ensures
        a.len() != b.len() ==> a != b,
        0 <= k < a.len() && a[k] != b[k] ==> a != b,
{
}

} // verus!
