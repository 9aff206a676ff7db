//! The circuit: 256 preimage bits, folded byte by byte into the 8 bits of
//! their XOR, which are then packed into public inputs.

use crate::boolean::{
    all_allocated, allocate_bit, lemma_xor_output_value, xor_admitted, xor_ledger, xor_output,
    AllocatedBit, Boolean,
};
use crate::digest::{
    bit_at, bit_of, byte_bits, lemma_bit_of_xor, lemma_bit_of_zero, lemma_xor_fold_permutation,
    lemma_xor_fold_push, xor_fold, INPUT_SIZE,
};
use crate::error::PipelineError;
use crate::ledger::{ConstraintSystem, Label, Ledger, Variable};
use crate::multipack::{
    chunk_count, chunk_of, lemma_pack_chunks_counts, lemma_packing_agrees, pack_bits, pack_chunk,
    pack_chunks, pack_into_inputs, packed_value,
};
use vstd::prelude::*;

verus! {

/// The state of the XOR reduction between two steps: the ledger, and the 8
/// bits folded so far.
pub struct FoldState {
    pub ledger: Ledger,
    pub acc: Seq<Boolean>,
}

/// The state before the first step: every folded bit is the constant `false`.
pub open spec fn fold_start(l: Ledger) -> FoldState {
    FoldState { ledger: l, acc: Seq::new(8, |i: int| Boolean::Constant(false)) }
}

/// The ledger in which step `j` works: a namespace of its own is open, that
/// of bit `j % 8` of byte `j / 8`.
pub open spec fn step_scope(s: FoldState, j: int) -> Ledger {
    s.ledger.push_namespace(Label::Xor((j / 8) as usize, (j % 8) as usize))
}

/// Whether the ledger lets step `j` be taken.
pub open spec fn step_admitted(s: FoldState, data: Seq<Boolean>, j: int) -> bool {
    xor_admitted(step_scope(s, j), s.acc[j % 8], data[j])
}

/// Step `j` of the reduction: bit `j` of the data, which is bit `j % 8` of byte
/// `j / 8`, is XORed into folded bit `j % 8`.
pub open spec fn fold_step(s: FoldState, data: Seq<Boolean>, j: int) -> FoldState {
    FoldState {
        ledger: xor_ledger(step_scope(s, j), s.acc[j % 8], data[j]).pop_namespace(),
        acc: s.acc.update(j % 8, xor_output(step_scope(s, j), s.acc[j % 8], data[j])),
    }
}

/// The state after the first `n` steps, taken in the order of the data.
pub open spec fn fold_steps(l: Ledger, data: Seq<Boolean>, n: nat) -> FoldState
    decreases n,
{
    if n == 0 {
        fold_start(l)
    } else {
        fold_step(fold_steps(l, data, (n - 1) as nat), data, n - 1)
    }
}

/// How many of the first `n` steps are taken: all of them, or those before the
/// first one that the ledger rejects.
pub open spec fn admitted_steps(l: Ledger, data: Seq<Boolean>, n: nat) -> nat
    decreases n,
{
    if n == 0 {
        0
    } else {
        let m = admitted_steps(l, data, (n - 1) as nat);
        if m == n - 1 && step_admitted(fold_steps(l, data, m), data, n - 1) {
            n
        } else {
            m
        }
    }
}

/// Once a step was rejected no later step is taken.
proof fn lemma_admitted_steps_stuck(l: Ledger, data: Seq<Boolean>, n: nat, m: nat)
    requires
        admitted_steps(l, data, n) < n,
        n <= m,
    ensures
        admitted_steps(l, data, m) == admitted_steps(l, data, n),
    decreases m,
{
    if n < m {
        lemma_admitted_steps_stuck(l, data, n, (m - 1) as nat);
    }
}

/// The XOR reduction of 32 bytes, given as 256 booleans in the order of the
/// bytes, the bits of each byte in one fixed order. The result holds, for each
/// bit position, the XOR of the bits of all bytes at that position.
///
/// The steps are taken byte by byte and, within a byte, position by position,
/// each in a namespace of its own. The reduction stops at the first step that the ledger rejects and leaves
/// the ledger as the steps before it made it. No step is rejected where the
/// ledger holds the variable of every boolean of the data.
pub fn xor_sum(cs: &mut ConstraintSystem, data: &[Boolean]) -> (r: Result<
    Vec<Boolean>,
    PipelineError,
>)
    requires
        old(cs).wf(),
        data@.len() == INPUT_SIZE * 8,
    ensures
        final(cs)@ == fold_steps(
            old(cs)@,
            data@,
            admitted_steps(old(cs)@, data@, 256),
        ).ledger,
        r is Ok <==> admitted_steps(old(cs)@, data@, 256) == 256,
        all_allocated(data@, old(cs)@) ==> r is Ok,
        r matches Ok(bits) ==> bits@.len() == 8 && bits@ == fold_steps(old(cs)@, data@, 256).acc,
        r matches Err(e) ==> e == PipelineError::AllocationFailure,
        final(cs).wf(),
{
    let ghost start = cs@;
    proof {
        if all_allocated(data@, start) {
            lemma_fold_admits(start, data@, 256);
        }
    }
    let mut byte: Vec<Boolean> = Vec::new();
    let mut k: usize = 0;
    while k < 8
        invariant
            k <= 8,
            byte@.len() == k,
            forall|i: int| 0 <= i < k ==> byte@[i] == Boolean::Constant(false),
        decreases 8 - k,
    {
        byte.push(Boolean::Constant(false));
        k += 1;
    }
    assert(byte@ =~= fold_start(start).acc);
    let mut chunk: usize = 0;
    while chunk < INPUT_SIZE
        invariant
            chunk <= INPUT_SIZE,
            start == old(cs)@,
            all_allocated(data@, start) ==> admitted_steps(start, data@, 256) == 256,
            data@.len() == INPUT_SIZE * 8,
            cs.wf(),
            byte@.len() == 8,
            cs@ == fold_steps(start, data@, (chunk * 8) as nat).ledger,
            byte@ == fold_steps(start, data@, (chunk * 8) as nat).acc,
            admitted_steps(start, data@, (chunk * 8) as nat) == chunk * 8,
        decreases INPUT_SIZE - chunk,
    {
        let mut i: usize = 0;
        while i < 8
            invariant
                i <= 8,
                chunk < INPUT_SIZE,
                start == old(cs)@,
                all_allocated(data@, start) ==> admitted_steps(start, data@, 256) == 256,
                data@.len() == INPUT_SIZE * 8,
                cs.wf(),
                byte@.len() == 8,
                cs@ == fold_steps(start, data@, (chunk * 8 + i) as nat).ledger,
                byte@ == fold_steps(start, data@, (chunk * 8 + i) as nat).acc,
                admitted_steps(start, data@, (chunk * 8 + i) as nat) == chunk * 8 + i,
            decreases 8 - i,
        {
            let j = chunk * 8 + i;
            let ghost before = fold_steps(start, data@, j as nat);
            cs.push_namespace(Label::Xor(chunk, i));
            let folded = Boolean::xor(cs, &byte[i], &data[j]);
            cs.pop_namespace();
            match folded {
                Ok(out) => {
                    byte[i] = out;
                },
                Err(e) => {
                    proof {
                        assert(cs@ =~~= before.ledger);
                        assert(admitted_steps(start, data@, (j + 1) as nat) == j);
                        lemma_admitted_steps_stuck(start, data@, (j + 1) as nat, 256);
                    }
                    return Err(e);
                },
            }
            i += 1;
        }
        chunk += 1;
    }
    Ok(byte)
}

/// Where every boolean of the data has its variable in the ledger, every step
/// of the reduction is taken; it allocates auxiliary variables and enforces
/// constraints only, leaves the open namespace as it was, and each folded bit
/// has its variable in the ledger that the steps have made.
pub proof fn lemma_fold_admits(l: Ledger, data: Seq<Boolean>, n: nat)
    requires
        all_allocated(data, l),
        n <= data.len(),
    ensures
        admitted_steps(l, data, n) == n,
        fold_steps(l, data, n).acc.len() == 8,
        all_allocated(fold_steps(l, data, n).acc, fold_steps(l, data, n).ledger),
        fold_steps(l, data, n).ledger.inputs == l.inputs,
        fold_steps(l, data, n).ledger.input_paths == l.input_paths,
        fold_steps(l, data, n).ledger.aux.len() >= l.aux.len(),
        fold_steps(l, data, n).ledger.constraints.len() >= l.constraints.len(),
        fold_steps(l, data, n).ledger.namespace == l.namespace,
    decreases n,
{
    if n > 0 {
        let j = (n - 1) as int;
        lemma_fold_admits(l, data, (n - 1) as nat);
        let s = fold_steps(l, data, (n - 1) as nat);
        let t = fold_steps(l, data, n);
        assert(s.acc[j % 8].allocated_in(s.ledger));
        assert(data[j].allocated_in(l));
        assert(t.ledger.namespace =~= l.namespace);
        assert forall|i: int| 0 <= i < 8 implies (#[trigger] t.acc[i]).allocated_in(t.ledger) by {
            if i != j % 8 {
                assert(s.acc[i].allocated_in(s.ledger));
            }
        }
    }
}

/// The statement that is proved: knowledge of 32 bytes whose XOR is the
/// digest that the public input holds. With a preimage the circuit carries the
/// witness; without one it carries the structure alone.
#[derive(Clone, Copy, Debug)]
pub struct MyCircuit {
    /// The preimage, where it is known.
    pub preimage: Option<[u8; INPUT_SIZE]>,
}

/// The value of preimage bit `j`: bit `j % 8` of byte `j / 8`, counted from
/// the least significant one; unknown without a preimage.
pub open spec fn preimage_bit(preimage: Option<Seq<u8>>, j: int) -> Option<bool> {
    match preimage {
        Some(bytes) => Some(bit_of(bytes[j / 8], j % 8)),
        None => None,
    }
}

/// The ledger after the first `n` preimage bits were allocated, each in a
/// namespace of its own.
pub open spec fn allocate_bits(l: Ledger, preimage: Option<Seq<u8>>, n: nat) -> Ledger
    decreases n,
{
    if n == 0 {
        l
    } else {
        allocate_bit(
            allocate_bits(l, preimage, (n - 1) as nat).push_namespace(
                Label::PreimageBit((n - 1) as usize),
            ),
            preimage_bit(preimage, n - 1),
        ).pop_namespace()
    }
}

/// The first `n` preimage bits as booleans: bit `j` reads the `j`-th auxiliary
/// variable allocated after those of `l`.
pub open spec fn allocated_bits(l: Ledger, preimage: Option<Seq<u8>>, n: nat) -> Seq<Boolean> {
    Seq::new(
        n,
        |j: int|
            Boolean::Is(
                AllocatedBit {
                    variable: Variable::Aux((l.aux.len() + j) as usize),
                    value: preimage_bit(preimage, j),
                },
            ),
    )
}

/// The state after the 256 preimage bits were allocated in `l` and folded, in
/// the namespace `XorSum`, into the 8 bits of their XOR.
pub open spec fn circuit_fold(l: Ledger, preimage: Option<Seq<u8>>) -> FoldState {
    fold_steps(
        allocate_bits(l, preimage, 256).push_namespace(Label::XorSum),
        allocated_bits(l, preimage, 256),
        256,
    )
}

/// The ledger after the circuit was synthesised into `l`: 256 preimage bits
/// are allocated, folded in the namespace `XorSum` into the 8 bits of their
/// XOR, and those are packed in the namespace `PackHash` into public inputs.
pub open spec fn synthesized(l: Ledger, preimage: Option<Seq<u8>>) -> Ledger {
    let folded = circuit_fold(l, preimage);
    pack_chunks(
        folded.ledger.pop_namespace().push_namespace(Label::PackHash),
        folded.acc,
        chunk_count(8),
    ).pop_namespace()
}

/// Allocating preimage bits adds one auxiliary variable for each and leaves
/// the public inputs and the open namespace as they were.
pub proof fn lemma_allocate_bits_counts(l: Ledger, preimage: Option<Seq<u8>>, n: nat)
    ensures
        allocate_bits(l, preimage, n).aux.len() == l.aux.len() + n,
        allocate_bits(l, preimage, n).inputs == l.inputs,
        allocate_bits(l, preimage, n).input_paths == l.input_paths,
        allocate_bits(l, preimage, n).constraints.len() == l.constraints.len() + n,
        allocate_bits(l, preimage, n).namespace == l.namespace,
    decreases n,
{
    if n > 0 {
        lemma_allocate_bits_counts(l, preimage, (n - 1) as nat);
        assert(allocate_bits(l, preimage, n).namespace =~= l.namespace);
    }
}

/// How many bytes have been folded into bit position `t` after `n` steps.
pub open spec fn bytes_folded(n: nat, t: int) -> nat {
    if t < n % 8 {
        n / 8 + 1
    } else {
        n / 8
    }
}

/// Where the data hold the bits of a sequence of bytes, each folded bit holds,
/// after any number of steps, the bit at its position of the XOR of the bytes
/// folded into it so far.
pub proof fn lemma_fold_values(l: Ledger, data: Seq<Boolean>, bytes: Seq<u8>, n: nat)
    requires
        n <= data.len(),
        data.len() == 8 * bytes.len(),
        forall|j: int|
            0 <= j < data.len() ==> (#[trigger] data[j]).value() == Some(
                bit_of(bytes[j / 8], j % 8),
            ),
    ensures
        fold_steps(l, data, n).acc.len() == 8,
        forall|t: int|
            0 <= t < 8 ==> (#[trigger] fold_steps(l, data, n).acc[t]).value() == Some(
                bit_of(xor_fold(bytes.take(bytes_folded(n, t) as int)), t),
            ),
    decreases n,
{
    if n == 0 {
        assert forall|t: int| 0 <= t < 8 implies (#[trigger] fold_steps(l, data, n).acc[t]).value()
            == Some(bit_of(xor_fold(bytes.take(bytes_folded(n, t) as int)), t)) by {
            assert(bytes.take(0) =~= Seq::<u8>::empty());
            lemma_bit_of_zero(t);
        }
    } else {
        let j = (n - 1) as int;
        let k = j / 8;
        let p = j % 8;
        lemma_fold_values(l, data, bytes, (n - 1) as nat);
        let s = fold_steps(l, data, (n - 1) as nat);
        let next = fold_steps(l, data, n);
        assert forall|t: int| 0 <= t < 8 implies (#[trigger] next.acc[t]).value() == Some(
            bit_of(xor_fold(bytes.take(bytes_folded(n, t) as int)), t),
        ) by {
            if t == p {
                lemma_xor_output_value(step_scope(s, j), s.acc[p], data[j]);
                assert(bytes_folded((n - 1) as nat, p) == k);
                assert(bytes_folded(n, p) == k + 1);
                assert(bytes.take(k + 1) =~= bytes.take(k).push(bytes[k]));
                lemma_xor_fold_push(bytes.take(k), bytes[k]);
                lemma_bit_of_xor(xor_fold(bytes.take(k)), bytes[k], p);
            } else {
                assert(next.acc[t] == s.acc[t]);
                assert(bytes_folded(n, t) == bytes_folded((n - 1) as nat, t));
            }
        }
    }
}

/// The circuit computes the digest: with a preimage of 32 bytes, the 8 bits
/// that the XOR reduction hands to the packer are the bits of the XOR of the
/// preimage bytes, and synthesis adds one public input, which holds the number
/// of that digest.
pub proof fn lemma_circuit_computes_digest(l: Ledger, preimage: Seq<u8>)
    requires
        preimage.len() == INPUT_SIZE,
    ensures
        circuit_fold(l, Some(preimage)).acc.len() == 8,
        forall|t: int|
            0 <= t < 8 ==> (#[trigger] circuit_fold(l, Some(preimage)).acc[t]).value() == Some(
                bit_of(xor_fold(preimage), t),
            ),
        packed_value(circuit_fold(l, Some(preimage)).acc) == Some(
            pack_bits(byte_bits(xor_fold(preimage))),
        ),
        synthesized(l, Some(preimage)).inputs == l.inputs.push(Some(xor_fold(preimage) as nat)),
{
    let witness = Some(preimage);
    let data = allocated_bits(l, witness, 256);
    let scoped = allocate_bits(l, witness, 256).push_namespace(Label::XorSum);
    let folded = circuit_fold(l, witness);
    lemma_fold_values(scoped, data, preimage, 256);
    assert(preimage.take(32) =~= preimage);
    assert forall|t: int| 0 <= t < 8 implies (#[trigger] folded.acc[t]).value() == Some(
        bit_of(xor_fold(preimage), t),
    ) by {
        assert(bytes_folded(256, t) == 32);
    }
    lemma_packing_agrees(xor_fold(preimage), folded.acc);
    lemma_allocate_bits_counts(l, witness, 256);
    assert(all_allocated(data, scoped));
    lemma_fold_admits(scoped, data, 256);
    assert(chunk_count(8) == 1);
    let packing = folded.ledger.pop_namespace().push_namespace(Label::PackHash);
    assert(chunk_of(folded.acc, 0) =~= folded.acc);
    assert(pack_chunks(packing, folded.acc, 1) == pack_chunk(
        pack_chunks(packing, folded.acc, 0),
        chunk_of(folded.acc, 0),
        0,
    ));
}

/// The public inputs do not depend on the order of the preimage bytes: two
/// preimages that hold the same bytes, each as often as the other, have the
/// same digest, which packs into the same field element, and synthesis adds
/// the same public input for both.
pub proof fn lemma_inputs_ignore_byte_order(l: Ledger, a: Seq<u8>, b: Seq<u8>)
    requires
        a.len() == INPUT_SIZE,
        a.to_multiset() == b.to_multiset(),
    ensures
        xor_fold(a) == xor_fold(b),
        pack_bits(byte_bits(xor_fold(a))) == pack_bits(byte_bits(xor_fold(b))),
        synthesized(l, Some(a)).inputs == synthesized(l, Some(b)).inputs,
{
    a.to_multiset_ensures();
    b.to_multiset_ensures();
    lemma_xor_fold_permutation(a, b);
    lemma_circuit_computes_digest(l, a);
    lemma_circuit_computes_digest(l, b);
}

impl MyCircuit {
    /// The preimage as a sequence of bytes, where it is known.
    pub open spec fn witness(self) -> Option<Seq<u8>> {
        match self.preimage {
            Some(bytes) => Some(bytes@),
            None => None,
        }
    }

    /// Synthesises the circuit into a constraint system. The same variables
    /// and constraints are made with and without a preimage; only the
    /// assignment differs. Synthesis cannot fail: every constraint speaks of
    /// variables that the circuit itself allocated.
    pub fn synthesize(self, cs: &mut ConstraintSystem) -> (r: Result<(), PipelineError>)
        requires
            old(cs).wf(),
        ensures
            r is Ok,
            final(cs)@ == synthesized(old(cs)@, self.witness()),
            self.preimage matches Some(bytes) ==> final(cs)@.inputs == old(cs)@.inputs.push(
                Some(xor_fold(bytes@) as nat),
            ),
            self.preimage is Some && old(cs)@.satisfied() ==> final(cs)@.satisfied(),
            final(cs).wf(),
    {
        let ghost start = cs@;
        proof {
            if let Some(bytes) = self.preimage {
                lemma_circuit_computes_digest(start, bytes@);
            }
        }
        let ghost witness = self.witness();
        let mut bits: Vec<Boolean> = Vec::new();
        let mut j: usize = 0;
        while j < INPUT_SIZE * 8
            invariant
                j <= INPUT_SIZE * 8,
                start == old(cs)@,
                witness == self.witness(),
                cs.wf(),
                cs@ == allocate_bits(start, witness, j as nat),
                bits@ == allocated_bits(start, witness, j as nat),
            decreases INPUT_SIZE * 8 - j,
        {
            let value = match &self.preimage {
                Some(bytes) => Some(bit_at(bytes[j / 8], j % 8)),
                None => None,
            };
            proof {
                lemma_allocate_bits_counts(start, witness, j as nat);
            }
            cs.push_namespace(Label::PreimageBit(j));
            let bit = AllocatedBit::allocate(cs, value);
            cs.pop_namespace();
            bits.push(Boolean::Is(bit));
            j += 1;
            assert(bits@ =~= allocated_bits(start, witness, j as nat));
        }
        proof {
            lemma_allocate_bits_counts(start, witness, 256);
        }
        cs.push_namespace(Label::XorSum);
        proof {
            lemma_fold_admits(cs@, bits@, 256);
        }
        let hash = xor_sum(cs, bits.as_slice());
        cs.pop_namespace();
        match hash {
            Ok(folded) => {
                cs.push_namespace(Label::PackHash);
                let packed = pack_into_inputs(cs, folded.as_slice());
                proof {
                    lemma_pack_chunks_counts(
                        circuit_fold(start, witness).ledger.pop_namespace().push_namespace(
                            Label::PackHash,
                        ),
                        folded@,
                        chunk_count(8),
                    );
                }
                cs.pop_namespace();
                proof {
                    if let Some(bytes) = self.preimage {
                        if start.satisfied() {
                            crate::structure::lemma_circuit_size(start, witness);
                            crate::satisfaction::lemma_synthesis_satisfied(start, bytes@);
                        }
                    }
                }
                packed
            },
            Err(e) => Err(e),
        }
    }
}

} // verus!
