//! The batch synthesizer: drives many circuits' synthesis in
//! parallel, one fresh accumulator per circuit, then extracts and
//! flattens each accumulator's assignment columns into shared,
//! read-only representation vectors.

use vstd::prelude::*;

use std::sync::Arc;

use rayon::iter::IntoParallelIterator;
use rayon::iter::ParallelIterator;

use crate::accum::{
    accum_wf, alloc_input_spec, empty_accum, enforce_spec, frs_view, AccumView, LcView,
    LinearCombination, ProvingAssignment, Variable,
};
use crate::errors::{DizkError, SynthesisError};
use crate::field::{le_bytes, Fr};

verus! {

/// A circuit: anything that can drive its own synthesis against a
/// constraint accumulator.  `spec_synth` is the implementation's own
/// description of that synthesis as a state transition; `synthesize`
/// must realize exactly it, may only extend the input column, and must
/// keep the accumulator well formed and unsealed.
pub trait Circuit: Sized {
    /// The synthesis as a transition on accumulator states; `None`
    /// means the circuit's own evaluation fails from that state.
    spec fn spec_synth(&self, s: AccumView) -> Option<AccumView>;

    /// Runs the circuit's synthesis against `cs`.
    fn synthesize(&self, cs: &mut ProvingAssignment) -> (r: Result<(), SynthesisError>)
        requires
            old(cs).inv(),
            !old(cs)@.extracted,
        ensures
            final(cs).inv(),
            r is Ok <==> self.spec_synth(old(cs)@) is Some,
            r is Ok ==> final(cs)@ == self.spec_synth(old(cs)@)->Some_0,
            r is Ok ==> !final(cs)@.extracted,
            r is Ok ==> old(cs)@.inputs.len() <= final(cs)@.inputs.len(),
            r is Ok ==> final(cs)@.inputs.take(old(cs)@.inputs.len() as int) == old(cs)@.inputs,
    ;
}

/// The linear combination `1 * input[i]`.
pub open spec fn single_input_lc(i: usize) -> LcView {
    LcView { input_terms: seq![(i, le_bytes(1, 32))], aux_terms: Seq::empty() }
}

/// The empty linear combination.
pub open spec fn empty_lc() -> LcView {
    LcView { input_terms: Seq::empty(), aux_terms: Seq::empty() }
}

/// Appends, for each of the first `k` input wires, the trivial
/// constraint binding that wire to itself, so that every declared
/// input participates in at least one constraint.
pub open spec fn bind_inputs_upto(s: AccumView, k: nat) -> AccumView
    decreases k,
{
    if k == 0 {
        s
    } else {
        enforce_spec(
            bind_inputs_upto(s, (k - 1) as nat),
            single_input_lc((k - 1) as usize),
            empty_lc(),
            empty_lc(),
        )
    }
}

/// Binding constraints touch only the constraint columns, never the
/// assignment columns or the seal.
pub proof fn lemma_bind_upto_cols(s: AccumView, k: nat)
    ensures
        bind_inputs_upto(s, k).inputs == s.inputs,
        bind_inputs_upto(s, k).aux == s.aux,
        bind_inputs_upto(s, k).extracted == s.extracted,
    decreases k,
{
    if k > 0 {
        lemma_bind_upto_cols(s, (k - 1) as nat);
    }
}

/// The complete synthesis of one circuit: a fresh accumulator, the
/// implicit constant-one input, the circuit's own synthesis, then one
/// binding constraint per declared input.
pub open spec fn run_circuit_spec<C: Circuit>(c: C) -> Option<AccumView> {
    let s1 = alloc_input_spec(empty_accum(), le_bytes(1, 32));
    match c.spec_synth(s1) {
        Option::None => Option::None,
        Option::Some(s2) => Option::Some(bind_inputs_upto(s2, s2.inputs.len())),
    }
}

/// What a per-circuit synthesis result must look like: success exactly
/// when the circuit's own synthesis succeeds, and on success an
/// accumulator in the state `run_circuit_spec` describes, well formed,
/// unsealed, with the constant-one wire first.
pub open spec fn one_result_matches<C: Circuit>(
    c: C,
    res: Result<ProvingAssignment, SynthesisError>,
) -> bool {
    &&& res is Ok <==> run_circuit_spec(c) is Some
    &&& res is Ok ==> {
        let p = res->Ok_0;
        &&& p@ == run_circuit_spec(c)->Some_0
        &&& p.inv()
        &&& !p@.extracted
        &&& p@.inputs.len() >= 1
        &&& p@.inputs[0] == le_bytes(1, 32)
    }
}

/// Synthesizes one circuit into a fully enforced accumulator.
///
/// On success the accumulator's input column starts with the
/// constant-one wire, and (by well-formedness) its three evaluation
/// vectors have one entry per enforced constraint.
pub fn synthesize_one<C: Circuit>(circuit: &C) -> (r: Result<ProvingAssignment, SynthesisError>)
    ensures
        one_result_matches(*circuit, r),
{
    let mut prover = ProvingAssignment::new();
    let one = Fr::one();
    let _v = prover.alloc_input(one);
    proof {
        assert(prover@ =~= alloc_input_spec(empty_accum(), le_bytes(1, 32)));
    }
    let ghost s1 = prover@;
    match circuit.synthesize(&mut prover) {
        Err(e) => {
            return Err(e);
        },
        Ok(_) => {},
    }
    let ghost s2 = prover@;
    proof {
        assert(s2.inputs.take(1) == s1.inputs);
        assert(s2.inputs[0] == s1.inputs[0]);
    }
    let n = prover.num_inputs();
    let mut i: usize = 0;
    while i < n
        invariant
            prover.inv(),
            !prover@.extracted,
            n == s2.inputs.len(),
            i <= n,
            prover@ == bind_inputs_upto(s2, i as nat),
            prover@.inputs == s2.inputs,
            prover@.aux == s2.aux,
        decreases n - i,
    {
        let mut a_lc = LinearCombination::new();
        let coeff = Fr::one();
        a_lc.add_term(Variable::Input(i), coeff);
        let b_lc = LinearCombination::new();
        let c_lc = LinearCombination::new();
        proof {
            assert(a_lc@ =~= single_input_lc(i));
            assert(b_lc@ =~= empty_lc());
            assert(c_lc@ =~= empty_lc());
        }
        let res = prover.enforce(&a_lc, &b_lc, &c_lc);
        match res {
            Err(e) => {
                return Err(e);
            },
            Ok(_) => {},
        }
        proof {
            lemma_bind_upto_cols(s2, (i + 1) as nat);
        }
        i += 1;
    }
    proof {
        lemma_bind_upto_cols(s2, s2.inputs.len());
        assert(prover@.inputs[0] == le_bytes(1, 32));
    }
    Ok(prover)
}

/// Relies on rayon's `into_par_iter` / `map` / `collect` on a `Vec`:
/// the collected vector holds, in the input order, exactly the results
/// of applying the mapped function — here the verified
/// `synthesize_one` — to the elements; parallel execution shares
/// nothing between elements.
#[verifier::external_body]
fn par_synthesize<C: Circuit + Send>(circuits: Vec<C>) -> (r: Vec<
    Result<ProvingAssignment, SynthesisError>,
>)
    ensures
        r@.len() == circuits@.len(),
        forall|i: int|
            0 <= i < circuits@.len() ==> one_result_matches(circuits@[i], #[trigger] r@[i]),
{
    circuits.into_par_iter().map(|c| synthesize_one(&c)).collect()
}

/// Maps a vector of byte vectors to its mathematical content.
pub open spec fn bytes_vecs_view(s: Seq<Vec<u8>>) -> Seq<Seq<u8>> {
    s.map_values(|x: Vec<u8>| x@)
}

/// Maps a vector of shared representation vectors to its mathematical
/// content.
pub open spec fn arc_reprs_view(s: Seq<Arc<Vec<Vec<u8>>>>) -> Seq<Seq<Seq<u8>>> {
    s.map_values(|a: Arc<Vec<Vec<u8>>>| bytes_vecs_view(a@))
}

/// The outcome of a successful batch synthesis: one retained
/// accumulator per circuit (with its assignment columns moved out) and
/// the two flattened, shared assignment-representation sequences, all
/// three in the input circuit order.
pub struct SynthesizedBatch {
    pub provers: Vec<ProvingAssignment>,
    pub input_reprs: Vec<Arc<Vec<Vec<u8>>>>,
    pub aux_reprs: Vec<Arc<Vec<Vec<u8>>>>,
}

/// The accumulator state after both assignment columns were moved out
/// of the state `s`: sealed, with the evaluation vectors and density
/// trackers retained.
pub open spec fn drained_accum(s: AccumView) -> AccumView {
    AccumView { inputs: Seq::empty(), aux: Seq::empty(), extracted: true, ..s }
}

impl SynthesizedBatch {
    /// The batch corresponds, position by position, to the given
    /// circuits.
    pub open spec fn matches<C: Circuit>(&self, circuits: Seq<C>) -> bool {
        &&& self.provers@.len() == circuits.len()
        &&& self.input_reprs@.len() == circuits.len()
        &&& self.aux_reprs@.len() == circuits.len()
        &&& forall|i: int|
            0 <= i < circuits.len() ==> {
                let s = run_circuit_spec(#[trigger] circuits[i])->Some_0;
                &&& accum_wf(s)
                &&& arc_reprs_view(self.input_reprs@)[i] == s.inputs
                &&& arc_reprs_view(self.aux_reprs@)[i] == s.aux
                &&& self.provers@[i]@ == drained_accum(s)
                &&& self.provers@[i].inv()
            }
    }
}

/// Converts one assignment column into plain representation bytes.
fn column_to_reprs(column: Vec<Fr>) -> (r: Vec<Vec<u8>>)
    ensures
        bytes_vecs_view(r@) == frs_view(column@),
{
    let mut r: Vec<Vec<u8>> = Vec::new();
    let mut i: usize = 0;
    while i < column.len()
        invariant
            i <= column@.len(),
            r@.len() == i,
            forall|j: int| 0 <= j < i ==> (#[trigger] r@[j])@ == column@[j]@,
        decreases column@.len() - i,
    {
        let b = column[i].to_bytes();
        r.push(b);
        i += 1;
    }
    proof {
        assert(bytes_vecs_view(r@) =~= frs_view(column@));
    }
    r
}

/// Synthesizes a whole batch of circuits, in parallel, preserving the
/// input order in every output sequence.
///
/// All-or-nothing: if any circuit fails, the whole batch fails with a
/// synthesis error naming the first failing circuit index, and no
/// partial output is produced.
pub fn synthesize_circuits_batch<C: Circuit + Send>(circuits: Vec<C>) -> (r: Result<
    SynthesizedBatch,
    DizkError,
>)
    ensures
        r is Ok <==> (forall|i: int|
            0 <= i < circuits@.len() ==> run_circuit_spec(#[trigger] circuits@[i]) is Some),
        r is Ok ==> r->Ok_0.matches(circuits@),
        r is Err ==> (match r->Err_0 {
            DizkError::Synthesis { circuit_index, fault } => {
                &&& 0 <= circuit_index < circuits@.len()
                &&& run_circuit_spec(circuits@[circuit_index as int]) is None
                &&& forall|j: int|
                    0 <= j < circuit_index ==> run_circuit_spec(#[trigger] circuits@[j]) is Some
            },
            _ => false,
        }),
{
    let ghost circuits_view = circuits@;
    let mut results = par_synthesize(circuits);
    let ghost orig = results@;
    let total = results.len();

    let mut provers: Vec<ProvingAssignment> = Vec::new();
    let mut idx: usize = 0;
    while results.len() > 0
        invariant
            circuits@ == circuits_view,
            orig.len() == total,
            orig.len() == circuits_view.len(),
            forall|i: int|
                0 <= i < circuits_view.len() ==> one_result_matches(
                    circuits_view[i],
                    #[trigger] orig[i],
                ),
            idx + results@.len() == orig.len(),
            results@ == orig.skip(idx as int),
            provers@.len() == idx,
            forall|j: int|
                0 <= j < idx ==> run_circuit_spec(#[trigger] circuits_view[j]) is Some,
            forall|j: int|
                0 <= j < idx ==> (#[trigger] provers@[j])@ == run_circuit_spec(
                    circuits_view[j],
                )->Some_0 && provers@[j].inv() && !provers@[j]@.extracted,
        decreases results@.len(),
    {
        let r0 = results.remove(0);
        proof {
            assert(r0 == orig[idx as int]);
            assert(results@ =~= orig.skip(idx + 1));
        }
        match r0 {
            Ok(p) => {
                provers.push(p);
            },
            Err(fault) => {
                return Err(DizkError::Synthesis { circuit_index: idx, fault });
            },
        }
        idx += 1;
    }

    let ghost pview = provers@;
    let mut drained: Vec<ProvingAssignment> = Vec::new();
    let mut input_reprs: Vec<Arc<Vec<Vec<u8>>>> = Vec::new();
    let mut aux_reprs: Vec<Arc<Vec<Vec<u8>>>> = Vec::new();
    while provers.len() > 0
        invariant
            circuits@ == circuits_view,
            pview.len() == circuits_view.len(),
            drained@.len() + provers@.len() == pview.len(),
            provers@ == pview.skip(drained@.len() as int),
            input_reprs@.len() == drained@.len(),
            aux_reprs@.len() == drained@.len(),
            forall|j: int|
                0 <= j < circuits_view.len() ==> run_circuit_spec(
                    #[trigger] circuits_view[j],
                ) is Some,
            forall|j: int|
                0 <= j < pview.len() ==> (#[trigger] pview[j])@ == run_circuit_spec(
                    circuits_view[j],
                )->Some_0 && pview[j].inv(),
            forall|j: int|
                0 <= j < drained@.len() ==> {
                    let s = run_circuit_spec(#[trigger] circuits_view[j])->Some_0;
                    &&& accum_wf(s)
                    &&& arc_reprs_view(input_reprs@)[j] == s.inputs
                    &&& arc_reprs_view(aux_reprs@)[j] == s.aux
                    &&& drained@[j]@ == drained_accum(s)
                    &&& drained@[j].inv()
                },
        decreases provers@.len(),
    {
        let ghost k = drained@.len() as int;
        let mut p = provers.remove(0);
        proof {
            assert(p == pview[k]);
            assert(provers@ =~= pview.skip(k + 1));
        }
        let inputs = p.take_input_assignment();
        let aux = p.take_aux_assignment();
        let input_bytes = column_to_reprs(inputs);
        let aux_bytes = column_to_reprs(aux);
        let ghost ir_old = input_reprs@;
        let ghost ar_old = aux_reprs@;
        input_reprs.push(Arc::new(input_bytes));
        aux_reprs.push(Arc::new(aux_bytes));
        drained.push(p);
        proof {
            let s = run_circuit_spec(circuits_view[k])->Some_0;
            assert(drained@[k]@ =~= drained_accum(s));
            assert(arc_reprs_view(input_reprs@) =~= arc_reprs_view(ir_old).push(
                bytes_vecs_view(input_bytes@),
            ));
            assert(arc_reprs_view(aux_reprs@) =~= arc_reprs_view(ar_old).push(
                bytes_vecs_view(aux_bytes@),
            ));
        }
    }

    Ok(SynthesizedBatch { provers: drained, input_reprs, aux_reprs })
}

/// A minimal circuit: it allocates one public input wire holding the
/// multiplicative identity and enforces no constraint of its own.
pub struct UnitInputCircuit {}

impl Circuit for UnitInputCircuit {
    open spec fn spec_synth(&self, s: AccumView) -> Option<AccumView> {
        Option::Some(alloc_input_spec(s, le_bytes(1, 32)))
    }

    fn synthesize(&self, cs: &mut ProvingAssignment) -> (r: Result<(), SynthesisError>) {
        let one = Fr::one();
        let _v = cs.alloc_input(one);
        proof {
            assert(cs@.inputs.take(old(cs)@.inputs.len() as int) =~= old(cs)@.inputs);
        }
        Ok(())
    }
}

/// A circuit whose own evaluation always fails.
pub struct FailingCircuit {}

impl Circuit for FailingCircuit {
    open spec fn spec_synth(&self, s: AccumView) -> Option<AccumView> {
        Option::None
    }

    fn synthesize(&self, cs: &mut ProvingAssignment) -> (r: Result<(), SynthesisError>) {
        Err(SynthesisError::Unsatisfiable)
    }
}

} // verus!
