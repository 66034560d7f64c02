//! The constraint accumulator: one per circuit, it collects the
//! circuit's variable assignments, the per-constraint evaluations of
//! the A, B and C linear combinations, and per-wire density
//! information.

use vstd::prelude::*;

use crate::errors::SynthesisError;
use crate::field::{fr_add_repr, fr_mul_repr, fr_wf, le_bytes, Fr};

verus! {

/// A variable of a circuit: a public input or a private auxiliary
/// value, identified by its index in its own column.
#[derive(Clone, Copy, Debug, PartialEq, Eq, Structural)]
pub enum Variable {
    Input(usize),
    Aux(usize),
}

/// Maps a sequence of field elements to their representations.
pub open spec fn frs_view(s: Seq<Fr>) -> Seq<Seq<u8>> {
    s.map_values(|f: Fr| f@)
}

/// All elements of a sequence are canonical representations.
pub open spec fn frs_wf(s: Seq<Fr>) -> bool {
    forall|i: int| 0 <= i < s.len() ==> fr_wf(#[trigger] s[i]@)
}

/// Canonicity of the elements and of their views coincide.
pub proof fn lemma_frs_wf_view(v: Seq<Fr>)
    ensures
        frs_wf(v) == frs_wf_seq(frs_view(v)),
{
    if frs_wf(v) {
        assert forall|i: int| 0 <= i < frs_view(v).len() implies fr_wf(
            #[trigger] frs_view(v)[i],
        ) by {
            assert(frs_view(v)[i] == v[i]@);
        }
    } else {
        let i = choose|i: int| 0 <= i < v.len() && !fr_wf(v[i]@);
        assert(frs_view(v)[i] == v[i]@);
    }
}

pub proof fn lemma_frs_view_push(s: Seq<Fr>, f: Fr)
    ensures
        frs_view(s.push(f)) =~= frs_view(s).push(f@),
{
}

/// Records, per wire of one column, whether some enforced constraint
/// gave that wire a structurally nonzero coefficient, together with a
/// running count of the marked wires.
pub struct DensityTracker {
    bv: Vec<bool>,
    total_density: usize,
}

/// The number of `true` entries.
pub open spec fn count_true(s: Seq<bool>) -> nat
    decreases s.len(),
{
    if s.len() == 0 {
        0
    } else {
        (if s[0] {
            1nat
        } else {
            0nat
        }) + count_true(s.drop_first())
    }
}

pub proof fn lemma_count_true_le(s: Seq<bool>)
    ensures
        count_true(s) <= s.len(),
    decreases s.len(),
{
    if s.len() > 0 {
        lemma_count_true_le(s.drop_first());
    }
}

pub proof fn lemma_count_true_update(s: Seq<bool>, i: int)
    requires
        0 <= i < s.len(),
        !s[i],
    ensures
        count_true(s.update(i, true)) == count_true(s) + 1,
    decreases s.len(),
{
    if i == 0 {
        assert(s.update(0, true).drop_first() =~= s.drop_first());
    } else {
        assert(s.update(i, true).drop_first() =~= s.drop_first().update(i - 1, true));
        lemma_count_true_update(s.drop_first(), i - 1);
    }
}

impl View for DensityTracker {
    type V = Seq<bool>;

    closed spec fn view(&self) -> Seq<bool> {
        self.bv@
    }
}

impl DensityTracker {
    /// The cached count agrees with the marks.
    pub closed spec fn inv(&self) -> bool {
        self.total_density == count_true(self.bv@)
    }

    pub fn new() -> (r: DensityTracker)
        ensures
            r@ =~= Seq::<bool>::empty(),
            r.inv(),
    {
        DensityTracker { bv: Vec::new(), total_density: 0 }
    }

    /// Appends one unmarked wire.
    pub fn add_element(&mut self)
        requires
            old(self).inv(),
        ensures
            final(self).inv(),
            final(self)@ == old(self)@.push(false),
    {
        self.bv.push(false);
        proof {
            assert(self.bv@.drop_last() =~= old(self).bv@);
            lemma_count_true_push(old(self).bv@, false);
        }
    }

    /// Marks one wire as touched by a nonzero coefficient.
    pub fn inc(&mut self, idx: usize)
        requires
            old(self).inv(),
            idx < old(self)@.len(),
        ensures
            final(self).inv(),
            final(self)@ == old(self)@.update(idx as int, true),
    {
        if !self.bv[idx] {
            self.bv.set(idx, true);
            let n = self.bv.len();
            proof {
                lemma_count_true_update(old(self).bv@, idx as int);
                lemma_count_true_le(old(self).bv@.update(idx as int, true));
                assert(self.total_density < n);
            }
            self.total_density += 1;
        } else {
            proof {
                assert(old(self).bv@.update(idx as int, true) =~= old(self).bv@);
            }
        }
    }

    /// The number of marked wires.
    pub fn get_total_density(&self) -> (r: usize)
        requires
            self.inv(),
        ensures
            r == count_true(self@),
    {
        self.total_density
    }
}

pub proof fn lemma_count_true_push(s: Seq<bool>, b: bool)
    ensures
        count_true(s.push(b)) == count_true(s) + (if b {
            1nat
        } else {
            0nat
        }),
    decreases s.len(),
{
    if s.len() == 0 {
        assert(s.push(b)[0] == b);
        assert(s.push(b).drop_first() =~= Seq::<bool>::empty());
        assert(count_true(s.push(b)) == (if b {
            1nat
        } else {
            0nat
        }) + count_true(s.push(b).drop_first()));
        assert(count_true(s) == 0);
    } else {
        assert(s.push(b)[0] == s[0]);
        assert(s.push(b).drop_first() =~= s.drop_first().push(b));
        lemma_count_true_push(s.drop_first(), b);
        assert(count_true(s.push(b)) == (if s[0] {
            1nat
        } else {
            0nat
        }) + count_true(s.push(b).drop_first()));
        assert(count_true(s) == (if s[0] {
            1nat
        } else {
            0nat
        }) + count_true(s.drop_first()));
    }
}

/// The mathematical content of a linear combination: terms over the
/// input column and terms over the auxiliary column, each a wire index
/// and a coefficient representation, in insertion order.
#[verifier::ext_equal]
pub struct LcView {
    pub input_terms: Seq<(usize, Seq<u8>)>,
    pub aux_terms: Seq<(usize, Seq<u8>)>,
}

pub open spec fn terms_view(s: Seq<(usize, Fr)>) -> Seq<(usize, Seq<u8>)> {
    s.map_values(|t: (usize, Fr)| (t.0, t.1@))
}

/// A linear combination over previously allocated variables.
pub struct LinearCombination {
    input_terms: Vec<(usize, Fr)>,
    aux_terms: Vec<(usize, Fr)>,
}

impl View for LinearCombination {
    type V = LcView;

    closed spec fn view(&self) -> LcView {
        LcView { input_terms: terms_view(self.input_terms@), aux_terms: terms_view(self.aux_terms@) }
    }
}

/// All coefficients of the terms are canonical representations.
pub open spec fn terms_wf(s: Seq<(usize, Seq<u8>)>) -> bool {
    forall|i: int| 0 <= i < s.len() ==> fr_wf((#[trigger] s[i]).1)
}

/// All term indices resolve within a column of `n` wires.
pub open spec fn terms_in_range(s: Seq<(usize, Seq<u8>)>, n: nat) -> bool {
    forall|i: int| 0 <= i < s.len() ==> (#[trigger] s[i]).0 < n
}

impl LinearCombination {
    pub open spec fn wf(&self) -> bool {
        terms_wf(self@.input_terms) && terms_wf(self@.aux_terms)
    }

    /// The empty combination.
    pub fn new() -> (r: LinearCombination)
        ensures
            r@.input_terms =~= Seq::<(usize, Seq<u8>)>::empty(),
            r@.aux_terms =~= Seq::<(usize, Seq<u8>)>::empty(),
            r.wf(),
    {
        LinearCombination { input_terms: Vec::new(), aux_terms: Vec::new() }
    }

    /// Appends one term; it joins the column its variable belongs to.
    pub fn add_term(&mut self, var: Variable, coeff: Fr)
        requires
            old(self).wf(),
            coeff.wf(),
        ensures
            final(self).wf(),
            final(self)@ == (match var {
                Variable::Input(i) => LcView {
                    input_terms: old(self)@.input_terms.push((i, coeff@)),
                    ..old(self)@
                },
                Variable::Aux(i) => LcView {
                    aux_terms: old(self)@.aux_terms.push((i, coeff@)),
                    ..old(self)@
                },
            }),
    {
        match var {
            Variable::Input(i) => {
                self.input_terms.push((i, coeff));
                proof {
                    assert(terms_view(self.input_terms@) =~= terms_view(
                        old(self).input_terms@,
                    ).push((i, coeff@)));
                    assert(self@ =~= (LcView {
                        input_terms: old(self)@.input_terms.push((i, coeff@)),
                        ..old(self)@
                    }));
                }
            },
            Variable::Aux(i) => {
                self.aux_terms.push((i, coeff));
                proof {
                    assert(terms_view(self.aux_terms@) =~= terms_view(old(self).aux_terms@).push(
                        (i, coeff@),
                    ));
                    assert(self@ =~= (LcView {
                        aux_terms: old(self)@.aux_terms.push((i, coeff@)),
                        ..old(self)@
                    }));
                }
            },
        }
    }
}

/// Folds one column's terms into an accumulator: a term with a zero
/// coefficient contributes nothing; any other term adds the product of
/// the assigned value and the coefficient.
pub open spec fn eval_terms(
    terms: Seq<(usize, Seq<u8>)>,
    asg: Seq<Seq<u8>>,
    acc: Seq<u8>,
) -> Seq<u8>
    decreases terms.len(),
{
    if terms.len() == 0 {
        acc
    } else {
        let t = terms[0];
        let acc2 = if t.1 == le_bytes(0, 32) {
            acc
        } else {
            fr_add_repr(acc, fr_mul_repr(asg[t.0 as int], t.1))
        };
        eval_terms(terms.drop_first(), asg, acc2)
    }
}

/// The evaluation of a linear combination against the current
/// assignment: input terms first, then auxiliary terms, starting from
/// zero.
pub open spec fn eval_lc(lc: LcView, inputs: Seq<Seq<u8>>, aux: Seq<Seq<u8>>) -> Seq<u8> {
    eval_terms(lc.aux_terms, aux, eval_terms(lc.input_terms, inputs, le_bytes(0, 32)))
}

/// Folds one column's terms into a density tracker: every term with a
/// nonzero coefficient marks its wire.
pub open spec fn mark_terms(d: Seq<bool>, terms: Seq<(usize, Seq<u8>)>) -> Seq<bool>
    decreases terms.len(),
{
    if terms.len() == 0 {
        d
    } else {
        let t = terms[0];
        let d2 = if t.1 == le_bytes(0, 32) {
            d
        } else {
            d.update(t.0 as int, true)
        };
        mark_terms(d2, terms.drop_first())
    }
}

pub proof fn lemma_mark_terms_len(d: Seq<bool>, terms: Seq<(usize, Seq<u8>)>)
    requires
        terms_in_range(terms, d.len() as nat),
    ensures
        mark_terms(d, terms).len() == d.len(),
    decreases terms.len(),
{
    if terms.len() > 0 {
        let t = terms[0];
        let d2 = if t.1 == le_bytes(0, 32) {
            d
        } else {
            d.update(t.0 as int, true)
        };
        assert(terms_in_range(terms.drop_first(), d2.len() as nat));
        lemma_mark_terms_len(d2, terms.drop_first());
    }
}

/// The state of a constraint accumulator, as plain mathematics.
#[verifier::ext_equal]
pub struct AccumView {
    pub inputs: Seq<Seq<u8>>,
    pub aux: Seq<Seq<u8>>,
    pub a: Seq<Seq<u8>>,
    pub b: Seq<Seq<u8>>,
    pub c: Seq<Seq<u8>>,
    pub a_aux_density: Seq<bool>,
    pub b_input_density: Seq<bool>,
    pub b_aux_density: Seq<bool>,
    pub extracted: bool,
}

/// Well-formedness of an accumulator state: the three evaluation
/// vectors stay in lockstep (their common length is the number of
/// enforced constraints), each density tracker covers exactly its
/// column while the accumulator is still in use, and every stored
/// element is a canonical representation.  A sealed accumulator keeps
/// its density trackers as they were when its columns were moved out.
pub open spec fn accum_wf(v: AccumView) -> bool {
    &&& v.a.len() == v.b.len()
    &&& v.b.len() == v.c.len()
    &&& !v.extracted ==> v.a_aux_density.len() == v.aux.len()
    &&& !v.extracted ==> v.b_aux_density.len() == v.aux.len()
    &&& !v.extracted ==> v.b_input_density.len() == v.inputs.len()
    &&& frs_wf_seq(v.inputs)
    &&& frs_wf_seq(v.aux)
    &&& frs_wf_seq(v.a)
    &&& frs_wf_seq(v.b)
    &&& frs_wf_seq(v.c)
}

/// All representations in the sequence are canonical.
pub open spec fn frs_wf_seq(s: Seq<Seq<u8>>) -> bool {
    forall|i: int| 0 <= i < s.len() ==> fr_wf(#[trigger] s[i])
}

/// The state transition of allocating a public input wire.
pub open spec fn alloc_input_spec(s: AccumView, value: Seq<u8>) -> AccumView {
    AccumView {
        inputs: s.inputs.push(value),
        b_input_density: s.b_input_density.push(false),
        ..s
    }
}

/// The state transition of allocating an auxiliary wire.
pub open spec fn alloc_aux_spec(s: AccumView, value: Seq<u8>) -> AccumView {
    AccumView {
        aux: s.aux.push(value),
        a_aux_density: s.a_aux_density.push(false),
        b_aux_density: s.b_aux_density.push(false),
        ..s
    }
}

/// The state transition of enforcing one constraint.
pub open spec fn enforce_spec(s: AccumView, la: LcView, lb: LcView, lc: LcView) -> AccumView {
    AccumView {
        a: s.a.push(eval_lc(la, s.inputs, s.aux)),
        b: s.b.push(eval_lc(lb, s.inputs, s.aux)),
        c: s.c.push(eval_lc(lc, s.inputs, s.aux)),
        a_aux_density: mark_terms(s.a_aux_density, la.aux_terms),
        b_input_density: mark_terms(s.b_input_density, lb.input_terms),
        b_aux_density: mark_terms(s.b_aux_density, lb.aux_terms),
        ..s
    }
}

/// All three linear combinations of a constraint resolve within the
/// currently allocated wires.
pub open spec fn lcs_in_range(s: AccumView, la: LcView, lb: LcView, lc: LcView) -> bool {
    &&& terms_in_range(la.input_terms, s.inputs.len())
    &&& terms_in_range(la.aux_terms, s.aux.len())
    &&& terms_in_range(lb.input_terms, s.inputs.len())
    &&& terms_in_range(lb.aux_terms, s.aux.len())
    &&& terms_in_range(lc.input_terms, s.inputs.len())
    &&& terms_in_range(lc.aux_terms, s.aux.len())
}

/// The fresh, empty accumulator state.
pub open spec fn empty_accum() -> AccumView {
    AccumView {
        inputs: Seq::empty(),
        aux: Seq::empty(),
        a: Seq::empty(),
        b: Seq::empty(),
        c: Seq::empty(),
        a_aux_density: Seq::empty(),
        b_input_density: Seq::empty(),
        b_aux_density: Seq::empty(),
        extracted: false,
    }
}

/// The per-circuit constraint accumulator.  It is single-use: once an
/// assignment column has been extracted, no further synthesis against
/// it is allowed.
pub struct ProvingAssignment {
    a_aux_density: DensityTracker,
    b_input_density: DensityTracker,
    b_aux_density: DensityTracker,
    a: Vec<Fr>,
    b: Vec<Fr>,
    c: Vec<Fr>,
    input_assignment: Vec<Fr>,
    aux_assignment: Vec<Fr>,
    extracted: bool,
}

impl View for ProvingAssignment {
    type V = AccumView;

    closed spec fn view(&self) -> AccumView {
        AccumView {
            inputs: frs_view(self.input_assignment@),
            aux: frs_view(self.aux_assignment@),
            a: frs_view(self.a@),
            b: frs_view(self.b@),
            c: frs_view(self.c@),
            a_aux_density: self.a_aux_density@,
            b_input_density: self.b_input_density@,
            b_aux_density: self.b_aux_density@,
            extracted: self.extracted,
        }
    }
}

impl ProvingAssignment {
    /// Internal consistency: the view is well formed and the density
    /// counts agree with their marks.
    pub open spec fn inv(&self) -> bool {
        accum_wf(self@) && self.counts_ok()
    }

    pub closed spec fn counts_ok(&self) -> bool {
        &&& self.a_aux_density.inv()
        &&& self.b_input_density.inv()
        &&& self.b_aux_density.inv()
    }

    /// A fresh accumulator with no wires and no constraints.
    pub fn new() -> (r: ProvingAssignment)
        ensures
            r@ =~= empty_accum(),
            r.inv(),
    {
        let r = ProvingAssignment {
            a_aux_density: DensityTracker::new(),
            b_input_density: DensityTracker::new(),
            b_aux_density: DensityTracker::new(),
            a: Vec::new(),
            b: Vec::new(),
            c: Vec::new(),
            input_assignment: Vec::new(),
            aux_assignment: Vec::new(),
            extracted: false,
        };
        proof {
            assert(r@ =~= empty_accum());
        }
        r
    }

    /// Allocates a new public input wire seeded with `value`.
    pub fn alloc_input(&mut self, value: Fr) -> (v: Variable)
        requires
            old(self).inv(),
            !old(self)@.extracted,
            value.wf(),
        ensures
            final(self).inv(),
            final(self)@ == alloc_input_spec(old(self)@, value@),
            v == Variable::Input(old(self)@.inputs.len() as usize),
    {
        let idx = self.input_assignment.len();
        self.input_assignment.push(value);
        self.b_input_density.add_element();
        proof {
            lemma_frs_view_push(old(self).input_assignment@, value);
            assert(self@ =~= alloc_input_spec(old(self)@, value@));
        }
        Variable::Input(idx)
    }

    /// Allocates a new auxiliary wire seeded with `value`.
    pub fn alloc_aux(&mut self, value: Fr) -> (v: Variable)
        requires
            old(self).inv(),
            !old(self)@.extracted,
            value.wf(),
        ensures
            final(self).inv(),
            final(self)@ == alloc_aux_spec(old(self)@, value@),
            v == Variable::Aux(old(self)@.aux.len() as usize),
    {
        let idx = self.aux_assignment.len();
        self.aux_assignment.push(value);
        self.a_aux_density.add_element();
        self.b_aux_density.add_element();
        proof {
            lemma_frs_view_push(old(self).aux_assignment@, value);
            assert(self@ =~= alloc_aux_spec(old(self)@, value@));
        }
        Variable::Aux(idx)
    }

    /// Enforces one constraint given its three linear combinations.
    /// On success the three evaluation vectors each grow by the
    /// combination's evaluation and the density trackers are updated;
    /// a combination referencing an unallocated wire leaves the
    /// accumulator untouched and reports the synthesis error.
    pub fn enforce(
        &mut self,
        a_lc: &LinearCombination,
        b_lc: &LinearCombination,
        c_lc: &LinearCombination,
    ) -> (r: Result<(), SynthesisError>)
        requires
            old(self).inv(),
            !old(self)@.extracted,
            a_lc.wf(),
            b_lc.wf(),
            c_lc.wf(),
        ensures
            final(self).inv(),
            r is Ok <==> lcs_in_range(old(self)@, a_lc@, b_lc@, c_lc@),
            r is Ok ==> final(self)@ == enforce_spec(old(self)@, a_lc@, b_lc@, c_lc@),
            r is Err ==> final(self)@ == old(self)@ && r == Result::<(), SynthesisError>::Err(
                SynthesisError::AssignmentMissing,
            ),
    {
        let n_in = self.input_assignment.len();
        let n_aux = self.aux_assignment.len();
        let ok = check_terms(&a_lc.input_terms, n_in) && check_terms(&a_lc.aux_terms, n_aux)
            && check_terms(&b_lc.input_terms, n_in) && check_terms(&b_lc.aux_terms, n_aux)
            && check_terms(&c_lc.input_terms, n_in) && check_terms(&c_lc.aux_terms, n_aux);
        if !ok {
            proof {
                assert(self@ =~= old(self)@);
            }
            return Err(SynthesisError::AssignmentMissing);
        }
        proof {
            lemma_frs_wf_view(self.input_assignment@);
            lemma_frs_wf_view(self.aux_assignment@);
        }
        let a_res = eval_lc_exec(a_lc, &self.input_assignment, &self.aux_assignment);
        let b_res = eval_lc_exec(b_lc, &self.input_assignment, &self.aux_assignment);
        let c_res = eval_lc_exec(c_lc, &self.input_assignment, &self.aux_assignment);
        mark_nonzero(&mut self.a_aux_density, &a_lc.aux_terms);
        mark_nonzero(&mut self.b_input_density, &b_lc.input_terms);
        mark_nonzero(&mut self.b_aux_density, &b_lc.aux_terms);
        self.a.push(a_res);
        self.b.push(b_res);
        self.c.push(c_res);
        proof {
            lemma_frs_view_push(old(self).a@, a_res);
            lemma_frs_view_push(old(self).b@, b_res);
            lemma_frs_view_push(old(self).c@, c_res);
            lemma_mark_terms_len(old(self)@.a_aux_density, a_lc@.aux_terms);
            lemma_mark_terms_len(old(self)@.b_input_density, b_lc@.input_terms);
            lemma_mark_terms_len(old(self)@.b_aux_density, b_lc@.aux_terms);
            assert(self@ =~= enforce_spec(old(self)@, a_lc@, b_lc@, c_lc@));
        }
        Ok(())
    }

    /// The number of public input wires allocated so far.
    pub fn num_inputs(&self) -> (r: usize)
        ensures
            r == self@.inputs.len(),
    {
        self.input_assignment.len()
    }

    /// The number of auxiliary wires allocated so far.
    pub fn num_aux(&self) -> (r: usize)
        ensures
            r == self@.aux.len(),
    {
        self.aux_assignment.len()
    }

    /// The number of constraints enforced so far.
    pub fn num_constraints(&self) -> (r: usize)
        ensures
            r == self@.a.len(),
    {
        self.a.len()
    }

    /// The `k`-th entry of the A evaluation vector, as representation
    /// bytes.
    pub fn a_eval_bytes(&self, k: usize) -> (r: Vec<u8>)
        requires
            k < self@.a.len(),
        ensures
            r@ == self@.a[k as int],
    {
        self.a[k].to_bytes()
    }

    /// The `k`-th entry of the B evaluation vector, as representation
    /// bytes.
    pub fn b_eval_bytes(&self, k: usize) -> (r: Vec<u8>)
        requires
            k < self@.b.len(),
        ensures
            r@ == self@.b[k as int],
    {
        self.b[k].to_bytes()
    }

    /// The `k`-th entry of the C evaluation vector, as representation
    /// bytes.
    pub fn c_eval_bytes(&self, k: usize) -> (r: Vec<u8>)
        requires
            k < self@.c.len(),
        ensures
            r@ == self@.c[k as int],
    {
        self.c[k].to_bytes()
    }

    /// How many auxiliary wires some A combination touched with a
    /// nonzero coefficient.
    pub fn a_aux_density_total(&self) -> (r: usize)
        requires
            self.inv(),
        ensures
            r == count_true(self@.a_aux_density),
    {
        self.a_aux_density.get_total_density()
    }

    /// How many input wires some B combination touched with a nonzero
    /// coefficient.
    pub fn b_input_density_total(&self) -> (r: usize)
        requires
            self.inv(),
        ensures
            r == count_true(self@.b_input_density),
    {
        self.b_input_density.get_total_density()
    }

    /// How many auxiliary wires some B combination touched with a
    /// nonzero coefficient.
    pub fn b_aux_density_total(&self) -> (r: usize)
        requires
            self.inv(),
        ensures
            r == count_true(self@.b_aux_density),
    {
        self.b_aux_density.get_total_density()
    }

    /// Moves the input assignment column out and seals the accumulator
    /// against further synthesis; the evaluation vectors and density
    /// trackers are retained.
    pub fn take_input_assignment(&mut self) -> (r: Vec<Fr>)
        requires
            old(self).inv(),
        ensures
            final(self).inv(),
            frs_view(r@) == old(self)@.inputs,
            final(self)@ == (AccumView { inputs: Seq::empty(), extracted: true, ..old(self)@ }),
    {
        let mut taken: Vec<Fr> = Vec::new();
        core::mem::swap(&mut taken, &mut self.input_assignment);
        self.extracted = true;
        proof {
            assert(frs_view(Seq::<Fr>::empty()) =~= Seq::<Seq<u8>>::empty());
            assert(self@ =~= (AccumView { inputs: Seq::empty(), extracted: true, ..old(self)@ }));
        }
        taken
    }

    /// Moves the auxiliary assignment column out and seals the
    /// accumulator against further synthesis; the evaluation vectors
    /// and density trackers are retained.
    pub fn take_aux_assignment(&mut self) -> (r: Vec<Fr>)
        requires
            old(self).inv(),
        ensures
            final(self).inv(),
            frs_view(r@) == old(self)@.aux,
            final(self)@ == (AccumView { aux: Seq::empty(), extracted: true, ..old(self)@ }),
    {
        let mut taken: Vec<Fr> = Vec::new();
        core::mem::swap(&mut taken, &mut self.aux_assignment);
        self.extracted = true;
        proof {
            assert(frs_view(Seq::<Fr>::empty()) =~= Seq::<Seq<u8>>::empty());
            assert(self@ =~= (AccumView { aux: Seq::empty(), extracted: true, ..old(self)@ }));
        }
        taken
    }
}

/// Exec check that all term indices of one column are in range.
fn check_terms(terms: &Vec<(usize, Fr)>, n: usize) -> (r: bool)
    ensures
        r == terms_in_range(terms_view(terms@), n as nat),
{
    let mut i: usize = 0;
    let mut ok = true;
    while i < terms.len()
        invariant
            i <= terms@.len(),
            ok == (forall|j: int| 0 <= j < i ==> (#[trigger] terms_view(terms@)[j]).0 < n),
        decreases terms@.len() - i,
    {
        proof {
            assert(terms_view(terms@)[i as int] == (terms@[i as int].0, terms@[i as int].1@));
        }
        if terms[i].0 >= n {
            ok = false;
        }
        i += 1;
    }
    ok
}

/// Exec evaluation of one column's terms, folding into `acc`.
fn eval_terms_exec(terms: &Vec<(usize, Fr)>, asg: &Vec<Fr>, acc: Fr) -> (r: Fr)
    requires
        terms_wf(terms_view(terms@)),
        terms_in_range(terms_view(terms@), asg@.len()),
        frs_wf(asg@),
        acc.wf(),
    ensures
        r.wf(),
        r@ == eval_terms(terms_view(terms@), frs_view(asg@), acc@),
{
    let mut i: usize = 0;
    let mut cur = acc;
    proof {
        assert(terms_view(terms@).skip(0) =~= terms_view(terms@));
    }
    while i < terms.len()
        invariant
            i <= terms@.len(),
            cur.wf(),
            terms_wf(terms_view(terms@)),
            terms_in_range(terms_view(terms@), asg@.len()),
            frs_wf(asg@),
            eval_terms(terms_view(terms@).skip(i as int), frs_view(asg@), cur@) == eval_terms(
                terms_view(terms@),
                frs_view(asg@),
                acc@,
            ),
        decreases terms@.len() - i,
    {
        let coeff = &terms[i].1;
        let idx = terms[i].0;
        proof {
            assert(terms_view(terms@)[i as int] == (terms@[i as int].0, terms@[i as int].1@));
            assert(terms_view(terms@).skip(i as int)[0] == terms_view(terms@)[i as int]);
            assert(terms_view(terms@).skip(i as int).drop_first() =~= terms_view(terms@).skip(
                i + 1,
            ));
            assert(idx < asg@.len());
        }
        if !coeff.is_zero() {
            let prod = asg[idx].mul(coeff);
            cur = cur.add(&prod);
        }
        i += 1;
    }
    proof {
        assert(terms_view(terms@).skip(terms@.len() as int) =~= Seq::<(usize, Seq<u8>)>::empty());
    }
    cur
}

/// Exec marking of one column's terms into a density tracker.
fn mark_nonzero(d: &mut DensityTracker, terms: &Vec<(usize, Fr)>)
    requires
        old(d).inv(),
        terms_wf(terms_view(terms@)),
        terms_in_range(terms_view(terms@), old(d)@.len()),
    ensures
        final(d).inv(),
        final(d)@ == mark_terms(old(d)@, terms_view(terms@)),
{
    let mut i: usize = 0;
    proof {
        assert(terms_view(terms@).skip(0) =~= terms_view(terms@));
    }
    while i < terms.len()
        invariant
            i <= terms@.len(),
            d.inv(),
            d@.len() == old(d)@.len(),
            terms_wf(terms_view(terms@)),
            terms_in_range(terms_view(terms@), old(d)@.len()),
            mark_terms(d@, terms_view(terms@).skip(i as int)) == mark_terms(
                old(d)@,
                terms_view(terms@),
            ),
        decreases terms@.len() - i,
    {
        let coeff = &terms[i].1;
        let idx = terms[i].0;
        proof {
            assert(terms_view(terms@)[i as int] == (terms@[i as int].0, terms@[i as int].1@));
            assert(terms_view(terms@).skip(i as int)[0] == terms_view(terms@)[i as int]);
            assert(terms_view(terms@).skip(i as int).drop_first() =~= terms_view(terms@).skip(
                i + 1,
            ));
        }
        if !coeff.is_zero() {
            d.inc(idx);
        }
        i += 1;
    }
    proof {
        assert(terms_view(terms@).skip(terms@.len() as int) =~= Seq::<(usize, Seq<u8>)>::empty());
    }
}

/// Exec evaluation of a whole linear combination.
fn eval_lc_exec(lc: &LinearCombination, inputs: &Vec<Fr>, aux: &Vec<Fr>) -> (r: Fr)
    requires
        lc.wf(),
        terms_in_range(lc@.input_terms, inputs@.len()),
        terms_in_range(lc@.aux_terms, aux@.len()),
        frs_wf(inputs@),
        frs_wf(aux@),
    ensures
        r.wf(),
        r@ == eval_lc(lc@, frs_view(inputs@), frs_view(aux@)),
{
    let zero = Fr::zero();
    let partial = eval_terms_exec(&lc.input_terms, inputs, zero);
    eval_terms_exec(&lc.aux_terms, aux, partial)
}

} // verus!
