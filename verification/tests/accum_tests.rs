use dizk_bridge::accum::{LinearCombination, ProvingAssignment, Variable};
use dizk_bridge::errors::SynthesisError;
use dizk_bridge::field::Fr;

#[test]
fn fresh_accumulator_is_empty() {
    let acc = ProvingAssignment::new();
    assert_eq!(acc.num_inputs(), 0);
    assert_eq!(acc.num_aux(), 0);
    assert_eq!(acc.num_constraints(), 0);
}

#[test]
fn allocation_assigns_indices_by_column() {
    let mut acc = ProvingAssignment::new();
    let v0 = acc.alloc_input(Fr::one());
    let v1 = acc.alloc_aux(Fr::from_u64(7));
    let v2 = acc.alloc_input(Fr::from_u64(3));
    assert!(matches!(v0, Variable::Input(0)));
    assert!(matches!(v1, Variable::Aux(0)));
    assert!(matches!(v2, Variable::Input(1)));
    assert_eq!(acc.num_inputs(), 2);
    assert_eq!(acc.num_aux(), 1);
}

#[test]
fn enforce_appends_one_entry_per_evaluation_vector() {
    let mut acc = ProvingAssignment::new();
    acc.alloc_input(Fr::one());
    acc.alloc_aux(Fr::from_u64(5));
    let mut a = LinearCombination::new();
    a.add_term(Variable::Input(0), Fr::one());
    let mut b = LinearCombination::new();
    b.add_term(Variable::Aux(0), Fr::from_u64(2));
    let c = LinearCombination::new();
    assert!(acc.enforce(&a, &b, &c).is_ok());
    assert_eq!(acc.num_constraints(), 1);
    assert!(acc.enforce(&a, &b, &c).is_ok());
    assert_eq!(acc.num_constraints(), 2);
}

#[test]
fn unallocated_variable_is_a_synthesis_error() {
    let mut acc = ProvingAssignment::new();
    acc.alloc_input(Fr::one());
    let mut a = LinearCombination::new();
    a.add_term(Variable::Input(3), Fr::one());
    let b = LinearCombination::new();
    let c = LinearCombination::new();
    assert_eq!(acc.enforce(&a, &b, &c), Err(SynthesisError::AssignmentMissing));
    // the failed constraint left nothing behind
    assert_eq!(acc.num_constraints(), 0);
}

#[test]
fn unallocated_aux_variable_is_a_synthesis_error() {
    let mut acc = ProvingAssignment::new();
    acc.alloc_input(Fr::one());
    let a = LinearCombination::new();
    let b = LinearCombination::new();
    let mut c = LinearCombination::new();
    c.add_term(Variable::Aux(0), Fr::one());
    assert_eq!(acc.enforce(&a, &b, &c), Err(SynthesisError::AssignmentMissing));
}

#[test]
fn extraction_moves_the_columns_out() {
    let mut acc = ProvingAssignment::new();
    acc.alloc_input(Fr::one());
    acc.alloc_aux(Fr::from_u64(9));
    let mut a = LinearCombination::new();
    a.add_term(Variable::Aux(0), Fr::one());
    let b = LinearCombination::new();
    let c = LinearCombination::new();
    assert!(acc.enforce(&a, &b, &c).is_ok());
    let inputs = acc.take_input_assignment();
    let aux = acc.take_aux_assignment();
    assert_eq!(inputs.len(), 1);
    assert_eq!(aux.len(), 1);
    assert_eq!(inputs[0].to_bytes(), Fr::one().to_bytes());
    assert_eq!(aux[0].to_bytes(), Fr::from_u64(9).to_bytes());
    assert_eq!(acc.num_inputs(), 0);
    assert_eq!(acc.num_aux(), 0);
    // the evaluation vectors and density trackers are retained
    assert_eq!(acc.num_constraints(), 1);
    assert_eq!(acc.a_aux_density_total(), 1);
}

#[test]
fn density_marks_nonzero_coefficients_once() {
    let mut acc = ProvingAssignment::new();
    acc.alloc_input(Fr::one());
    acc.alloc_aux(Fr::from_u64(4));
    acc.alloc_aux(Fr::from_u64(6));
    let mut a = LinearCombination::new();
    a.add_term(Variable::Aux(0), Fr::one());
    let mut b = LinearCombination::new();
    b.add_term(Variable::Input(0), Fr::from_u64(2));
    b.add_term(Variable::Aux(1), Fr::zero());
    let c = LinearCombination::new();
    assert!(acc.enforce(&a, &b, &c).is_ok());
    assert_eq!(acc.a_aux_density_total(), 1);
    assert_eq!(acc.b_input_density_total(), 1);
    // a zero coefficient is structurally absent and marks nothing
    assert_eq!(acc.b_aux_density_total(), 0);
    // enforcing the same constraint again marks no wire twice
    assert!(acc.enforce(&a, &b, &c).is_ok());
    assert_eq!(acc.a_aux_density_total(), 1);
    assert_eq!(acc.b_input_density_total(), 1);
}

#[test]
fn enforcing_evaluates_the_combinations_against_the_assignment() {
    let mut acc = ProvingAssignment::new();
    acc.alloc_input(Fr::one());
    acc.alloc_aux(Fr::from_u64(4));
    let mut a = LinearCombination::new();
    a.add_term(Variable::Aux(0), Fr::from_u64(2));
    a.add_term(Variable::Input(0), Fr::from_u64(3));
    let b = LinearCombination::new();
    let mut c = LinearCombination::new();
    c.add_term(Variable::Aux(0), Fr::one());
    assert!(acc.enforce(&a, &b, &c).is_ok());
    // a: 3 * input0 + 2 * aux0 = 3 * 1 + 2 * 4
    assert_eq!(acc.a_eval_bytes(0), Fr::from_u64(11).to_bytes());
    // b: the empty combination
    assert_eq!(acc.b_eval_bytes(0), Fr::zero().to_bytes());
    // c: 1 * aux0
    assert_eq!(acc.c_eval_bytes(0), Fr::from_u64(4).to_bytes());
}
