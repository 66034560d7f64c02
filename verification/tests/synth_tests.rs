use dizk_bridge::accum::{AccumView, ProvingAssignment};
use dizk_bridge::errors::{DizkError, SynthesisError};
use dizk_bridge::field::Fr;
use dizk_bridge::synth::{
    synthesize_circuits_batch, synthesize_one, Circuit, FailingCircuit, UnitInputCircuit,
};

fn le32(n: u64) -> Vec<u8> {
    let mut v = vec![0u8; 32];
    let le = n.to_le_bytes();
    v[..8].copy_from_slice(&le);
    v
}

struct ValueCircuit {
    value: u64,
}

impl Circuit for ValueCircuit {
    // ghost description; never run
    fn spec_synth(&self, _s: AccumView) -> Option<AccumView> {
        None
    }

    fn synthesize(&self, cs: &mut ProvingAssignment) -> Result<(), SynthesisError> {
        cs.alloc_input(Fr::from_u64(self.value));
        Ok(())
    }
}

#[test]
fn single_circuit_starts_with_the_constant_wire() {
    let mut prover = synthesize_one(&UnitInputCircuit {}).unwrap();
    assert_eq!(prover.num_inputs(), 2);
    assert_eq!(prover.num_aux(), 0);
    // one binding constraint per declared input
    assert_eq!(prover.num_constraints(), 2);
    let inputs = prover.take_input_assignment();
    assert_eq!(inputs[0].to_bytes(), le32(1));
    assert_eq!(inputs[1].to_bytes(), le32(1));
}

#[test]
fn trivial_batch_of_two_has_unit_assignments() {
    let circuits = vec![UnitInputCircuit {}, UnitInputCircuit {}];
    let out = synthesize_circuits_batch(circuits).unwrap();
    assert_eq!(out.provers.len(), 2);
    assert_eq!(out.input_reprs.len(), 2);
    assert_eq!(out.aux_reprs.len(), 2);
    for i in 0..2 {
        assert_eq!(out.input_reprs[i].as_slice(), &[le32(1), le32(1)]);
        assert!(out.aux_reprs[i].is_empty());
        assert_eq!(out.provers[i].num_constraints(), 2);
    }
}

#[test]
fn batch_preserves_input_order() {
    let circuits = vec![ValueCircuit { value: 5 }, ValueCircuit { value: 9 }, ValueCircuit {
        value: 7,
    }];
    let out = synthesize_circuits_batch(circuits).unwrap();
    assert_eq!(out.input_reprs.len(), 3);
    assert_eq!(out.input_reprs[0][1], le32(5));
    assert_eq!(out.input_reprs[1][1], le32(9));
    assert_eq!(out.input_reprs[2][1], le32(7));
}

struct MaybeCircuit {
    fail: bool,
}

impl Circuit for MaybeCircuit {
    // ghost description; never run
    fn spec_synth(&self, _s: AccumView) -> Option<AccumView> {
        None
    }

    fn synthesize(&self, cs: &mut ProvingAssignment) -> Result<(), SynthesisError> {
        if self.fail {
            return Err(SynthesisError::Unsatisfiable);
        }
        cs.alloc_input(Fr::one());
        Ok(())
    }
}

#[test]
fn one_failing_circuit_fails_the_whole_batch() {
    let circuits = vec![
        MaybeCircuit { fail: false },
        MaybeCircuit { fail: false },
        MaybeCircuit { fail: true },
    ];
    match synthesize_circuits_batch(circuits) {
        Err(DizkError::Synthesis { circuit_index, fault }) => {
            assert_eq!(circuit_index, 2);
            assert_eq!(fault, SynthesisError::Unsatisfiable);
        },
        _ => panic!("expected a synthesis error, got a batch output"),
    }
}

#[test]
fn failing_circuit_reports_its_index() {
    let circuits = vec![FailingCircuit {}, FailingCircuit {}];
    match synthesize_circuits_batch(circuits) {
        Err(DizkError::Synthesis { circuit_index, fault }) => {
            assert_eq!(circuit_index, 0);
            assert_eq!(fault, SynthesisError::Unsatisfiable);
        },
        _ => panic!("expected a synthesis error"),
    }
}
