use std::sync::Arc;

use group::prime::PrimeCurveAffine;

use dizk_bridge::errors::{DecodeError, DizkError};
use dizk_bridge::session::{
    session_step, start_handoff, HandoffConfig, SessionAction, SessionEvent, SessionState,
};
use dizk_bridge::wire::encode_assignment_batch;

fn config() -> HandoffConfig {
    HandoffConfig {
        working_dir: String::from("/tmp/dizk"),
        batch_id: String::from("b42"),
        partitions: 12,
        curve: String::from("bls12-381"),
        proving_key_path: String::from("/keys/pk.bin"),
    }
}

fn le32(n: u64) -> Vec<u8> {
    let mut v = vec![0u8; 32];
    let le = n.to_le_bytes();
    v[..8].copy_from_slice(&le);
    v
}

#[test]
fn start_emits_the_assignment_write() {
    let cfg = config();
    let inputs = vec![Arc::new(vec![le32(1)])];
    let aux = vec![Arc::new(vec![])];
    let (state, action) = start_handoff(&cfg, &inputs, &aux);
    assert!(matches!(state, SessionState::WritingAssignment));
    match action {
        SessionAction::WriteAssignmentFile { path, bytes } => {
            assert_eq!(path, "/tmp/dizk/assignment-b42.bin");
            assert_eq!(bytes, encode_assignment_batch(&inputs, &aux));
        },
        _ => panic!("the session must begin by writing the assignment file"),
    }
}

#[test]
fn successful_write_runs_the_prover_with_the_fixed_template() {
    let cfg = config();
    let event = SessionEvent::WriteFinished { ok: true, message: String::new() };
    let (state, action) = session_step(&cfg, SessionState::WritingAssignment, event);
    assert!(matches!(state, SessionState::AwaitingProver));
    match action {
        SessionAction::RunProver { partitions, curve, output_path, proving_key_path, assignment_path } => {
            assert_eq!(partitions, 12);
            assert_eq!(curve, "bls12-381");
            assert_eq!(output_path, "/tmp/dizk/proof-b42.bin");
            assert_eq!(proving_key_path, "/keys/pk.bin");
            assert_eq!(assignment_path, "/tmp/dizk/assignment-b42.bin");
        },
        _ => panic!("a successful write must launch the prover"),
    }
}

#[test]
fn failed_write_is_a_serialization_error() {
    let cfg = config();
    let event = SessionEvent::WriteFinished { ok: false, message: String::from("disk full") };
    let (state, action) = session_step(&cfg, SessionState::WritingAssignment, event);
    assert!(matches!(action, SessionAction::Halt));
    match state {
        SessionState::Failed { error: DizkError::Serialization { message } } => {
            assert_eq!(message, "disk full");
        },
        _ => panic!("a failed write must fail the batch as a serialization error"),
    }
}

#[test]
fn nonzero_exit_fails_without_reading_the_proof_file() {
    let cfg = config();
    let event = SessionEvent::ProverFinished {
        launched: true,
        exit_code: Some(3),
        log: String::from("out of memory"),
    };
    let (state, action) = session_step(&cfg, SessionState::AwaitingProver, event);
    assert!(matches!(action, SessionAction::Halt));
    match state {
        SessionState::Failed { error: DizkError::ExternalProcess { launched, exit_code, log } } => {
            assert!(launched);
            assert_eq!(exit_code, Some(3));
            assert_eq!(log, "out of memory");
        },
        _ => panic!("a non-zero exit must fail the batch as an external-process error"),
    }
}

#[test]
fn launch_failure_is_an_external_process_error() {
    let cfg = config();
    let event = SessionEvent::ProverFinished {
        launched: false,
        exit_code: None,
        log: String::from("no such binary"),
    };
    let (state, action) = session_step(&cfg, SessionState::AwaitingProver, event);
    assert!(matches!(action, SessionAction::Halt));
    assert!(matches!(
        state,
        SessionState::Failed { error: DizkError::ExternalProcess { launched: false, .. } }
    ));
}

#[test]
fn zero_exit_reads_the_proof_file() {
    let cfg = config();
    let event = SessionEvent::ProverFinished { launched: true, exit_code: Some(0), log: String::new() };
    let (state, action) = session_step(&cfg, SessionState::AwaitingProver, event);
    assert!(matches!(state, SessionState::AwaitingProofBytes));
    match action {
        SessionAction::ReadProofFile { path } => assert_eq!(path, "/tmp/dizk/proof-b42.bin"),
        _ => panic!("a successful prover run must read the proof file"),
    }
}

#[test]
fn valid_proof_bytes_finish_the_session() {
    let cfg = config();
    let g1 = blstrs::G1Affine::generator().to_compressed();
    let g2 = blstrs::G2Affine::generator().to_compressed();
    let mut bytes = Vec::new();
    for _ in 0..2 {
        bytes.extend_from_slice(&g1);
        bytes.extend_from_slice(&g2);
        bytes.extend_from_slice(&g1);
    }
    let event = SessionEvent::ProofBytesRead { ok: true, bytes, message: String::new() };
    let (state, action) = session_step(&cfg, SessionState::AwaitingProofBytes, event);
    assert!(matches!(action, SessionAction::Halt));
    match state {
        SessionState::Done { proofs } => assert_eq!(proofs.len(), 2),
        _ => panic!("two valid records must finish the session with two proofs"),
    }
}

#[test]
fn unreadable_proof_file_is_a_decode_error() {
    let cfg = config();
    let event = SessionEvent::ProofBytesRead {
        ok: false,
        bytes: Vec::new(),
        message: String::from("no such file"),
    };
    let (state, action) = session_step(&cfg, SessionState::AwaitingProofBytes, event);
    assert!(matches!(action, SessionAction::Halt));
    assert!(matches!(
        state,
        SessionState::Failed { error: DizkError::Decode { detail: DecodeError::Unreadable } }
    ));
}

#[test]
fn trivial_batch_runs_the_whole_session() {
    let cfg = config();
    let out = dizk_bridge::synth::synthesize_circuits_batch(vec![
        dizk_bridge::synth::UnitInputCircuit {},
        dizk_bridge::synth::UnitInputCircuit {},
    ])
    .unwrap();
    let (state, action) = start_handoff(&cfg, &out.input_reprs, &out.aux_reprs);
    let written = match action {
        SessionAction::WriteAssignmentFile { bytes, .. } => bytes,
        _ => panic!("the session must begin by writing the assignment file"),
    };
    // the file holds both circuits' assignments: 4 sequences, the two
    // input sequences of two elements each, the two aux sequences empty
    assert_eq!(written.len(), 1 + 8 + 4 * 8 + 2 * 2 * 32);

    let event = SessionEvent::WriteFinished { ok: true, message: String::new() };
    let (state, action) = session_step(&cfg, state, event);
    assert!(matches!(action, SessionAction::RunProver { .. }));

    let event =
        SessionEvent::ProverFinished { launched: true, exit_code: Some(0), log: String::new() };
    let (state, action) = session_step(&cfg, state, event);
    assert!(matches!(action, SessionAction::ReadProofFile { .. }));

    let g1 = blstrs::G1Affine::generator().to_compressed();
    let g2 = blstrs::G2Affine::generator().to_compressed();
    let mut bytes = Vec::new();
    for _ in 0..2 {
        bytes.extend_from_slice(&g1);
        bytes.extend_from_slice(&g2);
        bytes.extend_from_slice(&g1);
    }
    let event = SessionEvent::ProofBytesRead { ok: true, bytes, message: String::new() };
    let (state, action) = session_step(&cfg, state, event);
    assert!(matches!(action, SessionAction::Halt));
    match state {
        SessionState::Done { proofs } => {
            assert_eq!(proofs.len(), 2);
            assert_eq!(proofs[0].a_bytes().as_slice(), &g1);
            assert_eq!(proofs[1].b_bytes().as_slice(), &g2);
        },
        _ => panic!("the trivial batch must finish with its two proofs"),
    }
}
