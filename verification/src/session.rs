//! The handoff session: the decision core of one batch handoff to the
//! external prover.
//!
//! The session is a state machine.  The surrounding program performs
//! each returned action (write the assignment file, run the prover
//! subprocess, read the proof file) and feeds the outcome back as the
//! next event; every decision — what to write, how the prover is to
//! be invoked, how its exit is judged, and whether the proof file is
//! decoded at all — is made and verified here.
//!
//! Each session derives its file paths from its own batch identifier,
//! so two batches with distinct identifiers never touch each other's
//! files; at most one session may use one identifier at a time.

use vstd::prelude::*;

use std::sync::Arc;

use crate::errors::{DecodeError, DizkError};
use crate::field::pow256;
use crate::proofdec::{decode_proofs, proofs_match_stream, stream_ok, Proof};
use crate::synth::arc_reprs_view;
use crate::wire::{encode_assignment_batch, encode_batch_spec};

verus! {

/// Where and how one batch handoff runs: the working directory, a
/// unique batch identifier, and the external prover's invocation
/// parameters.
pub struct HandoffConfig {
    pub working_dir: String,
    pub batch_id: String,
    pub partitions: u64,
    pub curve: String,
    pub proving_key_path: String,
}

/// Relies on `String::push_str`: appends exactly the characters of
/// `s`.
#[verifier::external_body]
fn append_str(out: &mut String, s: &str)
    ensures
        final(out)@ == old(out)@ + s@,
{
    out.push_str(s);
}

/// The per-batch assignment file path.
pub open spec fn assignment_path_spec(cfg: HandoffConfig) -> Seq<char> {
    cfg.working_dir@ + "/assignment-"@ + cfg.batch_id@ + ".bin"@
}

/// The per-batch proof output file path.
pub open spec fn proof_output_path_spec(cfg: HandoffConfig) -> Seq<char> {
    cfg.working_dir@ + "/proof-"@ + cfg.batch_id@ + ".bin"@
}

/// Builds the per-batch assignment file path.
pub fn assignment_path(cfg: &HandoffConfig) -> (r: String)
    ensures
        r@ == assignment_path_spec(*cfg),
{
    let mut r = String::new();
    append_str(&mut r, cfg.working_dir.as_str());
    append_str(&mut r, "/assignment-");
    append_str(&mut r, cfg.batch_id.as_str());
    append_str(&mut r, ".bin");
    proof {
        assert(r@ =~= assignment_path_spec(*cfg));
    }
    r
}

/// Builds the per-batch proof output file path.
pub fn proof_output_path(cfg: &HandoffConfig) -> (r: String)
    ensures
        r@ == proof_output_path_spec(*cfg),
{
    let mut r = String::new();
    append_str(&mut r, cfg.working_dir.as_str());
    append_str(&mut r, "/proof-");
    append_str(&mut r, cfg.batch_id.as_str());
    append_str(&mut r, ".bin");
    proof {
        assert(r@ =~= proof_output_path_spec(*cfg));
    }
    r
}

/// Two sessions over the same working directory but distinct batch
/// identifiers never touch each other's files: their assignment
/// paths differ and their proof output paths differ.  This is what
/// lets one process run one handoff per identifier without any
/// cross-batch corruption.
pub proof fn lemma_distinct_batches_use_distinct_paths(c1: HandoffConfig, c2: HandoffConfig)
    requires
        c1.working_dir@ == c2.working_dir@,
        c1.batch_id@ != c2.batch_id@,
    ensures
        assignment_path_spec(c1) != assignment_path_spec(c2),
        proof_output_path_spec(c1) != proof_output_path_spec(c2),
{
    lemma_fixed_frame_injective(
        c1.working_dir@ + "/assignment-"@,
        ".bin"@,
        c1.batch_id@,
        c2.batch_id@,
    );
    lemma_fixed_frame_injective(c1.working_dir@ + "/proof-"@, ".bin"@, c1.batch_id@, c2.batch_id@);
    assert(assignment_path_spec(c1) =~= c1.working_dir@ + "/assignment-"@ + c1.batch_id@
        + ".bin"@);
    assert(assignment_path_spec(c2) =~= c1.working_dir@ + "/assignment-"@ + c2.batch_id@
        + ".bin"@);
    assert(proof_output_path_spec(c1) =~= c1.working_dir@ + "/proof-"@ + c1.batch_id@ + ".bin"@);
    assert(proof_output_path_spec(c2) =~= c1.working_dir@ + "/proof-"@ + c2.batch_id@ + ".bin"@);
}

/// Wrapping two distinct strings in one fixed prefix and suffix keeps
/// them distinct.
proof fn lemma_fixed_frame_injective(pre: Seq<char>, suf: Seq<char>, a: Seq<char>, b: Seq<char>)
    requires
        a != b,
    ensures
        pre + a + suf != pre + b + suf,
{
    if pre + a + suf == pre + b + suf {
        assert((pre + a + suf).len() == pre.len() + a.len() + suf.len());
        assert((pre + b + suf).len() == pre.len() + b.len() + suf.len());
        assert(a.len() == b.len());
        assert(a =~= b) by {
            assert forall|i: int| 0 <= i < a.len() implies a[i] == b[i] by {
                assert((pre + a + suf)[pre.len() + i] == a[i]);
                assert((pre + b + suf)[pre.len() + i] == b[i]);
            }
        }
    }
}

/// Where one handoff session stands.
pub enum SessionState {
    /// The assignment file is being written.
    WritingAssignment,
    /// The external prover subprocess is running.
    AwaitingProver,
    /// The proof output file is being read.
    AwaitingProofBytes,
    /// The batch's proofs, in circuit order.
    Done { proofs: Vec<Proof> },
    /// The batch failed; no further step is taken.
    Failed { error: DizkError },
}

/// What the surrounding program reports back.
pub enum SessionEvent {
    /// The assignment file write finished.
    WriteFinished { ok: bool, message: String },
    /// The prover subprocess finished (or could not be launched); its
    /// captured standard output comes along for diagnostics.
    ProverFinished { launched: bool, exit_code: Option<i32>, log: String },
    /// The proof output file was read (or could not be read).
    ProofBytesRead { ok: bool, bytes: Vec<u8>, message: String },
}

/// What the surrounding program must do next.
pub enum SessionAction {
    /// Write these bytes to this path, creating the file fresh.
    WriteAssignmentFile { path: String, bytes: Vec<u8> },
    /// Run the external prover, blocking, with the fixed argument
    /// template over these parameters.
    RunProver {
        partitions: u64,
        curve: String,
        output_path: String,
        proving_key_path: String,
        assignment_path: String,
    },
    /// Read the proof file at this path, whole.
    ReadProofFile { path: String },
    /// The session is over; perform nothing further.
    Halt,
}

/// Which events a state can answer.  Terminal states answer none.
pub open spec fn session_accepts(state: SessionState, event: SessionEvent) -> bool {
    match (state, event) {
        (SessionState::WritingAssignment, SessionEvent::WriteFinished { .. }) => true,
        (SessionState::AwaitingProver, SessionEvent::ProverFinished { .. }) => true,
        (SessionState::AwaitingProofBytes, SessionEvent::ProofBytesRead { .. }) => true,
        _ => false,
    }
}

/// Opens a handoff session: serializes the flattened assignment batch
/// and asks for it to be written to the session's assignment file.
pub fn start_handoff(
    cfg: &HandoffConfig,
    input_reprs: &Vec<Arc<Vec<Vec<u8>>>>,
    aux_reprs: &Vec<Arc<Vec<Vec<u8>>>>,
) -> (r: (SessionState, SessionAction))
    requires
        input_reprs@.len() + aux_reprs@.len() < pow256(8),
    ensures
        r.0 is WritingAssignment,
        r.1 matches SessionAction::WriteAssignmentFile { path, bytes } && path@
            == assignment_path_spec(*cfg) && bytes@ == encode_batch_spec(
            arc_reprs_view(input_reprs@),
            arc_reprs_view(aux_reprs@),
        ),
{
    let bytes = encode_assignment_batch(input_reprs, aux_reprs);
    let path = assignment_path(cfg);
    (SessionState::WritingAssignment, SessionAction::WriteAssignmentFile { path, bytes })
}

/// Advances the session by one event.
///
/// In particular: a prover subprocess that could not be launched or
/// that exited with any status but success moves the session to a
/// failed state carrying the external-process error and its captured
/// output, and the returned action is to halt — the proof file is
/// never read, let alone decoded, after a failed prover run.
pub fn session_step(cfg: &HandoffConfig, state: SessionState, event: SessionEvent) -> (r: (
    SessionState,
    SessionAction,
))
    requires
        session_accepts(state, event),
    ensures
        state is WritingAssignment ==> (match event {
            SessionEvent::WriteFinished { ok, message } => {
                &&& ok ==> {
                    &&& r.0 is AwaitingProver
                    &&& r.1 matches SessionAction::RunProver {
                        partitions,
                        curve,
                        output_path,
                        proving_key_path,
                        assignment_path,
                    } && partitions == cfg.partitions && curve@ == cfg.curve@ && output_path@
                        == proof_output_path_spec(*cfg) && proving_key_path@
                        == cfg.proving_key_path@ && assignment_path@ == assignment_path_spec(*cfg)
                }
                &&& !ok ==> {
                    &&& r.1 is Halt
                    &&& r.0 matches SessionState::Failed { error } && error
                        matches DizkError::Serialization { message: m } && m@ == message@
                }
            },
            _ => true,
        }),
        state is AwaitingProver ==> (match event {
            SessionEvent::ProverFinished { launched, exit_code, log } => {
                &&& (launched && exit_code == Option::Some(0i32)) ==> {
                    &&& r.0 is AwaitingProofBytes
                    &&& r.1 matches SessionAction::ReadProofFile { path } && path@
                        == proof_output_path_spec(*cfg)
                }
                &&& !(launched && exit_code == Option::Some(0i32)) ==> {
                    &&& r.1 is Halt
                    &&& r.0 matches SessionState::Failed { error } && error
                        matches DizkError::ExternalProcess {
                        launched: l,
                        exit_code: c,
                        log: out,
                    } && l == launched && c == exit_code && out@ == log@
                }
            },
            _ => true,
        }),
        state is AwaitingProofBytes ==> (match event {
            SessionEvent::ProofBytesRead { ok, bytes, message } => {
                &&& r.1 is Halt
                &&& (ok && stream_ok(bytes@)) ==> (r.0 matches SessionState::Done { proofs }
                    && proofs_match_stream(bytes@, proofs@))
                &&& (ok && !stream_ok(bytes@)) ==> (r.0 matches SessionState::Failed { error }
                    && error matches DizkError::Decode { detail } && detail
                    != DecodeError::Unreadable)
                &&& !ok ==> (r.0 matches SessionState::Failed { error } && error
                    matches DizkError::Decode { detail } && detail == DecodeError::Unreadable)
            },
            _ => true,
        }),
{
    match (state, event) {
        (SessionState::WritingAssignment, SessionEvent::WriteFinished { ok, message }) => {
            if ok {
                let action = SessionAction::RunProver {
                    partitions: cfg.partitions,
                    curve: cfg.curve.clone(),
                    output_path: proof_output_path(cfg),
                    proving_key_path: cfg.proving_key_path.clone(),
                    assignment_path: assignment_path(cfg),
                };
                (SessionState::AwaitingProver, action)
            } else {
                (
                    SessionState::Failed { error: DizkError::Serialization { message } },
                    SessionAction::Halt,
                )
            }
        },
        (SessionState::AwaitingProver, SessionEvent::ProverFinished { launched, exit_code, log }) => {
            let success = launched && (match exit_code {
                Option::Some(c) => c == 0,
                Option::None => false,
            });
            if success {
                (
                    SessionState::AwaitingProofBytes,
                    SessionAction::ReadProofFile { path: proof_output_path(cfg) },
                )
            } else {
                (
                    SessionState::Failed {
                        error: DizkError::ExternalProcess { launched, exit_code, log },
                    },
                    SessionAction::Halt,
                )
            }
        },
        (SessionState::AwaitingProofBytes, SessionEvent::ProofBytesRead { ok, bytes, message }) => {
            if ok {
                match decode_proofs(&bytes) {
                    Ok(proofs) => (SessionState::Done { proofs }, SessionAction::Halt),
                    Err(error) => (SessionState::Failed { error }, SessionAction::Halt),
                }
            } else {
                (
                    SessionState::Failed {
                        error: DizkError::Decode { detail: DecodeError::Unreadable },
                    },
                    SessionAction::Halt,
                )
            }
        },
        _ => {
            // excluded by `session_accepts`
            proof {
                assert(false);
            }
            (
                SessionState::Failed { error: DizkError::Decode { detail: DecodeError::Unreadable } },
                SessionAction::Halt,
            )
        },
    }
}

} // verus!
