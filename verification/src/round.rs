//! The states of one proof round trip, and a round driven through them.
use crate::error::SemaphoreError;
use crate::field::{hash_to_field, keccak_field, poseidon_pair, FieldElement};
use crate::identity::Identity;
use crate::protocol::{
    backend_check, depth_supported, generate, nullifier_hash, verify, ProofArtifact,
};
use crate::tree::{node_value, CommitmentTree};
use vstd::arithmetic::power2::pow2;
use vstd::prelude::*;

verus! {

/// Where a round trip stands.
#[derive(Clone, Copy, Debug, PartialEq, Eq, Structural)]
pub enum RoundState {
    /// Nothing has been done yet.
    Idle,
    /// The membership path of the leaf is at hand.
    PathObtained,
    /// The hashes of signal and external nullifier and the nullifier hash are at hand.
    InputsAssembled,
    /// The backend has handed out a proof.
    ProofGenerated,
    /// The backend has accepted the proof.
    Verified,
    /// The backend has not accepted the proof.
    Rejected,
}

/// What happened in a round trip.
#[derive(Clone, Copy, Debug, PartialEq, Eq, Structural)]
pub enum RoundEvent {
    /// The tree gave the path.
    PathReady,
    /// The inputs were put together.
    InputsReady,
    /// The backend gave a proof.
    ProofReady,
    /// The backend accepted the proof.
    Accepted,
    /// The backend did not accept the proof.
    Refused,
}

/// The state that follows `state` on `event`, or `None` where the event has
/// no place in that state.
pub open spec fn next_state(state: RoundState, event: RoundEvent) -> Option<RoundState> {
    match (state, event) {
        (RoundState::Idle, RoundEvent::PathReady) => Some(RoundState::PathObtained),
        (RoundState::PathObtained, RoundEvent::InputsReady) => Some(RoundState::InputsAssembled),
        (RoundState::InputsAssembled, RoundEvent::ProofReady) => Some(RoundState::ProofGenerated),
        (RoundState::ProofGenerated, RoundEvent::Accepted) => Some(RoundState::Verified),
        (RoundState::ProofGenerated, RoundEvent::Refused) => Some(RoundState::Rejected),
        _ => None,
    }
}

/// How many steps a state lies from the start.
pub open spec fn rank(state: RoundState) -> nat {
    match state {
        RoundState::Idle => 0,
        RoundState::PathObtained => 1,
        RoundState::InputsAssembled => 2,
        RoundState::ProofGenerated => 3,
        RoundState::Verified => 4,
        RoundState::Rejected => 4,
    }
}

/// Whether a state is one of the two in which a round ends.
pub open spec fn terminal(state: RoundState) -> bool {
    state == RoundState::Verified || state == RoundState::Rejected
}

impl RoundState {
    /// The state that follows on `event`, or `None` where the event has no
    /// place in this state.
    pub fn advance(self, event: RoundEvent) -> (r: Option<RoundState>)
        ensures
            r == next_state(self, event),
    {
        match (self, event) {
            (RoundState::Idle, RoundEvent::PathReady) => Some(RoundState::PathObtained),
            (RoundState::PathObtained, RoundEvent::InputsReady) => Some(
                RoundState::InputsAssembled,
            ),
            (RoundState::InputsAssembled, RoundEvent::ProofReady) => Some(
                RoundState::ProofGenerated,
            ),
            (RoundState::ProofGenerated, RoundEvent::Accepted) => Some(RoundState::Verified),
            (RoundState::ProofGenerated, RoundEvent::Refused) => Some(RoundState::Rejected),
            _ => None,
        }
    }

    /// Whether a round ends in this state.
    pub fn is_terminal(self) -> (r: bool)
        ensures
            r == terminal(self),
    {
        match self {
            RoundState::Verified => true,
            RoundState::Rejected => true,
            _ => false,
        }
    }
}

/// No step skips a state: each leads exactly one step further from the start.
pub proof fn lemma_no_state_skipped(state: RoundState, event: RoundEvent)
    ensures
        next_state(state, event) matches Some(next) ==> rank(next) == rank(state) + 1,
{
}

/// Nothing follows a state in which a round ends.
pub proof fn lemma_terminal_is_final(state: RoundState, event: RoundEvent)
    requires
        terminal(state),
    ensures
        next_state(state, event) is None,
{
}

/// A proof is only ever generated from assembled inputs.
pub proof fn lemma_proof_needs_inputs(state: RoundState, event: RoundEvent)
    requires
        next_state(state, event) == Some(RoundState::ProofGenerated),
    ensures
        state == RoundState::InputsAssembled,
{
}

/// What a finished round leaves behind.
#[derive(Clone, Copy, Debug, PartialEq, Eq)]
pub struct RoundReport {
    /// The root that the proof was checked against.
    pub root: FieldElement,
    /// The tag of the identity under the external nullifier.
    pub nullifier_hash: FieldElement,
    /// The proof that the backend handed out.
    pub artifact: ProofArtifact,
    /// The state in which the round ended.
    pub state: RoundState,
}

/// One round trip for the leaf at `index`, which holds the commitment of
/// `identity`: the path, the inputs, the proof and its check, in this order.
/// The round ends in `Verified` where the backend accepts the proof it made
/// and in `Rejected` where it does not, or fails where the tree has no such
/// leaf or the backend hands out no proof.
pub fn run_round(
    tree: &CommitmentTree,
    identity: &Identity,
    index: usize,
    external_nullifier: &[u8],
    signal: &[u8],
) -> (r: Result<RoundReport, SemaphoreError>)
    requires
        tree.wf(),
    ensures
        index >= pow2(tree.spec_depth()) ==> r == Err::<RoundReport, SemaphoreError>(
            SemaphoreError::IndexOutOfRange,
        ),
        index < pow2(tree.spec_depth()) && !depth_supported(tree.spec_depth()) ==> r == Err::<
            RoundReport,
            SemaphoreError,
        >(SemaphoreError::DepthMismatch),
        index < pow2(tree.spec_depth()) && depth_supported(tree.spec_depth()) ==> (r is Ok
            || r matches Err(SemaphoreError::ProofGenerationFailed(_))),
        r matches Ok(report) ==> {
            &&& report.root@ == node_value(tree@, tree.spec_depth(), 0)
            &&& report.nullifier_hash@ == poseidon_pair(
                keccak_field(external_nullifier@),
                identity.spec_nullifier_secret(),
            )
            &&& report.state == (if backend_check(
                report.root@,
                report.nullifier_hash@,
                keccak_field(signal@),
                keccak_field(external_nullifier@),
                report.artifact@,
                tree.spec_depth(),
            ) == Some(true) {
                RoundState::Verified
            } else {
                RoundState::Rejected
            })
        },
{
    let state = RoundState::Idle;
    let path = match tree.path(index) {
        Ok(path) => path,
        Err(error) => {
            return Err(error);
        },
    };
    let state = match state.advance(RoundEvent::PathReady) {
        Some(next) => next,
        None => state,
    };
    let root = tree.root();
    let signal_hash = hash_to_field(signal);
    let external_nullifier_hash = hash_to_field(external_nullifier);
    let tag = nullifier_hash(identity, external_nullifier_hash);
    let state = match state.advance(RoundEvent::InputsReady) {
        Some(next) => next,
        None => state,
    };
    let artifact = match generate(identity, &path, external_nullifier_hash, signal_hash) {
        Ok(artifact) => artifact,
        Err(error) => {
            return Err(error);
        },
    };
    let state = match state.advance(RoundEvent::ProofReady) {
        Some(next) => next,
        None => state,
    };
    let accepted = verify(
        root,
        tag,
        signal_hash,
        external_nullifier_hash,
        &artifact,
        tree.depth(),
    );
    let event = if accepted {
        RoundEvent::Accepted
    } else {
        RoundEvent::Refused
    };
    let state = match state.advance(event) {
        Some(next) => next,
        None => state,
    };
    Ok(RoundReport { root, nullifier_hash: tag, artifact, state })
}

} // verus!
