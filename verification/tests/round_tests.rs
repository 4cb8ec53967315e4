use semaphore_mock::error::SemaphoreError;
use semaphore_mock::field::{hash_to_field, FieldElement};
use semaphore_mock::identity::Identity;
use semaphore_mock::protocol::nullifier_hash;
use semaphore_mock::registry::enrol;
use semaphore_mock::round::{run_round, RoundEvent, RoundState};
use semaphore_mock::tree::CommitmentTree;

const STATES: [RoundState; 6] = [
    RoundState::Idle,
    RoundState::PathObtained,
    RoundState::InputsAssembled,
    RoundState::ProofGenerated,
    RoundState::Verified,
    RoundState::Rejected,
];

const EVENTS: [RoundEvent; 5] = [
    RoundEvent::PathReady,
    RoundEvent::InputsReady,
    RoundEvent::ProofReady,
    RoundEvent::Accepted,
    RoundEvent::Refused,
];

#[test]
fn round_goes_through_every_state_in_order() {
    let s = RoundState::Idle;
    let s = s.advance(RoundEvent::PathReady).unwrap();
    assert_eq!(s, RoundState::PathObtained);
    let s = s.advance(RoundEvent::InputsReady).unwrap();
    assert_eq!(s, RoundState::InputsAssembled);
    let s = s.advance(RoundEvent::ProofReady).unwrap();
    assert_eq!(s, RoundState::ProofGenerated);
    assert_eq!(s.advance(RoundEvent::Accepted), Some(RoundState::Verified));
    assert_eq!(s.advance(RoundEvent::Refused), Some(RoundState::Rejected));
}

#[test]
fn only_five_transitions_exist() {
    let mut count = 0;
    for s in STATES.iter() {
        for e in EVENTS.iter() {
            if s.advance(*e).is_some() {
                count += 1;
            }
        }
    }
    assert_eq!(count, 5);
    assert_eq!(RoundState::Idle.advance(RoundEvent::ProofReady), None);
    assert_eq!(RoundState::PathObtained.advance(RoundEvent::ProofReady), None);
    assert_eq!(RoundState::Idle.advance(RoundEvent::Accepted), None);
}

#[test]
fn terminal_states_have_no_successor() {
    for s in STATES.iter() {
        let terminal = *s == RoundState::Verified || *s == RoundState::Rejected;
        assert_eq!(s.is_terminal(), terminal);
        if terminal {
            for e in EVENTS.iter() {
                assert_eq!(s.advance(*e), None);
            }
        }
    }
}

#[test]
fn enrol_sets_the_commitments_in_order() {
    let seeds = vec![vec![1u8; 32], vec![2u8; 32], vec![3u8; 32]];
    let (tree, identities) = enrol(4, &seeds).unwrap();
    assert_eq!(identities.len(), 3);
    let mut by_hand = CommitmentTree::new(4, FieldElement::zero());
    for (i, seed) in seeds.iter().enumerate() {
        let id = Identity::derive(seed).unwrap();
        assert_eq!(identities[i], id);
        by_hand.update(i, id.commitment()).unwrap();
    }
    assert_eq!(tree.root(), by_hand.root());
    assert_eq!(tree.depth(), 4);
    assert_ne!(tree.root(), CommitmentTree::new(4, FieldElement::zero()).root());
}

#[test]
fn enrol_without_seeds_is_the_empty_tree() {
    let (tree, identities) = enrol(5, &Vec::new()).unwrap();
    assert!(identities.is_empty());
    assert_eq!(tree.root(), CommitmentTree::new(5, FieldElement::zero()).root());
}

#[test]
fn enrol_refuses_a_short_seed() {
    let seeds = vec![vec![1u8; 32], vec![2u8; 31]];
    assert_eq!(enrol(4, &seeds).err(), Some(SemaphoreError::InvalidSeedLength));
}

#[test]
fn enrol_refuses_more_seeds_than_leaves() {
    let seeds = vec![vec![1u8; 32], vec![2u8; 32], vec![3u8; 32]];
    assert_eq!(enrol(1, &seeds).err(), Some(SemaphoreError::IndexOutOfRange));
    assert!(enrol(1, &seeds[..2].to_vec()).is_ok());
}

#[test]
fn round_for_a_missing_leaf_fails() {
    let (tree, identities) = enrol(4, &vec![vec![1u8; 32]]).unwrap();
    let r = run_round(&tree, &identities[0], 16, b"appId", b"xxx");
    assert_eq!(r, Err(SemaphoreError::IndexOutOfRange));
}

#[test]
fn round_at_a_depth_without_a_circuit_fails() {
    let (tree, identities) = enrol(4, &vec![vec![1u8; 32]]).unwrap();
    let r = run_round(&tree, &identities[0], 0, b"appId", b"xxx");
    assert_eq!(r, Err(SemaphoreError::DepthMismatch));
}

#[test]
fn round_for_an_enrolled_identity_is_verified() {
    let seeds = vec![vec![1u8; 32], vec![2u8; 32], vec![3u8; 32]];
    let (tree, identities) = enrol(16, &seeds).unwrap();
    let report = run_round(&tree, &identities[1], 1, b"appId", b"xxx").unwrap();
    assert_eq!(report.state, RoundState::Verified);
    assert_eq!(report.root, tree.root());
    assert_eq!(report.nullifier_hash, nullifier_hash(&identities[1], hash_to_field(b"appId")));
}

#[test]
fn round_for_the_wrong_leaf_is_rejected_or_fails() {
    let seeds = vec![vec![1u8; 32], vec![2u8; 32]];
    let (tree, identities) = enrol(16, &seeds).unwrap();
    match run_round(&tree, &identities[1], 0, b"appId", b"xxx") {
        Ok(report) => assert_eq!(report.state, RoundState::Rejected),
        Err(e) => assert_eq!(e.kind(), "ProofGenerationFailed"),
    }
}

#[test]
fn error_kinds_have_their_names() {
    assert_eq!(SemaphoreError::InvalidSeedLength.kind(), "InvalidSeedLength");
    assert_eq!(SemaphoreError::IndexOutOfRange.kind(), "IndexOutOfRange");
    assert_eq!(SemaphoreError::DepthMismatch.kind(), "DepthMismatch");
    assert_eq!(SemaphoreError::MalformedPersistedDocument.kind(), "MalformedPersistedDocument");
    assert_eq!(SemaphoreError::BackendUnavailable.kind(), "BackendUnavailable");
    let failed = SemaphoreError::ProofGenerationFailed(String::from("why"));
    assert_eq!(failed.kind(), "ProofGenerationFailed");
    assert_eq!(failed.reason(), Some(&String::from("why")));
    assert_eq!(SemaphoreError::DepthMismatch.reason(), None);
}

#[test]
fn enrol_fails_at_the_first_seed_that_cannot_be_placed() {
    let good = vec![1u8; 32];
    let bad = vec![1u8; 5];
    let at_the_limit = vec![good.clone(), good.clone(), bad.clone()];
    assert_eq!(enrol(1, &at_the_limit).err(), Some(SemaphoreError::InvalidSeedLength));
    let past_the_limit = vec![good.clone(), good.clone(), good.clone(), bad.clone()];
    assert_eq!(enrol(1, &past_the_limit).err(), Some(SemaphoreError::IndexOutOfRange));
    let before_the_limit = vec![bad, good.clone(), good.clone(), good];
    assert_eq!(enrol(1, &before_the_limit).err(), Some(SemaphoreError::InvalidSeedLength));
}

#[test]
fn round_report_carries_the_proof_that_was_checked() {
    let seeds = vec![vec![7u8; 32]];
    let (tree, identities) = enrol(16, &seeds).unwrap();
    let report = run_round(&tree, &identities[0], 0, b"appId", b"xxx").unwrap();
    let accepted = semaphore_mock::protocol::verify(
        report.root,
        report.nullifier_hash,
        hash_to_field(b"xxx"),
        hash_to_field(b"appId"),
        &report.artifact,
        16,
    );
    assert!(accepted);
    assert_eq!(report.state, RoundState::Verified);
}

#[test]
fn assembled_root_is_the_tree_root_for_an_enrolled_identity() {
    let seeds = vec![vec![1u8; 32], vec![2u8; 32], vec![3u8; 32]];
    let (tree, identities) = enrol(6, &seeds).unwrap();
    let external = hash_to_field(b"appId");
    let signal = hash_to_field(b"xxx");
    let path = tree.path(2).unwrap();
    let inputs = semaphore_mock::protocol::assemble(&identities[2], &path, external, signal);
    assert_eq!(inputs.root, tree.root());
    assert_eq!(inputs.nullifier_hash, nullifier_hash(&identities[2], external));
    assert_eq!(inputs.signal_hash, signal);
    assert_eq!(inputs.external_nullifier_hash, external);
    let other = semaphore_mock::protocol::assemble(&identities[1], &path, external, signal);
    assert_ne!(other.root, tree.root());
}
