//! The proof round trip: nullifier hashes, proof generation and verification
//! by the Groth16 backend, and the states that a round goes through.
use crate::error::SemaphoreError;
use crate::field::{hash_pair, poseidon_pair, FieldElement};
use crate::identity::Identity;
use crate::tree::{path_root, Direction, MembershipPath};
use semaphore_rs::poseidon_tree::Branch;
use vstd::prelude::*;

verus! {

/// The backend's error. Nothing is known of a value of it here.
#[verifier::external_type_specification]
#[verifier::external_body]
pub struct ExBackendError(semaphore_rs::protocol::ProofError);

/// Whether the backend has a circuit for trees of this depth.
pub uninterp spec fn depth_supported(depth: nat) -> bool;

/// What the checking backend makes of four public values, a proof given by
/// its eight words, and a depth: its verdict, or `None` where it gives none.
pub uninterp spec fn backend_check(
    root: Seq<u64>,
    nullifier_hash: Seq<u64>,
    signal_hash: Seq<u64>,
    external_nullifier_hash: Seq<u64>,
    words: Seq<Seq<u64>>,
    depth: nat,
) -> Option<bool>;

/// Least significant limb of the order of the curve's base field.
pub const BASE_LIMB_0: u64 = 0x3c208c16d87cfd47;

/// Second limb of the order of the curve's base field.
pub const BASE_LIMB_1: u64 = 0x97816a916871ca8d;

/// Third limb of the order of the curve's base field.
pub const BASE_LIMB_2: u64 = 0xb85045b68181585d;

/// Most significant limb of the order of the curve's base field.
pub const BASE_LIMB_3: u64 = 0x30644e72e131a029;

/// Whether four little-endian limbs denote a number below the order of the
/// curve's base field, as every coordinate of a curve point does.
pub open spec fn coordinate(limbs: Seq<u64>) -> bool {
    &&& limbs.len() == 4
    &&& (limbs[3] < BASE_LIMB_3 || (limbs[3] == BASE_LIMB_3 && (limbs[2] < BASE_LIMB_2 || (limbs[2]
        == BASE_LIMB_2 && (limbs[1] < BASE_LIMB_1 || (limbs[1] == BASE_LIMB_1 && limbs[0]
        < BASE_LIMB_0))))))
}

/// Whether a word is a coordinate.
fn is_coordinate(word: &[u64; 4]) -> (r: bool)
    ensures
        r == coordinate(word@),
{
    word[3] < BASE_LIMB_3 || (word[3] == BASE_LIMB_3 && (word[2] < BASE_LIMB_2 || (word[2]
        == BASE_LIMB_2 && (word[1] < BASE_LIMB_1 || (word[1] == BASE_LIMB_1 && word[0]
        < BASE_LIMB_0)))))
}

/// What the proving backend hands out: the eight coordinates of a Groth16
/// proof's three points, each as four little-endian limbs. The library only
/// ever carries it and has it checked.
#[derive(Clone, Copy, Debug, PartialEq, Eq)]
pub struct ProofArtifact {
    pub(crate) words: [[u64; 4]; 8],
}

impl View for ProofArtifact {
    type V = Seq<Seq<u64>>;

    closed spec fn view(&self) -> Seq<Seq<u64>> {
        Seq::new(8, |k: int| self.words@[k]@)
    }
}

impl ProofArtifact {
    #[verifier::type_invariant]
    spec fn all_coordinates(self) -> bool {
        forall|k: int| 0 <= k < 8 ==> coordinate(#[trigger] self.words@[k]@)
    }

    /// The artifact with the given words, or `None` where one of them is
    /// not below the order of the base field.
    pub fn from_words(words: [[u64; 4]; 8]) -> (r: Option<ProofArtifact>)
        ensures
            r.is_some() <==> forall|k: int| 0 <= k < 8 ==> coordinate(#[trigger] words@[k]@),
            r matches Some(artifact) ==> artifact@ == Seq::new(8, |k: int| words@[k]@),
    {
        let mut k: usize = 0;
        while k < 8
            invariant
                k <= 8,
                forall|j: int| 0 <= j < k ==> coordinate(#[trigger] words@[j]@),
            decreases 8 - k,
        {
            if !is_coordinate(&words[k]) {
                return None;
            }
            k = k + 1;
        }
        Some(ProofArtifact { words })
    }

    /// The eight words of the artifact.
    pub fn to_words(&self) -> (r: [[u64; 4]; 8])
        ensures
            Seq::new(8, |k: int| r@[k]@) == self@,
    {
        self.words
    }
}

/// Calls `semaphore_rs::get_supported_depths`, the list of the depths that
/// the backend was built with a circuit for, and copies it.
#[verifier::external_body]
fn backend_depths() -> (r: Vec<usize>)
    ensures
        forall|depth: usize|
            #![trigger r@.contains(depth)]
            #![trigger depth_supported(depth as nat)]
            r@.contains(depth) <==> depth_supported(depth as nat),
{
    semaphore_rs::get_supported_depths().to_vec()
}

/// Whether the backend has a circuit for trees of this depth.
pub fn supports_depth(depth: usize) -> (r: bool)
    ensures
        r == depth_supported(depth as nat),
{
    let depths = backend_depths();
    let mut k: usize = 0;
    while k < depths.len()
        invariant
            k <= depths@.len(),
            forall|d: usize|
                #![trigger depths@.contains(d)]
                #![trigger depth_supported(d as nat)]
                depths@.contains(d) <==> depth_supported(d as nat),
            forall|j: int| 0 <= j < k ==> depths@[j] != depth,
        decreases depths@.len() - k,
    {
        if depths[k] == depth {
            assert(depths@.contains(depth));
            return true;
        }
        k = k + 1;
    }
    assert(!depths@.contains(depth));
    false
}

/// A check's result without the backend's error.
pub open spec fn checked(
    outcome: Result<bool, semaphore_rs::protocol::ProofError>,
) -> Option<bool> {
    match outcome {
        Ok(accepted) => Some(accepted),
        Err(_) => None,
    }
}

/// Calls `semaphore_rs::protocol::generate_proof`, which draws its blinding
/// from the thread's random number generator: nothing is claimed of the
/// result but that its words are coordinates of curve points, as which the
/// outside crate writes them out. The outside function panics where it has
/// no circuit for the path's length. A sibling on the right is the outside
/// crate's left branch.
#[verifier::external_body]
fn backend_prove(
    identity: &Identity,
    path: &MembershipPath,
    external_nullifier_hash: &FieldElement,
    signal_hash: &FieldElement,
) -> (r: Result<ProofArtifact, semaphore_rs::protocol::ProofError>)
    requires
        depth_supported(path@.len()),
{
    let u = |f: &FieldElement| ruint::Uint::from_limbs([f.l0, f.l1, f.l2, f.l3]);
    let id = semaphore_rs::identity::Identity {
        trapdoor: u(&identity.trapdoor),
        nullifier: u(&identity.nullifier_secret),
    };
    let branches = path.steps.iter().map(|s| match s.direction {
        Direction::Right => Branch::Left(u(&s.sibling)),
        Direction::Left => Branch::Right(u(&s.sibling)),
    }).collect();
    let path = semaphore_rs::poseidon_tree::Proof { 0: branches };
    let made = semaphore_rs::protocol::generate_proof(
        &id, &path, u(external_nullifier_hash), u(signal_hash))?;
    Ok(ProofArtifact { words: made.flatten().map(|w| w.into_limbs()) })
}

/// Calls `semaphore_rs::protocol::verify_proof`, whose result depends on its
/// arguments alone and is named, not computed here. The outside function
/// panics where it has no circuit for the depth, and where a word of the
/// proof is not below the order of the base field, which no artifact's is.
#[verifier::external_body]
fn backend_verify(
    root: &FieldElement,
    nullifier_hash: &FieldElement,
    signal_hash: &FieldElement,
    external_nullifier_hash: &FieldElement,
    artifact: &ProofArtifact,
    depth: usize,
) -> (r: Result<bool, semaphore_rs::protocol::ProofError>)
    requires
        depth_supported(depth as nat),
    ensures
        checked(r) == backend_check(
            root@,
            nullifier_hash@,
            signal_hash@,
            external_nullifier_hash@,
            artifact@,
            depth as nat,
        ),
{
    let u = |f: &FieldElement| ruint::Uint::from_limbs([f.l0, f.l1, f.l2, f.l3]);
    let inner = semaphore_rs::protocol::Proof::from_flat(
        artifact.words.map(|w| ruint::Uint::from_limbs(w)));
    semaphore_rs::protocol::verify_proof(
        u(root),
        u(nullifier_hash),
        u(signal_hash),
        u(external_nullifier_hash),
        &inner,
        depth,
    )
}

/// Calls `to_string` on the backend's error, for its own words.
#[verifier::external_body]
fn backend_error_text(error: &semaphore_rs::protocol::ProofError) -> (r: String) {
    error.to_string()
}

/// The tag that marks one identity's signals under one external nullifier:
/// the hash of the external nullifier's hash and the nullifier secret.
pub fn nullifier_hash(identity: &Identity, external_nullifier_hash: FieldElement) -> (r:
    FieldElement)
    ensures
        r@ == poseidon_pair(external_nullifier_hash@, identity.spec_nullifier_secret()),
{
    let secret = identity.nullifier_secret();
    hash_pair(&external_nullifier_hash, &secret)
}

/// The four values that a proof is bound to and that its checker is given.
#[derive(Clone, Copy, Debug, PartialEq, Eq)]
pub struct PublicInputs {
    /// The root that the path leads to from the identity's commitment.
    pub root: FieldElement,
    /// The tag of the identity under the external nullifier.
    pub nullifier_hash: FieldElement,
    /// The hash of the signal.
    pub signal_hash: FieldElement,
    /// The hash of the external nullifier.
    pub external_nullifier_hash: FieldElement,
}

/// The public values of a proof for this identity and path: the root that
/// the path implies for the identity's commitment, the nullifier hash, and
/// the two hashes as they were given.
pub fn assemble(
    identity: &Identity,
    path: &MembershipPath,
    external_nullifier_hash: FieldElement,
    signal_hash: FieldElement,
) -> (r: PublicInputs)
    ensures
        r.root@ == path_root(identity.spec_commitment(), path@),
        r.nullifier_hash@ == poseidon_pair(
            external_nullifier_hash@,
            identity.spec_nullifier_secret(),
        ),
        r.signal_hash == signal_hash,
        r.external_nullifier_hash == external_nullifier_hash,
{
    PublicInputs {
        root: path.compute_root(identity.commitment()),
        nullifier_hash: nullifier_hash(identity, external_nullifier_hash),
        signal_hash,
        external_nullifier_hash,
    }
}

/// What a round of proving ends in, given what the backend handed back: the
/// proof, or the backend's refusal with the reason it gave.
pub fn generation_outcome(produced: Result<ProofArtifact, String>) -> (r: Result<
    ProofArtifact,
    SemaphoreError,
>)
    ensures
        match produced {
            Ok(artifact) => r == Ok::<ProofArtifact, SemaphoreError>(artifact),
            Err(reason) => r == Err::<ProofArtifact, SemaphoreError>(
                SemaphoreError::ProofGenerationFailed(reason),
            ),
        },
{
    match produced {
        Ok(artifact) => Ok(artifact),
        Err(reason) => Err(SemaphoreError::ProofGenerationFailed(reason)),
    }
}

/// Whether a check by the backend counts as acceptance: only where the
/// backend ran through and said yes.
pub fn verdict(checked: Option<bool>) -> (r: bool)
    ensures
        r == (checked == Some(true)),
{
    match checked {
        Some(accepted) => accepted,
        None => false,
    }
}

/// A proof that the identity's commitment is the leaf that `path` starts at,
/// bound to the external nullifier and the signal. A path whose length the
/// backend has no circuit for is refused as a depth mismatch; a refusal by
/// the backend itself is handed on with its reason.
pub fn generate(
    identity: &Identity,
    path: &MembershipPath,
    external_nullifier_hash: FieldElement,
    signal_hash: FieldElement,
) -> (r: Result<ProofArtifact, SemaphoreError>)
    ensures
        !depth_supported(path@.len()) <==> r == Err::<ProofArtifact, SemaphoreError>(
            SemaphoreError::DepthMismatch,
        ),
        depth_supported(path@.len()) ==> (r is Ok || r matches Err(
            SemaphoreError::ProofGenerationFailed(_),
        )),
{
    if !supports_depth(path.len()) {
        return Err(SemaphoreError::DepthMismatch);
    }
    let produced = match backend_prove(identity, path, &external_nullifier_hash, &signal_hash) {
        Ok(artifact) => Ok(artifact),
        Err(error) => Err(backend_error_text(&error)),
    };
    generation_outcome(produced)
}

/// Whether the backend accepts the proof for these four public values and
/// this depth. A depth that the backend has no circuit for, and a proof or
/// a value that the backend cannot read, count as not accepted.
pub fn verify(
    root: FieldElement,
    nullifier_hash: FieldElement,
    signal_hash: FieldElement,
    external_nullifier_hash: FieldElement,
    artifact: &ProofArtifact,
    depth: usize,
) -> (r: bool)
    ensures
        r == (depth_supported(depth as nat) && backend_check(
            root@,
            nullifier_hash@,
            signal_hash@,
            external_nullifier_hash@,
            artifact@,
            depth as nat,
        ) == Some(true)),
{
    if !supports_depth(depth) {
        return false;
    }
    let checked = match backend_verify(
        &root,
        &nullifier_hash,
        &signal_hash,
        &external_nullifier_hash,
        artifact,
        depth,
    ) {
        Ok(accepted) => Some(accepted),
        Err(_) => None,
    };
    verdict(checked)
}

} // verus!
