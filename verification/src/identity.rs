//! Identities: two secrets derived from a seed, and the commitment to them.
use crate::error::SemaphoreError;
use crate::field::{hash_pair, hash_single, poseidon_pair, poseidon_single, FieldElement};
use vstd::prelude::*;

verus! {

/// The trapdoor and the nullifier secret, in this order, that a seed gives.
pub uninterp spec fn derived_secrets(seed: Seq<u8>) -> (Seq<u64>, Seq<u64>);

/// The commitment to a trapdoor and a nullifier secret: the hash of the hash
/// of the nullifier secret and the trapdoor.
pub open spec fn commitment_of(trapdoor: Seq<u64>, nullifier_secret: Seq<u64>) -> Seq<u64> {
    poseidon_single(poseidon_pair(nullifier_secret, trapdoor))
}

/// A private identity. The two secrets never leave it but by its own methods.
#[derive(Clone, Copy, Debug, PartialEq, Eq)]
pub struct Identity {
    pub(crate) trapdoor: FieldElement,
    pub(crate) nullifier_secret: FieldElement,
    pub(crate) commitment: FieldElement,
}

/// Calls `semaphore_rs::identity::Identity::from_secret` on a copy of the
/// seed, with no trapdoor seed of its own. The outside function derives both
/// secrets from SHA-256 digests of the seed and reduces each modulo the field
/// order; it overwrites the buffer it is given, hence the copy.
#[verifier::external_body]
fn secrets_from_seed(seed: &[u8]) -> (r: (FieldElement, FieldElement))
    ensures
        (r.0@, r.1@) == derived_secrets(seed@),
{
    let mut copy = seed.to_vec();
    let id = semaphore_rs::identity::Identity::from_secret(&mut copy, None);
    let t = id.trapdoor.into_limbs();
    let n = id.nullifier.into_limbs();
    (
        FieldElement { l0: t[0], l1: t[1], l2: t[2], l3: t[3] },
        FieldElement { l0: n[0], l1: n[1], l2: n[2], l3: n[3] },
    )
}

impl Identity {
    /// The commitment is the one that belongs to the two secrets.
    pub closed spec fn wf(&self) -> bool {
        self.commitment@ == commitment_of(self.trapdoor@, self.nullifier_secret@)
    }

    /// The trapdoor, by its limbs.
    pub closed spec fn spec_trapdoor(&self) -> Seq<u64> {
        self.trapdoor@
    }

    /// The nullifier secret, by its limbs.
    pub closed spec fn spec_nullifier_secret(&self) -> Seq<u64> {
        self.nullifier_secret@
    }

    /// The commitment, by its limbs.
    pub closed spec fn spec_commitment(&self) -> Seq<u64> {
        self.commitment@
    }

    /// Whether this is the identity that `seed` gives.
    pub open spec fn derived_from(&self, seed: Seq<u8>) -> bool {
        &&& (self.spec_trapdoor(), self.spec_nullifier_secret()) == derived_secrets(seed)
        &&& self.spec_commitment() == commitment_of(
            self.spec_trapdoor(),
            self.spec_nullifier_secret(),
        )
    }

    /// One seed gives one identity: two identities derived from the same
    /// seed have the same trapdoor, nullifier secret and commitment.
    pub proof fn lemma_derive_deterministic(self, other: Identity, seed: Seq<u8>)
        requires
            self.derived_from(seed),
            other.derived_from(seed),
        ensures
            self.spec_trapdoor() == other.spec_trapdoor(),
            self.spec_nullifier_secret() == other.spec_nullifier_secret(),
            self.spec_commitment() == other.spec_commitment(),
            self == other,
    {
        self.trapdoor.lemma_view_injective(other.trapdoor);
        self.nullifier_secret.lemma_view_injective(other.nullifier_secret);
        self.commitment.lemma_view_injective(other.commitment);
    }

    /// The identity that a seed of exactly 32 bytes gives. A seed of any
    /// other length is refused.
    pub fn derive(seed: &[u8]) -> (r: Result<Identity, SemaphoreError>)
        ensures
            r is Ok <==> seed@.len() == 32,
            r is Err ==> r == Err::<Identity, SemaphoreError>(SemaphoreError::InvalidSeedLength),
            r matches Ok(id) ==> id.wf() && id.derived_from(seed@),
    {
        if seed.len() != 32 {
            return Err(SemaphoreError::InvalidSeedLength);
        }
        let (trapdoor, nullifier_secret) = secrets_from_seed(seed);
        let inner = hash_pair(&nullifier_secret, &trapdoor);
        let commitment = hash_single(&inner);
        Ok(Identity { trapdoor, nullifier_secret, commitment })
    }

    /// The trapdoor, one of the two secrets.
    pub fn trapdoor(&self) -> (r: FieldElement)
        ensures
            r@ == self.spec_trapdoor(),
    {
        self.trapdoor
    }

    /// The nullifier secret, the other of the two secrets.
    pub fn nullifier_secret(&self) -> (r: FieldElement)
        ensures
            r@ == self.spec_nullifier_secret(),
    {
        self.nullifier_secret
    }

    /// The commitment, which may be published.
    pub fn commitment(&self) -> (r: FieldElement)
        ensures
            r@ == self.spec_commitment(),
    {
        self.commitment
    }
}

} // verus!
