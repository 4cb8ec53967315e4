//! A tree filled with the commitments of identities, in the order of their seeds.
use crate::error::SemaphoreError;
use crate::field::FieldElement;
use crate::identity::Identity;
use crate::tree::CommitmentTree;
use vstd::arithmetic::power2::pow2;
use vstd::prelude::*;

verus! {

/// The leaves of a tree whose first leaves hold the commitments of
/// `identities`, in their order, and whose other leaves hold `empty`.
pub open spec fn enrolled_leaves(identities: Seq<Identity>, empty: Seq<u64>, depth: nat) -> Map<
    nat,
    Seq<u64>,
> {
    Map::new(
        |i: nat| i < pow2(depth),
        |i: nat|
            if i < identities.len() {
                identities[i as int].spec_commitment()
            } else {
                empty
            },
    )
}

/// Whether every seed has exactly 32 bytes.
pub open spec fn seeds_valid(seeds: Seq<Vec<u8>>) -> bool {
    forall|k: int| 0 <= k < seeds.len() ==> (#[trigger] seeds[k])@.len() == 32
}

/// Whether one of the seeds up to place `limit` has not 32 bytes.
pub open spec fn bad_seed_within(seeds: Seq<Vec<u8>>, limit: nat) -> bool {
    exists|k: int| 0 <= k < seeds.len() && k <= limit && (#[trigger] seeds[k])@.len() != 32
}

/// The tree of the given depth, with the zero element as its empty leaf, in
/// which leaf `k` holds the commitment of the identity that seed `k` gives,
/// together with those identities. The seeds are taken in their order:
/// fails with `InvalidSeedLength` at the first seed that has not 32 bytes,
/// and with `IndexOutOfRange` at the first seed for which no leaf is left.
pub fn enrol(depth: usize, seeds: &Vec<Vec<u8>>) -> (r: Result<
    (CommitmentTree, Vec<Identity>),
    SemaphoreError,
>)
    requires
        depth < usize::MAX,
    ensures
        r is Ok <==> seeds_valid(seeds@) && seeds@.len() <= pow2(depth as nat),
        r == Err::<(CommitmentTree, Vec<Identity>), SemaphoreError>(
            SemaphoreError::InvalidSeedLength,
        ) <==> bad_seed_within(seeds@, pow2(depth as nat)),
        r == Err::<(CommitmentTree, Vec<Identity>), SemaphoreError>(
            SemaphoreError::IndexOutOfRange,
        ) <==> !bad_seed_within(seeds@, pow2(depth as nat)) && seeds@.len() > pow2(depth as nat),
        r matches Ok((tree, identities)) ==> {
            &&& tree.wf()
            &&& tree.spec_depth() == depth
            &&& tree.spec_empty_leaf() == FieldElement::zero_limbs()
            &&& identities@.len() == seeds@.len()
            &&& forall|k: int|
                0 <= k < seeds@.len() ==> (#[trigger] identities@[k]).derived_from(seeds@[k]@)
            &&& tree@ == enrolled_leaves(identities@, FieldElement::zero_limbs(), depth as nat)
        },
{
    let mut tree = CommitmentTree::new(depth, FieldElement::zero());
    let mut identities: Vec<Identity> = Vec::new();
    let mut k: usize = 0;
    assert(tree@ =~= enrolled_leaves(identities@, FieldElement::zero_limbs(), depth as nat));
    while k < seeds.len()
        invariant
            k <= seeds@.len(),
            k <= pow2(depth as nat),
            tree.wf(),
            tree.spec_depth() == depth,
            tree.spec_empty_leaf() == FieldElement::zero_limbs(),
            identities@.len() == k,
            forall|j: int| 0 <= j < k ==> (#[trigger] seeds@[j])@.len() == 32,
            forall|j: int| 0 <= j < k ==> (#[trigger] identities@[j]).derived_from(seeds@[j]@),
            tree@ == enrolled_leaves(identities@, FieldElement::zero_limbs(), depth as nat),
        decreases seeds@.len() - k,
    {
        let identity = match Identity::derive(seeds[k].as_slice()) {
            Ok(identity) => identity,
            Err(error) => {
                assert(seeds@[k as int]@.len() != 32);
                return Err(error);
            },
        };
        let ghost before = tree@;
        match tree.update(k, identity.commitment()) {
            Ok(()) => {},
            Err(error) => {
                assert forall|j: int| 0 <= j < seeds@.len() && j <= pow2(
                    depth as nat,
                ) implies (#[trigger] seeds@[j])@.len() == 32 by {
                    if j == k {
                    }
                }
                return Err(error);
            },
        }
        identities.push(identity);
        assert(tree@ =~= enrolled_leaves(identities@, FieldElement::zero_limbs(), depth as nat)) by {
            tree.lemma_domain();
            assert(before.dom() =~= tree@.dom());
        }
        k = k + 1;
    }
    assert(seeds_valid(seeds@));
    Ok((tree, identities))
}

} // verus!
