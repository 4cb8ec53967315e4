//! Elements of the BN254 scalar field and the hash primitives over them.
use vstd::prelude::*;

verus! {

/// Least significant limb of the field order.
pub const MODULUS_LIMB_0: u64 = 0x43e1f593f0000001;

/// Second limb of the field order.
pub const MODULUS_LIMB_1: u64 = 0x2833e84879b97091;

/// Third limb of the field order.
pub const MODULUS_LIMB_2: u64 = 0xb85045b68181585d;

/// Most significant limb of the field order.
pub const MODULUS_LIMB_3: u64 = 0x30644e72e131a029;

/// Whether four little-endian 64-bit limbs denote a number below the field order.
pub open spec fn canonical(limbs: Seq<u64>) -> bool {
    &&& limbs.len() == 4
    &&& (limbs[3] < MODULUS_LIMB_3 || (limbs[3] == MODULUS_LIMB_3 && (limbs[2] < MODULUS_LIMB_2 || (
    limbs[2] == MODULUS_LIMB_2 && (limbs[1] < MODULUS_LIMB_1 || (limbs[1] == MODULUS_LIMB_1
        && limbs[0] < MODULUS_LIMB_0))))))
}

/// The number that four little-endian 64-bit limbs denote.
pub open spec fn limbs_value(limbs: Seq<u64>) -> nat {
    let base: nat = 0x1_0000_0000_0000_0000;
    limbs[0] as nat + base * (limbs[1] as nat + base * (limbs[2] as nat + base * (limbs[3] as nat)))
}

/// The order of the scalar field: the number that its four limbs denote.
pub open spec fn field_order() -> nat {
    limbs_value(seq![MODULUS_LIMB_0, MODULUS_LIMB_1, MODULUS_LIMB_2, MODULUS_LIMB_3])
}

/// Four limbs are canonical exactly when the number they denote is below
/// the field order.
pub proof fn lemma_canonical_is_below_order(limbs: Seq<u64>)
    requires
        limbs.len() == 4,
    ensures
        canonical(limbs) <==> limbs_value(limbs) < field_order(),
{
    let order = seq![MODULUS_LIMB_0, MODULUS_LIMB_1, MODULUS_LIMB_2, MODULUS_LIMB_3];
    assert(order[0] == MODULUS_LIMB_0 && order[1] == MODULUS_LIMB_1 && order[2] == MODULUS_LIMB_2
        && order[3] == MODULUS_LIMB_3);
}

/// The two-to-one Poseidon compression of two field elements, each given by its limbs.
pub uninterp spec fn poseidon_pair(left: Seq<u64>, right: Seq<u64>) -> Seq<u64>;

/// The one-input Poseidon hash of a field element, given by its limbs.
pub uninterp spec fn poseidon_single(value: Seq<u64>) -> Seq<u64>;

/// The field element that a byte string is mapped to (Keccak-256, shifted right by one byte).
pub uninterp spec fn keccak_field(data: Seq<u8>) -> Seq<u64>;

/// A reduced element of the scalar field, held as four little-endian 64-bit limbs.
#[derive(Clone, Copy, Debug, PartialEq, Eq, Structural)]
pub struct FieldElement {
    pub(crate) l0: u64,
    pub(crate) l1: u64,
    pub(crate) l2: u64,
    pub(crate) l3: u64,
}

impl View for FieldElement {
    type V = Seq<u64>;

    closed spec fn view(&self) -> Seq<u64> {
        seq![self.l0, self.l1, self.l2, self.l3]
    }
}

impl FieldElement {
    #[verifier::type_invariant]
    spec fn reduced(self) -> bool {
        canonical(self@)
    }

    /// Two field elements with the same limbs are the same element.
    pub proof fn lemma_view_injective(self, other: FieldElement)
        ensures
            (self@ == other@) <==> (self == other),
    {
        if self@ == other@ {
            assert(self@[0] == other@[0]);
            assert(self@[1] == other@[1]);
            assert(self@[2] == other@[2]);
            assert(self@[3] == other@[3]);
        }
    }

    /// The limbs of the zero element.
    pub open spec fn zero_limbs() -> Seq<u64> {
        seq![0u64, 0u64, 0u64, 0u64]
    }

    /// The zero element, the canonical empty leaf.
    pub fn zero() -> (r: FieldElement)
        ensures
            r@ == Self::zero_limbs(),
    {
        FieldElement { l0: 0, l1: 0, l2: 0, l3: 0 }
    }

    /// The element whose value is `x`.
    pub fn from_u64(x: u64) -> (r: FieldElement)
        ensures
            r@ == seq![x, 0u64, 0u64, 0u64],
    {
        FieldElement { l0: x, l1: 0, l2: 0, l3: 0 }
    }

    /// The element with the given little-endian limbs, or `None` where they
    /// denote a number that is not below the field order.
    pub fn from_limbs(limbs: [u64; 4]) -> (r: Option<FieldElement>)
        ensures
            r.is_some() <==> canonical(limbs@),
            r matches Some(f) ==> f@ == limbs@,
    {
        let l0: u64 = limbs[0];
        let l1: u64 = limbs[1];
        let l2: u64 = limbs[2];
        let l3: u64 = limbs[3];
        let below = l3 < MODULUS_LIMB_3 || (l3 == MODULUS_LIMB_3 && (l2 < MODULUS_LIMB_2 || (l2
            == MODULUS_LIMB_2 && (l1 < MODULUS_LIMB_1 || (l1 == MODULUS_LIMB_1 && l0
            < MODULUS_LIMB_0)))));
        if below {
            let f = FieldElement { l0, l1, l2, l3 };
            assert(f@ =~= limbs@);
            Some(f)
        } else {
            None
        }
    }

    /// The little-endian limbs of the element.
    pub fn to_limbs(&self) -> (r: [u64; 4])
        ensures
            r@ == self@,
    {
        let r = [self.l0, self.l1, self.l2, self.l3];
        assert(r@ =~= self@);
        r
    }

    /// Whether two elements are the same.
    pub fn same(&self, other: &FieldElement) -> (r: bool)
        ensures
            r == (self@ == other@),
    {
        proof {
            self.lemma_view_injective(*other);
        }
        self.l0 == other.l0 && self.l1 == other.l1 && self.l2 == other.l2 && self.l3 == other.l3
    }
}

/// Calls `semaphore_rs_poseidon::poseidon::hash2`, the two-to-one Poseidon
/// compression. The result is named, not computed here; it is a field element
/// because the outside function converts it from one. The outside function
/// panics only on arguments that are not reduced, which no `FieldElement` is.
#[verifier::external_body]
pub(crate) fn hash_pair(left: &FieldElement, right: &FieldElement) -> (r: FieldElement)
    ensures
        r@ == poseidon_pair(left@, right@),
{
    let a = ruint::aliases::U256::from_limbs([left.l0, left.l1, left.l2, left.l3]);
    let b = ruint::aliases::U256::from_limbs([right.l0, right.l1, right.l2, right.l3]);
    let h = semaphore_rs_poseidon::poseidon::hash2(a, b).into_limbs();
    FieldElement { l0: h[0], l1: h[1], l2: h[2], l3: h[3] }
}

/// Calls `semaphore_rs_poseidon::poseidon::hash1`, the one-input Poseidon
/// hash. The result is named, not computed here. The outside function panics
/// only on an argument that is not reduced, which no `FieldElement` is.
#[verifier::external_body]
pub(crate) fn hash_single(value: &FieldElement) -> (r: FieldElement)
    ensures
        r@ == poseidon_single(value@),
{
    let a = ruint::aliases::U256::from_limbs([value.l0, value.l1, value.l2, value.l3]);
    let h = semaphore_rs_poseidon::poseidon::hash1(a).into_limbs();
    FieldElement { l0: h[0], l1: h[1], l2: h[2], l3: h[3] }
}

/// Calls `semaphore_rs::hash_to_field`, which takes the Keccak-256 digest of
/// the bytes as a big-endian number and shifts it right by eight bits, so
/// that the result is below 2^248 and with that below the field order.
#[verifier::external_body]
pub(crate) fn keccak_to_field(data: &[u8]) -> (r: FieldElement)
    ensures
        r@ == keccak_field(data@),
{
    let h = semaphore_rs::hash_to_field(data).into_limbs();
    FieldElement { l0: h[0], l1: h[1], l2: h[2], l3: h[3] }
}

/// The field element that stands for an arbitrary byte string, such as a
/// signal or an external nullifier.
pub fn hash_to_field(data: &[u8]) -> (r: FieldElement)
    ensures
        r@ == keccak_field(data@),
{
    keccak_to_field(data)
}

} // verus!
