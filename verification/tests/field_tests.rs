use semaphore_mock::field::{
    FieldElement, MODULUS_LIMB_0, MODULUS_LIMB_1, MODULUS_LIMB_2, MODULUS_LIMB_3,
};

#[test]
fn modulus_limbs_are_those_of_the_field_order() {
    let limbs = semaphore_rs::MODULUS.into_limbs();
    assert_eq!(limbs, [MODULUS_LIMB_0, MODULUS_LIMB_1, MODULUS_LIMB_2, MODULUS_LIMB_3]);
}

#[test]
fn from_limbs_takes_only_reduced_values() {
    let m = [MODULUS_LIMB_0, MODULUS_LIMB_1, MODULUS_LIMB_2, MODULUS_LIMB_3];
    assert_eq!(FieldElement::from_limbs(m), None);
    let below = [MODULUS_LIMB_0 - 1, MODULUS_LIMB_1, MODULUS_LIMB_2, MODULUS_LIMB_3];
    assert_eq!(FieldElement::from_limbs(below).unwrap().to_limbs(), below);
    assert_eq!(FieldElement::from_limbs([0, 0, 0, MODULUS_LIMB_3 + 1]), None);
    assert_eq!(FieldElement::from_limbs([u64::MAX; 4]), None);
    assert!(FieldElement::from_limbs([u64::MAX, u64::MAX, u64::MAX, MODULUS_LIMB_3 - 1]).is_some());
    assert!(FieldElement::from_limbs([u64::MAX, u64::MAX, MODULUS_LIMB_2 - 1, MODULUS_LIMB_3]).is_some());
    assert_eq!(FieldElement::from_limbs([0, MODULUS_LIMB_1 + 1, MODULUS_LIMB_2, MODULUS_LIMB_3]), None);
    assert!(FieldElement::from_limbs([u64::MAX, MODULUS_LIMB_1 - 1, MODULUS_LIMB_2, MODULUS_LIMB_3]).is_some());
}

#[test]
fn small_values_sit_in_the_lowest_limb() {
    assert_eq!(FieldElement::zero().to_limbs(), [0, 0, 0, 0]);
    assert_eq!(FieldElement::from_u64(9).to_limbs(), [9, 0, 0, 0]);
    assert_eq!(FieldElement::from_u64(u64::MAX).to_limbs(), [u64::MAX, 0, 0, 0]);
    assert!(FieldElement::from_u64(9).same(&FieldElement::from_limbs([9, 0, 0, 0]).unwrap()));
    assert!(!FieldElement::from_u64(9).same(&FieldElement::from_u64(8)));
}
