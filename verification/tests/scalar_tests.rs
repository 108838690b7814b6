use ark_bn254::Fr;
use ark_ff::{BigInt, PrimeField};
use kzg_bn254::scalar::{Scalar, MODULUS_L0, MODULUS_L1, MODULUS_L2, MODULUS_L3};

fn from_ark(f: Fr) -> Scalar {
    let l = f.into_bigint().0;
    Scalar::new_checked(l[0], l[1], l[2], l[3]).unwrap()
}

fn to_ark(s: &Scalar) -> Fr {
    Fr::from_bigint(BigInt::new([s.l0, s.l1, s.l2, s.l3])).unwrap()
}

#[test]
fn test_scalar_arithmetic_matches_field() {
    let a = Scalar::from_u64(123456789);
    let b = Scalar::from_u64(987654321);
    assert_eq!(to_ark(&a.add(&b)), Fr::from(123456789u64) + Fr::from(987654321u64));
    assert_eq!(to_ark(&a.sub(&b)), Fr::from(123456789u64) - Fr::from(987654321u64));
    assert_eq!(to_ark(&a.mul(&b)), Fr::from(123456789u64) * Fr::from(987654321u64));
    assert_eq!(to_ark(&a.div(&b)), Fr::from(123456789u64) / Fr::from(987654321u64));
    // division inverts multiplication
    assert_eq!(a.div(&b).mul(&b), a);
    // subtraction wraps through the field order, not through zero
    let small = Scalar::from_u64(1);
    let wrapped = small.sub(&b);
    assert_eq!(to_ark(&wrapped), Fr::from(1u64) - Fr::from(987654321u64));
}

#[test]
fn test_scalar_constants() {
    assert!(Scalar::zero().is_zero());
    assert!(!Scalar::zero().is_one());
    assert!(Scalar::one().is_one());
    assert!(!Scalar::one().is_zero());
    assert_eq!(to_ark(&Scalar::one()), Fr::from(1u64));
    let round = from_ark(Fr::from(77u64));
    assert_eq!(round, Scalar::from_u64(77));
}

#[test]
fn test_scalar_new_checked_rejects_non_canonical() {
    // the field order itself is not canonical
    assert!(Scalar::new_checked(MODULUS_L0, MODULUS_L1, MODULUS_L2, MODULUS_L3).is_none());
    assert!(Scalar::new_checked(0, 0, 0, u64::MAX).is_none());
    // one below the order is
    let below = Scalar::new_checked(MODULUS_L0 - 1, MODULUS_L1, MODULUS_L2, MODULUS_L3);
    assert!(below.is_some());
    assert_eq!(to_ark(&below.unwrap()), Fr::from(0u64) - Fr::from(1u64));
}
