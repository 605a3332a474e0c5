use ff::{Field, PrimeField};
use halo2_mpt_circuits::field::{limbs_below_modulus, Fe, MODULUS_0, MODULUS_1, MODULUS_2, MODULUS_3};
use halo2_mpt_circuits::query::Query;
use halo2_mpt_circuits::region::Region;
use halo2curves::bn256::Fr;

fn to_fr(x: Fe) -> Fr {
    Fr::from_raw(x.to_limbs())
}

fn from_fr(x: Fr) -> Fe {
    let bytes = x.to_repr();
    let bytes = bytes.as_ref();
    let mut limbs = [0u64; 4];
    for (i, limb) in limbs.iter_mut().enumerate() {
        let mut chunk = [0u8; 8];
        chunk.copy_from_slice(&bytes[8 * i..8 * i + 8]);
        *limb = u64::from_le_bytes(chunk);
    }
    Fe::from_limbs(limbs).unwrap()
}

fn eval(q: Query) -> Fe {
    q.eval(&Region::new(1, 1, 1), 0)
}

fn samples() -> Vec<Fe> {
    vec![
        Fe::zero(),
        Fe::one(),
        Fe::from_u64(2),
        Fe::from_u64(u64::MAX),
        Fe::from_u128(u128::MAX),
        Fe::from_limbs([MODULUS_0 - 1, MODULUS_1, MODULUS_2, MODULUS_3]).unwrap(),
        Fe::from_limbs([7, 11, 13, 17]).unwrap(),
    ]
}

#[test]
fn constants_have_their_limbs() {
    assert_eq!(Fe::zero().to_limbs(), [0, 0, 0, 0]);
    assert_eq!(Fe::one().to_limbs(), [1, 0, 0, 0]);
    assert_eq!(Fe::from_u64(9).to_limbs(), [9, 0, 0, 0]);
    assert_eq!(Fe::from_u128((5u128 << 64) + 3).to_limbs(), [3, 5, 0, 0]);
    assert!(Fe::zero().is_zero());
    assert!(!Fe::one().is_zero());
    assert!(Fe::one().is_one());
    assert!(!Fe::from_u64(2).is_one());
}

#[test]
fn constants_agree_with_the_curve_library() {
    assert_eq!(to_fr(Fe::zero()), Fr::ZERO);
    assert_eq!(to_fr(Fe::one()), Fr::ONE);
    assert_eq!(to_fr(Fe::from_u64(77)), Fr::from(77u64));
    assert_eq!(to_fr(Fe::from_u128(u128::MAX)), Fr::from_u128(u128::MAX));
    assert_eq!(from_fr(Fr::from(77u64)), Fe::from_u64(77));
}

#[test]
fn from_limbs_accepts_exactly_the_canonical() {
    let modulus = [MODULUS_0, MODULUS_1, MODULUS_2, MODULUS_3];
    assert!(!limbs_below_modulus(&modulus));
    assert_eq!(Fe::from_limbs(modulus), None);
    assert_eq!(Fe::from_limbs([u64::MAX; 4]), None);
    assert_eq!(Fe::from_limbs([0, 0, 0, MODULUS_3 + 1]), None);
    let below = [MODULUS_0 - 1, MODULUS_1, MODULUS_2, MODULUS_3];
    assert!(limbs_below_modulus(&below));
    assert_eq!(Fe::from_limbs(below).unwrap().to_limbs(), below);
    assert_eq!(Fe::from_limbs([0, 0, 0, 0]), Some(Fe::zero()));
}

#[test]
fn the_modulus_is_that_of_the_curve_library() {
    // -1 is the modulus less one
    let minus_one = from_fr(-Fr::ONE);
    assert_eq!(minus_one.to_limbs(), [MODULUS_0 - 1, MODULUS_1, MODULUS_2, MODULUS_3]);
}

#[test]
fn sums_agree_with_the_curve_library() {
    for a in samples() {
        for b in samples() {
            let sum = eval(Query::constant(a).plus(Query::constant(b)));
            assert_eq!(to_fr(sum), to_fr(a) + to_fr(b));
        }
    }
    assert_eq!(
        eval(Query::from_u64(3).plus(Query::from_u64(4))),
        Fe::from_u64(7)
    );
}

#[test]
fn products_agree_with_the_curve_library() {
    for a in samples() {
        for b in samples() {
            let product = eval(Query::constant(a).times(Query::constant(b)));
            assert_eq!(to_fr(product), to_fr(a) * to_fr(b));
        }
    }
    assert_eq!(
        eval(Query::from_u64(3).times(Query::from_u64(4))),
        Fe::from_u64(12)
    );
}

#[test]
fn negations_agree_with_the_curve_library() {
    for a in samples() {
        let negated = eval(Query::constant(a).negated());
        assert_eq!(to_fr(negated), -to_fr(a));
    }
    assert_eq!(eval(Query::zero().negated()), Fe::zero());
    assert_eq!(
        eval(Query::one().negated()).to_limbs(),
        [MODULUS_0 - 1, MODULUS_1, MODULUS_2, MODULUS_3]
    );
}

#[test]
fn differences_agree_with_the_curve_library() {
    for a in samples() {
        for b in samples() {
            let difference = eval(Query::constant(a).minus(Query::constant(b)));
            assert_eq!(to_fr(difference), to_fr(a) - to_fr(b));
        }
    }
    assert_eq!(
        eval(Query::from_u64(9).minus(Query::from_u64(4))),
        Fe::from_u64(5)
    );
}

#[test]
fn squares_are_products() {
    assert_eq!(eval(Query::from_u64(12).square()), Fe::from_u64(144));
}
