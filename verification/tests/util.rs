use ff::{Field, PrimeField};
use halo2_mpt_circuits::field::{Fe, MODULUS_0, MODULUS_1, MODULUS_2, MODULUS_3};
use halo2_mpt_circuits::util::{
    balance_convert, fr, fr_from_bytes, hi_lo, rlc, split_word, u256_from_hex, u256_hi_lo,
    u256_to_big_endian, u256_to_fr, U256,
};
use halo2curves::bn256::Fr;

fn to_fr(x: Fe) -> Fr {
    Fr::from_raw(x.to_limbs())
}

#[test]
fn test_u256_hi_lo() {
    assert_eq!(u256_hi_lo(&U256::one()), (0, 1));
}

#[test]
fn the_halves_of_a_word() {
    let x = U256([1, 2, 3, 4]);
    assert_eq!(u256_hi_lo(&x), ((4 << 64) + 3, (2 << 64) + 1));
    assert_eq!(u256_hi_lo(&U256::zero()), (0, 0));
    assert_eq!(u256_hi_lo(&U256([u64::MAX; 4])), (u128::MAX, u128::MAX));
    assert_eq!(u256_hi_lo(&U256::from_u64(9)), (0, 9));
    let (high, low) = split_word(x);
    assert_eq!(high, Fe::from_u128((4 << 64) + 3));
    assert_eq!(low, Fe::from_u128((2 << 64) + 1));
    assert_eq!(high.to_limbs(), [3, 4, 0, 0]);
    assert_eq!(low.to_limbs(), [1, 2, 0, 0]);
}

#[test]
fn the_halves_of_a_list_of_digits() {
    assert_eq!(hi_lo(&vec![]), (Fe::zero(), Fe::zero()));
    assert_eq!(hi_lo(&vec![5]), (Fe::zero(), Fe::from_u64(5)));
    assert_eq!(
        hi_lo(&vec![1, 2, 3]),
        (Fe::from_u64(3), Fe::from_u128((2 << 64) + 1))
    );
    assert_eq!(
        hi_lo(&vec![1, 2, 3, 4]),
        (Fe::from_u128((4 << 64) + 3), Fe::from_u128((2 << 64) + 1))
    );
    // digits behind the fourth are not read
    assert_eq!(
        hi_lo(&vec![1, 2, 3, 4, 5]),
        (Fe::from_u128((4 << 64) + 3), Fe::from_u128((2 << 64) + 1))
    );
}

#[test]
fn a_word_below_the_modulus_is_a_field_element() {
    assert_eq!(u256_to_fr(U256::one()), Fe::one());
    assert_eq!(u256_to_fr(U256([1, 2, 3, 4])).to_limbs(), [1, 2, 3, 4]);
    let top = U256([MODULUS_0 - 1, MODULUS_1, MODULUS_2, MODULUS_3]);
    assert_eq!(to_fr(u256_to_fr(top)), -Fr::ONE);
}

#[test]
fn the_bytes_of_a_word_are_big_endian() {
    let mut expected = vec![0u8; 32];
    expected[31] = 1;
    assert_eq!(u256_to_big_endian(&U256::one()), expected);
    let x = U256([
        0x0807060504030201,
        0x100f0e0d0c0b0a09,
        0x1817161514131211,
        0x201f1e1d1c1b1a19,
    ]);
    let expected: Vec<u8> = (1..=32).rev().collect();
    assert_eq!(u256_to_big_endian(&x), expected);
    assert_eq!(u256_to_big_endian(&U256([u64::MAX; 4])), vec![0xff; 32]);
}

#[test]
fn the_linear_combination_of_bytes() {
    let r = Fe::from_u64(10);
    assert_eq!(rlc(&[], r), Fe::zero());
    assert_eq!(rlc(&[7], r), Fe::from_u64(7));
    assert_eq!(rlc(&[1, 2, 3], r), Fe::from_u64(123));
    assert_eq!(rlc(&[0, 0, 9, 0], r), Fe::from_u64(90));
    assert_eq!(rlc(&[1, 2, 3], Fe::zero()), Fe::from_u64(3));
    assert_eq!(rlc(&[1, 2, 3], Fe::one()), Fe::from_u64(6));
    // against the curve library, with a randomness that wraps
    let r = Fe::from_limbs([MODULUS_0 - 2, MODULUS_1, MODULUS_2, MODULUS_3]).unwrap();
    let bytes = [200u8, 100, 50, 25, 12];
    let expected = bytes
        .iter()
        .fold(Fr::ZERO, |acc, byte| to_fr(r) * acc + Fr::from(*byte as u64));
    assert_eq!(to_fr(rlc(&bytes, r)), expected);
    // r is -2: 200 * 16 - 100 * 8 + 50 * 4 - 25 * 2 + 12
    assert_eq!(rlc(&bytes, r), Fe::from_u64(3200 - 800 + 200 - 50 + 12));
}

#[test]
fn a_balance_is_reduced_by_the_modulus() {
    assert_eq!(balance_convert(&vec![]), Fe::zero());
    assert_eq!(balance_convert(&vec![5]), Fe::from_u64(5));
    assert_eq!(balance_convert(&vec![1, 2]), Fe::from_u128((2 << 64) + 1));
    assert_eq!(balance_convert(&vec![1, 2, 3, 4]).to_limbs(), [1, 2, 3, 4]);
    // the modulus itself is zero, and the modulus and one is one
    let modulus = vec![MODULUS_0, MODULUS_1, MODULUS_2, MODULUS_3];
    assert_eq!(balance_convert(&modulus), Fe::zero());
    let more = vec![MODULUS_0 + 1, MODULUS_1, MODULUS_2, MODULUS_3];
    assert_eq!(balance_convert(&more), Fe::one());
    // five digits: 2^256, which is 2^64 to the fourth power
    let big = vec![0, 0, 0, 0, 1];
    let expected = Fr::from_u128(1 << 64).square().square();
    assert_eq!(to_fr(balance_convert(&big)), expected);
}

#[test]
fn a_word_is_read_from_big_endian_bytes() {
    let mut bytes = [0u8; 32];
    bytes[31] = 1;
    assert_eq!(u256_from_hex(bytes), U256::one());
    let bytes: Vec<u8> = (1..=32).rev().collect();
    let bytes: [u8; 32] = bytes.try_into().unwrap();
    let x = U256([
        0x0807060504030201,
        0x100f0e0d0c0b0a09,
        0x1817161514131211,
        0x201f1e1d1c1b1a19,
    ]);
    assert_eq!(u256_from_hex(bytes), x);
    assert_eq!(u256_from_hex([0xff; 32]), U256([u64::MAX; 4]));
    // and back
    assert_eq!(u256_to_big_endian(&u256_from_hex(bytes)), bytes.to_vec());
}

#[test]
fn a_field_element_is_read_from_little_endian_bytes() {
    let mut bytes = [0u8; 32];
    bytes[0] = 1;
    assert_eq!(fr(bytes), Fe::one());
    let bytes: Vec<u8> = (1..=32).collect();
    let mut bytes: [u8; 32] = bytes.try_into().unwrap();
    assert_eq!(
        fr(bytes).to_limbs(),
        [
            0x0807060504030201,
            0x100f0e0d0c0b0a09,
            0x1817161514131211,
            0x201f1e1d1c1b1a19,
        ]
    );
    assert_eq!(to_fr(fr(bytes)), Fr::from_repr(bytes.into()).unwrap());
    // the bytes of the modulus, and of numbers above it, are refused
    bytes[31] = 0x30;
    assert!(fr_from_bytes(bytes).is_some());
    bytes[31] = 0x31;
    assert_eq!(fr_from_bytes(bytes), None);
    assert_eq!(fr_from_bytes([0xff; 32]), None);
    let modulus = (-Fr::ONE).to_repr();
    let mut modulus: [u8; 32] = modulus.into();
    assert!(fr_from_bytes(modulus).is_some());
    modulus[0] += 1;
    assert_eq!(fr_from_bytes(modulus), None);
}

#[test]
fn the_bits_of_a_field_element() {
    let x = Fe::from_limbs([0b1010, 1, 0, 1 << 60]).unwrap();
    let set: Vec<usize> = (0..300).filter(|i| x.bit(*i)).collect();
    assert_eq!(set, vec![1, 3, 64, 252]);
    assert!(!x.bit(usize::MAX));
    assert!(!Fe::zero().bit(0));
    assert!(Fe::one().bit(0));
    assert!(Fe::from_u64(1 << 63).bit(63));
    assert!(!Fe::from_u64(1 << 63).bit(62));
    assert!(Fe::from_u128(1 << 127).bit(127));
}
