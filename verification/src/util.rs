//! Words of 256 bits, and how integers and bytes become field elements.

use crate::field::{add_mod, base1, fr_add, fr_mul, limbs_value, modulus, mul_mod, Fe};
use vstd::prelude::*;

verus! {

/// An unsigned integer of 256 bits: four 64-bit limbs, least significant
/// first.
#[derive(Clone, Copy, Debug, PartialEq, Eq)]
pub struct U256(pub [u64; 4]);

impl View for U256 {
    type V = nat;

    open spec fn view(&self) -> nat {
        limbs_value(self.0[0], self.0[1], self.0[2], self.0[3])
    }
}

impl U256 {
    /// Zero.
    pub fn zero() -> (x: U256)
        ensures
            x@ == 0,
    {
        U256([0, 0, 0, 0])
    }

    /// One.
    pub fn one() -> (x: U256)
        ensures
            x@ == 1,
    {
        U256([1, 0, 0, 0])
    }

    /// The word that a 64-bit integer stands for.
    pub fn from_u64(value: u64) -> (x: U256)
        ensures
            x@ == value,
    {
        U256([value, 0, 0, 0])
    }
}

/// Two to the power 128.
pub open spec fn two_128() -> nat {
    0x1_0000_0000_0000_0000_0000_0000_0000_0000nat
}

/// The 128-bit integer with the given halves.
fn pack(high: u64, low: u64) -> (x: u128)
    ensures
        x == high * base1() + low,
{
    let shifted: u128 = (high as u128) << 64;
    assert(shifted == (high as u128) * 0x1_0000_0000_0000_0000u128) by (bit_vector)
        requires
            shifted == (high as u128) << 64,
    ;
    shifted + low as u128
}

/// The high and the low 128 bits of a word.
pub fn u256_hi_lo(x: &U256) -> (halves: (u128, u128))
    ensures
        halves.0 == x@ / two_128(),
        halves.1 == x@ % two_128(),
{
    let u64_digits = x.0;
    let high = pack(u64_digits[3], u64_digits[2]);
    let low = pack(u64_digits[1], u64_digits[0]);
    assert(x@ == high * two_128() + low);
    (high, low)
}

/// The high and the low 128 bits of a word, as field elements.
pub fn split_word(x: U256) -> (halves: (Fe, Fe))
    ensures
        halves.0.wf(),
        halves.1.wf(),
        halves.0@ == x@ / two_128(),
        halves.1@ == x@ % two_128(),
{
    let (high, low) = u256_hi_lo(&x);
    (Fe::from_u128(high), Fe::from_u128(low))
}

/// The field element that a word below the modulus stands for.
pub fn u256_to_fr(x: U256) -> (value: Fe)
    requires
        x@ < modulus(),
    ensures
        value.wf(),
        value@ == x@,
{
    Fe { l0: x.0[0], l1: x.0[1], l2: x.0[2], l3: x.0[3] }
}

/// Digit `k` of a little-endian list of digits; zero behind the last digit.
pub open spec fn digit(digits: Seq<u64>, k: int) -> u64 {
    if 0 <= k < digits.len() {
        digits[k]
    } else {
        0
    }
}

/// The high and the low 128 bits of the number that the first four of a list
/// of little-endian 64-bit digits stand for, as field elements.
pub fn hi_lo(digits: &Vec<u64>) -> (halves: (Fe, Fe))
    ensures
        halves.0.wf(),
        halves.1.wf(),
        halves.0@ == digit(digits@, 3) * base1() + digit(digits@, 2),
        halves.1@ == digit(digits@, 1) * base1() + digit(digits@, 0),
{
    let d0: u64 = if digits.len() > 0 {
        digits[0]
    } else {
        0
    };
    let d1: u64 = if digits.len() > 1 {
        digits[1]
    } else {
        0
    };
    let d2: u64 = if digits.len() > 2 {
        digits[2]
    } else {
        0
    };
    let d3: u64 = if digits.len() > 3 {
        digits[3]
    } else {
        0
    };
    (Fe::from_u128(pack(d3, d2)), Fe::from_u128(pack(d1, d0)))
}

/// The random linear combination of big-endian bytes: with `r` for the
/// randomness, each byte adds itself to `r` times what the bytes before it
/// gave.
pub open spec fn rlc_value(be_bytes: Seq<u8>, randomness: nat) -> nat
    decreases be_bytes.len(),
{
    if be_bytes.len() == 0 {
        0
    } else {
        add_mod(mul_mod(randomness, rlc_value(be_bytes.drop_last(), randomness)), be_bytes.last() as nat)
    }
}

/// The random linear combination of big-endian bytes.
pub fn rlc(be_bytes: &[u8], randomness: Fe) -> (value: Fe)
    requires
        randomness.wf(),
    ensures
        value.wf(),
        value@ == rlc_value(be_bytes@, randomness@),
{
    let mut acc = Fe::zero();
    let mut i: usize = 0;
    while i < be_bytes.len()
        invariant
            i <= be_bytes.len(),
            randomness.wf(),
            acc.wf(),
            acc@ == rlc_value(be_bytes@.take(i as int), randomness@),
        decreases be_bytes.len() - i,
    {
        let byte = Fe::from_u64(be_bytes[i] as u64);
        proof {
            let longer = be_bytes@.take(i as int + 1);
            assert(longer.drop_last() =~= be_bytes@.take(i as int));
            assert(longer.last() == be_bytes@[i as int]);
        }
        acc = fr_add(&fr_mul(&randomness, &acc), &byte);
        i = i + 1;
    }
    proof {
        assert(be_bytes@.take(be_bytes.len() as int) =~= be_bytes@);
    }
    acc
}

/// The number that a little-endian list of 64-bit digits stands for.
pub open spec fn digits_value(digits: Seq<u64>) -> nat
    decreases digits.len(),
{
    if digits.len() == 0 {
        0
    } else {
        digits[0] as nat + base1() * digits_value(digits.skip(1))
    }
}

/// The field element that a number stands for, given as its little-endian
/// 64-bit digits: the number reduced by the modulus.
pub fn balance_convert(digits: &Vec<u64>) -> (value: Fe)
    ensures
        value.wf(),
        value@ == digits_value(digits@) % modulus(),
{
    let shift = Fe::from_u128(0x1_0000_0000_0000_0000u128);
    let mut acc = Fe::zero();
    let mut i: usize = digits.len();
    proof {
        assert(digits@.skip(digits.len() as int).len() == 0);
        vstd::arithmetic::div_mod::lemma_small_mod(0, modulus());
    }
    while i > 0
        invariant
            i <= digits.len(),
            shift.wf(),
            shift@ == base1(),
            acc.wf(),
            acc@ == digits_value(digits@.skip(i as int)) % modulus(),
        decreases i,
    {
        i = i - 1;
        let d = Fe::from_u64(digits[i]);
        proof {
            let rest = digits@.skip(i as int + 1);
            let here = digits@.skip(i as int);
            assert(here.skip(1) =~= rest);
            assert(here[0] == digits@[i as int]);
            let v = digits_value(rest) as int;
            let m = modulus() as int;
            reveal(add_mod);
            reveal(mul_mod);
            vstd::arithmetic::div_mod::lemma_mul_mod_noop_left(v, base1() as int, m);
            vstd::arithmetic::div_mod::lemma_add_mod_noop(v * base1(), digits@[i as int] as int, m);
            vstd::arithmetic::div_mod::lemma_small_mod(digits@[i as int] as nat, modulus());
            assert(v * base1() == base1() * v) by (nonlinear_arith);
        }
        acc = fr_add(&fr_mul(&acc, &shift), &d);
    }
    proof {
        assert(digits@.skip(0) =~= digits@);
    }
    acc
}

/// The number that big-endian bytes stand for.
pub open spec fn be_value(bytes: Seq<u8>) -> nat
    decreases bytes.len(),
{
    if bytes.len() == 0 {
        0
    } else {
        be_value(bytes.drop_last()) * 256 + bytes.last() as nat
    }
}

/// One byte more, at the end, multiplies the number by 256 and adds the byte.
pub proof fn lemma_be_push(bytes: Seq<u8>, byte: u8)
    ensures
        be_value(bytes.push(byte)) == be_value(bytes) * 256 + byte,
{
    assert(bytes.push(byte).drop_last() =~= bytes);
}

/// Appends the eight bytes of a limb, most significant first.
fn push_limb(bytes: &mut Vec<u8>, limb: u64)
    ensures
        final(bytes)@.len() == old(bytes)@.len() + 8,
        be_value(final(bytes)@) == be_value(old(bytes)@) * base1() + limb,
        forall|i: int| 0 <= i < old(bytes)@.len() ==> final(bytes)@[i] == #[trigger] old(bytes)@[i],
{
    let b7: u8 = ((limb >> 56) & 0xff) as u8;
    let b6: u8 = ((limb >> 48) & 0xff) as u8;
    let b5: u8 = ((limb >> 40) & 0xff) as u8;
    let b4: u8 = ((limb >> 32) & 0xff) as u8;
    let b3: u8 = ((limb >> 24) & 0xff) as u8;
    let b2: u8 = ((limb >> 16) & 0xff) as u8;
    let b1: u8 = ((limb >> 8) & 0xff) as u8;
    let b0: u8 = (limb & 0xff) as u8;
    assert(limb == ((limb >> 56) & 0xff) * 0x100_0000_0000_0000 + ((limb >> 48) & 0xff)
        * 0x1_0000_0000_0000 + ((limb >> 40) & 0xff) * 0x100_0000_0000 + ((limb >> 32) & 0xff)
        * 0x1_0000_0000 + ((limb >> 24) & 0xff) * 0x100_0000 + ((limb >> 16) & 0xff) * 0x1_0000 + ((limb
        >> 8) & 0xff) * 0x100 + (limb & 0xff)) by (bit_vector);
    assert(((limb >> 56) & 0xff) < 256 && ((limb >> 48) & 0xff) < 256 && ((limb >> 40) & 0xff) < 256 && ((
    limb >> 32) & 0xff) < 256 && ((limb >> 24) & 0xff) < 256 && ((limb >> 16) & 0xff) < 256 && ((limb
        >> 8) & 0xff) < 256 && (limb & 0xff) < 256) by (bit_vector);
    let ghost s0 = bytes@;
    bytes.push(b7);
    let ghost s1 = bytes@;
    bytes.push(b6);
    let ghost s2 = bytes@;
    bytes.push(b5);
    let ghost s3 = bytes@;
    bytes.push(b4);
    let ghost s4 = bytes@;
    bytes.push(b3);
    let ghost s5 = bytes@;
    bytes.push(b2);
    let ghost s6 = bytes@;
    bytes.push(b1);
    let ghost s7 = bytes@;
    bytes.push(b0);
    proof {
        lemma_be_push(s0, b7);
        lemma_be_push(s1, b6);
        lemma_be_push(s2, b5);
        lemma_be_push(s3, b4);
        lemma_be_push(s4, b3);
        lemma_be_push(s5, b2);
        lemma_be_push(s6, b1);
        lemma_be_push(s7, b0);
    }
}

/// The 32 bytes of a word, most significant first.
pub fn u256_to_big_endian(x: &U256) -> (bytes: Vec<u8>)
    ensures
        bytes@.len() == 32,
        be_value(bytes@) == x@,
{
    let mut bytes: Vec<u8> = Vec::new();
    push_limb(&mut bytes, x.0[3]);
    push_limb(&mut bytes, x.0[2]);
    push_limb(&mut bytes, x.0[1]);
    push_limb(&mut bytes, x.0[0]);
    bytes
}

/// The first bytes of a list, and one more, stand for 256 times what the first
/// bytes stand for, and the byte more.
pub proof fn lemma_be_take(bytes: Seq<u8>, k: int)
    requires
        0 <= k < bytes.len(),
    ensures
        be_value(bytes.take(k + 1)) == be_value(bytes.take(k)) * 256 + bytes[k],
{
    assert(bytes.take(k + 1).drop_last() =~= bytes.take(k));
}

/// Reads eight big-endian bytes from `start` on as a limb.
fn read_be_limb(bytes: &[u8; 32], start: usize) -> (limb: u64)
    requires
        start + 8 <= 32,
    ensures
        be_value(bytes@.take(start + 8)) == be_value(bytes@.take(start as int)) * base1() + limb,
{
    let b0: u64 = bytes[start] as u64;
    let b1: u64 = bytes[start + 1] as u64;
    let b2: u64 = bytes[start + 2] as u64;
    let b3: u64 = bytes[start + 3] as u64;
    let b4: u64 = bytes[start + 4] as u64;
    let b5: u64 = bytes[start + 5] as u64;
    let b6: u64 = bytes[start + 6] as u64;
    let b7: u64 = bytes[start + 7] as u64;
    proof {
        lemma_be_take(bytes@, start as int);
        lemma_be_take(bytes@, start + 1);
        lemma_be_take(bytes@, start + 2);
        lemma_be_take(bytes@, start + 3);
        lemma_be_take(bytes@, start + 4);
        lemma_be_take(bytes@, start + 5);
        lemma_be_take(bytes@, start + 6);
        lemma_be_take(bytes@, start + 7);
    }
    let l1: u64 = b0 * 256 + b1;
    let l2: u64 = l1 * 256 + b2;
    let l3: u64 = l2 * 256 + b3;
    let l4: u64 = l3 * 256 + b4;
    let l5: u64 = l4 * 256 + b5;
    let l6: u64 = l5 * 256 + b6;
    l6 * 256 + b7
}

/// The word that 32 big-endian bytes stand for.
pub fn u256_from_hex(x: [u8; 32]) -> (word: U256)
    ensures
        word@ == be_value(x@),
{
    let l3 = read_be_limb(&x, 0);
    let l2 = read_be_limb(&x, 8);
    let l1 = read_be_limb(&x, 16);
    let l0 = read_be_limb(&x, 24);
    proof {
        assert(x@.take(0).len() == 0);
        assert(x@.take(32) =~= x@);
    }
    U256([l0, l1, l2, l3])
}

/// The number that little-endian bytes stand for.
pub open spec fn le_value(bytes: Seq<u8>) -> nat
    decreases bytes.len(),
{
    if bytes.len() == 0 {
        0
    } else {
        bytes[0] as nat + 256 * le_value(bytes.skip(1))
    }
}

/// The bytes of a list from one on stand for the byte, and 256 times what the
/// bytes behind it stand for.
pub proof fn lemma_le_skip(bytes: Seq<u8>, k: int)
    requires
        0 <= k < bytes.len(),
    ensures
        le_value(bytes.skip(k)) == bytes[k] + 256 * le_value(bytes.skip(k + 1)),
{
    assert(bytes.skip(k).skip(1) =~= bytes.skip(k + 1));
}

/// Reads eight little-endian bytes from `start` on as a limb.
fn read_le_limb(bytes: &[u8; 32], start: usize) -> (limb: u64)
    requires
        start + 8 <= 32,
    ensures
        le_value(bytes@.skip(start as int)) == limb + base1() * le_value(bytes@.skip(start + 8)),
{
    let b0: u64 = bytes[start] as u64;
    let b1: u64 = bytes[start + 1] as u64;
    let b2: u64 = bytes[start + 2] as u64;
    let b3: u64 = bytes[start + 3] as u64;
    let b4: u64 = bytes[start + 4] as u64;
    let b5: u64 = bytes[start + 5] as u64;
    let b6: u64 = bytes[start + 6] as u64;
    let b7: u64 = bytes[start + 7] as u64;
    proof {
        lemma_le_skip(bytes@, start as int);
        lemma_le_skip(bytes@, start + 1);
        lemma_le_skip(bytes@, start + 2);
        lemma_le_skip(bytes@, start + 3);
        lemma_le_skip(bytes@, start + 4);
        lemma_le_skip(bytes@, start + 5);
        lemma_le_skip(bytes@, start + 6);
        lemma_le_skip(bytes@, start + 7);
    }
    let l1: u64 = b7 * 256 + b6;
    let l2: u64 = l1 * 256 + b5;
    let l3: u64 = l2 * 256 + b4;
    let l4: u64 = l3 * 256 + b3;
    let l5: u64 = l4 * 256 + b2;
    let l6: u64 = l5 * 256 + b1;
    l6 * 256 + b0
}

/// The field element that 32 little-endian bytes stand for, if they stand for
/// a number below the modulus.
pub fn fr_from_bytes(x: [u8; 32]) -> (value: Option<Fe>)
    ensures
        value.is_some() <==> le_value(x@) < modulus(),
        value.is_some() ==> value.unwrap().wf() && value.unwrap()@ == le_value(x@),
{
    let l0 = read_le_limb(&x, 0);
    let l1 = read_le_limb(&x, 8);
    let l2 = read_le_limb(&x, 16);
    let l3 = read_le_limb(&x, 24);
    proof {
        assert(x@.skip(32).len() == 0);
        assert(x@.skip(0) =~= x@);
        assert(le_value(x@) == limbs_value(l0, l1, l2, l3));
    }
    Fe::from_limbs([l0, l1, l2, l3])
}

/// The field element that 32 little-endian bytes stand for.
pub fn fr(x: [u8; 32]) -> (value: Fe)
    requires
        le_value(x@) < modulus(),
    ensures
        value.wf(),
        value@ == le_value(x@),
{
    fr_from_bytes(x).unwrap()
}

} // verus!
