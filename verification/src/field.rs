//! Elements of the scalar field of BN254, the field in which every cell of the
//! circuit lives.
//!
//! An element is held as four little-endian 64-bit limbs of its canonical
//! representative. Its view is that representative, a natural number below
//! [`modulus`]. Constants and comparisons are computed here; sums, products,
//! negations, doubles and inverses are computed by `halo2curves`.

use ff::{Field, PrimeField};
use halo2curves::bn256::Fr;
use vstd::prelude::*;

verus! {

/// The order of the field.
pub open spec fn modulus() -> nat {
    0x30644e72e131a029b85045b68181585d2833e84879b9709143e1f593f0000001nat
}

/// The weight of limb 1.
pub open spec fn base1() -> nat {
    0x1_0000_0000_0000_0000nat
}

/// The weight of limb 2.
pub open spec fn base2() -> nat {
    0x1_0000_0000_0000_0000_0000_0000_0000_0000nat
}

/// The weight of limb 3.
pub open spec fn base3() -> nat {
    0x1_0000_0000_0000_0000_0000_0000_0000_0000_0000_0000_0000_0000nat
}

/// The number that four little-endian limbs stand for.
pub open spec fn limbs_value(l0: u64, l1: u64, l2: u64, l3: u64) -> nat {
    (l0 as nat) + (l1 as nat) * base1() + (l2 as nat) * base2() + (l3 as nat) * base3()
}

/// Limb 0 of the modulus.
pub const MODULUS_0: u64 = 0x43e1f593f0000001;

/// Limb 1 of the modulus.
pub const MODULUS_1: u64 = 0x2833e84879b97091;

/// Limb 2 of the modulus.
pub const MODULUS_2: u64 = 0xb85045b68181585d;

/// Limb 3 of the modulus.
pub const MODULUS_3: u64 = 0x30644e72e131a029;

/// The four constants above are the limbs of the modulus.
pub proof fn lemma_modulus_limbs()
    ensures
        limbs_value(MODULUS_0, MODULUS_1, MODULUS_2, MODULUS_3) == modulus(),
{
}

/// The sum of two field elements.
#[verifier::opaque]
pub open spec fn add_mod(a: nat, b: nat) -> nat {
    (a + b) % modulus()
}

/// The product of two field elements.
#[verifier::opaque]
pub open spec fn mul_mod(a: nat, b: nat) -> nat {
    (a * b) % modulus()
}

/// The additive inverse of a field element.
#[verifier::opaque]
pub open spec fn neg_mod(a: nat) -> nat {
    ((modulus() - a) % (modulus() as int)) as nat
}

/// The difference of two field elements.
#[verifier::opaque]
pub open spec fn sub_mod(a: nat, b: nat) -> nat {
    add_mod(a, neg_mod(b))
}

/// The sum, the inverse and the difference of canonical elements are
/// canonical, and a difference vanishes exactly between equal elements.
pub proof fn lemma_additive(a: nat, b: nat)
    requires
        a < modulus(),
        b < modulus(),
    ensures
        add_mod(a, b) < modulus(),
        add_mod(a, 0) == a,
        add_mod(0, a) == a,
        neg_mod(a) < modulus(),
        neg_mod(a) == 0 <==> a == 0,
        add_mod(a, neg_mod(a)) == 0,
        sub_mod(a, b) == add_mod(a, neg_mod(b)),
        sub_mod(a, b) < modulus(),
        sub_mod(a, b) == 0 <==> a == b,
        sub_mod(a, 0) == a,
{
    reveal(add_mod);
    reveal(neg_mod);
    reveal(sub_mod);
}

/// `a + (b - c)` vanishes exactly where `c` is `a + b`.
pub proof fn lemma_sum_less(a: nat, b: nat, c: nat)
    requires
        a < modulus(),
        b < modulus(),
        c < modulus(),
    ensures
        add_mod(a, sub_mod(b, c)) == 0 <==> c == add_mod(a, b),
        add_mod(a, b) == add_mod(b, a),
{
    reveal(add_mod);
    reveal(neg_mod);
    reveal(sub_mod);
}

/// Products may be grouped at will.
pub proof fn lemma_mul_assoc(a: nat, b: nat, c: nat)
    ensures
        mul_mod(mul_mod(a, b), c) == mul_mod(a, mul_mod(b, c)),
{
    reveal(mul_mod);
    let m = modulus() as int;
    vstd::arithmetic::div_mod::lemma_mul_mod_noop_left((a * b) as int, c as int, m);
    vstd::arithmetic::div_mod::lemma_mul_mod_noop_right(a as int, (b * c) as int, m);
    assert((a * b) * c == a * (b * c)) by (nonlinear_arith);
}

/// Twice an element is the element added to itself.
pub proof fn lemma_double(a: nat)
    requires
        a < modulus(),
    ensures
        mul_mod(a, 2) == add_mod(a, a),
{
    reveal(add_mod);
    reveal(mul_mod);
}

/// Products of canonical elements are canonical; zero annihilates and one is
/// neutral.
pub proof fn lemma_multiplicative(a: nat, b: nat)
    requires
        a < modulus(),
        b < modulus(),
    ensures
        mul_mod(a, b) < modulus(),
        mul_mod(a, b) == mul_mod(b, a),
        mul_mod(0, a) == 0,
        mul_mod(a, 0) == 0,
        mul_mod(1, a) == a,
        mul_mod(a, 1) == a,
{
    reveal(mul_mod);
    assert(a * b == b * a) by (nonlinear_arith);
    assert(0 * a == 0 && a * 0 == 0 && 1 * a == a && a * 1 == a) by (nonlinear_arith);
}

/// A field element: the four little-endian limbs of its canonical
/// representative.
#[derive(Clone, Copy, Debug, PartialEq, Eq, Structural)]
pub struct Fe {
    pub l0: u64,
    pub l1: u64,
    pub l2: u64,
    pub l3: u64,
}

impl View for Fe {
    type V = nat;

    open spec fn view(&self) -> nat {
        limbs_value(self.l0, self.l1, self.l2, self.l3)
    }
}

impl Fe {
    /// The limbs hold a canonical representative: a number below the modulus.
    pub open spec fn wf(&self) -> bool {
        self@ < modulus()
    }

    /// The element that a 64-bit integer stands for.
    pub open spec fn lit(x: u64) -> Fe {
        Fe { l0: x, l1: 0, l2: 0, l3: 0 }
    }

    /// The additive identity.
    pub fn zero() -> (r: Fe)
        ensures
            r == Fe::lit(0),
    {
        Fe { l0: 0, l1: 0, l2: 0, l3: 0 }
    }

    /// The multiplicative identity.
    pub fn one() -> (r: Fe)
        ensures
            r == Fe::lit(1),
    {
        Fe { l0: 1, l1: 0, l2: 0, l3: 0 }
    }

    /// The element that a 64-bit integer stands for.
    pub fn from_u64(x: u64) -> (r: Fe)
        ensures
            r == Fe::lit(x),
    {
        Fe { l0: x, l1: 0, l2: 0, l3: 0 }
    }

    /// The element that a 128-bit integer stands for.
    pub fn from_u128(x: u128) -> (r: Fe)
        ensures
            r.wf(),
            r@ == x,
    {
        let lo: u64 = (x & 0xffff_ffff_ffff_ffff) as u64;
        let hi: u64 = (x >> 64) as u64;
        assert(x == (x & 0xffff_ffff_ffff_ffff) + (x >> 64) * 0x1_0000_0000_0000_0000) by (bit_vector);
        assert((x & 0xffff_ffff_ffff_ffff) <= 0xffff_ffff_ffff_ffff) by (bit_vector);
        assert((x >> 64) <= 0xffff_ffff_ffff_ffff) by (bit_vector);
        Fe { l0: lo, l1: hi, l2: 0, l3: 0 }
    }

    /// The element with the given little-endian limbs, if they are canonical.
    pub fn from_limbs(limbs: [u64; 4]) -> (r: Option<Fe>)
        ensures
            r.is_some() <==> limbs_value(limbs[0], limbs[1], limbs[2], limbs[3]) < modulus(),
            r.is_some() ==> r.unwrap().wf() && r.unwrap()@ == limbs_value(
                limbs[0],
                limbs[1],
                limbs[2],
                limbs[3],
            ),
    {
        if limbs_below_modulus(&limbs) {
            Some(Fe { l0: limbs[0], l1: limbs[1], l2: limbs[2], l3: limbs[3] })
        } else {
            None
        }
    }

    /// The little-endian limbs of the element.
    pub fn to_limbs(&self) -> (r: [u64; 4])
        ensures
            limbs_value(r[0], r[1], r[2], r[3]) == self@,
    {
        [self.l0, self.l1, self.l2, self.l3]
    }

    /// Whether the limbs hold a canonical representative.
    pub fn is_canonical(&self) -> (r: bool)
        ensures
            r == self.wf(),
    {
        let limbs = [self.l0, self.l1, self.l2, self.l3];
        limbs_below_modulus(&limbs)
    }

    /// Whether this is the additive identity.
    pub fn is_zero(&self) -> (r: bool)
        ensures
            r == (self@ == 0),
    {
        self.l0 == 0 && self.l1 == 0 && self.l2 == 0 && self.l3 == 0
    }

    /// Whether this is the multiplicative identity.
    pub fn is_one(&self) -> (r: bool)
        ensures
            r == (self@ == 1),
    {
        proof {
            if self@ == 1 {
                Fe::lemma_value_injective(*self, Fe::lit(1));
            }
        }
        self.l0 == 1 && self.l1 == 0 && self.l2 == 0 && self.l3 == 0
    }

    /// Elements with the same value are the same element.
    pub proof fn lemma_value_injective(a: Fe, b: Fe)
        requires
            a@ == b@,
        ensures
            a == b,
    {
        let low_a = (a.l0 as nat) + (a.l1 as nat) * base1() + (a.l2 as nat) * base2();
        let low_b = (b.l0 as nat) + (b.l1 as nat) * base1() + (b.l2 as nat) * base2();
        assert(low_a < base3() && low_b < base3());
        assert(low_a + (a.l3 as nat) * base3() == low_b + (b.l3 as nat) * base3());
        assert(a.l3 == b.l3) by {
            if a.l3 < b.l3 {
                assert((a.l3 as nat) * base3() + base3() <= (b.l3 as nat) * base3());
            }
            if b.l3 < a.l3 {
                assert((b.l3 as nat) * base3() + base3() <= (a.l3 as nat) * base3());
            }
        }
        let lower_a = (a.l0 as nat) + (a.l1 as nat) * base1();
        let lower_b = (b.l0 as nat) + (b.l1 as nat) * base1();
        assert(lower_a < base2() && lower_b < base2());
        assert(lower_a + (a.l2 as nat) * base2() == lower_b + (b.l2 as nat) * base2());
        assert(a.l2 == b.l2) by {
            if a.l2 < b.l2 {
                assert((a.l2 as nat) * base2() + base2() <= (b.l2 as nat) * base2());
            }
            if b.l2 < a.l2 {
                assert((b.l2 as nat) * base2() + base2() <= (a.l2 as nat) * base2());
            }
        }
        assert((a.l0 as nat) + (a.l1 as nat) * base1() == (b.l0 as nat) + (b.l1 as nat) * base1());
        assert(a.l1 == b.l1) by {
            if a.l1 < b.l1 {
                assert((a.l1 as nat) * base1() + base1() <= (b.l1 as nat) * base1());
            }
            if b.l1 < a.l1 {
                assert((b.l1 as nat) * base1() + base1() <= (a.l1 as nat) * base1());
            }
        }
    }
}

/// Whether four limbs stand for a number below the modulus.
pub fn limbs_below_modulus(limbs: &[u64; 4]) -> (r: bool)
    ensures
        r == (limbs_value(limbs[0], limbs[1], limbs[2], limbs[3]) < modulus()),
{
    if limbs[3] != MODULUS_3 {
        limbs[3] < MODULUS_3
    } else if limbs[2] != MODULUS_2 {
        limbs[2] < MODULUS_2
    } else if limbs[1] != MODULUS_1 {
        limbs[1] < MODULUS_1
    } else {
        limbs[0] < MODULUS_0
    }
}

/// Calls `Fr::from_raw`, `+` and `PrimeField::to_repr` of `halo2curves`: the
/// canonical representative of the sum of two canonical elements is their sum
/// reduced by the modulus.
#[verifier::external_body]
pub(crate) fn fr_add(a: &Fe, b: &Fe) -> (r: Fe)
    requires
        a.wf(),
        b.wf(),
    ensures
        r.wf(),
        r@ == add_mod(a@, b@),
{
    let le: [u8; 32] = (Fr::from_raw([a.l0, a.l1, a.l2, a.l3]) + Fr::from_raw([b.l0, b.l1, b.l2, b.l3])).to_repr().into();
    Fe {
        l0: u64::from_le_bytes(le[0..8].try_into().unwrap()),
        l1: u64::from_le_bytes(le[8..16].try_into().unwrap()),
        l2: u64::from_le_bytes(le[16..24].try_into().unwrap()),
        l3: u64::from_le_bytes(le[24..32].try_into().unwrap()),
    }
}

/// Calls `Fr::from_raw`, `*` and `PrimeField::to_repr` of `halo2curves`: the
/// canonical representative of the product of two canonical elements is their
/// product reduced by the modulus.
#[verifier::external_body]
pub(crate) fn fr_mul(a: &Fe, b: &Fe) -> (r: Fe)
    requires
        a.wf(),
        b.wf(),
    ensures
        r.wf(),
        r@ == mul_mod(a@, b@),
{
    let le: [u8; 32] = (Fr::from_raw([a.l0, a.l1, a.l2, a.l3]) * Fr::from_raw([b.l0, b.l1, b.l2, b.l3])).to_repr().into();
    Fe {
        l0: u64::from_le_bytes(le[0..8].try_into().unwrap()),
        l1: u64::from_le_bytes(le[8..16].try_into().unwrap()),
        l2: u64::from_le_bytes(le[16..24].try_into().unwrap()),
        l3: u64::from_le_bytes(le[24..32].try_into().unwrap()),
    }
}

/// Calls `Fr::from_raw`, unary `-` and `PrimeField::to_repr` of `halo2curves`:
/// the canonical representative of the negation of a canonical element is the
/// modulus less the element, reduced by the modulus.
#[verifier::external_body]
pub(crate) fn fr_neg(a: &Fe) -> (r: Fe)
    requires
        a.wf(),
    ensures
        r.wf(),
        r@ == neg_mod(a@),
{
    let le: [u8; 32] = (-Fr::from_raw([a.l0, a.l1, a.l2, a.l3])).to_repr().into();
    Fe {
        l0: u64::from_le_bytes(le[0..8].try_into().unwrap()),
        l1: u64::from_le_bytes(le[8..16].try_into().unwrap()),
        l2: u64::from_le_bytes(le[16..24].try_into().unwrap()),
        l3: u64::from_le_bytes(le[24..32].try_into().unwrap()),
    }
}

/// Calls `Fr::from_raw`, `Fr::double` and `PrimeField::to_repr` of
/// `halo2curves`: the canonical representative of the double of a canonical
/// element is twice the element, reduced by the modulus.
#[verifier::external_body]
pub(crate) fn fr_double(a: &Fe) -> (r: Fe)
    requires
        a.wf(),
    ensures
        r.wf(),
        r@ == add_mod(a@, a@),
{
    let le: [u8; 32] = Fr::from_raw([a.l0, a.l1, a.l2, a.l3]).double().to_repr().into();
    Fe {
        l0: u64::from_le_bytes(le[0..8].try_into().unwrap()),
        l1: u64::from_le_bytes(le[8..16].try_into().unwrap()),
        l2: u64::from_le_bytes(le[16..24].try_into().unwrap()),
        l3: u64::from_le_bytes(le[24..32].try_into().unwrap()),
    }
}

/// The multiplicative inverse of a field element, and zero for zero.
pub uninterp spec fn field_inverse(a: nat) -> nat;

/// Calls `Fr::from_raw`, `Field::invert` and `PrimeField::to_repr` of
/// `halo2curves`, and `CtOption::unwrap_or` with zero: the result is the
/// inverse of a canonical element, which multiplied by the element gives one,
/// and zero for zero, which has no inverse.
#[verifier::external_body]
pub(crate) fn fr_invert_or_zero(a: &Fe) -> (r: Fe)
    requires
        a.wf(),
    ensures
        r.wf(),
        r@ == field_inverse(a@),
        a@ == 0 ==> r@ == 0,
        a@ != 0 ==> mul_mod(a@, r@) == 1,
{
    let x = Fr::from_raw([a.l0, a.l1, a.l2, a.l3]).invert().unwrap_or(Fr::ZERO);
    let le: [u8; 32] = x.to_repr().into();
    Fe {
        l0: u64::from_le_bytes(le[0..8].try_into().unwrap()),
        l1: u64::from_le_bytes(le[8..16].try_into().unwrap()),
        l2: u64::from_le_bytes(le[16..24].try_into().unwrap()),
        l3: u64::from_le_bytes(le[24..32].try_into().unwrap()),
    }
}

} // verus!
