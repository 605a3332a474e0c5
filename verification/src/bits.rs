//! The bits of a field element.

use crate::field::{base1, base2, base3, limbs_value, Fe};
use vstd::arithmetic::div_mod::{
    lemma_basic_div, lemma_div_denominator, lemma_div_multiples_vanish_fancy,
    lemma_hoist_over_denominator,
};
use vstd::arithmetic::power2::{
    lemma2_to64, lemma_pow2_adds, lemma_pow2_pos, lemma_pow2_strictly_increases, lemma_pow2_unfold,
    pow2,
};
use vstd::prelude::*;

verus! {

/// Bit `i` of a number, counted from the least significant.
pub open spec fn bit_of(value: nat, i: nat) -> bool {
    (value / pow2(i)) % 2 == 1
}

/// The weights of the limbs are powers of two.
proof fn lemma_weights()
    ensures
        pow2(0) == 1,
        pow2(64) == base1(),
        pow2(128) == base2(),
        pow2(192) == base3(),
        pow2(256) == base3() * base1(),
{
    lemma2_to64();
    lemma_pow2_adds(64, 64);
    lemma_pow2_adds(128, 64);
    lemma_pow2_adds(192, 64);
}

/// What lies above a limb does not reach the limb's bits.
proof fn lemma_limb_above(limb: u64, above: nat, j: nat)
    requires
        j < 64,
    ensures
        bit_of(limb as nat + base1() * above, j) == bit_of(limb as nat, j),
{
    lemma_weights();
    let d = pow2(j);
    let rest = (64 - j) as nat;
    let e = pow2(rest);
    lemma_pow2_pos(j);
    lemma_pow2_adds(j, rest);
    lemma_pow2_unfold(rest);
    let half = pow2((rest - 1) as nat);
    assert(base1() == d * e);
    assert(e == 2 * half);
    let q = half * above;
    assert(base1() * above == (2 * q) * d) by (nonlinear_arith)
        requires
            base1() == d * e,
            e == 2 * half,
            q == half * above,
    ;
    lemma_hoist_over_denominator(limb as int, (2 * q) as int, d);
    assert((limb as nat + base1() * above) / d == limb as nat / d + 2 * q);
}

/// A bit of a number of four limbs is a bit of one of its limbs.
proof fn lemma_limb_bit(l0: u64, l1: u64, l2: u64, l3: u64, i: nat)
    requires
        i < 256,
    ensures
        bit_of(limbs_value(l0, l1, l2, l3), i) == bit_of(
            (if i < 64 {
                l0
            } else if i < 128 {
                l1
            } else if i < 192 {
                l2
            } else {
                l3
            }) as nat,
            i % 64,
        ),
{
    lemma_weights();
    let v = limbs_value(l0, l1, l2, l3);
    let j = i % 64;
    lemma_pow2_pos(j);
    let d = pow2(j);
    if i < 64 {
        lemma_limb_above(l0, l1 as nat + l2 as nat * base1() + l3 as nat * base2(), j);
    } else if i < 128 {
        lemma_pow2_adds(64, j);
        let high = l1 as nat + base1() * (l2 as nat + l3 as nat * base1());
        lemma_div_multiples_vanish_fancy(high as int, l0 as int, base1() as int);
        assert(v == base1() * high + l0);
        lemma_div_denominator(v as int, base1() as int, d as int);
        lemma_limb_above(l1, l2 as nat + l3 as nat * base1(), j);
    } else if i < 192 {
        lemma_pow2_adds(128, j);
        let high = l2 as nat + base1() * (l3 as nat);
        let low = l0 as nat + l1 as nat * base1();
        lemma_div_multiples_vanish_fancy(high as int, low as int, base2() as int);
        assert(v == base2() * high + low);
        lemma_div_denominator(v as int, base2() as int, d as int);
        lemma_limb_above(l2, l3 as nat, j);
    } else {
        lemma_pow2_adds(192, j);
        let high = l3 as nat;
        let low = l0 as nat + l1 as nat * base1() + l2 as nat * base2();
        lemma_div_multiples_vanish_fancy(high as int, low as int, base3() as int);
        assert(v == base3() * high + low);
        lemma_div_denominator(v as int, base3() as int, d as int);
    }
}

impl Fe {
    /// Bit `i` of the element's canonical representative, counted from the
    /// least significant; `false` from bit 256 on.
    pub fn bit(&self, i: usize) -> (r: bool)
        ensures
            r == bit_of(self@, i as nat),
    {
        if i >= 256 {
            proof {
                lemma_weights();
                if i > 256 {
                    lemma_pow2_strictly_increases(256, i as nat);
                }
                lemma_basic_div(self@ as int, pow2(i as nat) as int);
            }
            return false;
        }
        let limb: u64 = if i < 64 {
            self.l0
        } else if i < 128 {
            self.l1
        } else if i < 192 {
            self.l2
        } else {
            self.l3
        };
        let j: u64 = (i % 64) as u64;
        let shifted: u64 = limb >> j;
        proof {
            lemma_limb_bit(self.l0, self.l1, self.l2, self.l3, i as nat);
            vstd::bits::lemma_u64_shr_is_div(limb, j);
            assert((shifted & 1 == 1) == (shifted % 2 == 1)) by (bit_vector);
        }
        shifted & 1 == 1
    }
}

} // verus!
