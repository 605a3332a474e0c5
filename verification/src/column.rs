//! Typed handles of columns.
//!
//! A handle names one column of its kind by its index. It builds the formulas
//! that read the column at an offset from the current row, and it writes one
//! cell of the column into a region.

use crate::field::{field_inverse, fr_invert_or_zero, fr_mul, lemma_multiplicative, mul_mod, Fe};
use crate::query::{BinaryQuery, Query};
use crate::region::Region;
use vstd::prelude::*;

verus! {

/// A fixed column whose cells are meant to hold zero or one, and which switches
/// constraints on and off row by row.
#[derive(Clone, Copy, Debug, PartialEq, Eq, Structural)]
pub struct SelectorColumn(pub usize);

impl SelectorColumn {
    /// The selector at the current row.
    pub fn current(self) -> (q: BinaryQuery)
        ensures
            q == BinaryQuery(Query::Fixed(self.0, 0)),
    {
        self.rotation(0)
    }

    /// The selector at an offset from the current row.
    pub fn rotation(self, i: i32) -> (q: BinaryQuery)
        ensures
            q == BinaryQuery(Query::Fixed(self.0, i)),
    {
        BinaryQuery(Query::Fixed(self.0, i))
    }

    /// Switches the selector on at a row.
    pub fn enable(&self, region: &mut Region, offset: usize)
        requires
            old(region).wf(),
            self.0 < old(region)@.fixed.len(),
            offset < old(region)@.rows,
        ensures
            final(region).wf(),
            final(region)@ == old(region)@.with_fixed(self.0 as int, offset as int, 1),
            final(region)@.same_shape(old(region)@),
            final(region)@.advice == old(region)@.advice,
            forall|c: int, r: int| #[trigger] final(region)@.advice_at(c, r) == old(region)@.advice_at(c, r),
            forall|c: int, r: int|
                #[trigger] final(region)@.fixed_at(c, r) == if c == self.0 && r == offset {
                    1
                } else {
                    old(region)@.fixed_at(c, r)
                },
    {
        region.assign_fixed(self.0, offset, Fe::one());
    }
}

/// A column whose cells belong to the circuit.
#[derive(Clone, Copy, Debug, PartialEq, Eq, Structural)]
pub struct FixedColumn(pub usize);

impl FixedColumn {
    /// The column at an offset from the current row.
    pub fn rotation(self, i: i32) -> (q: Query)
        ensures
            q == Query::Fixed(self.0, i),
    {
        Query::Fixed(self.0, i)
    }

    /// The column at the current row.
    pub fn current(self) -> (q: Query)
        ensures
            q == Query::Fixed(self.0, 0),
    {
        self.rotation(0)
    }

    /// The column at the row before the current one.
    pub fn previous(self) -> (q: Query)
        ensures
            q == Query::Fixed(self.0, -1i32),
    {
        self.rotation(-1)
    }

    /// Writes one cell of the column.
    pub fn assign(&self, region: &mut Region, offset: usize, value: Fe)
        requires
            old(region).wf(),
            value.wf(),
            self.0 < old(region)@.fixed.len(),
            offset < old(region)@.rows,
        ensures
            final(region).wf(),
            final(region)@ == old(region)@.with_fixed(self.0 as int, offset as int, value@),
            final(region)@.same_shape(old(region)@),
            final(region)@.advice == old(region)@.advice,
            forall|c: int, r: int| #[trigger] final(region)@.advice_at(c, r) == old(region)@.advice_at(c, r),
            forall|c: int, r: int|
                #[trigger] final(region)@.fixed_at(c, r) == if c == self.0 && r == offset {
                    value@
                } else {
                    old(region)@.fixed_at(c, r)
                },
    {
        region.assign_fixed(self.0, offset, value);
    }
}

/// A column whose cells the prover supplies.
#[derive(Clone, Copy, Debug, PartialEq, Eq, Structural)]
pub struct AdviceColumn(pub usize);

impl AdviceColumn {
    /// The column at an offset from the current row.
    pub fn rotation(self, i: i32) -> (q: Query)
        ensures
            q == Query::Advice(self.0, i),
    {
        Query::Advice(self.0, i)
    }

    /// The column at the current row.
    pub fn current(self) -> (q: Query)
        ensures
            q == Query::Advice(self.0, 0),
    {
        self.rotation(0)
    }

    /// The column at the row before the current one.
    pub fn previous(self) -> (q: Query)
        ensures
            q == Query::Advice(self.0, -1i32),
    {
        self.rotation(-1)
    }

    /// The column at the row after the current one.
    pub fn next(self) -> (q: Query)
        ensures
            q == Query::Advice(self.0, 1),
    {
        self.rotation(1)
    }

    /// The current cell less the previous one.
    pub fn delta(self) -> (q: Query)
        ensures
            q == Query::Advice(self.0, 0).spec_minus(Query::Advice(self.0, -1i32)),
    {
        self.current().minus(self.previous())
    }

    /// Writes one cell of the column.
    pub fn assign(&self, region: &mut Region, offset: usize, value: Fe)
        requires
            old(region).wf(),
            value.wf(),
            self.0 < old(region)@.advice.len(),
            offset < old(region)@.rows,
        ensures
            final(region).wf(),
            final(region)@ == old(region)@.with_advice(self.0 as int, offset as int, value@),
            final(region)@.same_shape(old(region)@),
            final(region)@.fixed == old(region)@.fixed,
            forall|c: int, r: int| #[trigger] final(region)@.fixed_at(c, r) == old(region)@.fixed_at(c, r),
            forall|c: int, r: int|
                #[trigger] final(region)@.advice_at(c, r) == if c == self.0 && r == offset {
                    value@
                } else {
                    old(region)@.advice_at(c, r)
                },
    {
        region.assign_advice(self.0, offset, value);
    }

    /// Writes one cell of the column, given as a fraction.
    pub fn assign_rational(&self, region: &mut Region, offset: usize, value: Assigned)
        requires
            old(region).wf(),
            value.wf(),
            self.0 < old(region)@.advice.len(),
            offset < old(region)@.rows,
        ensures
            final(region).wf(),
            final(region)@ == old(region)@.with_advice(self.0 as int, offset as int, value.value()),
            final(region)@.same_shape(old(region)@),
            final(region)@.fixed == old(region)@.fixed,
            forall|c: int, r: int| #[trigger] final(region)@.fixed_at(c, r) == old(region)@.fixed_at(c, r),
            forall|c: int, r: int|
                #[trigger] final(region)@.advice_at(c, r) == if c == self.0 && r == offset {
                    value.value()
                } else {
                    old(region)@.advice_at(c, r)
                },
    {
        region.assign_advice(self.0, offset, value.evaluate());
    }
}

/// A value for a cell that may be a fraction whose division is still to be
/// done.
#[derive(Clone, Copy, Debug, PartialEq, Eq, Structural)]
pub enum Assigned {
    /// Zero.
    Zero,
    /// A field element.
    Trivial(Fe),
    /// A numerator and a denominator.
    Rational(Fe, Fe),
}

impl Assigned {
    /// Every element is canonical.
    pub open spec fn wf(&self) -> bool {
        match self {
            Assigned::Zero => true,
            Assigned::Trivial(x) => x.wf(),
            Assigned::Rational(numerator, denominator) => numerator.wf() && denominator.wf(),
        }
    }

    /// The field element that the value stands for: the numerator times the
    /// inverse of the denominator, and zero if the denominator is zero.
    pub open spec fn value(&self) -> nat {
        match self {
            Assigned::Zero => 0,
            Assigned::Trivial(x) => x@,
            Assigned::Rational(numerator, denominator) => if denominator@ == 1 {
                numerator@
            } else {
                mul_mod(numerator@, field_inverse(denominator@))
            },
        }
    }

    /// Does the division.
    pub fn evaluate(self) -> (x: Fe)
        requires
            self.wf(),
        ensures
            x.wf(),
            x@ == self.value(),
            match self {
                Assigned::Rational(numerator, denominator) => if denominator@ == 0 {
                    x@ == 0
                } else {
                    mul_mod(x@, denominator@) == numerator@
                },
                _ => true,
            },
    {
        match self {
            Assigned::Zero => Fe::zero(),
            Assigned::Trivial(x) => x,
            Assigned::Rational(numerator, denominator) => {
                if denominator.is_one() {
                    proof {
                        lemma_multiplicative(numerator@, 1);
                    }
                    numerator
                } else {
                    let inverse = fr_invert_or_zero(&denominator);
                    proof {
                        lemma_multiplicative(numerator@, inverse@);
                        lemma_multiplicative(inverse@, denominator@);
                        crate::field::lemma_mul_assoc(numerator@, inverse@, denominator@);
                    }
                    fr_mul(&numerator, &inverse)
                }
            },
        }
    }
}

} // verus!
