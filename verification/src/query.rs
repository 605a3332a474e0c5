//! Symbolic expressions over the cells of a region.
//!
//! A [`Query`] is a formula built from constants and from cells of columns at
//! an offset from the row under evaluation. [`Query::value_at`] says what a
//! formula is worth at a row of a trace; [`Query::eval`] computes it.

use crate::field::{
    add_mod, fr_add, fr_mul, fr_neg, lemma_additive, lemma_multiplicative, modulus, mul_mod, neg_mod,
    sub_mod, Fe,
};
use crate::region::{Region, Trace};
use vstd::prelude::*;

verus! {

/// A formula over the cells of a region.
#[derive(Debug)]
pub enum Query {
    /// A field element.
    Constant(Fe),
    /// The cell of an advice column, at an offset from the current row.
    Advice(usize, i32),
    /// The cell of a fixed column, at an offset from the current row.
    Fixed(usize, i32),
    /// The additive inverse of a formula.
    Neg(Box<Query>),
    /// The sum of two formulas.
    Add(Box<Query>, Box<Query>),
    /// The product of two formulas.
    Mul(Box<Query>, Box<Query>),
}

impl Query {
    /// Every constant in the formula is a canonical field element.
    pub open spec fn wf(&self) -> bool
        decreases self,
    {
        match self {
            Query::Constant(c) => c.wf(),
            Query::Advice(_, _) => true,
            Query::Fixed(_, _) => true,
            Query::Neg(a) => a.wf(),
            Query::Add(a, b) => a.wf() && b.wf(),
            Query::Mul(a, b) => a.wf() && b.wf(),
        }
    }

    /// What the formula is worth at a row of a trace.
    pub open spec fn value_at(&self, trace: Trace, row: int) -> nat
        decreases self,
    {
        match self {
            Query::Constant(c) => c@,
            Query::Advice(column, rotation) => trace.advice_at(*column as int, row + *rotation),
            Query::Fixed(column, rotation) => trace.fixed_at(*column as int, row + *rotation),
            Query::Neg(a) => neg_mod(a.value_at(trace, row)),
            Query::Add(a, b) => add_mod(a.value_at(trace, row), b.value_at(trace, row)),
            Query::Mul(a, b) => mul_mod(a.value_at(trace, row), b.value_at(trace, row)),
        }
    }

    /// The worth of a formula is a canonical field element.
    pub proof fn lemma_value_bound(&self, trace: Trace, row: int)
        requires
            self.wf(),
            trace.wf(),
        ensures
            self.value_at(trace, row) < modulus(),
        decreases self,
    {
        match self {
            Query::Constant(_) => {},
            Query::Advice(column, rotation) => {
                let c = *column as int;
                let r = row + *rotation;
                if 0 <= c < trace.advice.len() && 0 <= r < trace.advice[c].len() {
                    assert(trace.advice[c][r] < modulus());
                }
            },
            Query::Fixed(column, rotation) => {
                let c = *column as int;
                let r = row + *rotation;
                if 0 <= c < trace.fixed.len() && 0 <= r < trace.fixed[c].len() {
                    assert(trace.fixed[c][r] < modulus());
                }
            },
            Query::Neg(a) => {
                a.lemma_value_bound(trace, row);
                lemma_additive(a.value_at(trace, row), 0);
            },
            Query::Add(a, b) => {
                a.lemma_value_bound(trace, row);
                b.lemma_value_bound(trace, row);
                lemma_additive(a.value_at(trace, row), b.value_at(trace, row));
            },
            Query::Mul(a, b) => {
                a.lemma_value_bound(trace, row);
                b.lemma_value_bound(trace, row);
                lemma_multiplicative(a.value_at(trace, row), b.value_at(trace, row));
            },
        }
    }

    /// A copy of the formula.
    pub fn duplicate(&self) -> (q: Query)
        ensures
            q == *self,
        decreases self,
    {
        match self {
            Query::Constant(c) => Query::Constant(*c),
            Query::Advice(column, rotation) => Query::Advice(*column, *rotation),
            Query::Fixed(column, rotation) => Query::Fixed(*column, *rotation),
            Query::Neg(a) => Query::Neg(Box::new(a.duplicate())),
            Query::Add(a, b) => Query::Add(Box::new(a.duplicate()), Box::new(b.duplicate())),
            Query::Mul(a, b) => Query::Mul(Box::new(a.duplicate()), Box::new(b.duplicate())),
        }
    }

    /// The constant zero.
    pub fn zero() -> (q: Query)
        ensures
            q == Query::Constant(Fe::lit(0)),
    {
        Query::Constant(Fe::zero())
    }

    /// The constant one.
    pub fn one() -> (q: Query)
        ensures
            q == Query::Constant(Fe::lit(1)),
    {
        Query::Constant(Fe::one())
    }

    /// The constant that a 64-bit integer stands for.
    pub fn from_u64(x: u64) -> (q: Query)
        ensures
            q == Query::Constant(Fe::lit(x)),
    {
        Query::Constant(Fe::from_u64(x))
    }

    /// The constant with the given value.
    pub fn constant(value: Fe) -> (q: Query)
        ensures
            q == Query::Constant(value),
    {
        Query::Constant(value)
    }

    /// The additive inverse of the formula.
    pub fn negated(self) -> (q: Query)
        ensures
            q == Query::Neg(Box::new(self)),
    {
        Query::Neg(Box::new(self))
    }

    /// The sum of two formulas.
    pub fn plus(self, other: Query) -> (q: Query)
        ensures
            q == Query::Add(Box::new(self), Box::new(other)),
    {
        Query::Add(Box::new(self), Box::new(other))
    }

    /// The difference of two formulas: the first plus the inverse of the
    /// second.
    pub fn minus(self, other: Query) -> (q: Query)
        ensures
            q == self.spec_minus(other),
    {
        Query::Add(Box::new(self), Box::new(Query::Neg(Box::new(other))))
    }

    /// The difference of two formulas, as a formula.
    pub open spec fn spec_minus(self, other: Query) -> Query {
        Query::Add(Box::new(self), Box::new(Query::Neg(Box::new(other))))
    }

    /// The product of two formulas.
    pub fn times(self, other: Query) -> (q: Query)
        ensures
            q == Query::Mul(Box::new(self), Box::new(other)),
    {
        Query::Mul(Box::new(self), Box::new(other))
    }

    /// The product of the formula with itself.
    pub fn square(self) -> (q: Query)
        ensures
            q == Query::Mul(Box::new(self), Box::new(self)),
    {
        let copy = self.duplicate();
        Query::Mul(Box::new(self), Box::new(copy))
    }

    /// Computes what the formula is worth at a row of a region.
    pub fn eval(&self, region: &Region, row: usize) -> (value: Fe)
        requires
            self.wf(),
            region.wf(),
        ensures
            value.wf(),
            value@ == self.value_at(region@, row as int),
        decreases self,
    {
        match self {
            Query::Constant(c) => *c,
            Query::Advice(column, rotation) => {
                let target: i128 = row as i128 + *rotation as i128;
                if target < 0 || target >= region.rows() as i128 {
                    proof {
                        region.lemma_outside(*column as int, target as int);
                    }
                    Fe::zero()
                } else {
                    region.advice(*column, target as usize)
                }
            },
            Query::Fixed(column, rotation) => {
                let target: i128 = row as i128 + *rotation as i128;
                if target < 0 || target >= region.rows() as i128 {
                    proof {
                        region.lemma_outside(*column as int, target as int);
                    }
                    Fe::zero()
                } else {
                    region.fixed(*column, target as usize)
                }
            },
            Query::Neg(a) => {
                let x = a.eval(region, row);
                fr_neg(&x)
            },
            Query::Add(a, b) => {
                let x = a.eval(region, row);
                let y = b.eval(region, row);
                fr_add(&x, &y)
            },
            Query::Mul(a, b) => {
                let x = a.eval(region, row);
                let y = b.eval(region, row);
                fr_mul(&x, &y)
            },
        }
    }
}

/// A formula that is known, or constrained elsewhere, to be worth zero or one.
#[derive(Debug)]
pub struct BinaryQuery(pub Query);

impl BinaryQuery {
    /// The formula is worth zero or one at a row of a trace.
    pub open spec fn is_binary_at(&self, trace: Trace, row: int) -> bool {
        self.0.value_at(trace, row) == 0 || self.0.value_at(trace, row) == 1
    }

    /// Whether the formula is worth one at a row of a trace.
    pub open spec fn holds_at(&self, trace: Trace, row: int) -> bool {
        self.0.value_at(trace, row) == 1
    }

    /// The formula `1 - q`, as a formula.
    pub open spec fn spec_not(self) -> BinaryQuery {
        BinaryQuery(Query::Constant(Fe::lit(1)).spec_minus(self.0))
    }

    /// The formula `a * b`, as a formula.
    pub open spec fn spec_and(self, other: BinaryQuery) -> BinaryQuery {
        BinaryQuery(Query::Mul(Box::new(self.0), Box::new(other.0)))
    }

    /// The formula `1 - (1 - a) * (1 - b)`, as a formula.
    pub open spec fn spec_or(self, other: BinaryQuery) -> BinaryQuery {
        self.spec_not().spec_and(other.spec_not()).spec_not()
    }

    /// The formula `selector * constraint`, as a formula.
    pub open spec fn spec_condition(self, constraint: Query) -> Query {
        Query::Mul(Box::new(self.0), Box::new(constraint))
    }

    /// Never.
    pub fn zero() -> (q: BinaryQuery)
        ensures
            q == BinaryQuery(Query::Constant(Fe::lit(0))),
    {
        BinaryQuery(Query::zero())
    }

    /// Always.
    pub fn one() -> (q: BinaryQuery)
        ensures
            q == BinaryQuery(Query::Constant(Fe::lit(1))),
    {
        BinaryQuery(Query::one())
    }

    /// The opposite condition.
    pub fn not(self) -> (q: BinaryQuery)
        ensures
            q == self.spec_not(),
    {
        BinaryQuery(Query::one().minus(self.0))
    }

    /// Both conditions.
    pub fn and(self, other: BinaryQuery) -> (q: BinaryQuery)
        ensures
            q == self.spec_and(other),
    {
        BinaryQuery(self.0.times(other.0))
    }

    /// One of the conditions, or both.
    pub fn or(self, other: BinaryQuery) -> (q: BinaryQuery)
        ensures
            q == self.spec_or(other),
    {
        self.not().and(other.not()).not()
    }

    /// `condition * a + (1 - condition) * b`, as a formula.
    pub open spec fn spec_select(self, a: Query, b: Query) -> Query {
        Query::Add(
            Box::new(Query::Mul(Box::new(self.0), Box::new(a))),
            Box::new(Query::Mul(Box::new(self.spec_not().0), Box::new(b))),
        )
    }

    /// The first formula where the condition holds, and the second where it
    /// does not: `condition * a + (1 - condition) * b`.
    pub fn select(self, a: Query, b: Query) -> (q: Query)
        ensures
            q == self.spec_select(a, b),
    {
        let copy = BinaryQuery(self.0.duplicate());
        self.0.times(a).plus(copy.not().0.times(b))
    }

    /// A selection is worth the first formula where the condition holds, and
    /// the second where it does not.
    pub proof fn lemma_select(self, a: Query, b: Query, trace: Trace, row: int)
        requires
            self.0.wf(),
            a.wf(),
            b.wf(),
            trace.wf(),
            self.is_binary_at(trace, row),
        ensures
            self.spec_select(a, b).value_at(trace, row) == if self.holds_at(trace, row) {
                a.value_at(trace, row)
            } else {
                b.value_at(trace, row)
            },
            self.spec_select(a, b).wf(),
    {
        reveal_with_fuel(Query::value_at, 5);
        reveal_with_fuel(Query::wf, 5);
        let c = self.0.value_at(trace, row);
        let x = a.value_at(trace, row);
        let y = b.value_at(trace, row);
        a.lemma_value_bound(trace, row);
        b.lemma_value_bound(trace, row);
        lemma_additive(1, c);
        lemma_additive(1, 0);
        lemma_multiplicative(x, c);
        lemma_multiplicative(y, sub_mod(1, c));
        lemma_additive(x, 0);
        lemma_additive(y, 0);
    }

    /// The constraint, switched by the condition: `selector * constraint`.
    pub fn condition(self, constraint: Query) -> (q: Query)
        ensures
            q == self.spec_condition(constraint),
    {
        self.0.times(constraint)
    }

    /// A switched constraint is worth what the constraint is worth where the
    /// condition holds, and zero where it does not.
    pub proof fn lemma_condition(self, constraint: Query, trace: Trace, row: int)
        requires
            self.0.wf(),
            constraint.wf(),
            trace.wf(),
            self.is_binary_at(trace, row),
        ensures
            self.spec_condition(constraint).value_at(trace, row) == if self.holds_at(trace, row) {
                constraint.value_at(trace, row)
            } else {
                0
            },
    {
        constraint.lemma_value_bound(trace, row);
        self.0.lemma_value_bound(trace, row);
        lemma_multiplicative(constraint.value_at(trace, row), self.0.value_at(trace, row));
    }

    /// On conditions worth zero or one, `not`, `and` and `or` are worth zero
    /// or one and mean what their names say.
    pub proof fn lemma_connectives(self, other: BinaryQuery, trace: Trace, row: int)
        requires
            self.0.wf(),
            other.0.wf(),
            trace.wf(),
            self.is_binary_at(trace, row),
            other.is_binary_at(trace, row),
        ensures
            self.spec_not().is_binary_at(trace, row),
            self.spec_not().holds_at(trace, row) <==> !self.holds_at(trace, row),
            self.spec_and(other).is_binary_at(trace, row),
            self.spec_and(other).holds_at(trace, row) <==> self.holds_at(trace, row)
                && other.holds_at(trace, row),
            self.spec_or(other).is_binary_at(trace, row),
            self.spec_or(other).holds_at(trace, row) <==> self.holds_at(trace, row)
                || other.holds_at(trace, row),
    {
        reveal_with_fuel(Query::value_at, 6);
        let a = self.0.value_at(trace, row);
        let b = other.0.value_at(trace, row);
        lemma_additive(1, a);
        lemma_additive(1, b);
        lemma_multiplicative(a, b);
        self.0.lemma_value_bound(trace, row);
        other.0.lemma_value_bound(trace, row);
        let na = sub_mod(1, a);
        let nb = sub_mod(1, b);
        lemma_additive(1, 0);
        lemma_additive(1, 1);
        assert(sub_mod(1, 1) == 0);
        assert(sub_mod(1, 0) == 1);
        lemma_multiplicative(na, nb);
        lemma_additive(1, mul_mod(na, nb));
    }
}

impl Clone for BinaryQuery {
    fn clone(&self) -> (q: BinaryQuery)
        ensures
            q == *self,
    {
        BinaryQuery(self.0.duplicate())
    }
}

impl Clone for Query {
    fn clone(&self) -> (q: Query)
        ensures
            q == *self,
    {
        self.duplicate()
    }
}

} // verus!
