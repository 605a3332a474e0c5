//! Collecting constraints from independent parts of a circuit, and handing them
//! over to the constraint system in one step.

use crate::column::{AdviceColumn, FixedColumn, SelectorColumn};
use crate::constraint_system::ConstraintSystem;
use crate::query::{BinaryQuery, Query};
use vstd::prelude::*;

verus! {

/// A named formula that must be worth zero at every row.
pub struct GateView {
    pub name: Seq<char>,
    pub poly: Query,
}

/// A named list of pairs of formulas: at every row, the values of the first
/// formulas must be the values of the second formulas at some row.
pub struct LookupView {
    pub name: Seq<char>,
    pub pairs: Seq<(Query, Query)>,
}

/// The gates that a vector of named formulas stands for.
pub open spec fn gates_view(v: Seq<(&'static str, Query)>) -> Seq<GateView> {
    Seq::new(v.len(), |i: int| GateView { name: v[i].0@, poly: v[i].1 })
}

/// The lookups that a vector of named lists of pairs stands for.
pub open spec fn lookups_view(v: Seq<(&'static str, Vec<(Query, Query)>)>) -> Seq<LookupView> {
    Seq::new(v.len(), |i: int| LookupView { name: v[i].0@, pairs: v[i].1@ })
}

/// Every formula of a list of gates is well formed.
pub open spec fn gates_wf(gates: Seq<GateView>) -> bool {
    forall|i: int| 0 <= i < gates.len() ==> (#[trigger] gates[i]).poly.wf()
}

/// Every formula of a list of pairs is well formed.
pub open spec fn pairs_wf(pairs: Seq<(Query, Query)>) -> bool {
    forall|k: int| 0 <= k < pairs.len() ==> (#[trigger] pairs[k]).0.wf() && pairs[k].1.wf()
}

/// Every formula of a list of lookups is well formed.
pub open spec fn lookups_wf(lookups: Seq<LookupView>) -> bool {
    forall|i: int| 0 <= i < lookups.len() ==> pairs_wf((#[trigger] lookups[i]).pairs)
}

/// Pairs two lists of formulas, position by position.
pub open spec fn zip(left: Seq<Query>, right: Seq<Query>) -> Seq<(Query, Query)> {
    Seq::new(left.len(), |k: int| (left[k], right[k]))
}

/// The declarations of a circuit, collected before they are compiled.
pub struct ConstraintBuilder {
    constraints: Vec<(&'static str, Query)>,
    lookups: Vec<(&'static str, Vec<(Query, Query)>)>,
}

impl ConstraintBuilder {
    /// The gates declared so far, in the order of their declaration.
    pub closed spec fn gates(&self) -> Seq<GateView> {
        gates_view(self.constraints@)
    }

    /// The lookups declared so far, in the order of their declaration.
    pub closed spec fn lookups(&self) -> Seq<LookupView> {
        lookups_view(self.lookups@)
    }

    /// Every declared formula is well formed.
    pub open spec fn wf(&self) -> bool {
        gates_wf(self.gates()) && lookups_wf(self.lookups())
    }

    /// A builder without declarations.
    pub fn new() -> (cb: ConstraintBuilder)
        ensures
            cb.gates() == Seq::<GateView>::empty(),
            cb.lookups() == Seq::<LookupView>::empty(),
    {
        let cb = ConstraintBuilder { constraints: Vec::new(), lookups: Vec::new() };
        assert(cb.gates() =~= Seq::<GateView>::empty());
        assert(cb.lookups() =~= Seq::<LookupView>::empty());
        cb
    }

    /// Declares that `constraint` must vanish wherever `selector` holds: stores
    /// `selector * constraint` under `name`.
    pub fn add_constraint(&mut self, name: &'static str, selector: BinaryQuery, constraint: Query)
        ensures
            final(self).gates() == old(self).gates().push(
                GateView { name: name@, poly: selector.spec_condition(constraint) },
            ),
            final(self).lookups() == old(self).lookups(),
    {
        self.constraints.push((name, selector.condition(constraint)));
        assert(self.gates() =~= old(self).gates().push(
            GateView { name: name@, poly: selector.spec_condition(constraint) },
        ));
    }

    /// Declares that at every row the values of `left` must be the values of
    /// `right` at some row: stores the pairs under `name`.
    pub fn add_lookup_2(&mut self, name: &'static str, left: Vec<Query>, right: Vec<Query>)
        requires
            left.len() == right.len(),
        ensures
            final(self).gates() == old(self).gates(),
            final(self).lookups() == old(self).lookups().push(
                LookupView { name: name@, pairs: zip(left@, right@) },
            ),
    {
        let mut left = left;
        let mut right = right;
        let ghost left0 = left@;
        let ghost right0 = right@;
        let mut reversed: Vec<(Query, Query)> = Vec::new();
        while left.len() > 0
            invariant
                left.len() == right.len(),
                left.len() + reversed.len() == left0.len(),
                left0.len() == right0.len(),
                forall|k: int| 0 <= k < left.len() ==> left[k] == left0[k] && right[k] == right0[k],
                forall|k: int|
                    0 <= k < reversed.len() ==> (#[trigger] reversed[k]) == (
                        left0[left0.len() - 1 - k],
                        right0[left0.len() - 1 - k],
                    ),
            decreases left.len(),
        {
            let l = left.pop().unwrap();
            let r = right.pop().unwrap();
            reversed.push((l, r));
        }
        let mut pairs: Vec<(Query, Query)> = Vec::new();
        while reversed.len() > 0
            invariant
                reversed.len() + pairs.len() == left0.len(),
                left0.len() == right0.len(),
                forall|k: int|
                    0 <= k < reversed.len() ==> (#[trigger] reversed[k]) == (
                        left0[left0.len() - 1 - k],
                        right0[left0.len() - 1 - k],
                    ),
                forall|k: int| 0 <= k < pairs.len() ==> (#[trigger] pairs[k]) == (left0[k], right0[k]),
            decreases reversed.len(),
        {
            let p = reversed.pop().unwrap();
            pairs.push(p);
        }
        assert(pairs@ =~= zip(left0, right0));
        self.lookups.push((name, pairs));
        assert(self.lookups() =~= old(self).lookups().push(
            LookupView { name: name@, pairs: zip(left0, right0) },
        ));
    }

    /// Allocates `A` selector columns, then `B` fixed columns, then `C` advice
    /// columns, each family with consecutive indices.
    pub fn build_columns<const A: usize, const B: usize, const C: usize>(
        &self,
        cs: &mut ConstraintSystem,
    ) -> (columns: ([SelectorColumn; A], [FixedColumn; B], [AdviceColumn; C]))
        requires
            old(cs).fixed_count() + A + B <= usize::MAX,
            old(cs).advice_count() + C <= usize::MAX,
        ensures
            forall|i: int| 0 <= i < A ==> (#[trigger] columns.0[i]).0 == old(cs).fixed_count() + i,
            forall|i: int| 0 <= i < B ==> (#[trigger] columns.1[i]).0 == old(cs).fixed_count() + A + i,
            forall|i: int| 0 <= i < C ==> (#[trigger] columns.2[i]).0 == old(cs).advice_count() + i,
            final(cs).fixed_count() == old(cs).fixed_count() + A + B,
            final(cs).advice_count() == old(cs).advice_count() + C,
            final(cs).gates() == old(cs).gates(),
            final(cs).lookups() == old(cs).lookups(),
    {
        let mut selectors = [SelectorColumn(0);A];
        let mut fixed_columns = [FixedColumn(0);B];
        let mut advice_columns = [AdviceColumn(0);C];
        let mut i: usize = 0;
        while i < A
            invariant
                i <= A,
                cs.fixed_count() == old(cs).fixed_count() + i,
                cs.advice_count() == old(cs).advice_count(),
                cs.gates() == old(cs).gates(),
                cs.lookups() == old(cs).lookups(),
                old(cs).fixed_count() + A + B <= usize::MAX,
                forall|k: int| 0 <= k < i ==> (#[trigger] selectors[k]).0 == old(cs).fixed_count() + k,
            decreases A - i,
        {
            selectors[i] = SelectorColumn(cs.fixed_column());
            i = i + 1;
        }
        let mut j: usize = 0;
        while j < B
            invariant
                j <= B,
                cs.fixed_count() == old(cs).fixed_count() + A + j,
                cs.advice_count() == old(cs).advice_count(),
                cs.gates() == old(cs).gates(),
                cs.lookups() == old(cs).lookups(),
                old(cs).fixed_count() + A + B <= usize::MAX,
                forall|k: int|
                    0 <= k < j ==> (#[trigger] fixed_columns[k]).0 == old(cs).fixed_count() + A + k,
            decreases B - j,
        {
            fixed_columns[j] = FixedColumn(cs.fixed_column());
            j = j + 1;
        }
        let mut k: usize = 0;
        while k < C
            invariant
                k <= C,
                cs.fixed_count() == old(cs).fixed_count() + A + B,
                cs.advice_count() == old(cs).advice_count() + k,
                cs.gates() == old(cs).gates(),
                cs.lookups() == old(cs).lookups(),
                old(cs).advice_count() + C <= usize::MAX,
                forall|m: int|
                    0 <= m < k ==> (#[trigger] advice_columns[m]).0 == old(cs).advice_count() + m,
            decreases C - k,
        {
            advice_columns[k] = AdviceColumn(cs.advice_column());
            k = k + 1;
        }
        (selectors, fixed_columns, advice_columns)
    }

    /// Compiles the declarations: registers every gate and every lookup with
    /// the constraint system, in the order of their declaration.
    pub fn build(self, cs: &mut ConstraintSystem)
        ensures
            final(cs).gates() == old(cs).gates() + self.gates(),
            final(cs).lookups() == old(cs).lookups() + self.lookups(),
            final(cs).fixed_count() == old(cs).fixed_count(),
            final(cs).advice_count() == old(cs).advice_count(),
    {
        cs.register(self.constraints, self.lookups);
    }
}

} // verus!
