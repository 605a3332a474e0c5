//! The compiled circuit: how many columns it has, which gates must vanish and
//! which lookups must succeed, and what it means for a trace to satisfy them.

use crate::constraint_builder::{gates_wf, lookups_wf, pairs_wf, GateView, LookupView};
use crate::query::Query;
use crate::region::{Region, Trace};
use vstd::prelude::*;

verus! {

/// A gate is worth zero at the row.
pub open spec fn gate_holds_at(gate: GateView, trace: Trace, row: int) -> bool {
    gate.poly.value_at(trace, row) == 0
}

/// At `row`, every first formula is worth what its partner is worth at
/// `table_row`.
pub open spec fn lookup_matches(pairs: Seq<(Query, Query)>, trace: Trace, row: int, table_row: int) -> bool {
    forall|k: int|
        0 <= k < pairs.len() ==> (#[trigger] pairs[k]).0.value_at(trace, row) == pairs[k].1.value_at(
            trace,
            table_row,
        )
}

/// Some row of the trace matches the lookup's inputs at `row`.
pub open spec fn lookup_holds_at(lookup: LookupView, trace: Trace, row: int) -> bool {
    exists|t: int| 0 <= t < trace.rows && #[trigger] lookup_matches(lookup.pairs, trace, row, t)
}

/// Every gate vanishes and every lookup succeeds at the row.
pub open spec fn row_satisfied(
    gates: Seq<GateView>,
    lookups: Seq<LookupView>,
    trace: Trace,
    row: int,
) -> bool {
    &&& forall|g: int| 0 <= g < gates.len() ==> gate_holds_at(#[trigger] gates[g], trace, row)
    &&& forall|l: int| 0 <= l < lookups.len() ==> lookup_holds_at(#[trigger] lookups[l], trace, row)
}

/// Why a trace does not satisfy a circuit.
#[derive(Clone, Copy, Debug, PartialEq, Eq, Structural)]
pub enum VerifyFailure {
    /// One of the gates, named by its index, is not zero at this row.
    Gate { gate: usize, row: usize },
    /// The lookup with this index finds no matching row for this row.
    Lookup { lookup: usize, row: usize },
}

/// A compiled circuit.
pub struct ConstraintSystem {
    num_fixed: usize,
    num_advice: usize,
    gates: Vec<(&'static str, Query)>,
    lookups: Vec<(&'static str, Vec<(Query, Query)>)>,
}

impl ConstraintSystem {
    /// The number of fixed columns allocated so far.
    pub closed spec fn fixed_count(&self) -> nat {
        self.num_fixed as nat
    }

    /// The number of advice columns allocated so far.
    pub closed spec fn advice_count(&self) -> nat {
        self.num_advice as nat
    }

    /// The gates, in the order of their registration.
    pub closed spec fn gates(&self) -> Seq<GateView> {
        crate::constraint_builder::gates_view(self.gates@)
    }

    /// The lookups, in the order of their registration.
    pub closed spec fn lookups(&self) -> Seq<LookupView> {
        crate::constraint_builder::lookups_view(self.lookups@)
    }

    /// Every registered formula is well formed.
    pub open spec fn wf(&self) -> bool {
        gates_wf(self.gates()) && lookups_wf(self.lookups())
    }

    /// The trace satisfies the circuit: at every row every gate vanishes and
    /// every lookup succeeds.
    pub open spec fn satisfied_by(&self, trace: Trace) -> bool {
        forall|row: int|
            0 <= row < trace.rows ==> #[trigger] row_satisfied(self.gates(), self.lookups(), trace, row)
    }

    /// A circuit without columns and without constraints.
    pub fn new() -> (cs: ConstraintSystem)
        ensures
            cs.fixed_count() == 0,
            cs.advice_count() == 0,
            cs.gates() == Seq::<GateView>::empty(),
            cs.lookups() == Seq::<LookupView>::empty(),
    {
        let cs = ConstraintSystem { num_fixed: 0, num_advice: 0, gates: Vec::new(), lookups: Vec::new() };
        assert(cs.gates() =~= Seq::<GateView>::empty());
        assert(cs.lookups() =~= Seq::<LookupView>::empty());
        cs
    }

    /// The number of fixed columns allocated so far.
    pub fn num_fixed_columns(&self) -> (n: usize)
        ensures
            n == self.fixed_count(),
    {
        self.num_fixed
    }

    /// The number of advice columns allocated so far.
    pub fn num_advice_columns(&self) -> (n: usize)
        ensures
            n == self.advice_count(),
    {
        self.num_advice
    }

    /// The number of gates.
    pub fn num_gates(&self) -> (n: usize)
        ensures
            n == self.gates().len(),
    {
        self.gates.len()
    }

    /// The name of a gate.
    pub fn gate_name(&self, index: usize) -> (name: &'static str)
        requires
            index < self.gates().len(),
        ensures
            name@ == self.gates()[index as int].name,
    {
        self.gates[index].0
    }

    /// The formula of a gate.
    pub fn gate_poly(&self, index: usize) -> (poly: &Query)
        requires
            index < self.gates().len(),
        ensures
            *poly == self.gates()[index as int].poly,
    {
        &self.gates[index].1
    }

    /// The number of lookups.
    pub fn num_lookups(&self) -> (n: usize)
        ensures
            n == self.lookups().len(),
    {
        self.lookups.len()
    }

    /// The name of a lookup.
    pub fn lookup_name(&self, index: usize) -> (name: &'static str)
        requires
            index < self.lookups().len(),
        ensures
            name@ == self.lookups()[index as int].name,
    {
        self.lookups[index].0
    }

    /// The number of pairs of a lookup.
    pub fn lookup_width(&self, index: usize) -> (n: usize)
        requires
            index < self.lookups().len(),
        ensures
            n == self.lookups()[index as int].pairs.len(),
    {
        self.lookups[index].1.len()
    }

    /// One pair of a lookup: a formula that is looked up, and the formula of
    /// the table that it is looked up in.
    pub fn lookup_pair(&self, index: usize, position: usize) -> (pair: &(Query, Query))
        requires
            index < self.lookups().len(),
            position < self.lookups()[index as int].pairs.len(),
        ensures
            *pair == self.lookups()[index as int].pairs[position as int],
    {
        &self.lookups[index].1[position]
    }

    /// Allocates the next fixed column and returns its index.
    pub fn fixed_column(&mut self) -> (index: usize)
        requires
            old(self).fixed_count() < usize::MAX,
        ensures
            index == old(self).fixed_count(),
            final(self).fixed_count() == old(self).fixed_count() + 1,
            final(self).advice_count() == old(self).advice_count(),
            final(self).gates() == old(self).gates(),
            final(self).lookups() == old(self).lookups(),
    {
        let index = self.num_fixed;
        self.num_fixed = index + 1;
        index
    }

    /// Allocates the next advice column and returns its index.
    pub fn advice_column(&mut self) -> (index: usize)
        requires
            old(self).advice_count() < usize::MAX,
        ensures
            index == old(self).advice_count(),
            final(self).advice_count() == old(self).advice_count() + 1,
            final(self).fixed_count() == old(self).fixed_count(),
            final(self).gates() == old(self).gates(),
            final(self).lookups() == old(self).lookups(),
    {
        let index = self.num_advice;
        self.num_advice = index + 1;
        index
    }

    /// Registers gates and lookups behind those already there.
    pub fn register(
        &mut self,
        gates: Vec<(&'static str, Query)>,
        lookups: Vec<(&'static str, Vec<(Query, Query)>)>,
    )
        ensures
            final(self).gates() == old(self).gates() + crate::constraint_builder::gates_view(gates@),
            final(self).lookups() == old(self).lookups() + crate::constraint_builder::lookups_view(
                lookups@,
            ),
            final(self).fixed_count() == old(self).fixed_count(),
            final(self).advice_count() == old(self).advice_count(),
    {
        let mut gates = gates;
        let mut lookups = lookups;
        let ghost gates0 = gates@;
        let ghost lookups0 = lookups@;
        self.gates.append(&mut gates);
        self.lookups.append(&mut lookups);
        assert(self.gates() =~= old(self).gates() + crate::constraint_builder::gates_view(gates0));
        assert(self.lookups() =~= old(self).lookups() + crate::constraint_builder::lookups_view(
            lookups0,
        ));
    }

    /// Checks a region against the circuit, row by row: first the gates of a
    /// row in their order, then its lookups in theirs. Reports the first
    /// constraint that fails.
    pub fn verify(&self, region: &Region) -> (result: Result<(), VerifyFailure>)
        requires
            self.wf(),
            region.wf(),
        ensures
            result.is_ok() <==> self.satisfied_by(region@),
            match result {
                Ok(_) => true,
                Err(VerifyFailure::Gate { gate, row }) => {
                    &&& gate < self.gates().len()
                    &&& row < region@.rows
                    &&& !gate_holds_at(self.gates()[gate as int], region@, row as int)
                    &&& forall|r: int|
                        0 <= r < row ==> #[trigger] row_satisfied(
                            self.gates(),
                            self.lookups(),
                            region@,
                            r,
                        )
                    &&& forall|g: int|
                        0 <= g < gate ==> gate_holds_at(#[trigger] self.gates()[g], region@, row as int)
                },
                Err(VerifyFailure::Lookup { lookup, row }) => {
                    &&& lookup < self.lookups().len()
                    &&& row < region@.rows
                    &&& !lookup_holds_at(self.lookups()[lookup as int], region@, row as int)
                    &&& forall|r: int|
                        0 <= r < row ==> #[trigger] row_satisfied(
                            self.gates(),
                            self.lookups(),
                            region@,
                            r,
                        )
                    &&& forall|g: int|
                        0 <= g < self.gates().len() ==> gate_holds_at(
                            #[trigger] self.gates()[g],
                            region@,
                            row as int,
                        )
                    &&& forall|l: int|
                        0 <= l < lookup ==> lookup_holds_at(
                            #[trigger] self.lookups()[l],
                            region@,
                            row as int,
                        )
                },
            },
    {
        let rows = region.rows();
        let mut row: usize = 0;
        while row < rows
            invariant
                row <= rows,
                rows == region@.rows,
                self.wf(),
                region.wf(),
                forall|r: int|
                    0 <= r < row ==> #[trigger] row_satisfied(self.gates(), self.lookups(), region@, r),
            decreases rows - row,
        {
            let mut g: usize = 0;
            while g < self.gates.len()
                invariant
                    g <= self.gates.len(),
                    row < rows,
                    rows == region@.rows,
                    self.wf(),
                    region.wf(),
                    forall|r: int|
                        0 <= r < row ==> #[trigger] row_satisfied(
                            self.gates(),
                            self.lookups(),
                            region@,
                            r,
                        ),
                    forall|i: int|
                        0 <= i < g ==> gate_holds_at(#[trigger] self.gates()[i], region@, row as int),
                decreases self.gates.len() - g,
            {
                assert(self.gates()[g as int].poly == self.gates@[g as int].1);
                let value = self.gates[g].1.eval(region, row);
                if !value.is_zero() {
                    assert(!row_satisfied(self.gates(), self.lookups(), region@, row as int));
                    return Err(VerifyFailure::Gate { gate: g, row });
                }
                g = g + 1;
            }
            let mut l: usize = 0;
            while l < self.lookups.len()
                invariant
                    l <= self.lookups.len(),
                    row < rows,
                    rows == region@.rows,
                    self.wf(),
                    region.wf(),
                    forall|r: int|
                        0 <= r < row ==> #[trigger] row_satisfied(
                            self.gates(),
                            self.lookups(),
                            region@,
                            r,
                        ),
                    forall|i: int|
                        0 <= i < self.gates().len() ==> gate_holds_at(
                            #[trigger] self.gates()[i],
                            region@,
                            row as int,
                        ),
                    forall|i: int|
                        0 <= i < l ==> lookup_holds_at(#[trigger] self.lookups()[i], region@, row as int),
                decreases self.lookups.len() - l,
            {
                assert(self.lookups()[l as int].pairs == self.lookups@[l as int].1@);
                assert(pairs_wf(self.lookups()[l as int].pairs));
                if !lookup_found(&self.lookups[l].1, region, row) {
                    assert(!row_satisfied(self.gates(), self.lookups(), region@, row as int));
                    return Err(VerifyFailure::Lookup { lookup: l, row });
                }
                l = l + 1;
            }
            row = row + 1;
        }
        Ok(())
    }
}

/// Whether the inputs of a lookup at `row` are matched by `table_row`.
fn pairs_match(pairs: &Vec<(Query, Query)>, region: &Region, row: usize, table_row: usize) -> (found:
    bool)
    requires
        pairs_wf(pairs@),
        region.wf(),
    ensures
        found == lookup_matches(pairs@, region@, row as int, table_row as int),
{
    let mut k: usize = 0;
    while k < pairs.len()
        invariant
            k <= pairs.len(),
            pairs_wf(pairs@),
            region.wf(),
            forall|i: int|
                0 <= i < k ==> (#[trigger] pairs[i]).0.value_at(region@, row as int)
                    == pairs[i].1.value_at(region@, table_row as int),
        decreases pairs.len() - k,
    {
        assert(pairs@[k as int].0.wf() && pairs@[k as int].1.wf());
        let input = pairs[k].0.eval(region, row);
        let entry = pairs[k].1.eval(region, table_row);
        if input != entry {
            return false;
        }
        k = k + 1;
    }
    true
}

/// Whether some row of the region matches the inputs of a lookup at `row`.
fn lookup_found(pairs: &Vec<(Query, Query)>, region: &Region, row: usize) -> (found: bool)
    requires
        pairs_wf(pairs@),
        region.wf(),
    ensures
        found == (exists|t: int|
            0 <= t < region@.rows && #[trigger] lookup_matches(pairs@, region@, row as int, t)),
{
    let rows = region.rows();
    let mut t: usize = 0;
    while t < rows
        invariant
            t <= rows,
            rows == region@.rows,
            pairs_wf(pairs@),
            region.wf(),
            forall|i: int| 0 <= i < t ==> !#[trigger] lookup_matches(pairs@, region@, row as int, i),
        decreases rows - t,
    {
        if pairs_match(pairs, region, row, t) {
            return true;
        }
        t = t + 1;
    }
    false
}

} // verus!
